//! What the nixpkgs client decides: the search request, and which versions
//! of a search answer belong to the package asked for.
pub mod mock;

use vstd::prelude::*;

use crate::errors::opt_view;
use crate::text::{owned, push_str};

verus! {

/// The search service's root.
pub open spec fn devbox_search() -> Seq<char> {
    "https://search.devbox.sh"@
}

/// `https://search.devbox.sh`
pub fn default_base_url() -> (s: String)
    ensures
        s@ == devbox_search(),
{
    owned("https://search.devbox.sh")
}

/// `{base}/v1/search?q={package}`
pub fn search_url(base: &str, package: &str) -> (s: String)
    ensures
        s@ == base@ + "/v1/search?q="@ + package@,
{
    let mut s = owned(base);
    push_str(&mut s, "/v1/search?q=");
    push_str(&mut s, package);
    s
}

/// One package of a search answer: its name and its versions, some of which
/// may lack a version string.
pub struct SearchPackage {
    pub name: String,
    pub versions: Vec<Option<String>>,
}

pub struct SearchPackageModel {
    pub name: Seq<char>,
    pub versions: Seq<Option<Seq<char>>>,
}

impl View for SearchPackage {
    type V = SearchPackageModel;

    open spec fn view(&self) -> SearchPackageModel {
        SearchPackageModel {
            name: self.name@,
            versions: self.versions@.map_values(|v: Option<String>| opt_view(v)),
        }
    }
}

/// The version strings that are there, in order.
pub open spec fn present(vs: Seq<Option<Seq<char>>>) -> Seq<Seq<char>>
    decreases vs.len(),
{
    if vs.len() == 0 {
        seq![]
    } else {
        let p = present(vs.drop_last());
        match vs.last() {
            Some(v) => p.push(v),
            None => p,
        }
    }
}

/// The versions of the first package named exactly `name`; none when no
/// package is.
pub open spec fn versions_of(pkgs: Seq<SearchPackageModel>, name: Seq<char>) -> Seq<Seq<char>>
    decreases pkgs.len(),
{
    if pkgs.len() == 0 {
        seq![]
    } else if pkgs[0].name == name {
        present(pkgs[0].versions)
    } else {
        versions_of(pkgs.drop_first(), name)
    }
}

fn present_versions(vs: &Vec<Option<String>>) -> (r: Vec<String>)
    ensures
        r@.map_values(|s: String| s@) == present(vs@.map_values(|v: Option<String>| opt_view(v))),
{
    let ghost m = vs@.map_values(|v: Option<String>| opt_view(v));
    let mut r: Vec<String> = Vec::new();
    let mut i: usize = 0;
    proof {
        assert(m.take(0) =~= Seq::<Option<Seq<char>>>::empty());
        assert(r@.map_values(|s: String| s@) =~= present(m.take(0)));
    }
    while i < vs.len()
        invariant
            m == vs@.map_values(|v: Option<String>| opt_view(v)),
            0 <= i <= vs@.len(),
            r@.map_values(|s: String| s@) == present(m.take(i as int)),
        decreases vs@.len() - i,
    {
        proof {
            assert(m.take(i + 1).drop_last() =~= m.take(i as int));
        }
        let ghost before = r@;
        match &vs[i] {
            Some(v) => {
                r.push(v.clone());
                proof {
                    assert(r@.map_values(|s: String| s@) =~= before.map_values(|s: String| s@).push(
                        v@,
                    ));
                }
            },
            None => {},
        }
        i = i + 1;
    }
    proof {
        assert(m.take(i as int) =~= m);
    }
    r
}

/// The versions the search answer gives for `package` (see `versions_of`).
pub fn package_versions(packages: &[SearchPackage], package: &str) -> (r: Vec<String>)
    ensures
        r@.map_values(|s: String| s@) == versions_of(
            packages@.map_values(|p: SearchPackage| p@),
            package@,
        ),
{
    let ghost pk = packages@.map_values(|p: SearchPackage| p@);
    let target = owned(package);
    let mut i: usize = 0;
    proof {
        assert(pk.skip(0) =~= pk);
    }
    while i < packages.len()
        invariant
            pk == packages@.map_values(|p: SearchPackage| p@),
            target@ == package@,
            0 <= i <= packages@.len(),
            versions_of(pk, package@) == versions_of(pk.skip(i as int), package@),
        decreases packages@.len() - i,
    {
        proof {
            assert(pk.skip(i as int)[0] == pk[i as int]);
            assert(pk.skip(i as int).drop_first() =~= pk.skip(i + 1));
        }
        if packages[i].name == target {
            return present_versions(&packages[i].versions);
        }
        i = i + 1;
    }
    Vec::new()
}

} // verus!

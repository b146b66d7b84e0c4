//! A `NixpkgsBackend` that answers from a table filled in by the caller, and
//! counts the requests it gets.
use vstd::prelude::*;

use std::sync::atomic::AtomicUsize;
use std::sync::atomic::Ordering;

use crate::errors::{CheckError, CheckErrorModel};
use crate::ops::table::ResponseTable;
use crate::ops::version::tag_views;
use crate::ops::types::{copy_strings, NixpkgsBackend};

verus! {

/// A mock NixpkgsBackend for unit testing.
pub struct MockNixpkgsClient {
    pub version_responses: ResponseTable<String, Result<Vec<String>, CheckError>>,
    /// How often `get_package_versions` was called.
    pub calls: NixpkgsCallCount,
}

/// The counter of the calls a `MockNixpkgsClient` got.
pub struct NixpkgsCallCount {
    versions: AtomicUsize,
}

impl MockNixpkgsClient {
    /// A mock with no answers and no recorded calls.
    pub fn new() -> (m: Self)
        ensures
            m.version_responses@ == Map::<Seq<char>, Result<Vec<String>, CheckError>>::empty(),
    {
        MockNixpkgsClient {
            version_responses: ResponseTable::new(),
            calls: NixpkgsCallCount { versions: AtomicUsize::new(0) },
        }
    }

    /// How many times the method named `method` was called; 0 for a name
    /// that is not a method of `NixpkgsBackend`.
    pub fn call_count(&self, method: &str) -> (n: usize)
        ensures
            method@ != "get_package_versions"@ ==> n == 0,
    {
        let v = crate::text::chars_of(method);
        proof {
            reveal_strlit("get_package_versions");
        }
        if crate::text::equals_str(&v, "get_package_versions") {
            self.calls.versions.load(Ordering::Relaxed)
        } else {
            0
        }
    }
}

/// A list of versions answer, each version by its text.
pub open spec fn versions_answer(r: Result<Vec<String>, CheckError>) -> Result<
    Seq<Seq<char>>,
    CheckErrorModel,
> {
    match r {
        Ok(v) => Ok(tag_views(v@)),
        Err(e) => Err(e@),
    }
}

impl NixpkgsBackend for MockNixpkgsClient {
    open spec fn versions_answers(
        &self,
        package: Seq<char>,
        reply: Result<Seq<Seq<char>>, CheckErrorModel>,
    ) -> bool {
        reply == if self.version_responses@.contains_key(package) {
            versions_answer(self.version_responses@[package])
        } else {
            Ok(Seq::empty())
        }
    }

    /// The stored versions of the package; no versions where none are stored.
    fn get_package_versions(&self, package: &str) -> (r: Result<Vec<String>, CheckError>)
        ensures
            versions_answer(r) == if self.version_responses@.contains_key(package@) {
                versions_answer(self.version_responses@[package@])
            } else {
                Ok(Seq::empty())
            },
    {
        self.calls.versions.fetch_add(1, Ordering::Relaxed);
        let key = package.to_owned();
        match self.version_responses.get(&key) {
            Some(Ok(versions)) => {
                let r = copy_strings(versions);
                proof {
                    assert(tag_views(r@) =~= tag_views(versions@));
                }
                Ok(r)
            },
            Some(Err(e)) => Err(e.duplicate()),
            None => {
                let r: Vec<String> = Vec::new();
                proof {
                    assert(tag_views(r@) =~= Seq::empty());
                }
                Ok(r)
            },
        }
    }
}

} // verus!

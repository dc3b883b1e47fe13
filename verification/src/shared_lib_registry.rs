//! A cross-batch record of every shared-library name ever seen.
//!
//! Registration is idempotent: each name is kept once, in first-seen
//! order, so the exported text is deterministic for a given sequence of
//! registrations.

use vstd::prelude::*;
use crate::util::str_eq;

verus! {

use vstd::string::StringExecFns;

/// The names after registering `libs` into `names`, each appended only
/// when not yet present.
pub open spec fn spec_register_all(names: Seq<Seq<char>>, libs: Seq<Seq<char>>) -> Seq<Seq<char>>
    decreases libs.len(),
{
    if libs.len() == 0 {
        names
    } else {
        let next = if names.contains(libs.first()) {
            names
        } else {
            names.push(libs.first())
        };
        spec_register_all(next, libs.drop_first())
    }
}

/// The export text: every recorded name on a line of its own, in
/// recorded order.
pub open spec fn spec_export_text(names: Seq<Seq<char>>) -> Seq<char>
    decreases names.len(),
{
    if names.len() == 0 {
        Seq::<char>::empty()
    } else {
        spec_export_text(names.drop_last()) + names.last() + "\n"@
    }
}

/// The set of shared-library names seen so far.
pub struct SharedLibraryRegistry {
    set: Vec<String>,
}

impl SharedLibraryRegistry {
    /// The recorded names, in first-seen order.
    pub closed spec fn names(&self) -> Seq<Seq<char>> {
        self.set@.map_values(|s: String| s@)
    }

    /// An empty registry.
    pub fn new() -> (r: SharedLibraryRegistry)
        ensures
            r.names() =~= Seq::<Seq<char>>::empty(),
    {
        let r = SharedLibraryRegistry { set: Vec::new() };
        proof {
            assert(r.names() =~= Seq::<Seq<char>>::empty());
        }
        r
    }

    /// Whether `name` was already recorded.
    fn contains_name(&self, name: &str) -> (r: bool)
        ensures
            r == self.names().contains(name@),
    {
        let mut i: usize = 0;
        while i < self.set.len()
            invariant
                i <= self.names().len(),
                self.names().len() == self.set@.len(),
                forall|j: int| 0 <= j < i ==> self.names()[j] != name@,
            decreases self.set@.len() - i,
        {
            if str_eq(self.set[i].as_str(), name) {
                proof {
                    assert(self.names()[i as int] == name@);
                }
                return true;
            }
            i = i + 1;
        }
        proof {
            if self.names().contains(name@) {
                let k = choose|k: int|
                    0 <= k < self.names().len() && self.names()[k] == name@;
                assert(self.names()[k] != name@);
            }
        }
        false
    }

    /// Records every name of `libraries` that is not yet present, in
    /// order.
    pub fn extend(&mut self, libraries: &[&str])
        ensures
            final(self).names() == spec_register_all(
                old(self).names(),
                libraries@.map_values(|s: &str| s@),
            ),
    {
        let ghost libs_v = libraries@.map_values(|s: &str| s@);
        let mut i: usize = 0;
        proof {
            assert(libs_v.skip(0) =~= libs_v);
        }
        while i < libraries.len()
            invariant
                i <= libs_v.len(),
                libs_v == libraries@.map_values(|s: &str| s@),
                spec_register_all(self.names(), libs_v.skip(i as int)) == spec_register_all(
                    old(self).names(),
                    libs_v,
                ),
            decreases libs_v.len() - i,
        {
            let ghost before = self.names();
            proof {
                assert(libs_v.skip(i as int).first() == libs_v[i as int]);
                assert(libs_v[i as int] == libraries@[i as int]@);
                assert(libs_v.skip(i as int).drop_first() =~= libs_v.skip(i + 1));
            }
            let lib = libraries[i];
            if !self.contains_name(lib) {
                self.set.push(String::from_str(lib));
                proof {
                    assert(self.names() =~= before.push(lib@));
                }
            }
            i = i + 1;
        }
        proof {
            assert(libs_v.skip(libs_v.len() as int) =~= Seq::<Seq<char>>::empty());
        }
    }

    /// The text written out for this registry: one recorded name per
    /// line.
    pub fn export(&self) -> (r: String)
        ensures
            r@ == spec_export_text(self.names()),
    {
        let mut out = String::new();
        let n = self.set.len();
        let mut j: usize = 0;
        proof {
            assert(self.names().take(0) =~= Seq::<Seq<char>>::empty());
        }
        while j < n
            invariant
                j <= n,
                n == self.set@.len(),
                self.names().len() == n,
                out@ == spec_export_text(self.names().take(j as int)),
            decreases n - j,
        {
            out.append(self.set[j].as_str());
            out.append("\n");
            proof {
                assert(self.names().take(j + 1).drop_last() =~= self.names().take(j as int));
                assert(self.names().take(j + 1).last() == self.names()[j as int]);
                assert(out@ =~= spec_export_text(self.names().take(j + 1)));
            }
            j = j + 1;
        }
        proof {
            assert(self.names().take(n as int) =~= self.names());
        }
        out
    }
}

} // verus!

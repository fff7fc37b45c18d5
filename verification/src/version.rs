//! The runtime-version descriptor.
//!
//! A version describes the executable logic active at a block: its name,
//! version numbers and exposed API set.  Versions are compared by structural
//! equality to detect upgrades.

use vstd::prelude::*;

use crate::bytes::copy_bytes;
use crate::bytes::bytes_eq;

verus! {

/// Mathematical content of a `RuntimeVersion`.
pub struct VersionView {
    pub spec_name: Seq<u8>,
    pub spec_version: u32,
    pub impl_version: u32,
    pub transaction_version: u32,
    pub apis: Seq<(u32, u32)>,
}

/// A versioned descriptor of the runtime active at a block.
#[derive(Debug)]
pub struct RuntimeVersion {
    /// Name identifying the runtime's specification.
    pub spec_name: Vec<u8>,
    /// Version of the runtime specification.
    pub spec_version: u32,
    /// Version of the implementation of that specification.
    pub impl_version: u32,
    /// Version of the transaction format.
    pub transaction_version: u32,
    /// Exposed API identifiers with their versions.
    pub apis: Vec<(u32, u32)>,
}

impl View for RuntimeVersion {
    type V = VersionView;

    open spec fn view(&self) -> VersionView {
        VersionView {
            spec_name: self.spec_name@,
            spec_version: self.spec_version,
            impl_version: self.impl_version,
            transaction_version: self.transaction_version,
            apis: self.apis@,
        }
    }
}

impl DeepView for RuntimeVersion {
    type V = VersionView;

    open spec fn deep_view(&self) -> VersionView {
        self@
    }
}

impl PartialEq for RuntimeVersion {
    /// Structural equality, the comparison that detects an upgrade.
    fn eq(&self, other: &RuntimeVersion) -> (r: bool) {
        let r = bytes_eq(&self.spec_name, &other.spec_name) && self.spec_version
            == other.spec_version && self.impl_version == other.impl_version
            && self.transaction_version == other.transaction_version && apis_eq(
            &self.apis,
            &other.apis,
        );
        proof {
            if r {
                assert(self@ == other@);
            }
        }
        r
    }
}

impl vstd::std_specs::cmp::PartialEqSpecImpl for RuntimeVersion {
    open spec fn obeys_eq_spec() -> bool {
        true
    }

    open spec fn eq_spec(&self, other: &RuntimeVersion) -> bool {
        self@ == other@
    }
}

/// Decides equality of two API lists.
fn apis_eq(a: &Vec<(u32, u32)>, b: &Vec<(u32, u32)>) -> (r: bool)
    ensures
        r == (a@ == b@),
{
    if a.len() != b.len() {
        return false;
    }
    let mut i: usize = 0;
    loop
        invariant
            i <= a.len(),
            a.len() == b.len(),
            forall|j: int| 0 <= j < i ==> a@[j] == b@[j],
        decreases a.len() - i,
    {
        if i == a.len() {
            proof {
                assert(a@ =~= b@);
            }
            return true;
        }
        let (x0, x1) = a[i];
        let (y0, y1) = b[i];
        if x0 != y0 || x1 != y1 {
            return false;
        }
        i = i + 1;
    }
}

impl RuntimeVersion {
    /// An independent copy describing the same version.
    pub fn duplicate(&self) -> (r: RuntimeVersion)
        ensures
            r@ == self@,
    {
        let mut apis: Vec<(u32, u32)> = Vec::new();
        let mut i: usize = 0;
        while i < self.apis.len()
            invariant
                i <= self.apis@.len(),
                apis@ == self.apis@.take(i as int),
            decreases self.apis@.len() - i,
        {
            let (id, ver) = self.apis[i];
            apis.push((id, ver));
            proof {
                assert(apis@ =~= self.apis@.take(i as int + 1));
            }
            i = i + 1;
        }
        proof {
            assert(self.apis@.take(self.apis@.len() as int) =~= self.apis@);
        }
        RuntimeVersion {
            spec_name: copy_bytes(&self.spec_name),
            spec_version: self.spec_version,
            impl_version: self.impl_version,
            transaction_version: self.transaction_version,
            apis,
        }
    }
}

} // verus!

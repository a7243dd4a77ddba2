//! Screenshot golden masters. Comparison is bit-identical, not tolerant: a
//! render matches its reference only when every byte does.
use vstd::prelude::*;

verus! {

/// What comparing a render against its reference decides.
#[derive(Debug, Clone, Copy, PartialEq, Eq)]
pub enum Golden {
    /// The render is byte-for-byte the reference.
    Matches,
    /// There is no reference yet: the render is written as one, and the
    /// comparison fails, so that somebody looks at it.
    Missing,
    /// The render differs and blessing was asked for: it replaces the reference.
    Blessed,
    /// The render differs: it is written beside the reference, and the
    /// comparison fails.
    Differs,
}

/// What comparing `actual` against `reference` decides.
pub open spec fn verdict(reference: Option<Seq<u8>>, actual: Seq<u8>, bless: bool) -> Golden {
    match reference {
        None => Golden::Missing,
        Some(expected) => if expected == actual {
            Golden::Matches
        } else if bless {
            Golden::Blessed
        } else {
            Golden::Differs
        },
    }
}

/// Are two byte strings identical?
pub fn same_bytes(a: &[u8], b: &[u8]) -> (r: bool)
    ensures
        r == (a@ == b@),
{
    if a.len() != b.len() {
        return false;
    }
    let mut i: usize = 0;
    while i < a.len()
        invariant
            0 <= i <= a@.len(),
            a@.len() == b@.len(),
            forall|k: int| 0 <= k < i ==> a@[k] == b@[k],
        decreases a@.len() - i,
    {
        if a[i] != b[i] {
            return false;
        }
        i += 1;
    }
    proof {
        assert(a@ =~= b@);
    }
    true
}

/// Decide a comparison: a missing reference fails (after being written), an
/// identical render passes, and a different one passes only when blessed.
pub fn golden_verdict(reference: Option<&[u8]>, actual: &[u8], bless: bool) -> (r: Golden)
    ensures
        r == verdict(
            match reference {
                Some(e) => Some(e@),
                None => None,
            },
            actual@,
            bless,
        ),
{
    match reference {
        None => Golden::Missing,
        Some(expected) => if same_bytes(expected, actual) {
            Golden::Matches
        } else if bless {
            Golden::Blessed
        } else {
            Golden::Differs
        },
    }
}

} // verus!

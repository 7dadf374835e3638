use vstd::prelude::*;
use vstd::std_specs::cmp::PartialEqSpecImpl;

verus! {

broadcast use vstd::array::group_array_axioms;

/// Identifier of a torrent: the SHA-1 hash of a v1 torrent's info dictionary,
/// or the SHA-256 hash of a v2 torrent's.
#[derive(Clone, Copy, Debug)]
pub enum InfoHash {
    V1([u8; 20]),
    V2([u8; 32]),
}

/// Compares two byte arrays of one length, byte by byte.
fn bytes_equal<const N: usize>(a: &[u8; N], b: &[u8; N]) -> (r: bool)
    ensures
        r == (*a == *b),
{
    let mut i: usize = 0;
    while i < N
        invariant
            i <= N,
            a@.len() == N,
            b@.len() == N,
            forall|j: int| 0 <= j < i ==> a[j] == b[j],
        decreases N - i,
    {
        if a[i] != b[i] {
            return false;
        }
        i = i + 1;
    }
    assert(*a =~= *b);
    true
}

impl PartialEq for InfoHash {
    fn eq(&self, other: &Self) -> (r: bool) {
        match (self, other) {
            (InfoHash::V1(lhs), InfoHash::V1(rhs)) => bytes_equal(lhs, rhs),
            (InfoHash::V2(lhs), InfoHash::V2(rhs)) => bytes_equal(lhs, rhs),
            _ => false,
        }
    }
}

impl PartialEqSpecImpl for InfoHash {
    open spec fn obeys_eq_spec() -> bool {
        true
    }

    /// Two hashes are equal when they are of the same version and hold the same bytes.
    open spec fn eq_spec(&self, other: &InfoHash) -> bool {
        *self == *other
    }
}

impl Eq for InfoHash {
}

} // verus!

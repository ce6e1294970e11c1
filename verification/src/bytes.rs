//! Byte sequences: copying ranges, appending and combining by exclusive or.
use vstd::prelude::*;

verus! {

/// The bytes of `a`, each combined by exclusive or with the byte of `b` at the
/// same place.
pub open spec fn xor_bytes(a: Seq<u8>, b: Seq<u8>) -> Seq<u8> {
    Seq::new(a.len(), |i: int| a[i] ^ b[i])
}

/// Combining twice with the same bytes gives the first bytes back.
pub proof fn xor_undoes_itself(a: Seq<u8>, b: Seq<u8>)
    ensures
        xor_bytes(xor_bytes(a, b), b) == a,
{
    assert forall|i: int| 0 <= i < a.len() implies (a[i] ^ b[i]) ^ b[i] == a[i] by {
        let x = a[i];
        let y = b[i];
        assert((x ^ y) ^ y == x) by (bit_vector);
    }
    assert(xor_bytes(xor_bytes(a, b), b) =~= a);
}

/// A sequence of `n` zero bytes.
pub open spec fn zero_bytes(n: nat) -> Seq<u8> {
    Seq::new(n, |i: int| 0u8)
}

/// The bytes of an optional vector.
pub open spec fn bytes_of(v: Option<Vec<u8>>) -> Option<Seq<u8>> {
    match v {
        Some(bytes) => Some(bytes@),
        None => None,
    }
}

/// Copies the `N` bytes that start at `from`.
pub fn array_at<const N: usize>(source: &[u8], from: usize) -> (copy: [u8; N])
    requires
        from + N <= source@.len(),
    ensures
        copy@ == source@.subrange(from as int, from + N),
{
    let mut copy: [u8; N] = [0u8;N];
    let mut i: usize = 0;
    while i < N
        invariant
            i <= N,
            from + N <= source.len(),
            forall|j: int| 0 <= j < i ==> copy@[j] == source@[from + j],
        decreases N - i,
    {
        copy[i] = source[from + i];
        i = i + 1;
    }
    assert(copy@ =~= source@.subrange(from as int, from + N));
    copy
}

/// Appends `tail` to `target`.
pub fn append_bytes(target: &mut Vec<u8>, tail: &[u8])
    ensures
        final(target)@ == old(target)@ + tail@,
{
    target.extend_from_slice(tail);
    assert(target@ =~= old(target)@ + tail@);
}

/// Whether two byte sequences are the same.
pub fn same_bytes(a: &[u8], b: &[u8]) -> (same: bool)
    ensures
        same == (a@ == b@),
{
    if a.len() != b.len() {
        return false;
    }
    let mut i: usize = 0;
    while i < a.len()
        invariant
            i <= a@.len(),
            a@.len() == b@.len(),
            forall|j: int| 0 <= j < i ==> a@[j] == b@[j],
        decreases a@.len() - i,
    {
        if a[i] != b[i] {
            return false;
        }
        i = i + 1;
    }
    assert(a@ =~= b@);
    true
}

/// Whether every byte is zero.
pub fn all_zero(a: &[u8]) -> (zero: bool)
    ensures
        zero == (a@ == zero_bytes(a@.len())),
{
    let mut i: usize = 0;
    while i < a.len()
        invariant
            i <= a@.len(),
            forall|j: int| 0 <= j < i ==> a@[j] == 0u8,
        decreases a@.len() - i,
    {
        if a[i] != 0 {
            assert(zero_bytes(a@.len())[i as int] == 0u8);
            return false;
        }
        i = i + 1;
    }
    assert(a@ =~= zero_bytes(a@.len()));
    true
}

/// Exclusive or works byte by byte.
pub proof fn xor_is_byte_by_byte(a: Seq<u8>, b: Seq<u8>)
    ensures
        xor_bytes(a, b).len() == a.len(),
        forall|i: int| 0 <= i < a.len() ==> #[trigger] xor_bytes(a, b)[i] == a[i] ^ b[i],
{
}

/// Two bytes are the same exactly when their exclusive or is zero.
pub proof fn xor_tells_bytes_apart(a: u8, b: u8)
    ensures
        a ^ b == 0 <==> a == b,
{
    assert(a ^ b == 0 <==> a == b) by (bit_vector);
}

/// So many bytes, and each of them zero.
pub proof fn zero_bytes_are_zero(n: nat)
    ensures
        zero_bytes(n).len() == n,
        forall|i: int| 0 <= i < n ==> #[trigger] zero_bytes(n)[i] == 0,
{
}

/// An optional vector holds bytes if it is there, and its own.
pub proof fn optional_bytes_are_its_own(v: Option<Vec<u8>>)
    ensures
        bytes_of(v) is Some <==> v is Some,
        v matches Some(bytes) ==> bytes_of(v)->0 == bytes@,
{
}

} // verus!

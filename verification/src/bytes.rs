//! Byte strings, hardware addresses and big-endian numbers.
use vstd::prelude::*;

verus! {

/// Whether two byte strings are equal.
pub fn same_bytes(a: &[u8], b: &[u8]) -> (same: bool)
    ensures
        same == (a@ == b@),
{
    if a.len() != b.len() {
        return false;
    }
    let mut i: usize = 0;
    while i < a.len()
        invariant
            i <= a@.len(),
            a@.len() == b@.len(),
            forall|j: int| 0 <= j < i ==> a@[j] == b@[j],
        decreases a@.len() - i,
    {
        if a[i] != b[i] {
            return false;
        }
        i += 1;
    }
    assert(a@ =~= b@);
    true
}

/// Whether two hardware addresses are equal.
pub fn same_mac(a: &[u8; 6], b: &[u8; 6]) -> (same: bool)
    ensures
        same == (a@ == b@),
        same == (*a == *b),
{
    let mut i: usize = 0;
    while i < 6
        invariant
            i <= 6,
            forall|j: int| 0 <= j < i ==> a@[j] == b@[j],
        decreases 6 - i,
    {
        if a[i] != b[i] {
            return false;
        }
        i += 1;
    }
    assert(a@ =~= b@);
    assert(*a =~= *b);
    true
}

/// A byte string once more.
pub fn copy_bytes(bytes: &Vec<u8>) -> (copy: Vec<u8>)
    ensures
        copy@ == bytes@,
{
    let copy = bytes.clone();
    assert(copy@ =~= bytes@);
    copy
}

/// The part of `bytes` from `from` up to `to`.
pub fn slice_of(bytes: &[u8], from: usize, to: usize) -> (part: Vec<u8>)
    requires
        from <= to <= bytes@.len(),
    ensures
        part@ == bytes@.subrange(from as int, to as int),
{
    let mut part: Vec<u8> = Vec::new();
    let mut i: usize = from;
    while i < to
        invariant
            from <= i <= to <= bytes@.len(),
            part@ == bytes@.subrange(from as int, i as int),
        decreases to - i,
    {
        part.push(bytes[i]);
        assert(bytes@.subrange(from as int, i + 1) =~= bytes@.subrange(from as int, i as int).push(
            bytes@[i as int],
        ));
        i += 1;
    }
    part
}

/// Appends `more` to `bytes`.
pub fn append_bytes(bytes: &mut Vec<u8>, more: &[u8])
    ensures
        final(bytes)@ == old(bytes)@ + more@,
{
    let mut i: usize = 0;
    assert(bytes@ =~= old(bytes)@ + more@.take(0));
    while i < more.len()
        invariant
            i <= more@.len(),
            bytes@ == old(bytes)@ + more@.take(i as int),
        decreases more@.len() - i,
    {
        bytes.push(more[i]);
        assert(more@.take(i + 1) =~= more@.take(i as int).push(more@[i as int]));
        assert(bytes@ =~= old(bytes)@ + more@.take(i + 1));
        i += 1;
    }
    assert(more@.take(i as int) =~= more@);
}

/// The number that two bytes stand for, high byte first.
pub open spec fn be16(high: u8, low: u8) -> nat {
    256 * high as nat + low as nat
}

/// Reads two bytes, high byte first.
pub fn read_be16(high: u8, low: u8) -> (value: u16)
    ensures
        value == be16(high, low),
{
    256 * high as u16 + low as u16
}

/// The number that four bytes stand for, high byte first.
pub open spec fn be32(bytes: Seq<u8>) -> nat {
    16777216 * bytes[0] as nat + 65536 * bytes[1] as nat + 256 * bytes[2] as nat + bytes[3] as nat
}

/// The two bytes of a number, high byte first.
pub open spec fn be16_bytes(value: u16) -> Seq<u8> {
    seq![(value / 256) as u8, (value % 256) as u8]
}

/// The high byte counts 256 times as much as the low one.
pub proof fn lemma_the_high_byte_comes_first(high: u8, low: u8, value: u16)
    requires
        call_ensures(read_be16, (high, low), value),
    ensures
        value == high * 256 + low,
        value / 256 == high,
        value % 256 == low,
{
}

/// A part of a byte string has the bytes from its beginning on, up to its end.
pub proof fn lemma_parts_keep_their_bytes(
    bytes: &[u8],
    from: usize,
    to: usize,
    part: Vec<u8>,
    k: int,
)
    requires
        call_ensures(slice_of, (bytes, from, to), part),
        from <= to <= bytes@.len(),
    ensures
        part@.len() == to - from,
        0 <= k < part@.len() ==> part@[k] == bytes@[from + k],
{
}

/// Two byte strings are equal exactly when they are as long and agree byte by byte.
pub proof fn lemma_strings_agree_byte_by_byte(a: &[u8], b: &[u8], same: bool)
    requires
        call_ensures(same_bytes, (a, b), same),
    ensures
        same <==> a@.len() == b@.len() && forall|k: int|
            0 <= k < a@.len() ==> #[trigger] a@[k] == b@[k],
{
    if a@.len() == b@.len() && forall|k: int| 0 <= k < a@.len() ==> #[trigger] a@[k] == b@[k] {
        assert(a@ =~= b@);
    }
}

} // verus!

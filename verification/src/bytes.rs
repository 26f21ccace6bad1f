//! Fixed-width integers and runs of bytes inside byte buffers.

use vstd::prelude::*;

verus! {

/// The little-endian 16-bit number at `at`.
pub open spec fn le16(s: Seq<u8>, at: int) -> int {
    s[at] + 0x100 * s[at + 1]
}

/// The little-endian 32-bit number at `at`.
pub open spec fn le32(s: Seq<u8>, at: int) -> int {
    le16(s, at) + 0x1_0000 * le16(s, at + 2)
}

/// The little-endian 64-bit number at `at`.
pub open spec fn le64(s: Seq<u8>, at: int) -> int {
    le32(s, at) + 0x1_0000_0000 * le32(s, at + 4)
}

/// The big-endian 16-bit number at `at`.
pub open spec fn be16(s: Seq<u8>, at: int) -> int {
    0x100 * s[at] + s[at + 1]
}

/// The big-endian 32-bit number at `at`.
pub open spec fn be32(s: Seq<u8>, at: int) -> int {
    0x1_0000 * be16(s, at) + be16(s, at + 2)
}

/// The two little-endian bytes of `value`.
pub open spec fn le16_bytes(value: int) -> Seq<u8> {
    seq![(value % 0x100) as u8, (value / 0x100 % 0x100) as u8]
}

/// The four little-endian bytes of `value`.
pub open spec fn le32_bytes(value: int) -> Seq<u8> {
    le16_bytes(value % 0x1_0000) + le16_bytes(value / 0x1_0000)
}

/// The eight little-endian bytes of `value`.
pub open spec fn le64_bytes(value: int) -> Seq<u8> {
    le32_bytes(value % 0x1_0000_0000) + le32_bytes(value / 0x1_0000_0000)
}

/// `s` with the bytes from `at` on replaced by `part`.
pub open spec fn splice(s: Seq<u8>, at: int, part: Seq<u8>) -> Seq<u8> {
    Seq::new(s.len(), |i: int| if at <= i < at + part.len() { part[i - at] } else { s[i] })
}

/// `b` differs from `a` at most in the `count` bytes from `at` on.
pub open spec fn same_outside(a: Seq<u8>, b: Seq<u8>, at: int, count: int) -> bool {
    &&& a.len() == b.len()
    &&& forall|i: int| 0 <= i < a.len() && !(at <= i < at + count) ==> #[trigger] b[i] == a[i]
}

/// Every byte of `s` from `from` up to `to` is zero.
pub open spec fn zero_between(s: Seq<u8>, from: int, to: int) -> bool {
    forall|i: int| from <= i < to ==> #[trigger] s[i] == 0u8
}

/// Reads the little-endian 16-bit number at `offset`.
pub fn get_le_u16(bytes: &[u8], offset: usize) -> (value: u16)
    requires
        offset + 2 <= bytes.len(),
    ensures
        value == le16(bytes@, offset as int),
{
    bytes[offset] as u16 + 0x100 * (bytes[offset + 1] as u16)
}

/// Reads the little-endian 32-bit number at `offset`.
pub fn get_le_u32(bytes: &[u8], offset: usize) -> (value: u32)
    requires
        offset + 4 <= bytes.len(),
    ensures
        value == le32(bytes@, offset as int),
{
    get_le_u16(bytes, offset) as u32 + 0x1_0000 * (get_le_u16(bytes, offset + 2) as u32)
}

/// Reads the little-endian 64-bit number at `offset`.
pub fn get_le_u64(bytes: &[u8], offset: usize) -> (value: u64)
    requires
        offset + 8 <= bytes.len(),
    ensures
        value == le64(bytes@, offset as int),
{
    get_le_u32(bytes, offset) as u64 + 0x1_0000_0000 * (get_le_u32(bytes, offset + 4) as u64)
}

/// Reads the big-endian 16-bit number at `offset`.
pub fn get_be_u16(bytes: &[u8], offset: usize) -> (value: u16)
    requires
        offset + 2 <= bytes.len(),
    ensures
        value == be16(bytes@, offset as int),
{
    0x100 * (bytes[offset] as u16) + bytes[offset + 1] as u16
}

/// Reads the big-endian 32-bit number at `offset`.
pub fn get_be_u32(bytes: &[u8], offset: usize) -> (value: u32)
    requires
        offset + 4 <= bytes.len(),
    ensures
        value == be32(bytes@, offset as int),
{
    0x1_0000 * (get_be_u16(bytes, offset) as u32) + get_be_u16(bytes, offset + 2) as u32
}

/// Stores `value` little-endian at `offset`.
pub fn put_le_u16(bytes: &mut [u8], offset: usize, value: u16)
    requires
        offset + 2 <= old(bytes).len(),
    ensures
        le16(final(bytes)@, offset as int) == value,
        same_outside(old(bytes)@, final(bytes)@, offset as int, 2),
{
    bytes[offset] = (value % 0x100) as u8;
    bytes[offset + 1] = (value / 0x100) as u8;
}

/// Stores `value` little-endian at `offset`.
pub fn put_le_u32(bytes: &mut [u8], offset: usize, value: u32)
    requires
        offset + 4 <= old(bytes).len(),
    ensures
        le32(final(bytes)@, offset as int) == value,
        same_outside(old(bytes)@, final(bytes)@, offset as int, 4),
{
    put_le_u16(bytes, offset, (value % 0x1_0000) as u16);
    put_le_u16(bytes, offset + 2, (value / 0x1_0000) as u16);
}

/// Stores `value` little-endian at `offset`.
pub fn put_le_u64(bytes: &mut [u8], offset: usize, value: u64)
    requires
        offset + 8 <= old(bytes).len(),
    ensures
        le64(final(bytes)@, offset as int) == value,
        same_outside(old(bytes)@, final(bytes)@, offset as int, 8),
{
    put_le_u32(bytes, offset, (value % 0x1_0000_0000) as u32);
    put_le_u32(bytes, offset + 4, (value / 0x1_0000_0000) as u32);
}

/// Stores `value` big-endian at `offset`.
pub fn put_be_u16(bytes: &mut [u8], offset: usize, value: u16)
    requires
        offset + 2 <= old(bytes).len(),
    ensures
        be16(final(bytes)@, offset as int) == value,
        same_outside(old(bytes)@, final(bytes)@, offset as int, 2),
{
    bytes[offset] = (value / 0x100) as u8;
    bytes[offset + 1] = (value % 0x100) as u8;
}

/// Stores `value` big-endian at `offset`.
pub fn put_be_u32(bytes: &mut [u8], offset: usize, value: u32)
    requires
        offset + 4 <= old(bytes).len(),
    ensures
        be32(final(bytes)@, offset as int) == value,
        same_outside(old(bytes)@, final(bytes)@, offset as int, 4),
{
    put_be_u16(bytes, offset, (value / 0x1_0000) as u16);
    put_be_u16(bytes, offset + 2, (value % 0x1_0000) as u16);
}

/// Appends the two little-endian bytes of `value`.
pub fn push_le_u16(bytes: &mut Vec<u8>, value: u16)
    ensures
        final(bytes)@ == old(bytes)@ + le16_bytes(value as int),
{
    let ghost before = bytes@;
    bytes.push((value % 0x100) as u8);
    bytes.push((value / 0x100) as u8);
    assert(bytes@ =~= before + le16_bytes(value as int));
}

/// Appends the four little-endian bytes of `value`.
pub fn push_le_u32(bytes: &mut Vec<u8>, value: u32)
    ensures
        final(bytes)@ == old(bytes)@ + le32_bytes(value as int),
{
    let ghost before = bytes@;
    push_le_u16(bytes, (value % 0x1_0000) as u16);
    push_le_u16(bytes, (value / 0x1_0000) as u16);
    assert(bytes@ =~= before + le32_bytes(value as int));
}

/// Appends the eight little-endian bytes of `value`.
pub fn push_le_u64(bytes: &mut Vec<u8>, value: u64)
    ensures
        final(bytes)@ == old(bytes)@ + le64_bytes(value as int),
{
    push_le_u32(bytes, (value % 0x1_0000_0000) as u32);
    push_le_u32(bytes, (value / 0x1_0000_0000) as u32);
    assert(bytes@ =~= old(bytes)@ + le64_bytes(value as int));
}

/// Appends `part`.
pub fn append(bytes: &mut Vec<u8>, part: &[u8])
    ensures
        final(bytes)@ == old(bytes)@ + part@,
{
    let ghost before = bytes@;
    let mut i: usize = 0;
    assert(bytes@ =~= before + part@.take(0));
    while i < part.len()
        invariant
            i <= part@.len(),
            bytes@ == before + part@.take(i as int),
        decreases part@.len() - i,
    {
        bytes.push(part[i]);
        i += 1;
        assert(bytes@ =~= before + part@.take(i as int));
    }
    assert(part@.take(i as int) =~= part@);
}

/// Copies `part` over the bytes of `bytes` from `offset` on.
pub fn copy_into(bytes: &mut [u8], offset: usize, part: &[u8])
    requires
        offset + part@.len() <= old(bytes).len(),
    ensures
        final(bytes)@ == splice(old(bytes)@, offset as int, part@),
{
    let ghost before = bytes@;
    let mut i: usize = 0;
    while i < part.len()
        invariant
            i <= part@.len(),
            offset + part@.len() <= bytes.len(),
            before.len() == bytes@.len(),
            bytes@ == splice(before, offset as int, part@.take(i as int)),
        decreases part@.len() - i,
    {
        bytes[offset + i] = part[i];
        i += 1;
        assert(bytes@ =~= splice(before, offset as int, part@.take(i as int)));
    }
    assert(part@.take(i as int) =~= part@);
}

/// The first `N` bytes of `bytes` from `offset` on, as an array.
pub fn array_at<const N: usize>(bytes: &[u8], offset: usize) -> (part: [u8; N])
    requires
        offset + N <= bytes.len(),
    ensures
        part@ == bytes@.subrange(offset as int, offset + N),
{
    let mut part: [u8; N] = vstd::array::array_fill_for_copy_types(0u8);
    let mut i: usize = 0;
    while i < N
        invariant
            i <= N,
            offset + N <= bytes.len(),
            forall|j: int| 0 <= j < i ==> part@[j] == bytes@[offset + j],
        decreases N - i,
    {
        part[i] = bytes[offset + i];
        i += 1;
    }
    assert(part@ =~= bytes@.subrange(offset as int, offset + N));
    part
}

/// The bytes from `from` up to `to`, as a vector.
pub fn copy_range(bytes: &[u8], from: usize, to: usize) -> (part: Vec<u8>)
    requires
        from <= to <= bytes@.len(),
    ensures
        part@ == bytes@.subrange(from as int, to as int),
{
    let mut part: Vec<u8> = Vec::new();
    let mut i: usize = from;
    while i < to
        invariant
            from <= i <= to <= bytes@.len(),
            part@ == bytes@.subrange(from as int, i as int),
        decreases to - i,
    {
        part.push(bytes[i]);
        i += 1;
        assert(part@ =~= bytes@.subrange(from as int, i as int));
    }
    part
}

/// Whether the two runs hold the same bytes.
pub fn bytes_equal(a: &[u8], b: &[u8]) -> (equal: bool)
    ensures
        equal == (a@ == b@),
{
    if a.len() != b.len() {
        return false;
    }
    let mut i: usize = 0;
    while i < a.len()
        invariant
            i <= a@.len(),
            a@.len() == b@.len(),
            forall|j: int| 0 <= j < i ==> a@[j] == b@[j],
        decreases a@.len() - i,
    {
        if a[i] != b[i] {
            return false;
        }
        i += 1;
    }
    assert(a@ =~= b@);
    true
}

/// Whether every byte is zero.
pub fn all_zero(bytes: &[u8]) -> (zero: bool)
    ensures
        zero == zero_between(bytes@, 0, bytes@.len() as int),
{
    let mut i: usize = 0;
    while i < bytes.len()
        invariant
            i <= bytes@.len(),
            zero_between(bytes@, 0, i as int),
        decreases bytes@.len() - i,
    {
        if bytes[i] != 0 {
            return false;
        }
        i += 1;
    }
    true
}

/// `count` zero bytes.
pub fn zeroed(count: usize) -> (bytes: Vec<u8>)
    ensures
        bytes@ == Seq::new(count as nat, |i: int| 0u8),
{
    let bytes: Vec<u8> = vec![0u8; count];
    assert(bytes@ =~= Seq::new(count as nat, |i: int| 0u8));
    bytes
}

/// Equal runs of bytes hold equal numbers.
pub proof fn lemma_numbers_agree(a: Seq<u8>, b: Seq<u8>, at: int, count: int)
    requires
        0 <= at,
        at + count <= a.len(),
        at + count <= b.len(),
        forall|i: int| at <= i < at + count ==> #[trigger] b[i] == a[i],
    ensures
        2 <= count ==> le16(a, at) == le16(b, at) && be16(a, at) == be16(b, at),
        4 <= count ==> le32(a, at) == le32(b, at) && be32(a, at) == be32(b, at),
        8 <= count ==> le64(a, at) == le64(b, at),
{
}

/// A little-endian number determines its bytes.
pub proof fn lemma_le_injective(a: Seq<u8>, b: Seq<u8>, at: int)
    ensures
        le16(a, at) == le16(b, at) ==> forall|i: int| at <= i < at + 2 ==> #[trigger] a[i] == b[i],
        le32(a, at) == le32(b, at) ==> forall|i: int| at <= i < at + 4 ==> #[trigger] a[i] == b[i],
        le64(a, at) == le64(b, at) ==> forall|i: int| at <= i < at + 8 ==> #[trigger] a[i] == b[i],
{
    lemma_le16_injective(a, b, at);
    lemma_le32_injective(a, b, at);
    lemma_le32_injective(a, b, at + 4);
    assert(0 <= le32(a, at) < 0x1_0000_0000 && 0 <= le32(b, at) < 0x1_0000_0000);
    assert(0 <= le32(a, at + 4) < 0x1_0000_0000 && 0 <= le32(b, at + 4) < 0x1_0000_0000);
    if le64(a, at) == le64(b, at) {
        assert(le32(a, at) == le32(b, at) && le32(a, at + 4) == le32(b, at + 4));
    }
}

proof fn lemma_le16_injective(a: Seq<u8>, b: Seq<u8>, at: int)
    ensures
        0 <= le16(a, at) < 0x1_0000,
        le16(a, at) == le16(b, at) ==> a[at] == b[at] && a[at + 1] == b[at + 1],
{
}

proof fn lemma_le32_injective(a: Seq<u8>, b: Seq<u8>, at: int)
    ensures
        0 <= le32(a, at) < 0x1_0000_0000,
        le32(a, at) == le32(b, at) ==> forall|i: int| at <= i < at + 4 ==> #[trigger] a[i] == b[i],
{
    lemma_le16_injective(a, b, at);
    lemma_le16_injective(b, a, at);
    lemma_le16_injective(a, b, at + 2);
    lemma_le16_injective(b, a, at + 2);
}

} // verus!

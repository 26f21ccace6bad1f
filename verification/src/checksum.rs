//! The reflected CRC-32 (polynomial `0xedb88320`) that guards every on-disk record.

use vstd::prelude::*;
use crate::bytes::{copy_into, copy_range, le32, lemma_le_injective, splice};

verus! {

/// One division step of the checksum register.
pub open spec fn crc_bit(crc: u32) -> u32 {
    if crc & 1 == 1 {
        (crc >> 1) ^ 0xedb8_8320
    } else {
        crc >> 1
    }
}

/// `count` division steps of the checksum register.
pub open spec fn crc_bits(crc: u32, count: nat) -> u32
    decreases count,
{
    if count == 0 {
        crc
    } else {
        crc_bit(crc_bits(crc, (count - 1) as nat))
    }
}

/// The register after one more byte.
pub open spec fn crc_byte(crc: u32, byte: u8) -> u32 {
    crc_bits(crc ^ (byte as u32), 8)
}

/// The register after `bytes`, started at `crc`.
pub open spec fn crc_run(crc: u32, bytes: Seq<u8>) -> u32
    decreases bytes.len(),
{
    if bytes.len() == 0 {
        crc
    } else {
        crc_byte(crc_run(crc, bytes.drop_last()), bytes.last())
    }
}

/// The checksum of `bytes`.
pub open spec fn crc32_of(bytes: Seq<u8>) -> u32 {
    !crc_run(0xffff_ffffu32, bytes)
}

/// Continues the checksum register `crc` over `bytes`.
pub fn crc32_update(crc: u32, bytes: &[u8]) -> (next: u32)
    ensures
        next == crc_run(crc, bytes@),
{
    let mut register: u32 = crc;
    let mut i: usize = 0;
    assert(bytes@.take(0) =~= Seq::<u8>::empty());
    while i < bytes.len()
        invariant
            i <= bytes@.len(),
            register == crc_run(crc, bytes@.take(i as int)),
        decreases bytes@.len() - i,
    {
        let ghost before = register;
        register = register ^ (bytes[i] as u32);
        let ghost mixed = register;
        let mut bit: u32 = 0;
        while bit < 8
            invariant
                bit <= 8,
                register == crc_bits(mixed, bit as nat),
            decreases 8 - bit,
        {
            if register & 1 == 1 {
                register = (register >> 1) ^ 0xedb8_8320;
            } else {
                register = register >> 1;
            }
            bit += 1;
        }
        i += 1;
        assert(bytes@.take(i as int).drop_last() =~= bytes@.take(i - 1));
    }
    assert(bytes@.take(i as int) =~= bytes@);
    register
}

/// The CRC-32 of `bytes`.
pub fn crc32(bytes: &[u8]) -> (checksum: u32)
    ensures
        checksum == crc32_of(bytes@),
{
    !crc32_update(0xffff_ffff, bytes)
}

/// A run over two pieces is a run over the first, continued over the second.
pub proof fn lemma_crc_run_concat(crc: u32, a: Seq<u8>, b: Seq<u8>)
    ensures
        crc_run(crc, a + b) == crc_run(crc_run(crc, a), b),
    decreases b.len(),
{
    if b.len() == 0 {
        assert(a + b =~= a);
    } else {
        lemma_crc_run_concat(crc, a, b.drop_last());
        assert((a + b).drop_last() =~= a + b.drop_last());
        assert((a + b).last() == b.last());
    }
}

proof fn lemma_crc_bit_injective(a: u32, b: u32)
    requires
        a != b,
    ensures
        crc_bit(a) != crc_bit(b),
{
    assert(a != b ==> (if a & 1 == 1 { (a >> 1) ^ 0xedb8_8320u32 } else { a >> 1 }) != (if b & 1 == 1 {
        (b >> 1) ^ 0xedb8_8320u32
    } else {
        b >> 1
    })) by (bit_vector);
}

proof fn lemma_crc_bits_injective(a: u32, b: u32, count: nat)
    requires
        a != b,
    ensures
        crc_bits(a, count) != crc_bits(b, count),
    decreases count,
{
    if count != 0 {
        lemma_crc_bits_injective(a, b, (count - 1) as nat);
        lemma_crc_bit_injective(crc_bits(a, (count - 1) as nat), crc_bits(b, (count - 1) as nat));
    }
}

proof fn lemma_crc_run_injective(a: u32, b: u32, bytes: Seq<u8>)
    requires
        a != b,
    ensures
        crc_run(a, bytes) != crc_run(b, bytes),
    decreases bytes.len(),
{
    if bytes.len() != 0 {
        lemma_crc_run_injective(a, b, bytes.drop_last());
        let x = crc_run(a, bytes.drop_last());
        let y = crc_run(b, bytes.drop_last());
        let z = bytes.last() as u32;
        assert(x != y ==> x ^ z != y ^ z) by (bit_vector);
        lemma_crc_bits_injective(x ^ z, y ^ z, 8);
    }
}

/// The checksum notices every change of a single byte.
pub proof fn crc32_detects_a_changed_byte(bytes: Seq<u8>, at: int, byte: u8)
    requires
        0 <= at < bytes.len(),
        byte != bytes[at],
    ensures
        crc32_of(bytes.update(at, byte)) != crc32_of(bytes),
{
    let changed = bytes.update(at, byte);
    let start = crc_run(0xffff_ffffu32, bytes.take(at));
    assert(bytes =~= bytes.take(at + 1) + bytes.skip(at + 1));
    assert(changed =~= changed.take(at + 1) + bytes.skip(at + 1));
    assert(bytes.take(at + 1).drop_last() =~= bytes.take(at));
    assert(changed.take(at + 1).drop_last() =~= bytes.take(at));
    let x = bytes[at] as u32;
    let y = byte as u32;
    assert(x != y ==> start ^ x != start ^ y) by (bit_vector);
    lemma_crc_bits_injective(start ^ x, start ^ y, 8);
    lemma_crc_run_concat(0xffff_ffffu32, bytes.take(at + 1), bytes.skip(at + 1));
    lemma_crc_run_concat(0xffff_ffffu32, changed.take(at + 1), bytes.skip(at + 1));
    let a = crc_run(0xffff_ffffu32, bytes.take(at + 1));
    let b = crc_run(0xffff_ffffu32, changed.take(at + 1));
    lemma_crc_run_injective(a, b, bytes.skip(at + 1));
    let p = crc_run(0xffff_ffffu32, bytes);
    let q = crc_run(0xffff_ffffu32, changed);
    assert(p != q ==> !p != !q) by (bit_vector);
}

/// `bytes` with the four checksum bytes at `at` cleared: what a record's checksum covers.
pub open spec fn without_checksum(bytes: Seq<u8>, at: int) -> Seq<u8> {
    splice(bytes, at, Seq::new(4, |i: int| 0u8))
}

/// The checksum of a record, its own four bytes at `at` taken as zero.
pub fn checksum_without(input: &[u8], at: usize) -> (checksum: u32)
    requires
        at + 4 <= input.len(),
    ensures
        checksum == crc32_of(without_checksum(input@, at as int)),
{
    let mut copy: Vec<u8> = copy_range(input, 0, input.len());
    let zeros: [u8; 4] = [0u8; 4];
    copy_into(&mut copy, at, &zeros);
    assert(zeros@ =~= Seq::new(4, |i: int| 0u8));
    assert(copy@ =~= without_checksum(input@, at as int));
    crc32(&copy)
}

/// A record whose stored checksum is right no longer agrees with it once one byte changed.
pub proof fn lemma_checksum_notices(bytes: Seq<u8>, checksum: int, at: int, byte: u8)
    requires
        0 <= checksum,
        checksum + 4 <= bytes.len(),
        le32(bytes, checksum) == crc32_of(without_checksum(bytes, checksum)),
        0 <= at < bytes.len(),
        byte != bytes[at],
    ensures
        le32(bytes.update(at, byte), checksum) != crc32_of(
            without_checksum(bytes.update(at, byte), checksum),
        ),
{
    let changed = bytes.update(at, byte);
    let covered = without_checksum(bytes, checksum);
    if checksum <= at < checksum + 4 {
        assert(without_checksum(changed, checksum) =~= covered);
        lemma_le_injective(bytes, changed, checksum);
    } else {
        assert(without_checksum(changed, checksum) =~= covered.update(at, byte));
        crc32_detects_a_changed_byte(covered, at, byte);
    }
}

} // verus!

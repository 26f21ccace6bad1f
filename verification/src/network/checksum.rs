//! The Internet checksum: the complement of a one's-complement sum of 16-bit words.

use vstd::prelude::*;
use crate::bytes::{be16, get_be_u16, same_outside};

verus! {

/// The sum of the big-endian words that `s` starts with, up to the even length `n`.
pub open spec fn words_to(s: Seq<u8>, n: int) -> nat
    decreases n,
{
    if n < 2 {
        0
    } else {
        words_to(s, n - 2) + be16(s, n - 2) as nat
    }
}

/// The sum of the big-endian words of `s`; an odd last byte is the high half of a word.
pub open spec fn word_sum(s: Seq<u8>) -> nat {
    words_to(s, s.len() as int / 2 * 2) + if s.len() % 2 == 1 {
        (0x100 * s[s.len() - 1]) as nat
    } else {
        0nat
    }
}

/// A sum with its carries added back in until sixteen bits are left.
pub open spec fn folded(sum: int) -> int {
    if sum == 0 {
        0
    } else {
        (sum - 1) % 0xffff + 1
    }
}

/// The checksum of a sum that was kept in 32 bits.
pub open spec fn complement(sum: int) -> int {
    0xffff - folded(sum % 0x1_0000_0000)
}

/// The Internet checksum of `s`.
pub open spec fn checksum_of(s: Seq<u8>) -> int {
    complement(word_sum(s) as int)
}

/// The sum of the pseudo header that goes before a TCP or UDP segment.
pub open spec fn pseudo_sum(source: Seq<u8>, destination: Seq<u8>, protocol: int, length: int) -> int {
    be16(source, 0) + be16(source, 2) + be16(destination, 0) + be16(destination, 2) + protocol + length
}

/// The checksum of a TCP or UDP segment; 1, which no sound segment has, where it is too long.
pub open spec fn transport_checksum_of(
    source: Seq<u8>,
    destination: Seq<u8>,
    protocol: int,
    segment: Seq<u8>,
) -> int {
    if segment.len() > 0xffff {
        1
    } else {
        complement(
            pseudo_sum(source, destination, protocol, segment.len() as int) + word_sum(segment),
        )
    }
}

/// The sum of the words of `bytes`, kept in 32 bits.
fn checksum_sum(bytes: &[u8]) -> (sum: u32)
    ensures
        sum == word_sum(bytes@) as int % 0x1_0000_0000,
{
    let n: usize = bytes.len();
    let mut sum: u32 = 0;
    let mut i: usize = 0;
    while n - i >= 2
        invariant
            n == bytes.len(),
            i <= n,
            i % 2 == 0,
            sum == words_to(bytes@, i as int) as int % 0x1_0000_0000,
        decreases n - i,
    {
        let word: u16 = get_be_u16(bytes, i);
        assert(words_to(bytes@, i + 2) == words_to(bytes@, i as int) + word);
        sum = sum.wrapping_add(word as u32);
        i += 2;
    }
    if i < n {
        sum = sum.wrapping_add(0x100 * (bytes[i] as u32));
    }
    sum
}

proof fn lemma_fold_step(sum: int)
    requires
        sum >= 0x1_0000,
    ensures
        folded(sum % 0x1_0000 + sum / 0x1_0000) == folded(sum),
        0 < sum % 0x1_0000 + sum / 0x1_0000 < sum,
{
    let q = sum / 0x1_0000;
    let next = sum % 0x1_0000 + q;
    assert(next == sum - 0xffff * q);
    assert((next - 1) % 0xffff == (sum - 1) % 0xffff) by {
        vstd::arithmetic::div_mod::lemma_mod_multiples_vanish(-q, sum - 1, 0xffff);
    }
}

/// Folds the carries of a sum and complements it.
fn finish_checksum(sum: u32) -> (checksum: u16)
    ensures
        checksum == 0xffff - folded(sum as int),
{
    let mut rest: u32 = sum;
    while rest >= 0x1_0000
        invariant
            folded(rest as int) == folded(sum as int),
        decreases rest,
    {
        proof {
            lemma_fold_step(rest as int);
        }
        rest = rest % 0x1_0000 + rest / 0x1_0000;
    }
    (0xffff - rest) as u16
}

/// The Internet checksum of `bytes`; 0 for bytes that hold their own checksum.
pub fn internet_checksum(bytes: &[u8]) -> (checksum: u16)
    ensures
        checksum == checksum_of(bytes@),
{
    finish_checksum(checksum_sum(bytes))
}

/// The checksum of a TCP or UDP segment between two addresses.
pub fn ipv4_transport_checksum(
    source: [u8; 4],
    destination: [u8; 4],
    protocol: u8,
    segment: &[u8],
) -> (checksum: u16)
    ensures
        checksum == transport_checksum_of(source@, destination@, protocol as int, segment@),
{
    if segment.len() > 0xffff {
        return 1;
    }
    let pseudo: u32 = get_be_u16(&source, 0) as u32 + get_be_u16(&source, 2) as u32 + get_be_u16(
        &destination,
        0,
    ) as u32 + get_be_u16(&destination, 2) as u32 + protocol as u32 + segment.len() as u32;
    let words: u32 = checksum_sum(segment);
    proof {
        lemma_words_bound(segment@, segment@.len() as int / 2 * 2);
        assert(word_sum(segment@) < 0x8000_0000);
        assert(words == word_sum(segment@));
    }
    let sum: u32 = pseudo + words;
    assert(sum as int % 0x1_0000_0000 == sum);
    finish_checksum(sum)
}

/// A sum of few words stays below 32 bits.
pub proof fn lemma_words_bound(s: Seq<u8>, n: int)
    requires
        0 <= n,
    ensures
        words_to(s, n) <= 0xffff * (n / 2),
    decreases n,
{
    if n >= 2 {
        lemma_words_bound(s, n - 2);
    }
}

/// Storing one word changes the sum by the difference.
pub proof fn lemma_words_change(a: Seq<u8>, b: Seq<u8>, at: int, n: int)
    requires
        same_outside(a, b, at, 2),
        0 <= at,
        at % 2 == 0,
        at + 2 <= a.len(),
        0 <= n <= a.len(),
        n % 2 == 0,
    ensures
        words_to(b, n) == words_to(a, n) + if at < n {
            be16(b, at) - be16(a, at)
        } else {
            0
        },
    decreases n,
{
    if n >= 2 {
        lemma_words_change(a, b, at, n - 2);
        if at != n - 2 {
            assert(b[n - 2] == a[n - 2] && b[n - 1] == a[n - 1]);
        }
    }
}

/// Words that agree sum up alike.
pub proof fn lemma_words_agree(a: Seq<u8>, b: Seq<u8>, n: int)
    requires
        0 <= n <= a.len(),
        n <= b.len(),
        n % 2 == 0,
        forall|i: int| 0 <= i < n ==> #[trigger] b[i] == a[i],
    ensures
        words_to(a, n) == words_to(b, n),
    decreases n,
{
    if n >= 2 {
        lemma_words_agree(a, b, n - 2);
    }
}

proof fn lemma_completed(sum: int, word: int)
    requires
        0 <= sum,
        0 <= word <= 0xffff,
        sum + word < 0x1_0000_0000,
        (sum + word) % 0xffff == 0,
        sum + word > 0,
    ensures
        complement(sum + word) == 0,
{
    let total = sum + word;
    assert((total - 1) % 0xffff == 0xfffe);
}

/// What completes a sum to a multiple of `0xffff`.
proof fn lemma_complement_completes(sum: int)
    requires
        0 <= sum < 0x1_0000_0000,
    ensures
        0 <= complement(sum) <= 0xffff,
        (sum + complement(sum)) % 0xffff == 0,
        sum + complement(sum) > 0,
{
    if sum > 0 {
        let f = folded(sum);
        assert(sum - f == (sum - 1) - (sum - 1) % 0xffff);
        assert((sum - 1) - (sum - 1) % 0xffff == (sum - 1) / 0xffff * 0xffff);
        assert((sum + 0xffff - f) % 0xffff == 0);
    }
}

/// Bytes that hold their own checksum, at an even place, verify: their checksum is zero.
pub proof fn stored_checksum_verifies(plain: Seq<u8>, stored: Seq<u8>, at: int)
    requires
        plain.len() <= 0xffff,
        0 <= at,
        at % 2 == 0,
        at + 2 <= plain.len(),
        be16(plain, at) == 0,
        same_outside(plain, stored, at, 2),
        be16(stored, at) == checksum_of(plain),
    ensures
        checksum_of(stored) == 0,
{
    let n = plain.len() as int / 2 * 2;
    lemma_words_change(plain, stored, at, n);
    lemma_words_bound(plain, n);
    lemma_complement_completes(word_sum(plain) as int);
    if plain.len() % 2 == 1 {
        assert(stored[plain.len() - 1] == plain[plain.len() - 1]);
    }
    assert(word_sum(stored) == word_sum(plain) + checksum_of(plain));
    lemma_completed(word_sum(plain) as int, checksum_of(plain));
}

/// The value that a transport checksum is stored as: an all-zero checksum is stored as all ones.
pub open spec fn stored_transport_checksum(checksum: int) -> int {
    if checksum == 0 {
        0xffff
    } else {
        checksum
    }
}

/// A segment that holds its own checksum, at an even place, verifies: its checksum is zero.
pub proof fn stored_transport_checksum_verifies(
    source: Seq<u8>,
    destination: Seq<u8>,
    protocol: u8,
    plain: Seq<u8>,
    stored: Seq<u8>,
    at: int,
)
    requires
        plain.len() <= 0xffff,
        0 <= at,
        at % 2 == 0,
        at + 2 <= plain.len(),
        be16(plain, at) == 0,
        same_outside(plain, stored, at, 2),
        be16(stored, at) == stored_transport_checksum(
            transport_checksum_of(source, destination, protocol as int, plain),
        ),
    ensures
        transport_checksum_of(source, destination, protocol as int, stored) == 0,
{
    let n = plain.len() as int / 2 * 2;
    lemma_words_change(plain, stored, at, n);
    lemma_words_bound(plain, n);
    if plain.len() % 2 == 1 {
        assert(stored[plain.len() - 1] == plain[plain.len() - 1]);
    }
    let sum = pseudo_sum(source, destination, protocol as int, plain.len() as int) + word_sum(plain);
    let word = be16(stored, at);
    lemma_complement_completes(sum);
    assert((sum + word) % 0xffff == 0) by {
        if complement(sum) == 0 {
            assert((sum + 0xffff) % 0xffff == sum % 0xffff);
        }
    }
    lemma_completed(sum, word);
}

/// Two words added, with the carry added back in.
pub open spec fn carry_added(a: int, b: int) -> int {
    if a + b > 0xffff {
        a + b - 0xffff
    } else {
        a + b
    }
}

proof fn lemma_word_appended(s: Seq<u8>, word: Seq<u8>, n: int)
    requires
        0 <= n <= s.len(),
        n % 2 == 0,
    ensures
        words_to(s + word, n) == words_to(s, n),
    decreases n,
{
    if n >= 2 {
        lemma_word_appended(s, word, n - 2);
        assert((s + word)[n - 2] == s[n - 2] && (s + word)[n - 1] == s[n - 1]);
    }
}

/// The Internet checksum is the complement of a sum that starts at zero, to which each pair of bytes is
/// added as a word, high byte first, with the carry added back in; a byte that is left over counts as if
/// a zero byte followed it.
pub proof fn the_checksum_adds_up_words(s: Seq<u8>, high: u8, low: u8)
    requires
        s.len() % 2 == 0,
        s.len() + 2 <= 0x1_0000 * 2,
    ensures
        checksum_of(Seq::<u8>::empty()) == 0xffff,
        0 <= checksum_of(s) <= 0xffff,
        checksum_of(s + seq![high, low]) == 0xffff - carry_added(
            0xffff - checksum_of(s),
            256 * high + low,
        ),
        checksum_of(s + seq![high]) == checksum_of(s + seq![high, 0u8]),
{
    let n = s.len() as int;
    let longer = s + seq![high, low];
    lemma_words_bound(s, n);
    lemma_word_appended(s, seq![high, low], n);
    lemma_word_appended(s, seq![high], n);
    lemma_word_appended(s, seq![high, 0u8], n);
    let sum = words_to(s, n) as int;
    let word = 256 * high + low;
    assert(word_sum(longer) == sum + word) by {
        assert(longer[n] == high && longer[n + 1] == low);
    }
    assert(word_sum(s + seq![high]) == sum + 256 * high) by {
        assert((s + seq![high])[n] == high);
    }
    assert(word_sum(s + seq![high, 0u8]) == sum + 256 * high) by {
        assert((s + seq![high, 0u8])[n] == high && (s + seq![high, 0u8])[n + 1] == 0u8);
    }
    assert(0 <= sum <= 0xffff * 0xffff);
    lemma_folded_sum(sum, word);
    assert(word_sum(Seq::<u8>::empty()) == 0);
}

proof fn lemma_folded_sum(sum: int, word: int)
    requires
        0 <= sum,
        0 <= word <= 0xffff,
    ensures
        folded(sum + word) == carry_added(folded(sum), word),
{
    if sum > 0 {
        let q = (sum - 1) / 0xffff;
        let r = (sum - 1) % 0xffff;
        assert(sum - 1 == q * 0xffff + r);
        assert(folded(sum) == r + 1);
        let total = sum + word - 1;
        if r + word < 0xffff {
            vstd::arithmetic::div_mod::lemma_fundamental_div_mod_converse(
                total,
                0xffff,
                q,
                r + word,
            );
        } else if r + word < 2 * 0xffff {
            vstd::arithmetic::div_mod::lemma_fundamental_div_mod_converse(
                total,
                0xffff,
                q + 1,
                r + word - 0xffff,
            );
        }
    }
}

proof fn lemma_words_shifted(head: Seq<u8>, s: Seq<u8>, n: int)
    requires
        head.len() == 12,
        0 <= n <= s.len(),
        n % 2 == 0,
    ensures
        words_to(head + s, 12 + n) == words_to(head, 12) + words_to(s, n),
    decreases n,
{
    if n >= 2 {
        lemma_words_shifted(head, s, n - 2);
        assert((head + s)[12 + n - 2] == s[n - 2] && (head + s)[12 + n - 1] == s[n - 1]);
    } else {
        lemma_word_appended(head, s, 12);
    }
}

/// The checksum of a TCP or UDP segment is the Internet checksum of the segment behind a pseudo header:
/// source, destination, a zero byte, the protocol, and the length of the segment, high byte first.
pub proof fn a_transport_checksum_covers_the_pseudo_header(
    source: Seq<u8>,
    destination: Seq<u8>,
    protocol: u8,
    segment: Seq<u8>,
)
    requires
        source.len() == 4,
        destination.len() == 4,
        segment.len() <= 0xffff,
    ensures
        transport_checksum_of(source, destination, protocol as int, segment) == checksum_of(
            source + destination + seq![0u8, protocol] + seq![
                (segment.len() / 256) as u8,
                (segment.len() % 256) as u8,
            ] + segment,
        ),
{
    let head = source + destination + seq![0u8, protocol] + seq![
        (segment.len() / 256) as u8,
        (segment.len() % 256) as u8,
    ];
    let n = segment.len() as int / 2 * 2;
    let whole = head + segment;
    assert(head.len() == 12);
    lemma_words_shifted(head, segment, n);
    assert(head[0] == source[0] && head[1] == source[1] && head[2] == source[2] && head[3]
        == source[3]);
    assert(head[4] == destination[0] && head[5] == destination[1] && head[6] == destination[2]
        && head[7] == destination[3]);
    assert(head[8] == 0u8 && head[9] == protocol);
    assert(head[10] == (segment.len() / 256) as u8 && head[11] == (segment.len() % 256) as u8);
    reveal_with_fuel(words_to, 8);
    assert(words_to(head, 12) == pseudo_sum(
        source,
        destination,
        protocol as int,
        segment.len() as int,
    ));
    assert(whole.len() / 2 * 2 == 12 + n);
    if segment.len() % 2 == 1 {
        assert(whole[whole.len() - 1] == segment[segment.len() - 1]);
    }
    assert(word_sum(whole) == words_to(head, 12) + word_sum(segment));
}

} // verus!

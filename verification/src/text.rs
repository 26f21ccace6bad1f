//! Lines, fields and numbers in texts.

use vstd::prelude::*;

verus! {

/// The characters of a text.
pub fn characters(text: &str) -> (characters: Vec<char>)
    ensures
        characters@ == text@,
{
    broadcast use vstd::string::axiom_spec_iter;

    let mut characters: Vec<char> = Vec::new();
    for c in it: text.chars()
        invariant
            characters@ == it.seq().take(it.index() as int),
            it.seq() == text@,
    {
        characters.push(c);
        assert(characters@ =~= it.seq().take(it.index() + 1));
    }
    assert(characters@ =~= text@);
    characters
}

/// Whether `part` is in `text` from `at` on.
pub open spec fn occurs_at(text: Seq<char>, part: Seq<char>, at: int) -> bool {
    0 <= at && at + part.len() <= text.len() && text.subrange(at, at + part.len()) == part
}

/// Whether `part` is in `text`.
pub open spec fn occurs(text: Seq<char>, part: Seq<char>) -> bool {
    exists|at: int| occurs_at(text, part, at)
}

/// Whether `part` is in `text` from `at` on.
fn starts_at(text: &[char], part: &[char], at: usize) -> (found: bool)
    requires
        at <= text@.len(),
    ensures
        found == occurs_at(text@, part@, at as int),
{
    if part.len() > text.len() - at {
        return false;
    }
    let mut i: usize = 0;
    while i < part.len()
        invariant
            i <= part@.len(),
            at + part@.len() <= text.len(),
            forall|j: int| 0 <= j < i ==> text@[at + j] == part@[j],
        decreases part.len() - i,
    {
        if text[at + i] != part[i] {
            assert(text@.subrange(at as int, at + part@.len())[i as int] != part@[i as int]);
            return false;
        }
        i += 1;
    }
    assert(text@.subrange(at as int, at + part@.len()) =~= part@);
    true
}

/// Where `part` is first in `text`.
pub fn position(text: &[char], part: &[char]) -> (at: Option<usize>)
    ensures
        match at {
            Some(at) => occurs_at(text@, part@, at as int) && forall|i: int|
                0 <= i < at ==> !#[trigger] occurs_at(text@, part@, i),
            None => !occurs(text@, part@),
        },
{
    let mut at: usize = 0;
    loop
        invariant
            at <= text@.len(),
            forall|i: int| 0 <= i < at ==> !#[trigger] occurs_at(text@, part@, i),
        decreases text.len() - at,
    {
        if starts_at(text, part, at) {
            return Some(at);
        }
        if at == text.len() {
            assert forall|i: int| !#[trigger] occurs_at(text@, part@, i) by {}
            return None;
        }
        at += 1;
    }
}

/// Whether `part` is in `text`.
pub fn contains(text: &[char], part: &str) -> (found: bool)
    ensures
        found == occurs(text@, part@),
{
    let part = characters(part);
    match position(text, part.as_slice()) {
        Some(at) => {
            assert(occurs_at(text@, part@, at as int));
            true
        },
        None => false,
    }
}

/// What several texts hold.
pub open spec fn texts(parts: Seq<&str>) -> Seq<Seq<char>> {
    parts.map_values(|part: &str| part@)
}

/// The first of the parts from `i` on that is not in `text`.
pub open spec fn first_missing(text: Seq<char>, parts: Seq<Seq<char>>, i: int) -> Option<usize>
    decreases parts.len() - i,
{
    if i < 0 || i >= parts.len() {
        None
    } else if !occurs(text, parts[i]) {
        Some(i as usize)
    } else {
        first_missing(text, parts, i + 1)
    }
}

/// The first of the parts that is not in `text`.
pub fn missing_part(text: &[char], parts: &[&str]) -> (missing: Option<usize>)
    ensures
        missing == first_missing(text@, texts(parts@), 0),
{
    let mut i: usize = 0;
    while i < parts.len()
        invariant
            i <= parts@.len(),
            first_missing(text@, texts(parts@), 0) == first_missing(
                text@,
                texts(parts@),
                i as int,
            ),
        decreases parts.len() - i,
    {
        if !contains(text, parts[i]) {
            return Some(i);
        }
        i += 1;
    }
    None
}

/// Where the first line break from `at` on is, or the end.
pub open spec fn line_end(text: Seq<char>, at: int) -> int
    decreases text.len() - at,
{
    if at < 0 || at >= text.len() || text[at] == '\n' {
        at
    } else {
        line_end(text, at + 1)
    }
}

proof fn lemma_line_end(text: Seq<char>, at: int)
    requires
        0 <= at <= text.len(),
    ensures
        at <= line_end(text, at) <= text.len(),
        line_end(text, at) < text.len() ==> text[line_end(text, at)] == '\n',
    decreases text.len() - at,
{
    if at < text.len() && text[at] != '\n' {
        lemma_line_end(text, at + 1);
    }
}

/// The line from `at` on: up to the line break, without a carriage return before it.
pub open spec fn line_at(text: Seq<char>, at: int) -> Seq<char> {
    let end = line_end(text, at);
    if at < end < text.len() && text[end - 1] == '\r' {
        text.subrange(at, end - 1)
    } else {
        text.subrange(at, end)
    }
}

/// The lines from `at` on.
pub open spec fn lines_from(text: Seq<char>, at: int) -> Seq<Seq<char>>
    decreases text.len() - at,
    when 0 <= at <= text.len()
    via lines_from_decreases
{
    if at >= text.len() {
        Seq::empty()
    } else {
        seq![line_at(text, at)] + lines_from(
            text,
            if line_end(text, at) < text.len() {
                line_end(text, at) + 1
            } else {
                text.len() as int
            },
        )
    }
}

#[via_fn]
proof fn lines_from_decreases(text: Seq<char>, at: int) {
    lemma_line_end(text, at);
}

/// The lines of a text.
pub open spec fn lines_of(text: Seq<char>) -> Seq<Seq<char>> {
    lines_from(text, 0)
}

/// What several texts hold.
pub open spec fn views(parts: Seq<Vec<char>>) -> Seq<Seq<char>> {
    parts.map_values(|part: Vec<char>| part@)
}

/// The part of a text from `from` up to `to`.
fn copy_part(text: &[char], from: usize, to: usize) -> (part: Vec<char>)
    requires
        from <= to <= text@.len(),
    ensures
        part@ == text@.subrange(from as int, to as int),
{
    let mut part: Vec<char> = Vec::new();
    let mut i: usize = from;
    while i < to
        invariant
            from <= i <= to <= text@.len(),
            part@ == text@.subrange(from as int, i as int),
        decreases to - i,
    {
        part.push(text[i]);
        i += 1;
        assert(part@ =~= text@.subrange(from as int, i as int));
    }
    part
}

/// The lines of a text.
pub fn lines(text: &[char]) -> (lines: Vec<Vec<char>>)
    ensures
        views(lines@) == lines_of(text@),
{
    let mut lines: Vec<Vec<char>> = Vec::new();
    let mut at: usize = 0;
    assert(views(lines@) + lines_from(text@, 0) =~= lines_of(text@));
    while at < text.len()
        invariant
            at <= text@.len(),
            views(lines@) + lines_from(text@, at as int) == lines_of(text@),
        decreases text.len() - at,
    {
        let mut end: usize = at;
        while end < text.len() && text[end] != '\n'
            invariant
                at <= end <= text@.len(),
                line_end(text@, at as int) == line_end(text@, end as int),
            decreases text.len() - end,
        {
            end += 1;
        }
        proof {
            lemma_line_end(text@, at as int);
        }
        let ghost before = views(lines@);
        let line_stop: usize = if at < end && end < text.len() && text[end - 1] == '\r' {
            end - 1
        } else {
            end
        };
        let line = copy_part(text, at, line_stop);
        let next: usize = if end < text.len() {
            end + 1
        } else {
            end
        };
        let ghost rest = lines_from(text@, next as int);
        assert(lines_from(text@, at as int) == seq![line@] + rest);
        lines.push(line);
        assert(views(lines@) =~= before.push(line@));
        assert(views(lines@) + rest =~= before + (seq![line@] + rest));
        at = next;
    }
    assert(views(lines@) + Seq::<Seq<char>>::empty() =~= views(lines@));
    lines
}

/// Whether a character is white space.
pub open spec fn blank(c: char) -> bool {
    let n = c as u32;
    9 <= n <= 13 || n == 0x20 || n == 0x85 || n == 0xa0 || n == 0x1680 || 0x2000 <= n <= 0x200a || n
        == 0x2028 || n == 0x2029 || n == 0x202f || n == 0x205f || n == 0x3000
}

/// Whether a character is white space.
fn is_blank(c: char) -> (result: bool)
    ensures
        result == blank(c),
{
    let n: u32 = c as u32;
    9 <= n && n <= 13 || n == 0x20 || n == 0x85 || n == 0xa0 || n == 0x1680 || 0x2000 <= n && n
        <= 0x200a || n == 0x2028 || n == 0x2029 || n == 0x202f || n == 0x205f || n == 0x3000
}

/// Where the run of characters from `at` on that are blank, or that are not, ends.
pub open spec fn run_end(text: Seq<char>, at: int, of_blanks: bool) -> int
    decreases text.len() - at,
{
    if at < 0 || at >= text.len() || blank(text[at]) != of_blanks {
        at
    } else {
        run_end(text, at + 1, of_blanks)
    }
}

proof fn lemma_run_end(text: Seq<char>, at: int, of_blanks: bool)
    requires
        0 <= at <= text.len(),
    ensures
        at <= run_end(text, at, of_blanks) <= text.len(),
        run_end(text, at, of_blanks) < text.len() ==> blank(text[run_end(text, at, of_blanks)])
            != of_blanks,
        at < text.len() && blank(text[at]) == of_blanks ==> at < run_end(text, at, of_blanks),
    decreases text.len() - at,
{
    if at < text.len() && blank(text[at]) == of_blanks {
        lemma_run_end(text, at + 1, of_blanks);
    }
}

/// The fields from `at` on: the runs of characters between white space.
pub open spec fn fields_from(text: Seq<char>, at: int) -> Seq<Seq<char>>
    decreases text.len() - at,
    when 0 <= at <= text.len()
    via fields_from_decreases
{
    let start = run_end(text, at, true);
    let end = run_end(text, start, false);
    if start >= text.len() {
        Seq::empty()
    } else {
        seq![text.subrange(start, end)] + fields_from(text, end)
    }
}

#[via_fn]
proof fn fields_from_decreases(text: Seq<char>, at: int) {
    lemma_run_end(text, at, true);
    lemma_run_end(text, run_end(text, at, true), false);
}

/// The fields of a text: the runs of characters between white space.
pub open spec fn fields_of(text: Seq<char>) -> Seq<Seq<char>> {
    fields_from(text, 0)
}

fn end_of_run(text: &[char], at: usize, of_blanks: bool) -> (end: usize)
    requires
        at <= text@.len(),
    ensures
        end == run_end(text@, at as int, of_blanks),
        at <= end <= text@.len(),
{
    let mut end: usize = at;
    while end < text.len() && is_blank(text[end]) == of_blanks
        invariant
            at <= end <= text@.len(),
            run_end(text@, at as int, of_blanks) == run_end(text@, end as int, of_blanks),
        decreases text.len() - end,
    {
        end += 1;
    }
    end
}

/// The fields of a text.
pub fn fields(text: &[char]) -> (fields: Vec<Vec<char>>)
    ensures
        views(fields@) == fields_of(text@),
{
    let mut fields: Vec<Vec<char>> = Vec::new();
    let mut at: usize = 0;
    assert(views(fields@) + fields_from(text@, 0) =~= fields_of(text@));
    loop
        invariant
            at <= text@.len(),
            views(fields@) + fields_from(text@, at as int) == fields_of(text@),
        decreases text.len() - at,
    {
        proof {
            lemma_run_end(text@, at as int, true);
            lemma_run_end(text@, run_end(text@, at as int, true), false);
        }
        let start: usize = end_of_run(text, at, true);
        if start == text.len() {
            assert(views(fields@) + Seq::<Seq<char>>::empty() =~= views(fields@));
            return fields;
        }
        let end: usize = end_of_run(text, start, false);
        let ghost before = views(fields@);
        let ghost rest = fields_from(text@, end as int);
        let field = copy_part(text, start, end);
        assert(fields_from(text@, at as int) == seq![field@] + rest);
        fields.push(field);
        assert(views(fields@) =~= before.push(field@));
        assert(views(fields@) + rest =~= before + (seq![field@] + rest));
        at = end;
    }
}

/// What follows `prefix` in a text that starts with it.
pub open spec fn without_prefix(text: Seq<char>, prefix: Seq<char>) -> Option<Seq<char>> {
    if occurs_at(text, prefix, 0) {
        Some(text.skip(prefix.len() as int))
    } else {
        None
    }
}

/// What follows `prefix` in a text that starts with it.
pub fn strip_prefix(text: &[char], prefix: &str) -> (rest: Option<Vec<char>>)
    ensures
        match rest {
            Some(rest) => without_prefix(text@, prefix@) == Some(rest@),
            None => without_prefix(text@, prefix@) is None,
        },
{
    let prefix = characters(prefix);
    if starts_at(text, prefix.as_slice(), 0) {
        let rest = copy_part(text, prefix.len(), text.len());
        assert(rest@ =~= text@.skip(prefix@.len() as int));
        Some(rest)
    } else {
        None
    }
}

/// The number that the first `n` characters are the digits of.
pub open spec fn digits_value(digits: Seq<char>, n: nat) -> Option<nat>
    decreases n,
{
    if n == 0 {
        Some(0)
    } else {
        match digits_value(digits, (n - 1) as nat) {
            Some(value) => if '0' <= digits[n - 1] <= '9' {
                Some((value * 10 + (digits[n - 1] as u32 - '0' as u32)) as nat)
            } else {
                None
            },
            None => None,
        }
    }
}

/// The number that characters are the digits of.
pub open spec fn whole_value(digits: Seq<char>) -> Option<nat> {
    if digits.len() == 0 {
        None
    } else {
        digits_value(digits, digits.len())
    }
}

/// The number up to `most` that a text says, with a sign or without.
pub open spec fn unsigned_value(text: Seq<char>, most: nat) -> Option<nat> {
    let value = if text.len() > 0 && text[0] == '+' {
        whole_value(text.skip(1))
    } else {
        whole_value(text)
    };
    match value {
        Some(value) => if value <= most {
            Some(value)
        } else {
            None
        },
        None => None,
    }
}

proof fn lemma_digits_grow(digits: Seq<char>, n: nat, m: nat)
    requires
        n <= m,
        digits_value(digits, m) is Some,
    ensures
        digits_value(digits, n) is Some,
        digits_value(digits, n).unwrap() <= digits_value(digits, m).unwrap(),
    decreases m,
{
    if n < m {
        lemma_digits_grow(digits, n, (m - 1) as nat);
    }
}

/// The number up to `most` that characters from `from` on are the digits of.
fn parse_digits(text: &[char], from: usize, most: u64) -> (value: Option<u64>)
    requires
        from <= text@.len(),
    ensures
        match whole_value(text@.skip(from as int)) {
            Some(n) => if n <= most {
                value is Some && value.unwrap() == n
            } else {
                value is None
            },
            None => value is None,
        },
{
    let ghost digits = text@.skip(from as int);
    if from == text.len() {
        return None;
    }
    let mut value: u64 = 0;
    let mut i: usize = from;
    while i < text.len()
        invariant
            from <= i <= text@.len(),
            from < text@.len(),
            digits == text@.skip(from as int),
            value <= most,
            digits_value(digits, (i - from) as nat) == Some(value as nat),
        decreases text.len() - i,
    {
        let c: char = text[i];
        proof {
            assert(digits[i - from] == c);
            if digits_value(digits, digits.len()) is Some {
                lemma_digits_grow(digits, (i - from + 1) as nat, digits.len());
            }
        }
        if c < '0' || c > '9' {
            return None;
        }
        let digit: u64 = (c as u32 - '0' as u32) as u64;
        let next: u128 = value as u128 * 10 + digit as u128;
        if next > most as u128 {
            return None;
        }
        value = next as u64;
        i += 1;
    }
    Some(value)
}

/// The number up to `most` that a text says.
pub fn parse_unsigned(text: &[char], most: u64) -> (value: Option<u64>)
    ensures
        match unsigned_value(text@, most as nat) {
            Some(n) => value is Some && value.unwrap() == n,
            None => value is None,
        },
{
    if text.len() > 0 && text[0] == '+' {
        parse_digits(text, 1, most)
    } else {
        assert(text@.skip(0) =~= text@);
        parse_digits(text, 0, most)
    }
}

/// The number of 32 bits that a text says, with a sign or without.
pub open spec fn signed_value(text: Seq<char>) -> Option<int> {
    if text.len() > 0 && text[0] == '-' {
        match whole_value(text.skip(1)) {
            Some(value) => if value <= 0x8000_0000 {
                Some(-(value as int))
            } else {
                None
            },
            None => None,
        }
    } else {
        match unsigned_value(text, 0x7fff_ffff) {
            Some(value) => Some(value as int),
            None => None,
        }
    }
}

/// The number of 32 bits that a text says.
pub fn parse_signed(text: &[char]) -> (value: Option<i32>)
    ensures
        match signed_value(text@) {
            Some(n) => value is Some && value.unwrap() == n,
            None => value is None,
        },
{
    if text.len() > 0 && text[0] == '-' {
        match parse_digits(text, 1, 0x8000_0000) {
            Some(value) => Some((0 - value as i64) as i32),
            None => None,
        }
    } else {
        match parse_unsigned(text, 0x7fff_ffff) {
            Some(value) => Some(value as i32),
            None => None,
        }
    }
}

/// A text behind another has its lines where they are.
proof fn lemma_lines_behind(a: Seq<char>, b: Seq<char>, k: int)
    requires
        0 <= k <= b.len(),
    ensures
        line_end(a + b, a.len() + k) == a.len() + line_end(b, k),
        lines_from(a + b, a.len() + k) == lines_from(b, k),
    decreases b.len() - k,
{
    let text = a + b;
    lemma_line_end_behind(a, b, k);
    lemma_line_end(b, k);
    if k < b.len() {
        let end = line_end(b, k);
        assert(line_at(text, a.len() + k) =~= line_at(b, k)) by {
            if k < end < b.len() {
                assert(text[a.len() + end - 1] == b[end - 1]);
            }
        }
        if end < b.len() {
            lemma_lines_behind(a, b, end + 1);
        } else {
            lemma_lines_behind(a, b, b.len() as int);
        }
    }
}

proof fn lemma_line_end_behind(a: Seq<char>, b: Seq<char>, k: int)
    requires
        0 <= k <= b.len(),
    ensures
        line_end(a + b, a.len() + k) == a.len() + line_end(b, k),
    decreases b.len() - k,
{
    if k < b.len() {
        assert((a + b)[a.len() + k] == b[k]);
        if b[k] != '\n' {
            lemma_line_end_behind(a, b, k + 1);
        }
    }
}

/// The first line of a text without a line feed ends where the text does.
proof fn lemma_first_line(text: Seq<char>, at: int, end: int)
    requires
        0 <= at <= end <= text.len(),
        forall|i: int| at <= i < end ==> #[trigger] text[i] != '\n',
        end < text.len() ==> text[end] == '\n',
    ensures
        line_end(text, at) == end,
    decreases end - at,
{
    if at < end {
        assert(text[at] != '\n');
        lemma_first_line(text, at + 1, end);
    }
}

/// A text is its lines: what stands before the first line feed, without a carriage return at its end, and
/// then the lines of what stands behind.
pub proof fn a_text_is_its_lines(line: Seq<char>, rest: Seq<char>)
    requires
        forall|i: int| 0 <= i < line.len() ==> #[trigger] line[i] != '\n',
    ensures
        lines_of(Seq::<char>::empty()).len() == 0,
        line.len() > 0 ==> lines_of(line) == seq![line],
        line.len() == 0 || line.last() != '\r' ==> lines_of(line + seq!['\n'] + rest) == seq![line]
            + lines_of(rest),
        lines_of(line + seq!['\r', '\n'] + rest) == seq![line] + lines_of(rest),
{
    let n = line.len() as int;
    if n > 0 {
        lemma_first_line(line, 0, n);
        assert(line.subrange(0, n) =~= line);
        assert(lines_from(line, n).len() == 0);
        assert(lines_of(line) =~= seq![line]);
    }
    let plain = line + seq!['\n'];
    let text = plain + rest;
    assert(forall|i: int| 0 <= i < n ==> text[i] == line[i]);
    assert(text[n] == '\n');
    lemma_first_line(text, 0, n);
    lemma_lines_behind(plain, rest, 0);
    if n == 0 || line.last() != '\r' {
        assert(text.subrange(0, n) =~= line);
        assert(line_at(text, 0) == line);
    }
    let returned = line + seq!['\r', '\n'];
    let other = returned + rest;
    assert(forall|i: int| 0 <= i < n ==> other[i] == line[i]);
    assert(other[n] == '\r' && other[n + 1] == '\n');
    lemma_first_line(other, 0, n + 1);
    lemma_lines_behind(returned, rest, 0);
    assert(other.subrange(0, n) =~= line);
    assert(line_at(other, 0) == line);
}

proof fn lemma_run_behind(a: Seq<char>, b: Seq<char>, k: int, of_blanks: bool)
    requires
        0 <= k <= b.len(),
    ensures
        run_end(a + b, a.len() + k, of_blanks) == a.len() + run_end(b, k, of_blanks),
    decreases b.len() - k,
{
    if k < b.len() {
        assert((a + b)[a.len() + k] == b[k]);
        if blank(b[k]) == of_blanks {
            lemma_run_behind(a, b, k + 1, of_blanks);
        }
    }
}

/// A text behind another has its fields where they are.
proof fn lemma_fields_behind(a: Seq<char>, b: Seq<char>, k: int)
    requires
        0 <= k <= b.len(),
    ensures
        fields_from(a + b, a.len() + k) == fields_from(b, k),
    decreases b.len() - k,
{
    let text = a + b;
    lemma_run_behind(a, b, k, true);
    lemma_run_end(b, k, true);
    let start = run_end(b, k, true);
    lemma_run_behind(a, b, start, false);
    lemma_run_end(b, start, false);
    let end = run_end(b, start, false);
    if start < b.len() {
        assert(text.subrange(a.len() + start, a.len() + end) =~= b.subrange(start, end));
        lemma_fields_behind(a, b, end);
    }
}

proof fn lemma_run(text: Seq<char>, at: int, end: int, of_blanks: bool)
    requires
        0 <= at <= end <= text.len(),
        forall|i: int| at <= i < end ==> blank(#[trigger] text[i]) == of_blanks,
        end < text.len() ==> blank(text[end]) != of_blanks,
    ensures
        run_end(text, at, of_blanks) == end,
    decreases end - at,
{
    if at < end {
        assert(blank(text[at]) == of_blanks);
        lemma_run(text, at + 1, end, of_blanks);
    }
}

/// A line is its fields: each a run of characters that are not blank, and the blanks between them are
/// passed over.
pub proof fn a_line_is_its_fields(word: Seq<char>, c: char, rest: Seq<char>)
    requires
        word.len() > 0,
        forall|i: int| 0 <= i < word.len() ==> !blank(#[trigger] word[i]),
        blank(c),
    ensures
        fields_of(Seq::<char>::empty()).len() == 0,
        fields_of(word) == seq![word],
        fields_of(word + seq![c] + rest) == seq![word] + fields_of(seq![c] + rest),
        fields_of(seq![c] + rest) == fields_of(rest),
        blank(' ') && blank('\t') && !blank('0') && !blank('a') && !blank('='),
{
    let n = word.len() as int;
    lemma_run(word, 0, 0, true);
    lemma_run(word, 0, n, false);
    assert(word.subrange(0, n) =~= word);
    lemma_run(word, n, n, true);
    assert(fields_from(word, n).len() == 0);
    assert(fields_of(word) =~= seq![word]);
    let spaced = seq![c] + rest;
    let text = word + spaced;
    assert(text =~= word + seq![c] + rest);
    assert(forall|i: int| 0 <= i < n ==> text[i] == word[i]);
    assert(text[n] == c);
    lemma_run(text, 0, 0, true);
    lemma_run(text, 0, n, false);
    assert(text.subrange(0, n) =~= word);
    lemma_fields_behind(word, spaced, 0);
    lemma_fields_behind(seq![c], rest, 0);
    assert(spaced[0] == c);
    assert(run_end(spaced, 0, true) == run_end(spaced, 1, true));
    assert(fields_from(spaced, 0) == fields_from(spaced, 1));
}

proof fn lemma_same_value(a: Seq<char>, b: Seq<char>, n: nat)
    requires
        n <= a.len(),
        n <= b.len(),
        forall|i: int| 0 <= i < n ==> a[i] == b[i],
    ensures
        digits_value(a, n) == digits_value(b, n),
    decreases n,
{
    if n > 0 {
        lemma_same_value(a, b, (n - 1) as nat);
    }
}

/// A number is read digit by digit, each one more makes ten times as much and itself; what is no digit
/// makes no number.
pub proof fn a_whole_number_is_read_digit_by_digit(digits: Seq<char>, c: char)
    ensures
        whole_value(Seq::<char>::empty()) is None,
        whole_value(seq![c]) == if 48 <= c as int <= 57 {
            Some((c as int - 48) as nat)
        } else {
            None
        },
        digits.len() > 0 ==> whole_value(digits.push(c)) == match whole_value(digits) {
            Some(value) => if 48 <= c as int <= 57 {
                Some((value * 10 + (c as int - 48)) as nat)
            } else {
                None
            },
            None => None,
        },
{
    reveal_with_fuel(digits_value, 2);
    let longer = digits.push(c);
    lemma_same_value(digits, longer, digits.len());
    assert(longer[digits.len() as int] == c);
}

/// A number may have a plus before it, or where it may be negative a minus; it is taken while it fits.
pub proof fn a_number_may_have_a_sign(text: Seq<char>, most: nat)
    requires
        text.len() > 0,
        text[0] != '+',
        text[0] != '-',
    ensures
        unsigned_value(text, most) == match whole_value(text) {
            Some(value) => if value <= most {
                Some(value)
            } else {
                None
            },
            None => None,
        },
        unsigned_value(seq!['+'] + text, most) == unsigned_value(text, most),
        signed_value(text) == match whole_value(text) {
            Some(value) => if value <= 2147483647 {
                Some(value as int)
            } else {
                None
            },
            None => None,
        },
        signed_value(seq!['-'] + text) == match whole_value(text) {
            Some(value) => if value <= 2147483648 {
                Some(-(value as int))
            } else {
                None
            },
            None => None,
        },
{
    assert((seq!['+'] + text).skip(1) =~= text);
    assert((seq!['-'] + text).skip(1) =~= text);
}

} // verus!

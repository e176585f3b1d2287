//! Character-level scanning: white space, words, decimal numbers.
//!
//! Every scanner is stated over a sequence of characters and a position in
//! it, so that the grammar built on top can be read as plain mathematics.

use vstd::prelude::*;

verus! {

/// Characters with the Unicode `White_Space` property.
pub open spec fn is_space(c: char) -> bool {
    let u = c as u32;
    ||| 0x09 <= u <= 0x0D
    ||| u == 0x20
    ||| u == 0x85
    ||| u == 0xA0
    ||| u == 0x1680
    ||| 0x2000 <= u <= 0x200A
    ||| u == 0x2028
    ||| u == 0x2029
    ||| u == 0x202F
    ||| u == 0x205F
    ||| u == 0x3000
}

/// The ASCII decimal digits.
pub open spec fn is_digit(c: char) -> bool {
    '0' <= c <= '9'
}

/// The value of a decimal digit; zero for any other character.
pub open spec fn digit_value(c: char) -> nat {
    if is_digit(c) {
        (c as u32 - '0' as u32) as nat
    } else {
        0
    }
}

/// The first position at or after `from` that holds no white space, or the
/// end of the sequence.
pub open spec fn skip_spaces(s: Seq<char>, from: int) -> int
    decreases s.len() - from,
{
    if 0 <= from < s.len() && is_space(s[from]) {
        skip_spaces(s, from + 1)
    } else {
        from
    }
}

/// The first position at or after `from` that holds white space, or the end
/// of the sequence.
pub open spec fn skip_word(s: Seq<char>, from: int) -> int
    decreases s.len() - from,
{
    if 0 <= from < s.len() && !is_space(s[from]) {
        skip_word(s, from + 1)
    } else {
        from
    }
}

/// The first position at or after `from` that holds `c`, or the end of the
/// sequence.
pub open spec fn find_char(s: Seq<char>, c: char, from: int) -> int
    decreases s.len() - from,
{
    if 0 <= from < s.len() && s[from] != c {
        find_char(s, c, from + 1)
    } else {
        from
    }
}

/// The position just after the last character before `to` that is not white
/// space, or zero.
pub open spec fn trim_end(s: Seq<char>, to: int) -> int
    decreases to,
{
    if 0 < to <= s.len() && is_space(s[to - 1]) {
        trim_end(s, to - 1)
    } else {
        to
    }
}

/// The sequence without its leading and trailing white space.
pub open spec fn trimmed(s: Seq<char>) -> Seq<char> {
    let start = skip_spaces(s, 0);
    let end = trim_end(s, s.len() as int);
    if start < end {
        s.subrange(start, end)
    } else {
        Seq::empty()
    }
}

/// Where the `k`-th word separated by white space starts and ends. A start
/// at the end of the sequence means that there is no such word.
pub open spec fn word_bounds(s: Seq<char>, k: nat) -> (int, int)
    decreases k,
{
    let from = if k == 0 {
        0
    } else {
        word_bounds(s, (k - 1) as nat).1
    };
    let start = skip_spaces(s, from);
    (start, skip_word(s, start))
}

/// The `k`-th word separated by white space, counted from zero.
pub open spec fn word(s: Seq<char>, k: nat) -> Option<Seq<char>> {
    let (start, end) = word_bounds(s, k);
    if 0 <= start < end <= s.len() {
        Some(s.subrange(start, end))
    } else {
        None
    }
}

/// The number that a run of decimal digits stands for.
pub open spec fn digits_value(s: Seq<char>) -> nat
    decreases s.len(),
{
    if s.len() == 0 {
        0
    } else {
        digits_value(s.drop_last()) * 10 + digit_value(s.last())
    }
}

/// Whether every character is a decimal digit.
pub open spec fn all_digits(s: Seq<char>) -> bool {
    forall|i: int| 0 <= i < s.len() ==> is_digit(#[trigger] s[i])
}

/// The text after its leading `+`, if it has one.
pub open spec fn without_plus(s: Seq<char>) -> Seq<char> {
    if s.len() > 0 && s[0] == '+' {
        s.subrange(1, s.len() as int)
    } else {
        s
    }
}

/// The byte written as an optional `+` and at least one decimal digit;
/// nothing when the text has another shape or the number exceeds 255.
pub open spec fn decimal_u8(s: Seq<char>) -> Option<u8> {
    let digits = without_plus(s);
    if digits.len() > 0 && all_digits(digits) && digits_value(digits) <= 255 {
        Some(digits_value(digits) as u8)
    } else {
        None
    }
}

/// The words of `s` from `from` on, each after a single space, appended to
/// `acc`; the first word of all is appended without the space.
pub open spec fn join_words(s: Seq<char>, from: int, acc: Seq<char>) -> Seq<char>
    decreases s.len() - from,
    via join_words_decreases
{
    let start = skip_spaces(s, from);
    if from < 0 || from > s.len() || start >= s.len() {
        acc
    } else {
        let end = skip_word(s, start);
        let w = s.subrange(start, end);
        join_words(
            s,
            end,
            if acc.len() == 0 {
                w
            } else {
                acc + seq![' '] + w
            },
        )
    }
}

/// Each word that is joined ends after the place where the search for it
/// began.
#[via_fn]
proof fn join_words_decreases(s: Seq<char>, from: int, acc: Seq<char>) {
    if 0 <= from <= s.len() {
        lemma_skip_spaces_bounds(s, from);
        let start = skip_spaces(s, from);
        if start < s.len() {
            lemma_skip_word_bounds(s, start);
        }
    }
}

/// The words of `s`, separated by single spaces.
pub open spec fn squeezed(s: Seq<char>) -> Seq<char> {
    join_words(s, 0, Seq::empty())
}

/// Whether `s` begins with `prefix`.
pub open spec fn has_prefix(s: Seq<char>, prefix: Seq<char>) -> bool {
    prefix.len() <= s.len() && s.subrange(0, prefix.len() as int) == prefix
}

/// Whether a character is white space.
pub fn is_whitespace(c: char) -> (b: bool)
    ensures
        b == is_space(c),
{
    let u: u32 = c as u32;
    (0x09 <= u && u <= 0x0D) || u == 0x20 || u == 0x85 || u == 0xA0 || u == 0x1680 || (0x2000 <= u
        && u <= 0x200A) || u == 0x2028 || u == 0x2029 || u == 0x202F || u == 0x205F || u == 0x3000
}

/// The characters of a string, one element each.
pub fn chars_of(s: &str) -> (v: Vec<char>)
    ensures
        v@ == s@,
{
    let mut v: Vec<char> = Vec::new();
    for c in it: s.chars()
        invariant
            v@ == s@.take(it.index() as int),
            it.seq() == s@,
    {
        v.push(c);
    }
    v
}

/// The characters of `v` from `from` up to `to`, as a vector of their own.
pub fn copy_range(v: &Vec<char>, from: usize, to: usize) -> (out: Vec<char>)
    requires
        from <= to <= v.len(),
    ensures
        out@ == v@.subrange(from as int, to as int),
{
    let mut out: Vec<char> = Vec::new();
    let mut i: usize = from;
    while i < to
        invariant
            from <= i <= to <= v.len(),
            out@ == v@.subrange(from as int, i as int),
        decreases to - i,
    {
        out.push(v[i]);
        i += 1;
    }
    out
}

/// `String::push` of the standard library: the string afterwards is the
/// string before with the one character appended.
#[verifier::external_body]
fn push_char(s: &mut String, c: char)
    ensures
        final(s)@ == old(s)@.push(c),
{
    s.push(c)
}

/// The string made of the characters of `v`.
pub fn string_of(v: &Vec<char>) -> (s: String)
    ensures
        s@ == v@,
{
    let mut s = String::new();
    let mut i: usize = 0;
    while i < v.len()
        invariant
            i <= v.len(),
            s@ == v@.take(i as int),
        decreases v.len() - i,
    {
        push_char(&mut s, v[i]);
        i += 1;
    }
    s
}

/// Passes over the white space at `from`.
pub fn scan_spaces(v: &Vec<char>, from: usize) -> (i: usize)
    requires
        from <= v.len(),
    ensures
        i == skip_spaces(v@, from as int),
        from <= i <= v.len(),
{
    let mut i: usize = from;
    while i < v.len() && is_whitespace(v[i])
        invariant
            from <= i <= v.len(),
            skip_spaces(v@, from as int) == skip_spaces(v@, i as int),
        decreases v.len() - i,
    {
        i += 1;
    }
    i
}

/// Passes over the word at `from`.
pub fn scan_word(v: &Vec<char>, from: usize) -> (i: usize)
    requires
        from <= v.len(),
    ensures
        i == skip_word(v@, from as int),
        from <= i <= v.len(),
{
    let mut i: usize = from;
    while i < v.len() && !is_whitespace(v[i])
        invariant
            from <= i <= v.len(),
            skip_word(v@, from as int) == skip_word(v@, i as int),
        decreases v.len() - i,
    {
        i += 1;
    }
    i
}

/// Finds the first `c` at or after `from`.
pub fn scan_char(v: &Vec<char>, c: char, from: usize) -> (i: usize)
    requires
        from <= v.len(),
    ensures
        i == find_char(v@, c, from as int),
        from <= i <= v.len(),
{
    let mut i: usize = from;
    while i < v.len() && v[i] != c
        invariant
            from <= i <= v.len(),
            find_char(v@, c, from as int) == find_char(v@, c, i as int),
        decreases v.len() - i,
    {
        i += 1;
    }
    i
}

/// Passes backwards over the white space that ends at `to`.
pub fn scan_trim_end(v: &Vec<char>, to: usize) -> (i: usize)
    requires
        to <= v.len(),
    ensures
        i == trim_end(v@, to as int),
        i <= to,
{
    let mut i: usize = to;
    while i > 0 && is_whitespace(v[i - 1])
        invariant
            i <= to <= v.len(),
            trim_end(v@, to as int) == trim_end(v@, i as int),
        decreases i,
    {
        i -= 1;
    }
    i
}

/// A copy of `v` without its leading and trailing white space.
pub fn trim(v: &Vec<char>) -> (out: Vec<char>)
    ensures
        out@ == trimmed(v@),
{
    let start = scan_spaces(v, 0);
    let end = scan_trim_end(v, v.len());
    if start < end {
        copy_range(v, start, end)
    } else {
        Vec::new()
    }
}

/// The bounds of the first word at or after `from`.
pub fn next_word(v: &Vec<char>, from: usize) -> (bounds: (usize, usize))
    requires
        from <= v.len(),
    ensures
        bounds.0 == skip_spaces(v@, from as int),
        bounds.1 == skip_word(v@, bounds.0 as int),
        from <= bounds.0 <= bounds.1 <= v.len(),
{
    let start = scan_spaces(v, from);
    let end = scan_word(v, start);
    (start, end)
}

/// The words of `v`, separated by single spaces.
pub fn squeeze(v: &Vec<char>) -> (out: Vec<char>)
    ensures
        out@ == squeezed(v@),
{
    let mut out: Vec<char> = Vec::new();
    let mut from: usize = 0;
    loop
        invariant_except_break
            from <= v.len(),
            squeezed(v@) == join_words(v@, from as int, out@),
        ensures
            out@ == squeezed(v@),
        decreases v.len() - from,
    {
        let (start, end) = next_word(v, from);
        if start >= v.len() {
            break ;
        }
        proof {
            lemma_skip_spaces_bounds(v@, from as int);
            lemma_skip_word_bounds(v@, start as int);
        }
        let ghost before = out@;
        if out.len() > 0 {
            out.push(' ');
        }
        let mut i: usize = start;
        while i < end
            invariant
                start <= i <= end <= v.len(),
                out@ == (if before.len() == 0 {
                    before
                } else {
                    before + seq![' ']
                }) + v@.subrange(start as int, i as int),
            decreases end - i,
        {
            out.push(v[i]);
            i += 1;
        }
        assert(out@ =~= if before.len() == 0 {
            v@.subrange(start as int, end as int)
        } else {
            before + seq![' '] + v@.subrange(start as int, end as int)
        });
        from = end;
    }
    out
}

/// Whether `v` begins with the characters of `prefix`.
pub fn starts_with(v: &Vec<char>, prefix: &str) -> (b: bool)
    ensures
        b == has_prefix(v@, prefix@),
{
    let n = prefix.unicode_len();
    if n > v.len() {
        return false;
    }
    let mut i: usize = 0;
    while i < n
        invariant
            i <= n <= v.len(),
            n == prefix@.len(),
            v@.subrange(0, i as int) == prefix@.subrange(0, i as int),
        decreases n - i,
    {
        if v[i] != prefix.get_char(i) {
            assert(v@.subrange(0, n as int)[i as int] != prefix@[i as int]);
            return false;
        }
        assert(v@.subrange(0, i + 1) =~= v@.subrange(0, i as int).push(v@[i as int]));
        assert(prefix@.subrange(0, i + 1) =~= prefix@.subrange(0, i as int).push(prefix@[i as int]));
        i += 1;
    }
    assert(prefix@.subrange(0, n as int) =~= prefix@);
    true
}

/// Whether `v` holds exactly the characters of `text`.
pub fn is_text(v: &Vec<char>, text: &str) -> (b: bool)
    ensures
        b == (v@ == text@),
{
    let same_len = text.unicode_len() == v.len();
    let b = same_len && starts_with(v, text);
    assert(same_len ==> v@.subrange(0, text@.len() as int) =~= v@);
    b
}

/// A search for a character ends between its start and the end of the
/// sequence.
pub proof fn lemma_find_char_bounds(s: Seq<char>, c: char, from: int)
    requires
        0 <= from <= s.len(),
    ensures
        from <= find_char(s, c, from) <= s.len(),
    decreases s.len() - from,
{
    if from < s.len() && s[from] != c {
        lemma_find_char_bounds(s, c, from + 1);
    }
}

/// Skipping white space ends between its start and the end of the sequence.
pub proof fn lemma_skip_spaces_bounds(s: Seq<char>, from: int)
    requires
        0 <= from <= s.len(),
    ensures
        from <= skip_spaces(s, from) <= s.len(),
        skip_spaces(s, from) < s.len() ==> !is_space(s[skip_spaces(s, from)]),
    decreases s.len() - from,
{
    if from < s.len() && is_space(s[from]) {
        lemma_skip_spaces_bounds(s, from + 1);
    }
}

/// Skipping a word ends between its start and the end of the sequence, and
/// past the start where a word starts there.
pub proof fn lemma_skip_word_bounds(s: Seq<char>, from: int)
    requires
        0 <= from <= s.len(),
    ensures
        from <= skip_word(s, from) <= s.len(),
        from < s.len() && !is_space(s[from]) ==> from < skip_word(s, from),
    decreases s.len() - from,
{
    if from < s.len() && !is_space(s[from]) {
        lemma_skip_word_bounds(s, from + 1);
    }
}

/// A run of digits is worth at least as much as any of its prefixes.
proof fn lemma_digits_value_prefix(s: Seq<char>, k: int)
    requires
        0 <= k <= s.len(),
    ensures
        digits_value(s.take(k)) <= digits_value(s),
    decreases s.len(),
{
    if k == s.len() {
        assert(s.take(k) =~= s);
    } else {
        assert(s.take(k) =~= s.drop_last().take(k));
        lemma_digits_value_prefix(s.drop_last(), k);
    }
}

/// Reads a byte written in decimal, with an optional leading `+`.
pub fn parse_u8(v: &Vec<char>) -> (r: Option<u8>)
    ensures
        r == decimal_u8(v@),
{
    let start: usize = if v.len() > 0 && v[0] == '+' {
        1
    } else {
        0
    };
    let ghost digits = without_plus(v@);
    assert(digits =~= v@.subrange(start as int, v.len() as int));
    if start == v.len() {
        return None;
    }
    let mut value: u32 = 0;
    let mut i: usize = start;
    while i < v.len()
        invariant
            start <= i <= v.len(),
            digits == without_plus(v@),
            digits == v@.subrange(start as int, v.len() as int),
            all_digits(digits.take(i - start)),
            value == digits_value(digits.take(i - start)),
            value <= 255,
        decreases v.len() - i,
    {
        let c = v[i];
        assert(c == digits[i - start]);
        if !('0' <= c && c <= '9') {
            return None;
        }
        let d: u32 = c as u32 - '0' as u32;
        assert(digits.take(i - start + 1).drop_last() =~= digits.take(i - start));
        assert(digits.take(i - start + 1).last() == c);
        if value * 10 + d > 255 {
            proof {
                lemma_digits_value_prefix(digits, i - start + 1);
            }
            return None;
        }
        value = value * 10 + d;
        i += 1;
    }
    assert(digits.take(i - start) =~= digits);
    Some(value as u8)
}

} // verus!

//! Game identifiers and display names.
//!
//! A PlayStation disc carries its identifier, such as `SLUS_123.45`, in the
//! first sectors of its data. The identifier is searched for with regular
//! expressions; what the expressions match is taken as given, and what is
//! made of a match is defined here.

use crate::text::{chars_of, has_prefix, squeeze, squeezed, starts_with, string_of};
use regex::Regex;
use vstd::prelude::*;

verus! {

/// How many bytes from the start of a BIN file are searched.
pub const SCAN_BYTES: usize = 150 * 1024;

/// Bytes in an identifier with its prefix, separator, digits and dot.
pub const ID_BYTES: usize = 11;

/// `regex::Regex`, a compiled regular expression.
#[verifier::external_type_specification]
#[verifier::external_body]
pub struct ExRegex(regex::Regex);

/// `regex::Error`, why a regular expression did not compile.
#[verifier::external_type_specification]
#[verifier::external_body]
pub struct ExRegexError(regex::Error);

/// Whether the pattern is one that `regex::Regex::new` compiles.
pub uninterp spec fn pattern_compiles(pattern: Seq<char>) -> bool;

/// The text that `regex::Regex::find` reports for the pattern in the
/// haystack: its first match, if there is one.
pub uninterp spec fn first_match(pattern: Seq<char>, haystack: Seq<char>) -> Option<Seq<char>>;

/// The text that `regex::Regex::replace_all` makes of the haystack when every
/// match of the pattern is replaced by nothing.
pub uninterp spec fn without_matches(pattern: Seq<char>, haystack: Seq<char>) -> Seq<char>;

/// The text that `String::from_utf8_lossy` makes of bytes.
pub uninterp spec fn utf8_lossy(bytes: Seq<u8>) -> Seq<char>;

/// Why no search could be made.
#[derive(Debug, Clone, Copy, PartialEq, Eq, Structural)]
pub enum DetectError {
    /// A search pattern did not compile.
    Pattern,
}

/// A compiled search pattern, with the text it was compiled from.
pub struct Pattern {
    source: String,
    regex: Regex,
}

impl Pattern {
    /// The text of the pattern.
    pub closed spec fn source(&self) -> Seq<char> {
        self.source@
    }
}

/// `regex::Regex::new`: compiles a pattern. It succeeds exactly on the
/// patterns that the crate accepts, and the compiled pattern is that of the
/// text given.
#[verifier::external_body]
fn compile(pattern: &str) -> (r: Result<Pattern, regex::Error>)
    ensures
        r is Ok <==> pattern_compiles(pattern@),
        r matches Ok(p) ==> p.source() == pattern@,
{
    match Regex::new(pattern) {
        Ok(regex) => Ok(Pattern { source: pattern.to_string(), regex }),
        Err(e) => Err(e),
    }
}

/// `regex::Regex::find`: the text of the first match of the pattern in the
/// haystack, as the crate reports it.
#[verifier::external_body]
fn find(pattern: &Pattern, haystack: &str) -> (r: Option<String>)
    ensures
        match r {
            Some(s) => first_match(pattern.source(), haystack@) == Some(s@),
            None => first_match(pattern.source(), haystack@).is_none(),
        },
{
    match pattern.regex.find(haystack) {
        Some(m) => Some(m.as_str().to_string()),
        None => None,
    }
}

/// `regex::Regex::replace_all` with an empty replacement: the haystack
/// without the matches of the pattern, as the crate makes it.
#[verifier::external_body]
fn remove_all(pattern: &Pattern, haystack: &str) -> (r: String)
    ensures
        r@ == without_matches(pattern.source(), haystack@),
{
    pattern.regex.replace_all(haystack, "").into_owned()
}

/// `String::from_utf8_lossy` of the standard library: the text of the bytes,
/// with its replacement character where they are not UTF-8.
#[verifier::external_body]
fn decode_lossy(bytes: &Vec<u8>) -> (s: String)
    ensures
        s@ == utf8_lossy(bytes@),
{
    String::from_utf8_lossy(bytes).into_owned()
}

/// The search pattern number `k` for identifiers in the text of a disc, in
/// the order in which they are tried: with an underscore and a dot, with a
/// dash and a dot, with five digits in a row, with a space and a dot.
pub open spec fn id_pattern_text(k: int) -> Seq<char> {
    if k == 0 {
        r"(S[CL][EUA][SD][_]\d{3}\.\d{2})"@
    } else if k == 1 {
        r"(S[CL][EUA][SD][-]\d{3}\.\d{2})"@
    } else if k == 2 {
        r"(S[CL][EUA][SD][_-]\d{5})"@
    } else {
        r"(S[CL][EUA][SD][ ]\d{3}\.\d{2})"@
    }
}

/// How many search patterns for identifiers there are.
pub const ID_PATTERNS: usize = 4;

/// Whether every search pattern for identifiers compiles.
pub open spec fn id_patterns_compile() -> bool {
    forall|k: int| 0 <= k < ID_PATTERNS ==> pattern_compiles(#[trigger] id_pattern_text(k))
}

/// A character of an identifier with its separator made an underscore.
pub open spec fn underscore_for(c: char, spaces_too: bool) -> char {
    if c == '-' || (spaces_too && c == ' ') {
        '_'
    } else {
        c
    }
}

/// The text with every dash, and every space if asked for, made an
/// underscore.
pub open spec fn underscored(s: Seq<char>, spaces_too: bool) -> Seq<char> {
    Seq::new(s.len(), |i: int| underscore_for(s[i], spaces_too))
}

/// Whether every character is ASCII.
pub open spec fn all_ascii(s: Seq<char>) -> bool {
    forall|i: int| 0 <= i < s.len() ==> (#[trigger] s[i] as u32) < 128
}

/// The identifier made of a match in the text of a disc: dashes and spaces
/// become underscores, and a match of ten ASCII characters without a dot
/// keeps its first nine and gets two dots.
pub open spec fn normalized(matched: Seq<char>) -> Seq<char> {
    let id = underscored(matched, true);
    if id.len() == 10 && all_ascii(id) && !id.contains('.') {
        id.take(9) + seq!['.', '.']
    } else {
        id
    }
}

/// Whether four bytes are one of the prefixes of an identifier.
pub open spec fn known_prefix(b: Seq<u8>) -> bool {
    &&& b.len() == 4
    &&& b[0] == 0x53
    &&& {
        ||| b[1] == 0x4C && b[2] == 0x55 && b[3] == 0x53
        ||| b[1] == 0x43 && b[2] == 0x55 && b[3] == 0x53
        ||| b[1] == 0x4C && b[2] == 0x45 && b[3] == 0x53
        ||| b[1] == 0x43 && b[2] == 0x45 && b[3] == 0x53
        ||| b[1] == 0x4C && b[2] == 0x50 && b[3] == 0x53
        ||| b[1] == 0x43 && b[2] == 0x50 && b[3] == 0x53
        ||| b[1] == 0x4C && b[2] == 0x50 && b[3] == 0x4D
        ||| b[1] == 0x43 && b[2] == 0x45 && b[3] == 0x44
        ||| b[1] == 0x4C && b[2] == 0x45 && b[3] == 0x44
    }
}

/// The first match of the patterns from number `k` on, in their order.
pub open spec fn first_pattern_match(text: Seq<char>, k: int) -> Option<Seq<char>>
    decreases ID_PATTERNS - k,
{
    if k < 0 || k >= ID_PATTERNS {
        None
    } else {
        match first_match(id_pattern_text(k), text) {
            Some(m) => Some(m),
            None => first_pattern_match(text, k + 1),
        }
    }
}

/// The match of the first pattern in the eleven bytes at `i`, where they
/// start with a known prefix.
pub open spec fn window_match(buffer: Seq<u8>, i: int) -> Option<Seq<char>> {
    if i + 11 <= buffer.len() && known_prefix(buffer.subrange(i, i + 4)) {
        first_match(id_pattern_text(0), utf8_lossy(buffer.subrange(i, i + 11)))
    } else {
        None
    }
}

/// The first window match at or after byte `i`.
pub open spec fn first_window_match(buffer: Seq<u8>, i: int) -> Option<Seq<char>>
    decreases buffer.len() - i,
{
    if i < 0 || i + 4 > buffer.len() {
        None
    } else {
        match window_match(buffer, i) {
            Some(m) => Some(m),
            None => first_window_match(buffer, i + 1),
        }
    }
}

/// The identifier found in the first bytes of a disc.
///
/// Empty data holds none. Else the patterns are tried in their order on the
/// text of the data, and the first match is normalised. Where none matches,
/// the data is walked byte by byte for a known prefix with a match of the
/// first pattern in the eleven bytes from it; its dashes become underscores.
pub open spec fn detected(buffer: Seq<u8>) -> Result<Option<Seq<char>>, DetectError> {
    if buffer.len() == 0 {
        Ok(None)
    } else if !id_patterns_compile() {
        Err(DetectError::Pattern)
    } else {
        match first_pattern_match(utf8_lossy(buffer), 0) {
            Some(m) => Ok(Some(normalized(m))),
            None => match first_window_match(buffer, 0) {
                Some(m) => Ok(Some(underscored(m, false))),
                None => Ok(None),
            },
        }
    }
}

/// The outcome of a search, as plain mathematical values.
pub open spec fn detection_view(r: Result<Option<String>, DetectError>) -> Result<
    Option<Seq<char>>,
    DetectError,
> {
    match r {
        Ok(Some(s)) => Ok(Some(s@)),
        Ok(None) => Ok(None),
        Err(e) => Err(e),
    }
}

/// The region that an identifier belongs to, by its prefix.
pub open spec fn region_of(id: Seq<char>) -> Seq<char> {
    if has_prefix(id, "SLUS"@) || has_prefix(id, "SCUS"@) {
        "USA"@
    } else if has_prefix(id, "SLES"@) || has_prefix(id, "SCES"@) {
        "Europe"@
    } else if has_prefix(id, "SLPS"@) || has_prefix(id, "SCPS"@) || has_prefix(id, "SLPM"@) {
        "Japan"@
    } else if has_prefix(id, "SCED"@) || has_prefix(id, "SLED"@) {
        "Europe (Demo)"@
    } else {
        "Unknown"@
    }
}

/// The search pattern number `k` for identifiers.
pub fn id_pattern(k: usize) -> (p: &'static str)
    ensures
        p@ == id_pattern_text(k as int),
{
    if k == 0 {
        r"(S[CL][EUA][SD][_]\d{3}\.\d{2})"
    } else if k == 1 {
        r"(S[CL][EUA][SD][-]\d{3}\.\d{2})"
    } else if k == 2 {
        r"(S[CL][EUA][SD][_-]\d{5})"
    } else {
        r"(S[CL][EUA][SD][ ]\d{3}\.\d{2})"
    }
}

/// Makes every dash, and every space if asked for, an underscore.
pub fn underscore(v: &Vec<char>, spaces_too: bool) -> (out: Vec<char>)
    ensures
        out@ == underscored(v@, spaces_too),
{
    let mut out: Vec<char> = Vec::new();
    let mut i: usize = 0;
    while i < v.len()
        invariant
            i <= v.len(),
            out@ == underscored(v@, spaces_too).take(i as int),
        decreases v.len() - i,
    {
        let c = v[i];
        out.push(
            if c == '-' || (spaces_too && c == ' ') {
                '_'
            } else {
                c
            },
        );
        assert(out@ =~= underscored(v@, spaces_too).take(i + 1));
        i += 1;
    }
    assert(underscored(v@, spaces_too).take(v.len() as int) =~= underscored(v@, spaces_too));
    out
}

/// Makes the identifier of a match in the text of a disc.
pub fn normalize_game_id(matched: &str) -> (id: String)
    ensures
        id@ == normalized(matched@),
{
    let mut id = underscore(&chars_of(matched), true);
    let ghost whole = id@;
    let mut plain = id.len() == 10;
    let mut i: usize = 0;
    while plain && i < id.len()
        invariant
            i <= id.len(),
            id@ == whole,
            plain ==> id.len() == 10,
            plain ==> forall|k: int| 0 <= k < i ==> (#[trigger] whole[k] as u32) < 128 && whole[k] != '.',
            !plain ==> !(whole.len() == 10 && all_ascii(whole) && !whole.contains('.')),
        decreases id.len() - i,
    {
        let c = id[i];
        if c as u32 >= 128 || c == '.' {
            assert(whole[i as int] == c);
            plain = false;
        }
        i += 1;
    }
    if plain {
        assert(all_ascii(whole));
        assert(!whole.contains('.'));
        id.truncate(9);
        id.push('.');
        id.push('.');
        assert(id@ =~= whole.take(9) + seq!['.', '.']);
    }
    string_of(&id)
}

/// Whether the four bytes at `i` are one of the prefixes of an identifier.
pub fn is_known_prefix(buffer: &Vec<u8>, i: usize) -> (b: bool)
    requires
        i + 4 <= buffer.len(),
    ensures
        b == known_prefix(buffer@.subrange(i as int, i + 4)),
{
    let ghost w = buffer@.subrange(i as int, i + 4);
    assert(w[0] == buffer[i as int] && w[1] == buffer[i + 1] && w[2] == buffer[i + 2] && w[3]
        == buffer[i + 3]);
    let (b0, b1, b2, b3) = (buffer[i], buffer[i + 1], buffer[i + 2], buffer[i + 3]);
    b0 == 0x53 && ((b1 == 0x4C && b2 == 0x55 && b3 == 0x53) || (b1 == 0x43 && b2 == 0x55 && b3
        == 0x53) || (b1 == 0x4C && b2 == 0x45 && b3 == 0x53) || (b1 == 0x43 && b2 == 0x45 && b3
        == 0x53) || (b1 == 0x4C && b2 == 0x50 && b3 == 0x53) || (b1 == 0x43 && b2 == 0x50 && b3
        == 0x53) || (b1 == 0x4C && b2 == 0x50 && b3 == 0x4D) || (b1 == 0x43 && b2 == 0x45 && b3
        == 0x44) || (b1 == 0x4C && b2 == 0x45 && b3 == 0x44))
}

/// The bytes of `v` from `from` up to `to`, as a vector of their own.
fn copy_bytes(v: &Vec<u8>, from: usize, to: usize) -> (out: Vec<u8>)
    requires
        from <= to <= v.len(),
    ensures
        out@ == v@.subrange(from as int, to as int),
{
    let mut out: Vec<u8> = Vec::new();
    let mut i: usize = from;
    while i < to
        invariant
            from <= i <= to <= v.len(),
            out@ == v@.subrange(from as int, i as int),
        decreases to - i,
    {
        out.push(v[i]);
        i += 1;
    }
    out
}

/// Searches the first bytes of a disc for its identifier.
pub fn detect_game_id(buffer: &Vec<u8>) -> (r: Result<Option<String>, DetectError>)
    ensures
        detection_view(r) == detected(buffer@),
{
    if buffer.len() == 0 {
        return Ok(None);
    }
    let mut patterns: Vec<Pattern> = Vec::new();
    let mut k: usize = 0;
    while k < ID_PATTERNS
        invariant
            k <= ID_PATTERNS,
            patterns.len() == k,
            buffer.len() > 0,
            forall|j: int| 0 <= j < k ==> pattern_compiles(#[trigger] id_pattern_text(j)),
            forall|j: int| 0 <= j < k ==> (#[trigger] patterns@[j]).source() == id_pattern_text(j),
        decreases ID_PATTERNS - k,
    {
        match compile(id_pattern(k)) {
            Ok(p) => {
                let ghost before = patterns@;
                patterns.push(p);
                assert(forall|j: int| 0 <= j < k ==> patterns@[j] == before[j]);
            },
            Err(_) => {
                assert(!pattern_compiles(id_pattern_text(k as int)));
                return Err(DetectError::Pattern);
            },
        }
        k += 1;
    }
    assert(id_patterns_compile());
    let text = decode_lossy(buffer);
    let mut k: usize = 0;
    while k < ID_PATTERNS
        invariant
            k <= ID_PATTERNS,
            patterns.len() == ID_PATTERNS,
            buffer.len() > 0,
            id_patterns_compile(),
            text@ == utf8_lossy(buffer@),
            forall|j: int|
                0 <= j < ID_PATTERNS ==> (#[trigger] patterns@[j]).source() == id_pattern_text(j),
            first_pattern_match(text@, 0) == first_pattern_match(text@, k as int),
        decreases ID_PATTERNS - k,
    {
        match find(&patterns[k], text.as_str()) {
            Some(m) => {
                return Ok(Some(normalize_game_id(m.as_str())));
            },
            None => {},
        }
        k += 1;
    }
    assert(first_pattern_match(text@, 0).is_none());
    let mut i: usize = 0;
    while buffer.len() - i >= 4
        invariant
            i <= buffer.len(),
            buffer.len() > 0,
            id_patterns_compile(),
            first_pattern_match(utf8_lossy(buffer@), 0).is_none(),
            patterns.len() == ID_PATTERNS,
            patterns@[0].source() == id_pattern_text(0),
            first_window_match(buffer@, 0) == first_window_match(buffer@, i as int),
        decreases buffer.len() - i,
    {
        if buffer.len() - i >= ID_BYTES && is_known_prefix(buffer, i) {
            let window = decode_lossy(&copy_bytes(buffer, i, i + ID_BYTES));
            match find(&patterns[0], window.as_str()) {
                Some(m) => {
                    let id = underscore(&chars_of(m.as_str()), false);
                    return Ok(Some(string_of(&id)));
                },
                None => {},
            }
        }
        i += 1;
    }
    Ok(None)
}

/// The region that an identifier belongs to, by its prefix.
pub fn get_region(game_id: &str) -> (region: &'static str)
    ensures
        region@ == region_of(game_id@),
{
    let id = chars_of(game_id);
    if starts_with(&id, "SLUS") || starts_with(&id, "SCUS") {
        "USA"
    } else if starts_with(&id, "SLES") || starts_with(&id, "SCES") {
        "Europe"
    } else if starts_with(&id, "SLPS") || starts_with(&id, "SCPS") || starts_with(&id, "SLPM") {
        "Japan"
    } else if starts_with(&id, "SCED") || starts_with(&id, "SLED") {
        "Europe (Demo)"
    } else {
        "Unknown"
    }
}

/// How many patterns are taken out of a display name.
pub const NAME_PATTERNS: usize = 36;

/// Pattern number `k` of the tags that are taken out of a display name:
/// regions, languages, disc and revision numbers, dump flags and
/// identifiers in brackets.
pub open spec fn name_pattern_text(k: int) -> Seq<char> {
    if k == 0 {
        r"\(USA\)"@
    } else if k == 1 {
        r"\(Europe\)"@
    } else if k == 2 {
        r"\(Japan\)"@
    } else if k == 3 {
        r"\(World\)"@
    } else if k == 4 {
        r"\(En,Fr,De,Es,It\)"@
    } else if k == 5 {
        r"\(En\)"@
    } else if k == 6 {
        r"\(Fr\)"@
    } else if k == 7 {
        r"\(De\)"@
    } else if k == 8 {
        r"\(Es\)"@
    } else if k == 9 {
        r"\(It\)"@
    } else if k == 10 {
        r"\(Ja\)"@
    } else if k == 11 {
        r"\(Disc \d+\)"@
    } else if k == 12 {
        r"\(Disc [A-Z]\)"@
    } else if k == 13 {
        r"\(CD \d+\)"@
    } else if k == 14 {
        r"\(CD [A-Z]\)"@
    } else if k == 15 {
        r"\(Rev \d+\)"@
    } else if k == 16 {
        r"\(v\d+\.\d+\)"@
    } else if k == 17 {
        r"\[!\]"@
    } else if k == 18 {
        r"\[b\]"@
    } else if k == 19 {
        r"\[a\]"@
    } else if k == 20 {
        r"\[h\d*\]"@
    } else if k == 21 {
        r"\[f\d*\]"@
    } else if k == 22 {
        r"\[t\d*\]"@
    } else if k == 23 {
        r"\[o\d*\]"@
    } else if k == 24 {
        r"\[T[+-].*?\]"@
    } else if k == 25 {
        r"\(Track \d+\)"@
    } else if k == 26 {
        r"\(Demo\)"@
    } else if k == 27 {
        r"\(Beta\)"@
    } else if k == 28 {
        r"\(Proto\)"@
    } else if k == 29 {
        r"\(Sample\)"@
    } else if k == 30 {
        r"\(Promo\)"@
    } else if k == 31 {
        r"\(Unl\)"@
    } else if k == 32 {
        r"\[SLUS[-_]\d+\.\d+\]"@
    } else if k == 33 {
        r"\[SLES[-_]\d+\.\d+\]"@
    } else if k == 34 {
        r"\[SCUS[-_]\d+\.\d+\]"@
    } else {
        r"\[SCES[-_]\d+\.\d+\]"@
    }
}

/// The name without the matches of the patterns from number `k` on, taken
/// out one pattern after the other. A pattern that does not compile takes
/// nothing out.
pub open spec fn stripped(name: Seq<char>, k: int) -> Seq<char>
    decreases NAME_PATTERNS - k,
{
    if k < 0 || k >= NAME_PATTERNS {
        name
    } else if pattern_compiles(name_pattern_text(k)) {
        stripped(without_matches(name_pattern_text(k), name), k + 1)
    } else {
        stripped(name, k + 1)
    }
}

/// The words of a name, separated by single spaces; `game` where there is
/// no word.
pub open spec fn tidied(name: Seq<char>) -> Seq<char> {
    let words = squeezed(name);
    if words.len() == 0 {
        "game"@
    } else {
        words
    }
}

/// The display name of a game: the file name without its tags, its words
/// separated by single spaces; `game` where nothing is left.
pub open spec fn cleaned(name: Seq<char>) -> Seq<char> {
    tidied(stripped(name, 0))
}

/// Pattern number `k` of the tags that are taken out of a display name.
pub fn name_pattern(k: usize) -> (p: &'static str)
    ensures
        p@ == name_pattern_text(k as int),
{
    if k == 0 {
        r"\(USA\)"
    } else if k == 1 {
        r"\(Europe\)"
    } else if k == 2 {
        r"\(Japan\)"
    } else if k == 3 {
        r"\(World\)"
    } else if k == 4 {
        r"\(En,Fr,De,Es,It\)"
    } else if k == 5 {
        r"\(En\)"
    } else if k == 6 {
        r"\(Fr\)"
    } else if k == 7 {
        r"\(De\)"
    } else if k == 8 {
        r"\(Es\)"
    } else if k == 9 {
        r"\(It\)"
    } else if k == 10 {
        r"\(Ja\)"
    } else if k == 11 {
        r"\(Disc \d+\)"
    } else if k == 12 {
        r"\(Disc [A-Z]\)"
    } else if k == 13 {
        r"\(CD \d+\)"
    } else if k == 14 {
        r"\(CD [A-Z]\)"
    } else if k == 15 {
        r"\(Rev \d+\)"
    } else if k == 16 {
        r"\(v\d+\.\d+\)"
    } else if k == 17 {
        r"\[!\]"
    } else if k == 18 {
        r"\[b\]"
    } else if k == 19 {
        r"\[a\]"
    } else if k == 20 {
        r"\[h\d*\]"
    } else if k == 21 {
        r"\[f\d*\]"
    } else if k == 22 {
        r"\[t\d*\]"
    } else if k == 23 {
        r"\[o\d*\]"
    } else if k == 24 {
        r"\[T[+-].*?\]"
    } else if k == 25 {
        r"\(Track \d+\)"
    } else if k == 26 {
        r"\(Demo\)"
    } else if k == 27 {
        r"\(Beta\)"
    } else if k == 28 {
        r"\(Proto\)"
    } else if k == 29 {
        r"\(Sample\)"
    } else if k == 30 {
        r"\(Promo\)"
    } else if k == 31 {
        r"\(Unl\)"
    } else if k == 32 {
        r"\[SLUS[-_]\d+\.\d+\]"
    } else if k == 33 {
        r"\[SLES[-_]\d+\.\d+\]"
    } else if k == 34 {
        r"\[SCUS[-_]\d+\.\d+\]"
    } else {
        r"\[SCES[-_]\d+\.\d+\]"
    }
}

/// Separates the words of a name by single spaces; gives `game` where there
/// is no word.
pub fn tidy_name(name: &str) -> (tidy: String)
    ensures
        tidy@ == tidied(name@),
{
    let words = squeeze(&chars_of(name));
    if words.len() == 0 {
        "game".to_owned()
    } else {
        string_of(&words)
    }
}

/// Makes the display name of a game from the name of its file.
pub fn clean_game_name(name: &str) -> (clean: String)
    ensures
        clean@ == cleaned(name@),
{
    let mut clean: String = name.to_owned();
    let mut k: usize = 0;
    while k < NAME_PATTERNS
        invariant
            k <= NAME_PATTERNS,
            stripped(name@, 0) == stripped(clean@, k as int),
        decreases NAME_PATTERNS - k,
    {
        match compile(name_pattern(k)) {
            Ok(p) => {
                clean = remove_all(&p, clean.as_str());
            },
            Err(_) => {},
        }
        k += 1;
    }
    tidy_name(clean.as_str())
}

} // verus!

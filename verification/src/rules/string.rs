//! Rules and methods for parsing strings with escapes.

use vstd::prelude::*;
use vstd::string::*;
use vstd::utf8::*;
use regex::Regex;
use crate::rules::append_char;
use crate::rules::text::{byte_len, char_of, hex_u32, hex_u8, is_scalar_value, parse_hex, piece, slice,
    sliceable, text_of_bytes};

verus! {

/// A compiled regular expression of the `regex` crate. Nothing of its inside is known here.
#[verifier::external_type_specification]
#[verifier::external_body]
pub struct ExRegex(regex::Regex);

/// Regex pattern for a unicode character specification: 1 to 6 hexadecimal digits in braces.
pub const PTN_UNICODE: &'static str = "\\\\u\\{([[:xdigit:]]{1,6})\\}";

/// Regex pattern for escape sequences: single-character, one-byte, or unicode.
pub const PTN_ESCAPE: &'static str =
    "(?xs)\n\\\\ [nrt\\\\0'\"]        # single-character escapes\n|\n(?:\\\\x[[:xdigit:]]{2})  # one-byte escapes\n|\n(?:\\\\u\\{([[:xdigit:]]{1,6})\\})  # unicode escapes\n";

/// Regex pattern for a string literal.
pub const PTN_STRING: &'static str =
    "(?xs)\n\"          # opening quote\n(?P<s>      # main string capture group\n(?:         # repeatable character (or escape sequence) group\n(?:(?xs)\n\\\\ [nrt\\\\0'\"]        # single-character escapes\n|\n(?:\\\\x[[:xdigit:]]{2})  # one-byte escapes\n|\n(?:\\\\u\\{([[:xdigit:]]{1,6})\\})  # unicode escapes\n)\n|           # or\n[^\"\\\\]      # anything but a backslash or double quote\n)*          # any number of characters / escape sequences\n)\n\"          # closing quote\n";

/// The pattern for a string literal at the front of a text.
pub open spec fn anchored_pattern() -> Seq<char> {
    "^(?:"@ + PTN_STRING@ + ")"@
}

/// A regular expression: its source text and what the `regex` crate compiled it to.
pub struct Pattern {
    source: String,
    regex: Regex,
}

impl Pattern {
    /// The text that the pattern was compiled from.
    pub closed spec fn source(&self) -> Seq<char> {
        self.source@
    }
}

/// Whether `Regex::new` accepts a pattern.
pub uninterp spec fn pattern_compiles(source: Seq<char>) -> bool;

/// What `Regex::captures` finds for a pattern in a haystack: `None` without a match, else for
/// each capture group of the leftmost match, the whole match first, the byte offsets of its
/// start and end, or `None` for a group that took no part in the match.
pub uninterp spec fn captures_of(source: Seq<char>, haystack: Seq<char>) -> Option<
    Seq<Option<(usize, usize)>>,
>;

/// What `Regex::captures_iter` finds for a pattern in a haystack: the byte offsets of the
/// start and end of each match, in the order of the iteration.
pub uninterp spec fn matches_of(source: Seq<char>, haystack: Seq<char>) -> Seq<(usize, usize)>;

/// Whether each span that is there can be cut out of the text.
pub open spec fn groups_fit(text: Seq<char>, groups: Seq<Option<(usize, usize)>>) -> bool {
    forall|i: int|
        0 <= i < groups.len() ==> match #[trigger] groups[i] {
            Some(span) => sliceable(text, span.0 as int, span.1 as int),
            None => true,
        }
}

/// Whether each span can be cut out of the text, and each begins no earlier than the one
/// before it ends.
pub open spec fn spans_in_order(text: Seq<char>, spans: Seq<(usize, usize)>) -> bool {
    &&& forall|i: int|
        0 <= i < spans.len() ==> sliceable(
            text,
            (#[trigger] spans[i]).0 as int,
            spans[i].1 as int,
        )
    &&& forall|i: int, j: int|
        0 <= i < j < spans.len() ==> (#[trigger] spans[i]).1 <= (#[trigger] spans[j]).0
}

/// Calls `Regex::new`. Hands back the compiled expression with its source, or `None` where
/// the crate rejects the pattern.
#[verifier::external_body]
fn compile(source: &str) -> (pattern: Option<Pattern>)
    ensures
        pattern is Some <==> pattern_compiles(source@),
        pattern matches Some(p) ==> p.source() == source@,
{
    match Regex::new(source) {
        Ok(regex) => Some(Pattern { source: source.to_string(), regex }),
        Err(_) => None,
    }
}

/// Calls `Regex::captures`, and hands back the offsets of each group of the match. As the
/// crate documents them, the whole match is group 0 and is always there, and the offsets of
/// a match are in order and fall on character boundaries of the haystack.
#[verifier::external_body]
fn first_captures(pattern: &Pattern, haystack: &str) -> (groups: Option<
    Vec<Option<(usize, usize)>>,
>)
    ensures
        captures_of(pattern.source(), haystack@) == match groups {
            Some(g) => Some(g@),
            None => None,
        },
        groups matches Some(g) ==> g@.len() > 0 && g@[0] is Some && groups_fit(haystack@, g@),
{
    pattern.regex.captures(haystack).map(
        |caps| caps.iter().map(|group| group.map(|m| (m.start(), m.end()))).collect(),
    )
}

/// Calls `Regex::captures_iter`, and hands back the offsets of each match. As the crate
/// documents them, the matches are successive and do not overlap, and the offsets of a match
/// are in order and fall on character boundaries of the haystack.
#[verifier::external_body]
fn all_matches(pattern: &Pattern, haystack: &str) -> (spans: Vec<(usize, usize)>)
    ensures
        spans@ == matches_of(pattern.source(), haystack@),
        spans_in_order(haystack@, spans@),
{
    pattern.regex.captures_iter(haystack).map(
        |caps| {
            let whole = caps.get_match();
            (whole.start(), whole.end())
        },
    ).collect()
}

/// The compiled patterns of the string rules.
pub struct StringRules {
    literal: Pattern,
    escape: Pattern,
    unicode: Pattern,
}

/// Whether the `regex` crate accepts the three patterns of the string rules.
pub open spec fn rules_compile() -> bool {
    &&& pattern_compiles(anchored_pattern())
    &&& pattern_compiles(PTN_ESCAPE@)
    &&& pattern_compiles(PTN_UNICODE@)
}

impl StringRules {
    #[verifier::type_invariant]
    spec fn sources(self) -> bool {
        &&& self.literal.source() == anchored_pattern()
        &&& self.escape.source() == PTN_ESCAPE@
        &&& self.unicode.source() == PTN_UNICODE@
    }

    /// Compiles the patterns of the string rules. `None` where the `regex` crate rejects one.
    pub fn new() -> (rules: Option<StringRules>)
        ensures
            rules is Some <==> rules_compile(),
    {
        let mut anchored = String::from_str("^(?:");
        anchored.append(PTN_STRING);
        anchored.append(")");
        let literal = compile(anchored.as_str());
        let escape = compile(PTN_ESCAPE);
        let unicode = compile(PTN_UNICODE);
        match (literal, escape, unicode) {
            (Some(literal), Some(escape), Some(unicode)) => Some(
                StringRules { literal, escape, unicode },
            ),
            _ => None,
        }
    }
}

/// A parsed text or the reason why there is none, with the text as its characters.
pub open spec fn chars_of(outcome: Result<String, &'static str>) -> Result<
    Seq<char>,
    &'static str,
> {
    match outcome {
        Ok(text) => Ok(text@),
        Err(reason) => Err(reason),
    }
}

/// What the two characters after `\x` stand for: the character with that number, which must
/// be two bytes of text that denote a number below 128 in base 16.
pub open spec fn two_digit_escape_spec(code: Seq<char>) -> Result<Seq<char>, &'static str> {
    if encode_utf8(code).len() != 2 {
        Err("two-digit character code expected")
    } else {
        match parse_hex(code, 0xFF) {
            Some(v) => if v < 0x80 {
                Ok(seq![v as u8 as char])
            } else {
                Err("invalid two-digit escape")
            },
            None => Err("invalid two-digit escape"),
        }
    }
}

/// What the digits of a unicode escape stand for: the character with that number in base
/// 16, which must be a Unicode scalar value.
pub open spec fn unicode_escape_spec(code: Seq<char>) -> Result<Seq<char>, &'static str> {
    match parse_hex(code, 0xFFFF_FFFF) {
        Some(v) => if is_scalar_value(v as u32) {
            Ok(seq![v as u32 as char])
        } else {
            Err("no character found for unicode value")
        },
        None => Err("invalid unicode escape"),
    }
}

/// What a unicode escape stands for, given what the unicode pattern captures in it: the
/// digits are the first group.
pub open spec fn unicode_capture_spec(
    code: Seq<char>,
    groups: Option<Seq<Option<(usize, usize)>>>,
) -> Result<Seq<char>, &'static str> {
    match groups {
        Some(g) => if g.len() > 1 && g[1] is Some {
            unicode_escape_spec(piece(code, g[1].unwrap().0 as int, g[1].unwrap().1 as int))
        } else {
            Err("improperly formatted unicode character code")
        },
        None => Err("improperly formatted unicode character code"),
    }
}

/// What an escape sequence stands for. The first two bytes decide; `unicode_groups` is what
/// the unicode pattern captures in the sequence, and is read for `\u` only.
pub open spec fn escape_spec(
    code: Seq<char>,
    unicode_groups: Option<Seq<Option<(usize, usize)>>>,
) -> Result<Seq<char>, &'static str> {
    let bytes = encode_utf8(code);
    if bytes.len() < 2 {
        Err("invalid empty escape")
    } else if bytes[0] != '\\' as u8 {
        Err("unknown escape sequence")
    } else if bytes[1] == 'n' as u8 {
        Ok("\n"@)
    } else if bytes[1] == 'r' as u8 {
        Ok("\r"@)
    } else if bytes[1] == 't' as u8 {
        Ok("\t"@)
    } else if bytes[1] == '\\' as u8 {
        Ok("\\"@)
    } else if bytes[1] == '0' as u8 {
        Ok("\0"@)
    } else if bytes[1] == '\'' as u8 {
        Ok("'"@)
    } else if bytes[1] == '"' as u8 {
        Ok("\""@)
    } else if bytes[1] == 'x' as u8 {
        two_digit_escape_spec(piece(code, 2, bytes.len() as int))
    } else if bytes[1] == 'u' as u8 {
        unicode_capture_spec(code, unicode_groups)
    } else {
        Err("unknown escape sequence")
    }
}

/// A single byte below 128 is valid UTF-8 and encodes the character with that number.
pub proof fn lemma_one_byte_text(byte: u8)
    ensures
        byte < 0x80 ==> valid_utf8(seq![byte]) && decode_utf8(seq![byte]) == seq![byte as char],
        byte >= 0x80 ==> !valid_utf8(seq![byte]),
{
    let bytes = seq![byte];
    assert(bytes[0] == byte);
    assert(byte < 0x80 <==> byte & 0x80 == 0) by (bit_vector);
    assert(byte & 0xC0 == 0x80 ==> byte >= 0x80) by (bit_vector);
    assert(byte & 0xE0 == 0xC0 ==> byte >= 0x80) by (bit_vector);
    assert(byte & 0xF0 == 0xE0 ==> byte >= 0x80) by (bit_vector);
    assert(byte & 0xF8 == 0xF0 ==> byte >= 0x80) by (bit_vector);
    reveal_with_fuel(valid_utf8, 2);
    reveal_with_fuel(decode_utf8, 2);
    if byte < 0x80 {
        assert(byte & 0x7F == byte) by (bit_vector)
            requires
                byte < 0x80,
        ;
        assert(pop_first_scalar(bytes) =~= Seq::<u8>::empty());
        assert(decode_first_scalar(bytes) == byte as u32);
        assert(valid_utf8(bytes));
        assert(decode_utf8(pop_first_scalar(bytes)) =~= Seq::<char>::empty());
        assert(decode_utf8(bytes) =~= seq![byte as char]);
    }
}

/// Two-digit character code escapes: the text after `\x`.
pub fn two_digit_escape(code: &str) -> (outcome: Result<String, &'static str>)
    ensures
        chars_of(outcome) == two_digit_escape_spec(code@),
{
    if byte_len(code) != 2 {
        return Err("two-digit character code expected");
    }
    match hex_u8(code) {
        Some(byte_code) => {
            proof {
                lemma_one_byte_text(byte_code);
            }
            let mut bytes: Vec<u8> = Vec::new();
            bytes.push(byte_code);
            assert(bytes@ =~= seq![byte_code]);
            match text_of_bytes(bytes) {
                Some(text) => Ok(text),
                None => Err("invalid two-digit escape"),
            }
        },
        None => Err("invalid two-digit escape"),
    }
}

/// Unicode escapes: the digits between the braces after `\u`.
pub fn unicode_escape(code: &str) -> (outcome: Result<String, &'static str>)
    ensures
        chars_of(outcome) == unicode_escape_spec(code@),
{
    match hex_u32(code) {
        None => Err("invalid unicode escape"),
        Some(unicode_value) => match char_of(unicode_value) {
            None => Err("no character found for unicode value"),
            Some(c) => {
                let mut s = String::new();
                append_char(&mut s, c);
                proof {
                    char_u32_cast(c, unicode_value);
                    assert(s@ =~= seq![c]);
                }
                Ok(s)
            },
        },
    }
}

/// The offsets of the groups of a match, as a sequence.
pub open spec fn groups_of(groups: Option<Vec<Option<(usize, usize)>>>) -> Option<
    Seq<Option<(usize, usize)>>,
> {
    match groups {
        Some(g) => Some(g@),
        None => None,
    }
}

/// Unicode escapes, from what the unicode pattern captures in the escape sequence: the first
/// group holds the digits.
pub fn unicode_capture(code: &str, groups: Option<Vec<Option<(usize, usize)>>>) -> (outcome:
    Result<String, &'static str>)
    requires
        groups matches Some(g) ==> groups_fit(code@, g@),
    ensures
        chars_of(outcome) == unicode_capture_spec(code@, groups_of(groups)),
{
    match groups {
        Some(g) => {
            if g.len() > 1 {
                match g[1] {
                    Some((from, to)) => unicode_escape(slice(code, from, to)),
                    None => Err("improperly formatted unicode character code"),
                }
            } else {
                Err("improperly formatted unicode character code")
            }
        },
        None => Err("improperly formatted unicode character code"),
    }
}

/// After two leading bytes below 128, a text can be cut.
pub proof fn lemma_cut_after_two_ascii(text: Seq<char>)
    requires
        encode_utf8(text).len() >= 2,
        encode_utf8(text)[0] < 0x80,
        encode_utf8(text)[1] < 0x80,
    ensures
        sliceable(text, 2, encode_utf8(text).len() as int),
{
    let bytes = encode_utf8(text);
    encode_utf8_valid_utf8(text);
    is_char_boundary_start_end_of_seq(bytes);
    reveal_with_fuel(valid_utf8, 3);
    reveal_with_fuel(is_char_boundary, 3);
    let rest = pop_first_scalar(bytes);
    assert(rest[0] == bytes[1]);
}

/// The text of `body` from byte offset `offset` on, with each of the escape sequences at
/// `spans`, from the `from`-th on, replaced by what it stands for. The first escape sequence
/// that stands for nothing decides the failure.
pub open spec fn spliced(body: Seq<char>, spans: Seq<(usize, usize)>, from: int, offset: int)
    -> Result<Seq<char>, &'static str>
    decreases spans.len() - from,
{
    if from < 0 || from >= spans.len() {
        Ok(piece(body, offset, encode_utf8(body).len() as int))
    } else {
        let code = piece(body, spans[from].0 as int, spans[from].1 as int);
        match escape_spec(code, captures_of(PTN_UNICODE@, code)) {
            Err(reason) => Err(reason),
            Ok(text) => match spliced(body, spans, from + 1, spans[from].1 as int) {
                Err(reason) => Err(reason),
                Ok(rest) => Ok(piece(body, offset, spans[from].0 as int) + text + rest),
            },
        }
    }
}

/// `done` followed by what is still to come, or the failure of what is still to come.
pub open spec fn continued(done: Seq<char>, coming: Result<Seq<char>, &'static str>) -> Result<
    Seq<char>,
    &'static str,
> {
    match coming {
        Ok(rest) => Ok(done + rest),
        Err(reason) => Err(reason),
    }
}

/// What the body of a string literal stands for: its text with each escape sequence that
/// the escape pattern finds replaced by what it stands for.
pub open spec fn converted(body: Option<Seq<char>>) -> Result<Seq<char>, &'static str> {
    match body {
        Some(s) => spliced(s, matches_of(PTN_ESCAPE@, s), 0, 0),
        None => Err("failed to parse string"),
    }
}

/// What a match of the string pattern holds for the conversion: the text of the capture
/// group `s`, the body of the literal between its quotes.
#[derive(Debug, Clone, PartialEq)]
pub struct StringCapture {
    /// The text that the group captured, `None` if the group took no part in the match.
    pub body: Option<String>,
}

impl View for StringCapture {
    type V = Option<Seq<char>>;

    open spec fn view(&self) -> Option<Seq<char>> {
        match self.body {
            Some(s) => Some(s@),
            None => None,
        }
    }
}

/// Where a string literal that begins at `pos` ends, and its body, from what the string
/// pattern captures in the text from `pos` on: the literal is as long as the whole match, and
/// its body is the first group.
pub open spec fn located(tail: Seq<char>, pos: int, groups: Option<Seq<Option<(usize, usize)>>>)
    -> Option<(int, Option<Seq<char>>)> {
    match groups {
        Some(g) => Some(
            (
                pos + (g[0].unwrap().1 - g[0].unwrap().0),
                if g.len() > 1 && g[1] is Some {
                    Some(piece(tail, g[1].unwrap().0 as int, g[1].unwrap().1 as int))
                } else {
                    None
                },
            ),
        ),
        None => None,
    }
}

/// An end and a capture, by their values.
pub open spec fn match_of(found: Option<(usize, StringCapture)>) -> Option<
    (int, Option<Seq<char>>),
> {
    match found {
        Some((end, capture)) => Some((end as int, capture@)),
        None => None,
    }
}

/// The end and the body of a string literal that begins at `pos`, from what the string
/// pattern captures in `tail`, the text from `pos` on.
pub fn locate(tail: &str, pos: usize, groups: Option<Vec<Option<(usize, usize)>>>) -> (found:
    Option<(usize, StringCapture)>)
    requires
        pos + encode_utf8(tail@).len() <= usize::MAX,
        groups matches Some(g) ==> g@.len() > 0 && g@[0] is Some && groups_fit(tail@, g@),
    ensures
        match_of(found) == located(tail@, pos as int, groups_of(groups)),
{
    match groups {
        Some(g) => {
            let whole = g[0].unwrap();
            let body = if g.len() > 1 {
                match g[1] {
                    Some((from, to)) => Some(String::from_str(slice(tail, from, to))),
                    None => None,
                }
            } else {
                None
            };
            Some((pos + (whole.1 - whole.0), StringCapture { body }))
        },
        None => None,
    }
}

impl StringRules {
    /// Processes an escape sequence into the text that it stands for.
    pub fn escape(&self, code: &str) -> (outcome: Result<String, &'static str>)
        ensures
            chars_of(outcome) == escape_spec(code@, captures_of(PTN_UNICODE@, code@)),
    {
        proof {
            use_type_invariant(self);
        }
        let bytes = code.as_bytes();
        if bytes.len() < 2 {
            return Err("invalid empty escape");
        }
        if bytes[0] != '\\' as u8 {
            return Err("unknown escape sequence");
        }
        let kind = bytes[1];
        if kind == 'n' as u8 {
            Ok(String::from_str("\n"))
        } else if kind == 'r' as u8 {
            Ok(String::from_str("\r"))
        } else if kind == 't' as u8 {
            Ok(String::from_str("\t"))
        } else if kind == '\\' as u8 {
            Ok(String::from_str("\\"))
        } else if kind == '0' as u8 {
            Ok(String::from_str("\0"))
        } else if kind == '\'' as u8 {
            Ok(String::from_str("'"))
        } else if kind == '"' as u8 {
            Ok(String::from_str("\""))
        } else if kind == 'x' as u8 {
            proof {
                lemma_cut_after_two_ascii(code@);
            }
            two_digit_escape(slice(code, 2, bytes.len()))
        } else if kind == 'u' as u8 {
            unicode_capture(code, first_captures(&self.unicode, code))
        } else {
            Err("unknown escape sequence")
        }
    }

    /// Replaces the escape sequences of a text, which are at `spans`, by what they stand for.
    pub fn splice_escapes(&self, body: &str, spans: &Vec<(usize, usize)>) -> (outcome: Result<
        String,
        &'static str,
    >)
        requires
            spans_in_order(body@, spans@),
        ensures
            chars_of(outcome) == spliced(body@, spans@, 0, 0),
    {
        let mut result = String::new();
        let mut offset: usize = 0;
        let mut i: usize = 0;
        proof {
            encode_utf8_valid_utf8(body@);
            is_char_boundary_start_end_of_seq(encode_utf8(body@));
            let whole = spliced(body@, spans@, 0, 0);
            if whole is Ok {
                assert(result@ + whole.unwrap() =~= whole.unwrap());
            }
        }
        while i < spans.len()
            invariant
                i <= spans.len(),
                spans_in_order(body@, spans@),
                valid_utf8(encode_utf8(body@)),
                is_char_boundary(encode_utf8(body@), encode_utf8(body@).len() as int),
                offset == if i == 0 {
                    0
                } else {
                    spans[i - 1].1
                },
                spliced(body@, spans@, 0, 0) == continued(
                    result@,
                    spliced(body@, spans@, i as int, offset as int),
                ),
            decreases spans.len() - i,
        {
            let (start, end) = spans[i];
            proof {
                if i > 0 {
                    assert(spans@[i - 1].1 <= spans@[i as int].0);
                    assert(sliceable(body@, spans@[i - 1].0 as int, spans@[i - 1].1 as int));
                }
                assert(sliceable(body@, spans@[i as int].0 as int, spans@[i as int].1 as int));
            }
            let ghost before = result@;
            result.append(slice(body, offset, start));
            match self.escape(slice(body, start, end)) {
                Ok(text) => {
                    result.append(text.as_str());
                    proof {
                        let rest = spliced(body@, spans@, i + 1, end as int);
                        if rest is Ok {
                            assert(before + (piece(body@, offset as int, start as int) + text@
                                + rest.unwrap()) =~= result@ + rest.unwrap());
                        }
                    }
                },
                Err(reason) => {
                    return Err(reason);
                },
            }
            offset = end;
            i += 1;
        }
        proof {
            if i > 0 {
                assert(sliceable(body@, spans@[i - 1].0 as int, spans@[i - 1].1 as int));
            }
        }
        result.append(slice(body, offset, byte_len(body)));
        Ok(result)
    }

    /// Processes the capture of a string literal into the text that the literal stands for,
    /// handling all escapes as necessary.
    pub fn convert_string(&self, captures: StringCapture) -> (outcome: Result<
        String,
        &'static str,
    >)
        ensures
            chars_of(outcome) == converted(captures@),
    {
        proof {
            use_type_invariant(self);
        }
        match captures.body {
            Some(s) => {
                let spans = all_matches(&self.escape, s.as_str());
                self.splice_escapes(s.as_str(), &spans)
            },
            None => Err("failed to parse string"),
        }
    }

    /// Matches a string literal at byte offset `pos` of `input`. Gives the offset just after
    /// the literal, and the capture to convert.
    pub fn match_str_ext(&self, input: &str, pos: usize) -> (found: Option<(usize, StringCapture)>)
        requires
            sliceable(input@, pos as int, encode_utf8(input@).len() as int),
        ensures
            match_of(found) == located(
                piece(input@, pos as int, encode_utf8(input@).len() as int),
                pos as int,
                captures_of(
                    anchored_pattern(),
                    piece(input@, pos as int, encode_utf8(input@).len() as int),
                ),
            ),
    {
        proof {
            use_type_invariant(self);
        }
        let tail = slice(input, pos, byte_len(input));
        proof {
            encode_utf8_valid_utf8(input@);
            valid_utf8_split(encode_utf8(input@), pos as int);
            decode_utf8_encode_utf8(
                encode_utf8(input@).subrange(pos as int, encode_utf8(input@).len() as int),
            );
        }
        locate(tail, pos, first_captures(&self.literal, tail))
    }
}

/// Matches a string literal at byte offset `pos` of `input`. Gives the offset just after the
/// literal, and the capture to convert. `None` also where the patterns of the rules do not
/// compile.
pub fn match_str_ext(input: &str, pos: usize) -> (found: Option<(usize, StringCapture)>)
    requires
        sliceable(input@, pos as int, encode_utf8(input@).len() as int),
    ensures
        match_of(found) == if rules_compile() {
            located(
                piece(input@, pos as int, encode_utf8(input@).len() as int),
                pos as int,
                captures_of(
                    anchored_pattern(),
                    piece(input@, pos as int, encode_utf8(input@).len() as int),
                ),
            )
        } else {
            None
        },
{
    match StringRules::new() {
        Some(rules) => rules.match_str_ext(input, pos),
        None => None,
    }
}

/// Processes the capture of a string literal into the text that the literal stands for,
/// handling all escapes as necessary. Fails also where the patterns of the rules do not
/// compile.
pub fn convert_string(captures: StringCapture) -> (outcome: Result<String, &'static str>)
    ensures
        chars_of(outcome) == if rules_compile() {
            converted(captures@)
        } else {
            Err("failed to parse string")
        },
{
    match StringRules::new() {
        Some(rules) => rules.convert_string(captures),
        None => Err("failed to parse string"),
    }
}

} // verus!

//! The textual JSON layer of the bridge: escaping for the outgoing request
//! body and a parser for the backend's reply body.
//!
//! The grammar accepted by the parser is the JSON object shape that the
//! backend documents: an object whose members are separated by commas, with
//! string keys.  The members `reply` and `timestamp` are decoded in full,
//! escape sequences included; a member under any other key is skipped after a
//! bracket- and string-aware scan and is not otherwise validated.
use vstd::prelude::*;

verus! {

/// The JSON whitespace characters.
pub open spec fn spec_is_ws(c: char) -> bool {
    c == ' ' || c == '\t' || c == '\n' || c == '\r'
}

/// Value of a hexadecimal digit character, if it is one.
pub open spec fn spec_hex_val(c: char) -> Option<int> {
    if 48 <= c as u32 && c as u32 <= 57 {
        Some(c as u32 - 48)
    } else if 97 <= c as u32 && c as u32 <= 102 {
        Some(c as u32 - 97 + 10)
    } else if 65 <= c as u32 && c as u32 <= 70 {
        Some(c as u32 - 65 + 10)
    } else {
        None
    }
}

/// The lower-case hexadecimal digit character for a value below sixteen.
pub open spec fn spec_hex_digit(v: int) -> char {
    if v == 0 { '0' } else if v == 1 { '1' } else if v == 2 { '2' } else if v == 3 { '3' }
    else if v == 4 { '4' } else if v == 5 { '5' } else if v == 6 { '6' } else if v == 7 { '7' }
    else if v == 8 { '8' } else if v == 9 { '9' } else if v == 10 { 'a' } else if v == 11 { 'b' }
    else if v == 12 { 'c' } else if v == 13 { 'd' } else if v == 14 { 'e' } else { 'f' }
}

/// How one character of a string is written inside a JSON string literal:
/// quote, backslash and the named control characters get a two-character
/// escape, the remaining control characters a `\u00XX` escape, and every
/// other character stands for itself.
pub open spec fn spec_escape_char(c: char) -> Seq<char> {
    if c == '"' { seq!['\\', '"'] }
    else if c == '\\' { seq!['\\', '\\'] }
    else if c == '\u{8}' { seq!['\\', 'b'] }
    else if c == '\u{c}' { seq!['\\', 'f'] }
    else if c == '\n' { seq!['\\', 'n'] }
    else if c == '\r' { seq!['\\', 'r'] }
    else if c == '\t' { seq!['\\', 't'] }
    else if (c as u32) < 0x20 {
        seq!['\\', 'u', '0', '0', spec_hex_digit(c as u32 as int / 16), spec_hex_digit(c as u32 as int % 16)]
    } else {
        seq![c]
    }
}

/// The JSON string-literal encoding of a whole character sequence.
pub open spec fn spec_escape(s: Seq<char>) -> Seq<char>
    decreases s.len(),
{
    if s.len() == 0 {
        Seq::empty()
    } else {
        spec_escape_char(s[0]) + spec_escape(s.skip(1))
    }
}

/// Reading a JSON string literal from just after its opening quote: the
/// decoded content and the position just after the closing quote, or `None`
/// where the text up to the closing quote is not a valid string body.
/// Unescaped control characters are rejected; `\uXXXX` escapes are decoded,
/// surrogate pairs combined, and lone surrogates rejected.
pub open spec fn spec_string_body(s: Seq<char>, i: int) -> Option<(Seq<char>, int)>
    decreases s.len() - i,
{
    if !(0 <= i < s.len()) {
        None
    } else if s[i] == '"' {
        Some((Seq::empty(), i + 1))
    } else if s[i] == '\\' {
        if !(i + 2 <= s.len()) {
            None
        } else {
            let e = s[i + 1];
            if e == '"' || e == '\\' || e == '/' {
                spec_cons_string(e, spec_string_body(s, i + 2))
            } else if e == 'b' {
                spec_cons_string('\u{8}', spec_string_body(s, i + 2))
            } else if e == 'f' {
                spec_cons_string('\u{c}', spec_string_body(s, i + 2))
            } else if e == 'n' {
                spec_cons_string('\n', spec_string_body(s, i + 2))
            } else if e == 'r' {
                spec_cons_string('\r', spec_string_body(s, i + 2))
            } else if e == 't' {
                spec_cons_string('\t', spec_string_body(s, i + 2))
            } else if e == 'u' {
                if !(i + 6 <= s.len()) {
                    None
                } else {
                    match spec_hex4(s, i + 2) {
                        None => None,
                        Some(h) => {
                            if h < 0xD800 || h > 0xDFFF {
                                spec_cons_string(((h as u32) as char), spec_string_body(s, i + 6))
                            } else if h < 0xDC00 {
                                if !(i + 12 <= s.len() && s[i + 6] == '\\' && s[i + 7] == 'u') {
                                    None
                                } else {
                                    match spec_hex4(s, i + 8) {
                                        None => None,
                                        Some(l) => {
                                            if 0xDC00 <= l && l <= 0xDFFF {
                                                spec_cons_string(
                                                    (((0x10000 + (h - 0xD800) * 0x400 + (l
                                                        - 0xDC00)) as u32) as char),
                                                    spec_string_body(s, i + 12),
                                                )
                                            } else {
                                                None
                                            }
                                        },
                                    }
                                }
                            } else {
                                None
                            }
                        },
                    }
                }
            } else {
                None
            }
        }
    } else if (s[i] as u32) < 0x20 {
        None
    } else {
        spec_cons_string(s[i], spec_string_body(s, i + 1))
    }
}

/// Prepends one decoded character to the result of reading the rest of a
/// string body.
pub open spec fn spec_cons_string(c: char, rest: Option<(Seq<char>, int)>) -> Option<(Seq<char>, int)> {
    match rest {
        Some((t, j)) => Some((seq![c] + t, j)),
        None => None,
    }
}

/// The value of four hexadecimal digit characters starting at `i`, if all
/// four positions exist and hold hexadecimal digits.
pub open spec fn spec_hex4(s: Seq<char>, i: int) -> Option<int> {
    if !(0 <= i && i + 4 <= s.len()) {
        None
    } else {
        match (spec_hex_val(s[i]), spec_hex_val(s[i + 1]), spec_hex_val(s[i + 2]), spec_hex_val(s[i + 3])) {
            (Some(a), Some(b), Some(c), Some(d)) => Some(a * 4096 + b * 256 + c * 16 + d),
            _ => None,
        }
    }
}

/// The first position at or after `i` that does not hold JSON whitespace.
pub open spec fn spec_skip_ws(s: Seq<char>, i: int) -> int
    decreases s.len() - i,
{
    if 0 <= i < s.len() && spec_is_ws(s[i]) {
        spec_skip_ws(s, i + 1)
    } else {
        i
    }
}

/// Characters that may appear in an unquoted JSON scalar token: digits,
/// sign, decimal point, exponent marks, and the letters of the literal
/// words `true`, `false` and `null`.
pub open spec fn spec_is_scalar_char(c: char) -> bool {
    (48 <= c as u32 && c as u32 <= 57) || c == '-' || c == '+' || c == '.'
        || (97 <= c as u32 && c as u32 <= 122) || c == 'E'
}

/// The first position at or after `i` that does not hold a scalar character.
pub open spec fn spec_scan_scalar(s: Seq<char>, i: int) -> int
    decreases s.len() - i,
{
    if 0 <= i < s.len() && spec_is_scalar_char(s[i]) {
        spec_scan_scalar(s, i + 1)
    } else {
        i
    }
}

/// Skips the remainder of a bracketed value, one character at a time, from
/// position `i` with `depth` brackets currently open.  String literals are
/// crossed with only their escapes tracked, so that brackets and quotes
/// inside them do not count.  Nesting deeper than 128 brackets is rejected,
/// as JSON parsers with a recursion limit do.  Returns the position just
/// after the bracket that closes the value, or `None` where the text ends
/// first.
pub open spec fn spec_bracket_scan(s: Seq<char>, i: int, depth: int, in_str: bool, esc: bool) -> Option<int>
    decreases s.len() - i,
{
    if !(0 <= i < s.len()) {
        None
    } else if in_str {
        if esc {
            spec_bracket_scan(s, i + 1, depth, true, false)
        } else if s[i] == '\\' {
            spec_bracket_scan(s, i + 1, depth, true, true)
        } else if s[i] == '"' {
            spec_bracket_scan(s, i + 1, depth, false, false)
        } else {
            spec_bracket_scan(s, i + 1, depth, true, false)
        }
    } else if s[i] == '"' {
        spec_bracket_scan(s, i + 1, depth, true, false)
    } else if s[i] == '{' || s[i] == '[' {
        if depth >= 128 {
            None
        } else {
            spec_bracket_scan(s, i + 1, depth + 1, false, false)
        }
    } else if s[i] == '}' || s[i] == ']' {
        if depth == 1 {
            Some(i + 1)
        } else {
            spec_bracket_scan(s, i + 1, depth - 1, false, false)
        }
    } else {
        spec_bracket_scan(s, i + 1, depth, false, false)
    }
}

/// Skips one JSON value starting at `i`: a fully validated string literal,
/// a bracketed object or array crossed by [`spec_bracket_scan`], or a
/// non-empty scalar token.  Returns the position just after the value.
pub open spec fn spec_skip_value(s: Seq<char>, i: int) -> Option<int> {
    if !(0 <= i < s.len()) {
        None
    } else if s[i] == '"' {
        match spec_string_body(s, i + 1) {
            Some((content, j)) => Some(j),
            None => None,
        }
    } else if s[i] == '{' || s[i] == '[' {
        spec_bracket_scan(s, i + 1, 1, false, false)
    } else if spec_is_scalar_char(s[i]) {
        Some(spec_scan_scalar(s, i))
    } else {
        None
    }
}

/// The key under which the backend sends the reply text.
pub open spec fn spec_reply_key() -> Seq<char> {
    seq!['r', 'e', 'p', 'l', 'y']
}

/// The key under which the backend may send a timestamp.
pub open spec fn spec_timestamp_key() -> Seq<char> {
    seq!['t', 'i', 'm', 'e', 's', 't', 'a', 'm', 'p']
}

/// The fields gathered while reading the members of the response object:
/// the reply once seen, and the timestamp once seen (`Some(None)` records
/// an explicit `null`).
pub struct ResponseFields {
    pub reply: Option<Seq<char>>,
    pub timestamp: Option<Option<Seq<char>>>,
}

/// Reads the value of one member whose key has just been read, starting at
/// the value's first character `i`.  The members `reply` and `timestamp`
/// must be strings (`timestamp` may also be `null`) and may each appear
/// only once; a member under any other key is skipped.
pub open spec fn spec_member_value(s: Seq<char>, i: int, key: Seq<char>, acc: ResponseFields) -> Option<(ResponseFields, int)> {
    if !(0 <= i < s.len()) {
        None
    } else if key == spec_reply_key() {
        if acc.reply is Some {
            None
        } else if s[i] == '"' {
            match spec_string_body(s, i + 1) {
                Some((v, j)) => Some((ResponseFields { reply: Some(v), ..acc }, j)),
                None => None,
            }
        } else {
            None
        }
    } else if key == spec_timestamp_key() {
        if acc.timestamp is Some {
            None
        } else if s[i] == '"' {
            match spec_string_body(s, i + 1) {
                Some((v, j)) => Some((ResponseFields { timestamp: Some(Some(v)), ..acc }, j)),
                None => None,
            }
        } else if i + 4 <= s.len() && s[i] == 'n' && s[i + 1] == 'u' && s[i + 2] == 'l' && s[i + 3] == 'l' {
            Some((ResponseFields { timestamp: Some(None), ..acc }, i + 4))
        } else {
            None
        }
    } else {
        match spec_skip_value(s, i) {
            Some(j) => Some((acc, j)),
            None => None,
        }
    }
}

/// Reading a string body never moves backwards: the end position lies past
/// the starting position, within the text.
pub proof fn lemma_string_body_advances(s: Seq<char>, i: int)
    ensures
        spec_string_body(s, i) matches Some((content, j)) ==> i < j <= s.len(),
    decreases s.len() - i,
{
    if 0 <= i < s.len() {
        if s[i] == '"' {
        } else if s[i] == '\\' {
            if i + 2 <= s.len() {
                lemma_string_body_advances(s, i + 2);
                if s[i + 1] == 'u' && i + 6 <= s.len() {
                    lemma_string_body_advances(s, i + 6);
                    if i + 12 <= s.len() {
                        lemma_string_body_advances(s, i + 12);
                    }
                }
            }
        } else {
            lemma_string_body_advances(s, i + 1);
        }
    }
}

/// Skipping whitespace never moves backwards and never leaves the text.
pub proof fn lemma_skip_ws_bounds(s: Seq<char>, i: int)
    requires
        0 <= i <= s.len(),
    ensures
        i <= spec_skip_ws(s, i) <= s.len(),
    decreases s.len() - i,
{
    if i < s.len() && spec_is_ws(s[i]) {
        lemma_skip_ws_bounds(s, i + 1);
    }
}

/// Scanning a scalar token never moves backwards and never leaves the text.
pub proof fn lemma_scan_scalar_bounds(s: Seq<char>, i: int)
    requires
        0 <= i <= s.len(),
    ensures
        i <= spec_scan_scalar(s, i) <= s.len(),
    decreases s.len() - i,
{
    if i < s.len() && spec_is_scalar_char(s[i]) {
        lemma_scan_scalar_bounds(s, i + 1);
    }
}

/// The bracket scan only moves forwards through the text.
pub proof fn lemma_bracket_scan_advances(s: Seq<char>, i: int, depth: int, in_str: bool, esc: bool)
    ensures
        spec_bracket_scan(s, i, depth, in_str, esc) matches Some(j) ==> i < j <= s.len(),
    decreases s.len() - i,
{
    if 0 <= i < s.len() {
        lemma_bracket_scan_advances(s, i + 1, depth, in_str, false);
        lemma_bracket_scan_advances(s, i + 1, depth, in_str, true);
        lemma_bracket_scan_advances(s, i + 1, depth, !in_str, false);
        lemma_bracket_scan_advances(s, i + 1, depth + 1, false, false);
        lemma_bracket_scan_advances(s, i + 1, depth - 1, false, false);
    }
}

/// Skipping a value only moves forwards through the text.
pub proof fn lemma_skip_value_advances(s: Seq<char>, i: int)
    ensures
        spec_skip_value(s, i) matches Some(j) ==> i < j <= s.len(),
{
    if 0 <= i < s.len() {
        lemma_string_body_advances(s, i + 1);
        lemma_bracket_scan_advances(s, i + 1, 1, false, false);
        if spec_is_scalar_char(s[i]) {
            lemma_scan_scalar_bounds(s, i);
            assert(spec_scan_scalar(s, i) == spec_scan_scalar(s, i + 1));
            lemma_scan_scalar_bounds(s, i + 1);
        }
    }
}

/// Reading one member's value only moves forwards through the text.
pub proof fn lemma_member_value_advances(s: Seq<char>, i: int, key: Seq<char>, acc: ResponseFields)
    ensures
        spec_member_value(s, i, key, acc) matches Some((acc2, j)) ==> i < j <= s.len(),
{
    if 0 <= i < s.len() {
        lemma_string_body_advances(s, i + 1);
        lemma_skip_value_advances(s, i);
    }
}

/// Reads the members of the response object from position `i` (just after
/// the opening brace or a separating comma), with the fields gathered so
/// far in `acc`.  Returns the final fields and the position just after the
/// closing brace.
pub open spec fn spec_members(s: Seq<char>, i: int, acc: ResponseFields) -> Option<(ResponseFields, int)>
    decreases s.len() - i,
{
    if !(0 <= i <= s.len()) {
        None
    } else {
        let k = spec_skip_ws(s, i);
        if !(k < s.len() && s[k] == '"') {
            None
        } else {
            match spec_string_body(s, k + 1) {
                None => None,
                Some((key, j1)) => {
                    let j2 = spec_skip_ws(s, j1);
                    if !(j2 < s.len() && s[j2] == ':') {
                        None
                    } else {
                        let j3 = spec_skip_ws(s, j2 + 1);
                        match spec_member_value(s, j3, key, acc) {
                            None => None,
                            Some((acc2, j4)) => {
                                let j5 = spec_skip_ws(s, j4);
                                if !(j5 < s.len()) {
                                    None
                                } else if s[j5] == ',' {
                                    proof {
                                        lemma_skip_ws_bounds(s, i);
                                        lemma_string_body_advances(s, k + 1);
                                        lemma_skip_ws_bounds(s, j1);
                                        lemma_skip_ws_bounds(s, j2 + 1);
                                        lemma_member_value_advances(s, j3, key, acc);
                                        lemma_skip_ws_bounds(s, j4);
                                    }
                                    spec_members(s, j5 + 1, acc2)
                                } else if s[j5] == '}' {
                                    Some((acc2, j5 + 1))
                                } else {
                                    None
                                }
                            },
                        }
                    }
                }
            }
        }
    }
}

/// The meaning of a backend reply body: `Some((reply, timestamp))` exactly
/// when the whole text is one JSON object of the response shape whose
/// `reply` member is present, and `None` otherwise.  An absent timestamp
/// and an explicit `null` both yield `None` for the timestamp.
pub open spec fn spec_response_of(s: Seq<char>) -> Option<(Seq<char>, Option<Seq<char>>)> {
    let i0 = spec_skip_ws(s, 0);
    if !(i0 < s.len() && s[i0] == '{') {
        None
    } else {
        let i1 = spec_skip_ws(s, i0 + 1);
        if i1 < s.len() && s[i1] == '}' {
            None
        } else {
            match spec_members(s, i0 + 1, ResponseFields { reply: None, timestamp: None }) {
                None => None,
                Some((acc, j)) => {
                    if spec_skip_ws(s, j) == s.len() {
                        match acc.reply {
                            Some(r) => Some((r, match acc.timestamp {
                                Some(t) => t,
                                None => None,
                            })),
                            None => None,
                        }
                    } else {
                        None
                    }
                },
            }
        }
    }
}

/// Prepends an already-read prefix to the outcome of reading the rest of a
/// string body.
pub open spec fn spec_prepend(prefix: Seq<char>, rest: Option<(Seq<char>, int)>) -> Option<(Seq<char>, int)> {
    match rest {
        Some((t, j)) => Some((prefix + t, j)),
        None => None,
    }
}

/// Relies on char::from_u32: it returns the character with the given code
/// point exactly when the value is a Unicode scalar value (below 0xD800 or
/// in 0xE000..=0x10FFFF).
#[verifier::external_body]
fn char_from_code(u: u32) -> (r: Option<char>)
    ensures
        r is Some <==> (u < 0xD800 || (0xE000 <= u && u <= 0x10FFFF)),
        r matches Some(c) ==> c as u32 == u,
{
    char::from_u32(u)
}

/// Decides whether a character is JSON whitespace.
fn is_ws_char(c: char) -> (b: bool)
    ensures
        b == spec_is_ws(c),
{
    c == ' ' || c == '\t' || c == '\n' || c == '\r'
}

/// The value of a hexadecimal digit character, if it is one.
fn hex_val(c: char) -> (r: Option<u32>)
    ensures
        match r {
            Some(v) => spec_hex_val(c) == Some(v as int) && v < 16,
            None => spec_hex_val(c) is None,
        },
{
    let u = c as u32;
    if 48 <= u && u <= 57 {
        Some(u - 48)
    } else if 97 <= u && u <= 102 {
        Some(u - 97 + 10)
    } else if 65 <= u && u <= 70 {
        Some(u - 65 + 10)
    } else {
        None
    }
}

/// The lower-case hexadecimal digit character for a value below sixteen.
pub fn hex_digit_char(v: u32) -> (c: char)
    requires
        v < 16,
    ensures
        c == spec_hex_digit(v as int),
{
    if v == 0 { '0' } else if v == 1 { '1' } else if v == 2 { '2' } else if v == 3 { '3' }
    else if v == 4 { '4' } else if v == 5 { '5' } else if v == 6 { '6' } else if v == 7 { '7' }
    else if v == 8 { '8' } else if v == 9 { '9' } else if v == 10 { 'a' } else if v == 11 { 'b' }
    else if v == 12 { 'c' } else if v == 13 { 'd' } else if v == 14 { 'e' } else { 'f' }
}

/// Escaping one further character extends the escaped text by that
/// character's escape.
pub proof fn lemma_escape_push(a: Seq<char>, c: char)
    ensures
        spec_escape(a.push(c)) == spec_escape(a) + spec_escape_char(c),
    decreases a.len(),
{
    if a.len() == 0 {
        assert(a.push(c)[0] == c);
        assert(a.push(c).skip(1) =~= Seq::<char>::empty());
        assert(spec_escape(a.push(c).skip(1)) == Seq::<char>::empty());
        assert(spec_escape(a.push(c)) == spec_escape_char(c) + Seq::<char>::empty());
        assert(spec_escape_char(c) + Seq::<char>::empty() =~= spec_escape_char(c));
        assert(spec_escape(a) == Seq::<char>::empty());
        assert(Seq::<char>::empty() + spec_escape_char(c) =~= spec_escape_char(c));
    } else {
        lemma_escape_push(a.skip(1), c);
        assert(a.push(c)[0] == a[0]);
        assert(a.push(c).skip(1) =~= a.skip(1).push(c));
        assert(spec_escape_char(a[0]) + (spec_escape(a.skip(1)) + spec_escape_char(c)) =~= (
        spec_escape_char(a[0]) + spec_escape(a.skip(1))) + spec_escape_char(c));
    }
}

/// Writes the JSON string-literal escaping of `src` onto the end of `out`.
pub fn escape_onto(src: &Vec<char>, out: &mut Vec<char>)
    ensures
        final(out)@ == old(out)@ + spec_escape(src@),
{
    let ghost base = out@;
    let mut i: usize = 0;
    proof {
        assert(src@.take(0) =~= Seq::<char>::empty());
        assert(base + spec_escape(src@.take(0)) =~= base);
    }
    while i < src.len()
        invariant
            i <= src@.len(),
            out@ == base + spec_escape(src@.take(i as int)),
        decreases src@.len() - i,
    {
        let c = src[i];
        if c == '"' {
            out.push('\\');
            out.push('"');
        } else if c == '\\' {
            out.push('\\');
            out.push('\\');
        } else if c == '\u{8}' {
            out.push('\\');
            out.push('b');
        } else if c == '\u{c}' {
            out.push('\\');
            out.push('f');
        } else if c == '\n' {
            out.push('\\');
            out.push('n');
        } else if c == '\r' {
            out.push('\\');
            out.push('r');
        } else if c == '\t' {
            out.push('\\');
            out.push('t');
        } else if (c as u32) < 0x20 {
            out.push('\\');
            out.push('u');
            out.push('0');
            out.push('0');
            out.push(hex_digit_char((c as u32) / 16));
            out.push(hex_digit_char((c as u32) % 16));
        } else {
            out.push(c);
        }
        proof {
            lemma_escape_push(src@.take(i as int), src@[i as int]);
            assert(src@.take(i as int).push(src@[i as int]) =~= src@.take(i as int + 1));
            assert(out@ =~= base + spec_escape(src@.take(i as int + 1)));
        }
        i += 1;
    }
    proof {
        assert(src@.take(src@.len() as int) =~= src@);
    }
}

/// The first position at or after `i` that does not hold JSON whitespace.
pub fn skip_ws(s: &Vec<char>, i: usize) -> (r: usize)
    requires
        i <= s@.len(),
    ensures
        r as int == spec_skip_ws(s@, i as int),
        i <= r <= s@.len(),
{
    let mut j = i;
    while j < s.len() && is_ws_char(s[j])
        invariant
            i <= j <= s@.len(),
            spec_skip_ws(s@, i as int) == spec_skip_ws(s@, j as int),
        decreases s@.len() - j,
    {
        j += 1;
    }
    j
}

/// The value of four hexadecimal digit characters starting at `i`.
fn hex4_at(s: &Vec<char>, i: usize) -> (r: Option<u32>)
    requires
        i + 4 <= s@.len(),
    ensures
        match r {
            Some(v) => spec_hex4(s@, i as int) == Some(v as int) && v < 0x10000,
            None => spec_hex4(s@, i as int) is None,
        },
{
    // binds the vector's length so the index arithmetic is known to fit in usize
    let n = s.len();
    let a = hex_val(s[i]);
    let b = hex_val(s[i + 1]);
    let c = hex_val(s[i + 2]);
    let d = hex_val(s[i + 3]);
    match (a, b, c, d) {
        (Some(a), Some(b), Some(c), Some(d)) => Some(a * 4096 + b * 256 + c * 16 + d),
        _ => None,
    }
}

/// Reads a JSON string literal from just after its opening quote, returning
/// the decoded content and the position just after the closing quote.
pub fn read_string_body(s: &Vec<char>, start: usize) -> (r: Option<(Vec<char>, usize)>)
    requires
        start <= s@.len(),
    ensures
        match r {
            Some(p) => spec_string_body(s@, start as int) == Some((p.0@, p.1 as int)) && start < p.1
                <= s@.len(),
            None => spec_string_body(s@, start as int) is None,
        },
{
    let mut out: Vec<char> = Vec::new();
    let mut i = start;
    proof {
        match spec_string_body(s@, start as int) {
            Some((t, j)) => {
                assert(Seq::<char>::empty() + t =~= t);
            },
            None => {},
        }
    }
    loop
        invariant
            start <= i <= s@.len(),
            spec_string_body(s@, start as int) == spec_prepend(out@, spec_string_body(s@, i as int)),
        decreases s@.len() - i,
    {
        if i == s.len() {
            return None;
        }
        let c = s[i];
        if c == '"' {
            proof {
                assert(out@ + Seq::<char>::empty() =~= out@);
            }
            return Some((out, i + 1));
        } else if c == '\\' {
            if s.len() - i < 2 {
                return None;
            }
            let e = s[i + 1];
            let ghost pre = out@;
            if e == '"' || e == '\\' || e == '/' {
                out.push(e);
                proof {
                    lemma_prepend_one(pre, e, s@, i as int + 2);
                }
                i += 2;
            } else if e == 'b' {
                out.push('\u{8}');
                proof {
                    lemma_prepend_one(pre, '\u{8}', s@, i as int + 2);
                }
                i += 2;
            } else if e == 'f' {
                out.push('\u{c}');
                proof {
                    lemma_prepend_one(pre, '\u{c}', s@, i as int + 2);
                }
                i += 2;
            } else if e == 'n' {
                out.push('\n');
                proof {
                    lemma_prepend_one(pre, '\n', s@, i as int + 2);
                }
                i += 2;
            } else if e == 'r' {
                out.push('\r');
                proof {
                    lemma_prepend_one(pre, '\r', s@, i as int + 2);
                }
                i += 2;
            } else if e == 't' {
                out.push('\t');
                proof {
                    lemma_prepend_one(pre, '\t', s@, i as int + 2);
                }
                i += 2;
            } else if e == 'u' {
                if s.len() - i < 6 {
                    return None;
                }
                let h = match hex4_at(s, i + 2) {
                    Some(h) => h,
                    None => {
                        return None;
                    },
                };
                if h < 0xD800 || h > 0xDFFF {
                    let ch = char_from_code(h).unwrap();
                    out.push(ch);
                    proof {
                        vstd::utf8::char_u32_cast(ch, h);
                        lemma_prepend_one(pre, ch, s@, i as int + 6);
                    }
                    i += 6;
                } else if h < 0xDC00 {
                    if s.len() - i < 12 || s[i + 6] != '\\' || s[i + 7] != 'u' {
                        return None;
                    }
                    let l = match hex4_at(s, i + 8) {
                        Some(l) => l,
                        None => {
                            return None;
                        },
                    };
                    if 0xDC00 <= l && l <= 0xDFFF {
                        let code = 0x10000 + (h - 0xD800) * 0x400 + (l - 0xDC00);
                        let ch = char_from_code(code).unwrap();
                        out.push(ch);
                        proof {
                            vstd::utf8::char_u32_cast(ch, code);
                            lemma_prepend_one(pre, ch, s@, i as int + 12);
                        }
                        i += 12;
                    } else {
                        return None;
                    }
                } else {
                    return None;
                }
            } else {
                return None;
            }
        } else if (c as u32) < 0x20 {
            return None;
        } else {
            let ghost pre = out@;
            out.push(c);
            proof {
                lemma_prepend_one(pre, c, s@, i as int + 1);
            }
            i += 1;
        }
    }
}

/// Moving one decoded character from the pending rest into the prefix keeps
/// the prepended outcome the same.
proof fn lemma_prepend_one(pre: Seq<char>, c: char, s: Seq<char>, j: int)
    ensures
        spec_prepend(pre, spec_cons_string(c, spec_string_body(s, j))) == spec_prepend(
            pre.push(c),
            spec_string_body(s, j),
        ),
{
    match spec_string_body(s, j) {
        Some((t, e)) => {
            assert(pre + (seq![c] + t) =~= (pre.push(c)) + t);
        },
        None => {},
    }
}

/// The first position at or after `i` that does not hold a scalar character.
pub fn scan_scalar(s: &Vec<char>, i: usize) -> (r: usize)
    requires
        i <= s@.len(),
    ensures
        r as int == spec_scan_scalar(s@, i as int),
        i <= r <= s@.len(),
{
    let mut j = i;
    while j < s.len() && is_scalar_char(s[j])
        invariant
            i <= j <= s@.len(),
            spec_scan_scalar(s@, i as int) == spec_scan_scalar(s@, j as int),
        decreases s@.len() - j,
    {
        j += 1;
    }
    j
}

/// Decides whether a character may appear in an unquoted scalar token.
fn is_scalar_char(c: char) -> (b: bool)
    ensures
        b == spec_is_scalar_char(c),
{
    let u = c as u32;
    (48 <= u && u <= 57) || c == '-' || c == '+' || c == '.' || (97 <= u && u <= 122) || c == 'E'
}

/// Crosses the remainder of a bracketed value whose opening bracket stood
/// just before `start`, returning the position just after the closing one.
pub fn bracket_scan(s: &Vec<char>, start: usize) -> (r: Option<usize>)
    requires
        start <= s@.len(),
    ensures
        match r {
            Some(j) => spec_bracket_scan(s@, start as int, 1, false, false) == Some(j as int)
                && start < j <= s@.len(),
            None => spec_bracket_scan(s@, start as int, 1, false, false) is None,
        },
{
    let mut i = start;
    let mut depth: usize = 1;
    let mut in_str = false;
    let mut esc = false;
    loop
        invariant
            start <= i <= s@.len(),
            1 <= depth <= 128,
            esc ==> in_str,
            spec_bracket_scan(s@, start as int, 1, false, false) == spec_bracket_scan(
                s@,
                i as int,
                depth as int,
                in_str,
                esc,
            ),
        decreases s@.len() - i,
    {
        if i == s.len() {
            return None;
        }
        let c = s[i];
        if in_str {
            if esc {
                esc = false;
            } else if c == '\\' {
                esc = true;
            } else if c == '"' {
                in_str = false;
            }
        } else if c == '"' {
            in_str = true;
        } else if c == '{' || c == '[' {
            if depth >= 128 {
                return None;
            }
            depth = depth + 1;
        } else if c == '}' || c == ']' {
            if depth == 1 {
                proof {
                    lemma_bracket_scan_advances(s@, start as int, 1, false, false);
                }
                return Some(i + 1);
            }
            depth = depth - 1;
        }
        i += 1;
    }
}

/// Skips one JSON value starting at `i`, returning the position just after
/// it.
pub fn skip_json_value(s: &Vec<char>, i: usize) -> (r: Option<usize>)
    requires
        i <= s@.len(),
    ensures
        match r {
            Some(j) => spec_skip_value(s@, i as int) == Some(j as int) && i < j <= s@.len(),
            None => spec_skip_value(s@, i as int) is None,
        },
{
    if i == s.len() {
        return None;
    }
    let c = s[i];
    if c == '"' {
        match read_string_body(s, i + 1) {
            Some(p) => Some(p.1),
            None => None,
        }
    } else if c == '{' || c == '[' {
        bracket_scan(s, i + 1)
    } else if is_scalar_char(c) {
        let j = scan_scalar(s, i);
        proof {
            assert(spec_scan_scalar(s@, i as int) == spec_scan_scalar(s@, i as int + 1));
            lemma_scan_scalar_bounds(s@, i as int + 1);
        }
        Some(j)
    } else {
        None
    }
}

/// Decides whether decoded member-key characters spell `reply`.
fn key_is_reply(k: &Vec<char>) -> (b: bool)
    ensures
        b == (k@ == spec_reply_key()),
{
    let r = k.len() == 5 && k[0] == 'r' && k[1] == 'e' && k[2] == 'p' && k[3] == 'l' && k[4] == 'y';
    proof {
        if r {
            assert(k@ =~= spec_reply_key());
        }
        if k@ == spec_reply_key() {
            assert(k@.len() == 5);
            assert(k@[0] == 'r' && k@[1] == 'e' && k@[2] == 'p' && k@[3] == 'l' && k@[4] == 'y');
        }
    }
    r
}

/// Decides whether decoded member-key characters spell `timestamp`.
fn key_is_timestamp(k: &Vec<char>) -> (b: bool)
    ensures
        b == (k@ == spec_timestamp_key()),
{
    let r = k.len() == 9 && k[0] == 't' && k[1] == 'i' && k[2] == 'm' && k[3] == 'e' && k[4] == 's'
        && k[5] == 't' && k[6] == 'a' && k[7] == 'm' && k[8] == 'p';
    proof {
        if r {
            assert(k@ =~= spec_timestamp_key());
        }
        if k@ == spec_timestamp_key() {
            assert(k@.len() == 9);
            assert(k@[0] == 't' && k@[1] == 'i' && k@[2] == 'm' && k@[3] == 'e' && k@[4] == 's'
                && k@[5] == 't' && k@[6] == 'a' && k@[7] == 'm' && k@[8] == 'p');
        }
    }
    r
}

/// The abstract fields described by executable accumulators.
pub open spec fn spec_fields_of(r: Option<Vec<char>>, t: Option<Option<Vec<char>>>) -> ResponseFields {
    ResponseFields {
        reply: match r {
            Some(v) => Some(v@),
            None => None,
        },
        timestamp: match t {
            Some(Some(v)) => Some(Some(v@)),
            Some(None) => Some(None),
            None => None,
        },
    }
}

/// Reads one member's value, whose key has been decoded into `key`, from
/// position `i`, threading the fields read so far.
fn read_member_value(s: &Vec<char>, i: usize, key: &Vec<char>, reply: Option<Vec<char>>, ts: Option<
    Option<Vec<char>>,
>) -> (r: Option<(Option<Vec<char>>, Option<Option<Vec<char>>>, usize)>)
    requires
        i <= s@.len(),
    ensures
        match r {
            Some(p) => spec_member_value(s@, i as int, key@, spec_fields_of(reply, ts)) == Some(
                (spec_fields_of(p.0, p.1), p.2 as int),
            ) && i < p.2 <= s@.len(),
            None => spec_member_value(s@, i as int, key@, spec_fields_of(reply, ts)) is None,
        },
{
    if i == s.len() {
        return None;
    }
    if key_is_reply(key) {
        if reply.is_some() {
            return None;
        }
        if s[i] == '"' {
            match read_string_body(s, i + 1) {
                Some(p) => Some((Some(p.0), ts, p.1)),
                None => None,
            }
        } else {
            None
        }
    } else if key_is_timestamp(key) {
        if ts.is_some() {
            return None;
        }
        if s[i] == '"' {
            match read_string_body(s, i + 1) {
                Some(p) => Some((reply, Some(Some(p.0)), p.1)),
                None => None,
            }
        } else if s.len() - i >= 4 && s[i] == 'n' && s[i + 1] == 'u' && s[i + 2] == 'l' && s[i + 3]
            == 'l' {
            Some((reply, Some(None), i + 4))
        } else {
            None
        }
    } else {
        match skip_json_value(s, i) {
            Some(j) => Some((reply, ts, j)),
            None => None,
        }
    }
}

/// Reads the members of the response object from position `i`, just after
/// the opening brace, returning the fields and the position just after the
/// closing brace.
pub fn read_members(s: &Vec<char>, start: usize) -> (r: Option<(Option<Vec<char>>, Option<
    Option<Vec<char>>,
>, usize)>)
    requires
        start <= s@.len(),
    ensures
        match r {
            Some(p) => spec_members(s@, start as int, ResponseFields { reply: None, timestamp: None })
                == Some((spec_fields_of(p.0, p.1), p.2 as int)) && p.2 <= s@.len(),
            None => spec_members(s@, start as int, ResponseFields { reply: None, timestamp: None }) is None,
        },
{
    let mut i = start;
    let mut reply: Option<Vec<char>> = None;
    let mut ts: Option<Option<Vec<char>>> = None;
    loop
        invariant
            i <= s@.len(),
            spec_members(s@, start as int, ResponseFields { reply: None, timestamp: None })
                == spec_members(s@, i as int, spec_fields_of(reply, ts)),
        decreases s@.len() - i,
    {
        let k = skip_ws(s, i);
        if k == s.len() || s[k] != '"' {
            return None;
        }
        let (key, j1) = match read_string_body(s, k + 1) {
            Some(p) => p,
            None => {
                return None;
            },
        };
        let j2 = skip_ws(s, j1);
        if j2 == s.len() || s[j2] != ':' {
            return None;
        }
        let j3 = skip_ws(s, j2 + 1);
        let (reply2, ts2, j4) = match read_member_value(s, j3, &key, reply, ts) {
            Some(p) => p,
            None => {
                return None;
            },
        };
        let j5 = skip_ws(s, j4);
        if j5 == s.len() {
            return None;
        }
        if s[j5] == ',' {
            reply = reply2;
            ts = ts2;
            i = j5 + 1;
        } else if s[j5] == '}' {
            return Some((reply2, ts2, j5 + 1));
        } else {
            return None;
        }
    }
}

/// Reads a whole backend reply body: the decoded `reply` text and, where
/// one was sent, the decoded `timestamp` text.  Returns `None` exactly when
/// [`spec_response_of`] assigns the text no meaning.
pub fn read_response(s: &Vec<char>) -> (r: Option<(Vec<char>, Option<Vec<char>>)>)
    ensures
        match r {
            Some(p) => spec_response_of(s@) == Some(
                (
                    p.0@,
                    match p.1 {
                        Some(t) => Some(t@),
                        None => None,
                    },
                ),
            ),
            None => spec_response_of(s@) is None,
        },
{
    let i0 = skip_ws(s, 0);
    if i0 == s.len() || s[i0] != '{' {
        return None;
    }
    let i1 = skip_ws(s, i0 + 1);
    if i1 < s.len() && s[i1] == '}' {
        return None;
    }
    let (reply, ts, j) = match read_members(s, i0 + 1) {
        Some(p) => p,
        None => {
            return None;
        },
    };
    let j2 = skip_ws(s, j);
    if j2 != s.len() {
        return None;
    }
    match reply {
        Some(rv) => Some(
            (
                rv,
                match ts {
                    Some(tv) => tv,
                    None => None,
                },
            ),
        ),
        None => None,
    }
}

} // verus!

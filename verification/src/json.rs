//! The JSON framing the relay speaks: encoding of the request document
//! `{"message": <string>}` and parsing of the reply document — an object
//! holding a `reply` member with a string value, beside any other members,
//! whose values are skipped whole.
//!
//! The wire format is defined by spec-level functions (`spec_json_escape`,
//! `spec_parse_string`, `spec_skip_value`, `spec_parse_reply`); the
//! executable encoder and parser are proved to agree with them, and a
//! round-trip law shows that a well-formed reply document always parses
//! back to the reply it carries.

use vstd::prelude::*;
use vstd::arithmetic::div_mod::lemma_fundamental_div_mod;
use crate::text::char_from_scalar;
use crate::text::chars_to_string;
use crate::text::str_to_chars;

verus! {

/// JSON insignificant whitespace.
pub open spec fn spec_is_ws(c: char) -> bool {
    c == ' ' || c == '\t' || c == '\n' || c == '\r'
}

/// The character for one hexadecimal digit, lower case.
pub open spec fn spec_hex_digit(d: int) -> char {
    if d == 0 {
        '0'
    } else if d == 1 {
        '1'
    } else if d == 2 {
        '2'
    } else if d == 3 {
        '3'
    } else if d == 4 {
        '4'
    } else if d == 5 {
        '5'
    } else if d == 6 {
        '6'
    } else if d == 7 {
        '7'
    } else if d == 8 {
        '8'
    } else if d == 9 {
        '9'
    } else if d == 10 {
        'a'
    } else if d == 11 {
        'b'
    } else if d == 12 {
        'c'
    } else if d == 13 {
        'd'
    } else if d == 14 {
        'e'
    } else {
        'f'
    }
}

/// The value of one hexadecimal digit character, either case.
pub open spec fn spec_hex_val(c: char) -> Option<u8> {
    if c == '0' {
        Some(0u8)
    } else if c == '1' {
        Some(1u8)
    } else if c == '2' {
        Some(2u8)
    } else if c == '3' {
        Some(3u8)
    } else if c == '4' {
        Some(4u8)
    } else if c == '5' {
        Some(5u8)
    } else if c == '6' {
        Some(6u8)
    } else if c == '7' {
        Some(7u8)
    } else if c == '8' {
        Some(8u8)
    } else if c == '9' {
        Some(9u8)
    } else if c == 'a' || c == 'A' {
        Some(10u8)
    } else if c == 'b' || c == 'B' {
        Some(11u8)
    } else if c == 'c' || c == 'C' {
        Some(12u8)
    } else if c == 'd' || c == 'D' {
        Some(13u8)
    } else if c == 'e' || c == 'E' {
        Some(14u8)
    } else if c == 'f' || c == 'F' {
        Some(15u8)
    } else {
        None
    }
}

/// What one character of string content becomes in the encoded document:
/// the quote, the backslash and the common control characters get their
/// two-character escapes, the remaining control characters a `\u00..`
/// escape, and every other character stands for itself.
pub open spec fn spec_escape_char(c: char) -> Seq<char> {
    if c == '"' {
        seq!['\\', '"']
    } else if c == '\\' {
        seq!['\\', '\\']
    } else if c == '\n' {
        seq!['\\', 'n']
    } else if c == '\r' {
        seq!['\\', 'r']
    } else if c == '\t' {
        seq!['\\', 't']
    } else if c == '\u{0008}' {
        seq!['\\', 'b']
    } else if c == '\u{000C}' {
        seq!['\\', 'f']
    } else if (c as u32) < 0x20 {
        seq!['\\', 'u', '0', '0', spec_hex_digit((c as u32) as int / 16), spec_hex_digit(
            (c as u32) as int % 16,
        )]
    } else {
        seq![c]
    }
}

/// The encoded form of a whole string content.
pub open spec fn spec_json_escape(s: Seq<char>) -> Seq<char>
    decreases s.len(),
{
    if s.len() == 0 {
        Seq::empty()
    } else {
        spec_escape_char(s[0]) + spec_json_escape(s.skip(1))
    }
}

/// The opening characters of the request document, up to its string value.
pub open spec fn spec_request_prefix() -> Seq<char> {
    seq!['{', '"', 'm', 'e', 's', 's', 'a', 'g', 'e', '"', ':', '"']
}

/// The request document carrying the given message.
pub open spec fn spec_request_body(message: Seq<char>) -> Seq<char> {
    spec_request_prefix() + spec_json_escape(message) + seq!['"', '}']
}

/// The opening characters of the reply document, up to its string value.
pub open spec fn spec_reply_prefix() -> Seq<char> {
    seq!['{', '"', 'r', 'e', 'p', 'l', 'y', '"', ':', '"']
}

/// The reply document carrying the given reply, as the relay itself would
/// frame it: no insignificant whitespace.
pub open spec fn spec_reply_body(reply: Seq<char>) -> Seq<char> {
    spec_reply_prefix() + spec_json_escape(reply) + seq!['"', '}']
}

/// The escape letters that stand for a single character.
pub open spec fn spec_is_simple_escape(c: char) -> bool {
    c == '"' || c == '\\' || c == '/' || c == 'n' || c == 'r' || c == 't' || c == 'b' || c == 'f'
}

/// The character a simple escape letter stands for.
pub open spec fn spec_unescape(c: char) -> char {
    if c == '"' {
        '"'
    } else if c == '\\' {
        '\\'
    } else if c == '/' {
        '/'
    } else if c == 'n' {
        '\n'
    } else if c == 'r' {
        '\r'
    } else if c == 't' {
        '\t'
    } else if c == 'b' {
        '\u{0008}'
    } else {
        '\u{000C}'
    }
}

/// The code point named by four hexadecimal digit characters.
pub open spec fn spec_hex_code(a: char, b: char, c: char, d: char) -> int {
    (spec_hex_val(a)->0 as int) * 4096 + (spec_hex_val(b)->0 as int) * 256 + (spec_hex_val(
        c,
    )->0 as int) * 16 + (spec_hex_val(d)->0 as int)
}

/// Prepends one decoded character to the content of a partial parse.
pub open spec fn spec_prepend(c: char, r: Option<(Seq<char>, Seq<char>)>) -> Option<
    (Seq<char>, Seq<char>),
> {
    match r {
        None => None,
        Some(p) => Some((seq![c] + p.0, p.1)),
    }
}

/// True when positions `at` through `at + 3` of `s` hold four hexadecimal
/// digit characters.
pub open spec fn spec_hex4_at(s: Seq<char>, at: int) -> bool {
    &&& spec_hex_val(s[at]) is Some
    &&& spec_hex_val(s[at + 1]) is Some
    &&& spec_hex_val(s[at + 2]) is Some
    &&& spec_hex_val(s[at + 3]) is Some
}

/// The code point named by the four hexadecimal digits at `at`.
pub open spec fn spec_hex_code_at(s: Seq<char>, at: int) -> int {
    spec_hex_code(s[at], s[at + 1], s[at + 2], s[at + 3])
}

/// The scalar value named by a surrogate pair.
pub open spec fn spec_pair_code(high: int, low: int) -> int {
    0x10000 + (high - 0xD800) * 0x400 + (low - 0xDC00)
}

/// Parses string content up to and over its closing quote, starting just
/// after the opening quote: yields the decoded content and what follows the
/// closing quote, or nothing if the content is not well formed. A `\u`
/// escape must name a Unicode scalar value, or be the high half of a
/// surrogate pair whose low half follows as another `\u` escape; an
/// unpaired surrogate is rejected.
pub open spec fn spec_parse_string(s: Seq<char>) -> Option<(Seq<char>, Seq<char>)>
    decreases s.len(),
{
    if s.len() == 0 {
        None
    } else if s[0] == '"' {
        Some((Seq::empty(), s.skip(1)))
    } else if s[0] == '\\' {
        if s.len() >= 2 && spec_is_simple_escape(s[1]) {
            spec_prepend(spec_unescape(s[1]), spec_parse_string(s.skip(2)))
        } else if s.len() >= 6 && s[1] == 'u' && spec_hex4_at(s, 2) {
            let code = spec_hex_code_at(s, 2);
            if code < 0xD800 || code >= 0xE000 {
                spec_prepend((code as u32) as char, spec_parse_string(s.skip(6)))
            } else if code < 0xDC00 && s.len() >= 12 && s[6] == '\\' && s[7] == 'u'
                && spec_hex4_at(s, 8) && 0xDC00 <= spec_hex_code_at(s, 8) < 0xE000 {
                spec_prepend(
                    (spec_pair_code(code, spec_hex_code_at(s, 8)) as u32) as char,
                    spec_parse_string(s.skip(12)),
                )
            } else {
                None
            }
        } else {
            None
        }
    } else if (s[0] as u32) < 0x20 {
        None
    } else {
        spec_prepend(s[0], spec_parse_string(s.skip(1)))
    }
}

/// The given sequence without its leading whitespace.
pub open spec fn spec_trim_start(s: Seq<char>) -> Seq<char>
    decreases s.len(),
{
    if s.len() > 0 && spec_is_ws(s[0]) {
        spec_trim_start(s.skip(1))
    } else {
        s
    }
}

/// True for a decimal digit character.
pub open spec fn spec_is_digit(c: char) -> bool {
    0x30 <= (c as u32) <= 0x39
}

/// The given sequence without its leading decimal digits.
pub open spec fn spec_trim_digits(s: Seq<char>) -> Seq<char>
    decreases s.len(),
{
    if s.len() > 0 && spec_is_digit(s[0]) {
        spec_trim_digits(s.skip(1))
    } else {
        s
    }
}

/// Consumes one JSON number standing at the head of `s`: an optional
/// minus, an integer part without leading zeros, an optional fraction and
/// an optional exponent. Yields what follows the number, or nothing if no
/// well-formed number stands there.
pub open spec fn spec_skip_number(s: Seq<char>) -> Option<Seq<char>> {
    let s1 = if s.len() > 0 && s[0] == '-' {
        s.skip(1)
    } else {
        s
    };
    if s1.len() == 0 || !spec_is_digit(s1[0]) {
        None
    } else {
        let s2 = if s1[0] == '0' {
            s1.skip(1)
        } else {
            spec_trim_digits(s1)
        };
        let s4 = if s2.len() >= 1 && s2[0] == '.' {
            if s2.len() >= 2 && spec_is_digit(s2[1]) {
                Some(spec_trim_digits(s2.skip(1)))
            } else {
                None
            }
        } else {
            Some(s2)
        };
        match s4 {
            None => None,
            Some(s5) => {
                if s5.len() >= 1 && (s5[0] == 'e' || s5[0] == 'E') {
                    let s6 = if s5.len() >= 2 && (s5[1] == '+' || s5[1] == '-') {
                        s5.skip(2)
                    } else {
                        s5.skip(1)
                    };
                    if s6.len() == 0 || !spec_is_digit(s6[0]) {
                        None
                    } else {
                        Some(spec_trim_digits(s6))
                    }
                } else {
                    Some(s5)
                }
            },
        }
    }
}

/// How deep containers may nest inside a skipped member value.
pub open spec fn spec_depth_limit() -> nat {
    127
}

/// Consumes one JSON value standing at the head of `s`: a string, a
/// number, one of the three literal words, or a container no deeper than
/// `depth`. Yields what follows the value. `fuel` only bounds the
/// definition's recursion; one more than the length of `s` is always
/// enough.
pub open spec fn spec_skip_value(s: Seq<char>, depth: nat, fuel: nat) -> Option<Seq<char>>
    decreases fuel, 0int,
{
    if fuel == 0 || s.len() == 0 {
        None
    } else if s[0] == '"' {
        match spec_parse_string(s.skip(1)) {
            None => None,
            Some(p) => Some(p.1),
        }
    } else if s[0] == '-' || spec_is_digit(s[0]) {
        spec_skip_number(s)
    } else if s[0] == 't' {
        if s.len() >= 4 && s[1] == 'r' && s[2] == 'u' && s[3] == 'e' {
            Some(s.skip(4))
        } else {
            None
        }
    } else if s[0] == 'f' {
        if s.len() >= 5 && s[1] == 'a' && s[2] == 'l' && s[3] == 's' && s[4] == 'e' {
            Some(s.skip(5))
        } else {
            None
        }
    } else if s[0] == 'n' {
        if s.len() >= 4 && s[1] == 'u' && s[2] == 'l' && s[3] == 'l' {
            Some(s.skip(4))
        } else {
            None
        }
    } else if s[0] == '{' {
        if depth == 0 {
            None
        } else {
            spec_skip_members(s.skip(1), true, (depth - 1) as nat, (fuel - 1) as nat)
        }
    } else if s[0] == '[' {
        if depth == 0 {
            None
        } else {
            spec_skip_elements(s.skip(1), true, (depth - 1) as nat, (fuel - 1) as nat)
        }
    } else {
        None
    }
}

/// Consumes the members of a skipped object, from just after its `{`
/// (`first`) or just after a `,`, up to and over the closing `}`. Keys
/// must be well-formed strings; their content does not matter here.
pub open spec fn spec_skip_members(s: Seq<char>, first: bool, depth: nat, fuel: nat) -> Option<
    Seq<char>,
>
    decreases fuel, 1int,
{
    if fuel == 0 {
        None
    } else {
        let t = spec_trim_start(s);
        if t.len() == 0 {
            None
        } else if first && t[0] == '}' {
            Some(t.skip(1))
        } else if t[0] != '"' {
            None
        } else {
            match spec_parse_string(t.skip(1)) {
                None => None,
                Some(k) => {
                    let c = spec_trim_start(k.1);
                    if c.len() == 0 || c[0] != ':' {
                        None
                    } else {
                        match spec_skip_value(spec_trim_start(c.skip(1)), depth, fuel) {
                            None => None,
                            Some(rest) => {
                                let e = spec_trim_start(rest);
                                if e.len() == 0 {
                                    None
                                } else if e[0] == '}' {
                                    Some(e.skip(1))
                                } else if e[0] == ',' {
                                    spec_skip_members(e.skip(1), false, depth, (fuel - 1) as nat)
                                } else {
                                    None
                                }
                            },
                        }
                    }
                },
            }
        }
    }
}

/// Consumes the elements of a skipped array, from just after its `[`
/// (`first`) or just after a `,`, up to and over the closing `]`.
pub open spec fn spec_skip_elements(s: Seq<char>, first: bool, depth: nat, fuel: nat) -> Option<
    Seq<char>,
>
    decreases fuel, 1int,
{
    if fuel == 0 {
        None
    } else {
        let t = spec_trim_start(s);
        if t.len() == 0 {
            None
        } else if first && t[0] == ']' {
            Some(t.skip(1))
        } else {
            match spec_skip_value(t, depth, fuel) {
                None => None,
                Some(rest) => {
                    let e = spec_trim_start(rest);
                    if e.len() == 0 {
                        None
                    } else if e[0] == ']' {
                        Some(e.skip(1))
                    } else if e[0] == ',' {
                        spec_skip_elements(e.skip(1), false, depth, (fuel - 1) as nat)
                    } else {
                        None
                    }
                },
            }
        }
    }
}

/// The decoded key that names the reply member.
pub open spec fn spec_reply_key() -> Seq<char> {
    seq!['r', 'e', 'p', 'l', 'y']
}

/// Walks the members of the reply document's top-level object, from just
/// after its `{` (`first`) or just after a `,`: decodes each key, records
/// the string value of the `reply` member, rejects a duplicate `reply`
/// member or one whose value is not a string, and skips every other
/// member's value whole. Yields what was found and what follows the
/// closing `}`.
pub open spec fn spec_top_members(
    s: Seq<char>,
    found: Option<Seq<char>>,
    first: bool,
    fuel: nat,
) -> Option<(Option<Seq<char>>, Seq<char>)>
    decreases fuel, 3int,
{
    if fuel == 0 {
        None
    } else {
        let t = spec_trim_start(s);
        if t.len() == 0 {
            None
        } else if first && t[0] == '}' {
            Some((found, t.skip(1)))
        } else if t[0] != '"' {
            None
        } else {
            match spec_parse_string(t.skip(1)) {
                None => None,
                Some(k) => {
                    let c = spec_trim_start(k.1);
                    if c.len() == 0 || c[0] != ':' {
                        None
                    } else {
                        let w = spec_trim_start(c.skip(1));
                        if k.0 == spec_reply_key() {
                            if found is Some {
                                None
                            } else if w.len() == 0 || w[0] != '"' {
                                None
                            } else {
                                match spec_parse_string(w.skip(1)) {
                                    None => None,
                                    Some(rv) => spec_top_continue(rv.1, Some(rv.0), fuel),
                                }
                            }
                        } else {
                            match spec_skip_value(w, spec_depth_limit(), fuel) {
                                None => None,
                                Some(rest) => spec_top_continue(rest, found, fuel),
                            }
                        }
                    }
                },
            }
        }
    }
}

/// After one member of the top-level object: a comma brings the next
/// member, a brace closes the object.
pub open spec fn spec_top_continue(s: Seq<char>, found: Option<Seq<char>>, fuel: nat) -> Option<
    (Option<Seq<char>>, Seq<char>),
>
    decreases fuel, 2int,
{
    if fuel == 0 {
        None
    } else {
        let e = spec_trim_start(s);
        if e.len() == 0 {
            None
        } else if e[0] == '}' {
            Some((found, e.skip(1)))
        } else if e[0] == ',' {
            spec_top_members(e.skip(1), found, false, (fuel - 1) as nat)
        } else {
            None
        }
    }
}

/// Parses a whole reply document: a JSON object holding a `reply` member
/// whose value is a string, beside any other members, whose values are
/// ignored. Yields the decoded reply, or nothing if the document has any
/// other shape, lacks the `reply` member, repeats it, or gives it a value
/// of another type.
pub open spec fn spec_parse_reply(s: Seq<char>) -> Option<Seq<char>> {
    let t = spec_trim_start(s);
    if t.len() == 0 || t[0] != '{' {
        None
    } else {
        match spec_top_members(t.skip(1), None, true, (s.len() + 1) as nat) {
            None => None,
            Some(p) => {
                if spec_trim_start(p.1).len() != 0 {
                    None
                } else {
                    p.0
                }
            },
        }
    }
}

fn hex_val(c: char) -> (r: Option<u8>)
    ensures
        r == spec_hex_val(c),
{
    if c == '0' {
        Some(0u8)
    } else if c == '1' {
        Some(1u8)
    } else if c == '2' {
        Some(2u8)
    } else if c == '3' {
        Some(3u8)
    } else if c == '4' {
        Some(4u8)
    } else if c == '5' {
        Some(5u8)
    } else if c == '6' {
        Some(6u8)
    } else if c == '7' {
        Some(7u8)
    } else if c == '8' {
        Some(8u8)
    } else if c == '9' {
        Some(9u8)
    } else if c == 'a' || c == 'A' {
        Some(10u8)
    } else if c == 'b' || c == 'B' {
        Some(11u8)
    } else if c == 'c' || c == 'C' {
        Some(12u8)
    } else if c == 'd' || c == 'D' {
        Some(13u8)
    } else if c == 'e' || c == 'E' {
        Some(14u8)
    } else if c == 'f' || c == 'F' {
        Some(15u8)
    } else {
        None
    }
}

fn hex_digit(d: u32) -> (c: char)
    requires
        d < 16,
    ensures
        c == spec_hex_digit(d as int),
{
    if d == 0 {
        '0'
    } else if d == 1 {
        '1'
    } else if d == 2 {
        '2'
    } else if d == 3 {
        '3'
    } else if d == 4 {
        '4'
    } else if d == 5 {
        '5'
    } else if d == 6 {
        '6'
    } else if d == 7 {
        '7'
    } else if d == 8 {
        '8'
    } else if d == 9 {
        '9'
    } else if d == 10 {
        'a'
    } else if d == 11 {
        'b'
    } else if d == 12 {
        'c'
    } else if d == 13 {
        'd'
    } else if d == 14 {
        'e'
    } else {
        'f'
    }
}

fn push_escaped(c: char, out: &mut Vec<char>)
    ensures
        final(out)@ == old(out)@ + spec_escape_char(c),
{
    if c == '"' {
        out.push('\\');
        out.push('"');
    } else if c == '\\' {
        out.push('\\');
        out.push('\\');
    } else if c == '\n' {
        out.push('\\');
        out.push('n');
    } else if c == '\r' {
        out.push('\\');
        out.push('r');
    } else if c == '\t' {
        out.push('\\');
        out.push('t');
    } else if c == '\u{0008}' {
        out.push('\\');
        out.push('b');
    } else if c == '\u{000C}' {
        out.push('\\');
        out.push('f');
    } else {
        let u = c as u32;
        if u < 0x20 {
            out.push('\\');
            out.push('u');
            out.push('0');
            out.push('0');
            out.push(hex_digit(u / 16));
            out.push(hex_digit(u % 16));
        } else {
            out.push(c);
        }
    }
    assert(out@ =~= old(out)@ + spec_escape_char(c));
}

/// The encoded form of a concatenation is the concatenation of the encoded
/// forms.
pub proof fn lemma_json_escape_append(a: Seq<char>, b: Seq<char>)
    ensures
        spec_json_escape(a + b) == spec_json_escape(a) + spec_json_escape(b),
    decreases a.len(),
{
    if a.len() == 0 {
        assert(a + b =~= b);
        assert(spec_json_escape(a) + spec_json_escape(b) =~= spec_json_escape(b));
    } else {
        assert((a + b)[0] == a[0]);
        assert((a + b).skip(1) =~= a.skip(1) + b);
        lemma_json_escape_append(a.skip(1), b);
        assert(spec_escape_char(a[0]) + (spec_json_escape(a.skip(1)) + spec_json_escape(b)) =~= (
        spec_escape_char(a[0]) + spec_json_escape(a.skip(1))) + spec_json_escape(b));
    }
}

proof fn lemma_json_escape_snoc(s: Seq<char>, i: int)
    requires
        0 < i <= s.len(),
    ensures
        spec_json_escape(s.take(i)) == spec_json_escape(s.take(i - 1)) + spec_escape_char(
            s[i - 1],
        ),
{
    assert(s.take(i) =~= s.take(i - 1) + seq![s[i - 1]]);
    lemma_json_escape_append(s.take(i - 1), seq![s[i - 1]]);
    let single = seq![s[i - 1]];
    assert(single.skip(1) =~= Seq::<char>::empty());
    assert(spec_json_escape(single.skip(1)) == Seq::<char>::empty());
    assert(spec_json_escape(single) == spec_escape_char(s[i - 1]) + spec_json_escape(
        single.skip(1),
    ));
    assert(spec_escape_char(s[i - 1]) + Seq::<char>::empty() =~= spec_escape_char(s[i - 1]));
}

fn push_json_escape(src: &Vec<char>, out: &mut Vec<char>)
    ensures
        final(out)@ == old(out)@ + spec_json_escape(src@),
{
    let n = src.len();
    let mut i: usize = 0;
    while i < n
        invariant
            i <= n,
            n == src@.len(),
            out@ == old(out)@ + spec_json_escape(src@.take(i as int)),
        decreases n - i,
    {
        push_escaped(src[i], out);
        i = i + 1;
        proof {
            lemma_json_escape_snoc(src@, i as int);
            assert(out@ =~= old(out)@ + spec_json_escape(src@.take(i as int)));
        }
    }
    assert(src@.take(n as int) =~= src@);
}

/// Encodes the request document carrying the given message.
pub fn encode_request_body(message: &str) -> (r: String)
    ensures
        r@ == spec_request_body(message@),
{
    let chars = str_to_chars(message);
    let mut out: Vec<char> = Vec::new();
    out.push('{');
    out.push('"');
    out.push('m');
    out.push('e');
    out.push('s');
    out.push('s');
    out.push('a');
    out.push('g');
    out.push('e');
    out.push('"');
    out.push(':');
    out.push('"');
    assert(out@ =~= spec_request_prefix());
    push_json_escape(&chars, &mut out);
    out.push('"');
    out.push('}');
    assert(out@ =~= spec_request_body(message@));
    chars_to_string(&out)
}

/// Prepends already-decoded content to the content of a partial parse.
pub open spec fn spec_prepend_all(pre: Seq<char>, r: Option<(Seq<char>, Seq<char>)>) -> Option<
    (Seq<char>, Seq<char>),
> {
    match r {
        None => None,
        Some(p) => Some((pre + p.0, p.1)),
    }
}

proof fn lemma_prepend_all_push(pre: Seq<char>, c: char, r: Option<(Seq<char>, Seq<char>)>)
    ensures
        spec_prepend_all(pre, spec_prepend(c, r)) == spec_prepend_all(pre.push(c), r),
{
    match r {
        None => {
        },
        Some(p) => {
            assert(pre + (seq![c] + p.0) =~= pre.push(c) + p.0);
        },
    }
}

fn is_ws(c: char) -> (r: bool)
    ensures
        r == spec_is_ws(c),
{
    c == ' ' || c == '\t' || c == '\n' || c == '\r'
}

fn skip_ws(v: &Vec<char>, start: usize) -> (j: usize)
    requires
        start <= v@.len(),
    ensures
        start <= j <= v@.len(),
        v@.skip(j as int) == spec_trim_start(v@.skip(start as int)),
        j < v@.len() ==> !spec_is_ws(v@[j as int]),
{
    let n = v.len();
    let mut j = start;
    while j < n && is_ws(v[j])
        invariant
            start <= j <= n,
            n == v@.len(),
            spec_trim_start(v@.skip(start as int)) == spec_trim_start(v@.skip(j as int)),
        decreases n - j,
    {
        proof {
            assert(v@.skip(j as int)[0] == v@[j as int]);
            assert(v@.skip(j as int).skip(1) =~= v@.skip(j as int + 1));
        }
        j = j + 1;
    }
    proof {
        if j < n {
            assert(v@.skip(j as int)[0] == v@[j as int]);
            assert(spec_trim_start(v@.skip(j as int)) == v@.skip(j as int));
        } else {
            assert(v@.skip(j as int).len() == 0);
            assert(spec_trim_start(v@.skip(j as int)) == v@.skip(j as int));
        }
    }
    j
}

fn unescape_char(e: char) -> (c: char)
    requires
        spec_is_simple_escape(e),
    ensures
        c == spec_unescape(e),
{
    if e == '"' {
        '"'
    } else if e == '\\' {
        '\\'
    } else if e == '/' {
        '/'
    } else if e == 'n' {
        '\n'
    } else if e == 'r' {
        '\r'
    } else if e == 't' {
        '\t'
    } else if e == 'b' {
        '\u{0008}'
    } else {
        '\u{000C}'
    }
}

/// Scans string content from `start`, which stands just after an opening
/// quote, decoding escapes up to the closing quote: yields the decoded
/// content and the position just past the closing quote.
#[verifier::rlimit(50)]
fn parse_string_from(v: &Vec<char>, start: usize) -> (r: Option<(Vec<char>, usize)>)
    requires
        start <= v@.len(),
    ensures
        (match r {
            Some(p) => {
                &&& start < p.1 <= v@.len()
                &&& spec_parse_string(v@.skip(start as int)) == Some(
                    (p.0@, v@.skip(p.1 as int)),
                )
            },
            None => spec_parse_string(v@.skip(start as int)) is None,
        }),
{
    let n = v.len();
    let mut j = start;
    let mut acc: Vec<char> = Vec::new();
    loop
        invariant
            start <= j <= n,
            n == v@.len(),
            spec_parse_string(v@.skip(start as int)) == spec_prepend_all(
                acc@,
                spec_parse_string(v@.skip(j as int)),
            ),
        decreases n - j,
    {
        if j == n {
            proof {
                assert(v@.skip(j as int).len() == 0);
            }
            return None;
        }
        let c = v[j];
        proof {
            assert(v@.skip(j as int)[0] == v@[j as int]);
        }
        if c == '"' {
            proof {
                assert(v@.skip(j as int).skip(1) =~= v@.skip(j as int + 1));
                assert(spec_parse_string(v@.skip(j as int)) == Some(
                    (Seq::<char>::empty(), v@.skip(j as int + 1)),
                ));
                assert(acc@ + Seq::<char>::empty() =~= acc@);
            }
            return Some((acc, j + 1));
        } else if c == '\\' {
            if n - j < 2 {
                return None;
            }
            let e = v[j + 1];
            proof {
                assert(v@.skip(j as int)[1] == v@[j as int + 1]);
            }
            if e == '"' || e == '\\' || e == '/' || e == 'n' || e == 'r' || e == 't' || e == 'b'
                || e == 'f' {
                let d = unescape_char(e);
                proof {
                    assert(v@.skip(j as int).skip(2) =~= v@.skip(j as int + 2));
                    assert(spec_parse_string(v@.skip(j as int)) == spec_prepend(
                        d,
                        spec_parse_string(v@.skip(j as int + 2)),
                    ));
                    lemma_prepend_all_push(acc@, d, spec_parse_string(v@.skip(j as int + 2)));
                }
                acc.push(d);
                j = j + 2;
            } else if e == 'u' {
                if n - j < 6 {
                    return None;
                }
                proof {
                    assert(v@.skip(j as int)[2] == v@[j as int + 2]);
                    assert(v@.skip(j as int)[3] == v@[j as int + 3]);
                    assert(v@.skip(j as int)[4] == v@[j as int + 4]);
                    assert(v@.skip(j as int)[5] == v@[j as int + 5]);
                }
                let h0 = hex_val(v[j + 2]);
                let h1 = hex_val(v[j + 3]);
                let h2 = hex_val(v[j + 4]);
                let h3 = hex_val(v[j + 5]);
                match (h0, h1, h2, h3) {
                    (Some(a), Some(b), Some(x), Some(y)) => {
                        assert(a < 16 && b < 16 && x < 16 && y < 16);
                        let code: u32 = (a as u32) * 4096 + (b as u32) * 256 + (x as u32) * 16 + (
                        y as u32);
                        let ghost s = v@.skip(j as int);
                        proof {
                            assert(spec_hex4_at(s, 2));
                            assert(code as int == spec_hex_code_at(s, 2));
                        }
                        if code < 0xD800 || code >= 0xE000 {
                            let d = char_from_scalar(code);
                            proof {
                                vstd::utf8::char_u32_cast(d, code);
                                assert((spec_hex_code_at(s, 2) as u32) as char == d);
                                assert(v@.skip(j as int).skip(6) =~= v@.skip(j as int + 6));
                                assert(spec_parse_string(v@.skip(j as int)) == spec_prepend(
                                    d,
                                    spec_parse_string(v@.skip(j as int + 6)),
                                ));
                                lemma_prepend_all_push(
                                    acc@,
                                    d,
                                    spec_parse_string(v@.skip(j as int + 6)),
                                );
                            }
                            acc.push(d);
                            j = j + 6;
                        } else if code < 0xDC00 {
                            if n - j < 12 {
                                return None;
                            }
                            proof {
                                assert(s[6] == v@[j as int + 6]);
                                assert(s[7] == v@[j as int + 7]);
                                assert(s[8] == v@[j as int + 8]);
                                assert(s[9] == v@[j as int + 9]);
                                assert(s[10] == v@[j as int + 10]);
                                assert(s[11] == v@[j as int + 11]);
                            }
                            if v[j + 6] != '\\' || v[j + 7] != 'u' {
                                return None;
                            }
                            let l0 = hex_val(v[j + 8]);
                            let l1 = hex_val(v[j + 9]);
                            let l2 = hex_val(v[j + 10]);
                            let l3 = hex_val(v[j + 11]);
                            match (l0, l1, l2, l3) {
                                (Some(la), Some(lb), Some(lx), Some(ly)) => {
                                    assert(la < 16 && lb < 16 && lx < 16 && ly < 16);
                                    let low: u32 = (la as u32) * 4096 + (lb as u32) * 256 + (
                                    lx as u32) * 16 + (ly as u32);
                                    proof {
                                        assert(spec_hex4_at(s, 8));
                                        assert(low as int == spec_hex_code_at(s, 8));
                                    }
                                    if 0xDC00 <= low && low < 0xE000 {
                                        let combined: u32 = 0x10000 + (code - 0xD800) * 0x400 + (
                                        low - 0xDC00);
                                        let d = char_from_scalar(combined);
                                        proof {
                                            assert(combined as int == spec_pair_code(
                                                code as int,
                                                low as int,
                                            ));
                                            vstd::utf8::char_u32_cast(d, combined);
                                            assert((spec_pair_code(
                                                spec_hex_code_at(s, 2),
                                                spec_hex_code_at(s, 8),
                                            ) as u32) as char == d);
                                            assert(v@.skip(j as int).skip(12) =~= v@.skip(
                                                j as int + 12,
                                            ));
                                            assert(spec_parse_string(v@.skip(j as int))
                                                == spec_prepend(
                                                d,
                                                spec_parse_string(v@.skip(j as int + 12)),
                                            ));
                                            lemma_prepend_all_push(
                                                acc@,
                                                d,
                                                spec_parse_string(v@.skip(j as int + 12)),
                                            );
                                        }
                                        acc.push(d);
                                        j = j + 12;
                                    } else {
                                        return None;
                                    }
                                },
                                _ => {
                                    return None;
                                },
                            }
                        } else {
                            return None;
                        }
                    },
                    _ => {
                        return None;
                    },
                }
            } else {
                return None;
            }
        } else if (c as u32) < 0x20 {
            return None;
        } else {
            proof {
                assert(v@.skip(j as int).skip(1) =~= v@.skip(j as int + 1));
                assert(spec_parse_string(v@.skip(j as int)) == spec_prepend(
                    c,
                    spec_parse_string(v@.skip(j as int + 1)),
                ));
                lemma_prepend_all_push(acc@, c, spec_parse_string(v@.skip(j as int + 1)));
            }
            acc.push(c);
            j = j + 1;
        }
    }
}

proof fn lemma_hex_digit_val(d: int)
    requires
        0 <= d < 16,
    ensures
        spec_hex_val(spec_hex_digit(d)) == Some(d as u8),
{
}

/// Law: decoding inverts encoding, one string at a time. Whatever content
/// the encoder produced, followed by a closing quote and anything after it,
/// scans back to exactly the original content, with the tail untouched.
pub proof fn lemma_escape_round_trip(content: Seq<char>, rest: Seq<char>)
    ensures
        spec_parse_string(spec_json_escape(content) + seq!['"'] + rest) == Some((content, rest)),
    decreases content.len(),
{
    let s = spec_json_escape(content) + seq!['"'] + rest;
    if content.len() == 0 {
        assert(spec_json_escape(content) == Seq::<char>::empty());
        assert(s =~= seq!['"'] + rest);
        assert(s[0] == '"');
        assert(s.skip(1) =~= rest);
    } else {
        let c = content[0];
        let e = spec_escape_char(c);
        let tail = spec_json_escape(content.skip(1)) + seq!['"'] + rest;
        assert(spec_json_escape(content) == e + spec_json_escape(content.skip(1)));
        assert(s =~= e + tail);
        lemma_escape_round_trip(content.skip(1), rest);
        assert(seq![c] + content.skip(1) =~= content);
        if c == '"' || c == '\\' || c == '\n' || c == '\r' || c == '\t' || c == '\u{0008}'
            || c == '\u{000C}' {
            assert(s[0] == '\\');
            assert(s[1] == e[1]);
            assert(spec_is_simple_escape(s[1]));
            assert(spec_unescape(s[1]) == c);
            assert(s.skip(2) =~= tail);
        } else if (c as u32) < 0x20 {
            let u = (c as u32) as int;
            assert(s[0] == '\\');
            assert(s[1] == 'u');
            assert(s[2] == '0');
            assert(s[3] == '0');
            assert(s[4] == spec_hex_digit(u / 16));
            assert(s[5] == spec_hex_digit(u % 16));
            assert(0 <= u / 16 < 16 && 0 <= u % 16 < 16) by {
                lemma_fundamental_div_mod(u, 16);
            }
            lemma_hex_digit_val(u / 16);
            lemma_hex_digit_val(u % 16);
            assert(!spec_is_simple_escape('u'));
            assert(s.len() >= 6);
            assert(spec_hex4_at(s, 2));
            let code = spec_hex_code_at(s, 2);
            assert(code == (u / 16) * 16 + u % 16);
            assert(code == u) by {
                lemma_fundamental_div_mod(u, 16);
            }
            assert(code < 0xD800);
            assert(s.skip(6) =~= tail);
            vstd::utf8::char_u32_cast(c, c as u32);
            assert((code as u32) as char == c);
        } else {
            assert(e =~= seq![c]);
            assert(s[0] == c);
            assert(s.skip(1) =~= tail);
        }
    }
}

/// Law: a reply document framed by the encoder parses back to the reply it
/// carries, for any reply string.
#[verifier::rlimit(80)]
pub proof fn lemma_reply_round_trip(reply: Seq<char>)
    ensures
        spec_parse_reply(spec_reply_body(reply)) == Some(reply),
{
    let s = spec_reply_body(reply);
    let fuel = (s.len() + 1) as nat;
    assert(s[0] == '{');
    assert(spec_trim_start(s) == s);
    let m = s.skip(1);
    assert(m[0] == s[1]);
    assert(s[1] == '"');
    assert(spec_trim_start(m) == m);
    let rest0 = seq![':', '"'] + spec_json_escape(reply) + seq!['"', '}'];
    lemma_reply_key_plain();
    lemma_escape_round_trip(spec_reply_key(), rest0);
    assert(m.skip(1) =~= s.skip(2));
    assert(s.skip(2) =~= spec_json_escape(spec_reply_key()) + seq!['"'] + rest0);
    assert(spec_parse_string(m.skip(1)) == Some((spec_reply_key(), rest0)));
    assert(rest0[0] == ':');
    assert(spec_trim_start(rest0) == rest0);
    let w0 = seq!['"'] + spec_json_escape(reply) + seq!['"', '}'];
    assert(rest0.skip(1) =~= w0);
    assert(w0[0] == '"');
    assert(spec_trim_start(w0) == w0);
    let close = seq!['}'];
    lemma_escape_round_trip(reply, close);
    assert(w0.skip(1) =~= spec_json_escape(reply) + seq!['"'] + close);
    assert(spec_parse_string(w0.skip(1)) == Some((reply, close)));
    assert(close[0] == '}');
    assert(spec_trim_start(close) == close);
    assert(close.skip(1) =~= Seq::<char>::empty());
    assert(spec_trim_start(Seq::<char>::empty()).len() == 0);
    assert(fuel >= 1);
    assert(spec_top_continue(close, Some(reply), fuel) == Some(
        (Some(reply), Seq::<char>::empty()),
    ));
    assert(spec_top_members(m, None, true, fuel) == Some((Some(reply), Seq::<char>::empty())));
}

/// The characters of the reply key need no escaping: its encoded form is
/// itself.
proof fn lemma_reply_key_plain()
    ensures
        spec_json_escape(spec_reply_key()) == spec_reply_key(),
{
    let e = Seq::<char>::empty();
    let k1 = seq!['y'];
    let k2 = seq!['l', 'y'];
    let k3 = seq!['p', 'l', 'y'];
    let k4 = seq!['e', 'p', 'l', 'y'];
    let k5 = seq!['r', 'e', 'p', 'l', 'y'];
    assert(spec_json_escape(e) == e);
    assert(k1.skip(1) =~= e);
    assert(spec_json_escape(k1) == spec_escape_char('y') + spec_json_escape(k1.skip(1)));
    assert(spec_json_escape(k1) =~= k1);
    assert(k2.skip(1) =~= k1);
    assert(spec_json_escape(k2) == spec_escape_char('l') + spec_json_escape(k2.skip(1)));
    assert(spec_json_escape(k2) =~= k2);
    assert(k3.skip(1) =~= k2);
    assert(spec_json_escape(k3) == spec_escape_char('p') + spec_json_escape(k3.skip(1)));
    assert(spec_json_escape(k3) =~= k3);
    assert(k4.skip(1) =~= k3);
    assert(spec_json_escape(k4) == spec_escape_char('e') + spec_json_escape(k4.skip(1)));
    assert(spec_json_escape(k4) =~= k4);
    assert(k5.skip(1) =~= k4);
    assert(spec_json_escape(k5) == spec_escape_char('r') + spec_json_escape(k5.skip(1)));
    assert(spec_json_escape(k5) =~= k5);
    assert(spec_reply_key() =~= k5);
}

fn is_digit_char(c: char) -> (r: bool)
    ensures
        r == spec_is_digit(c),
{
    let u = c as u32;
    0x30 <= u && u <= 0x39
}

fn trim_digits(v: &Vec<char>, start: usize) -> (j: usize)
    requires
        start <= v@.len(),
    ensures
        start <= j <= v@.len(),
        v@.skip(j as int) == spec_trim_digits(v@.skip(start as int)),
        start < v@.len() && spec_is_digit(v@[start as int]) ==> start < j,
{
    let n = v.len();
    let mut j = start;
    while j < n && is_digit_char(v[j])
        invariant
            start <= j <= n,
            n == v@.len(),
            spec_trim_digits(v@.skip(start as int)) == spec_trim_digits(v@.skip(j as int)),
            j == start || start < j,
            start < j ==> (start < v@.len() && spec_is_digit(v@[start as int])) || true,
        decreases n - j,
    {
        proof {
            assert(v@.skip(j as int)[0] == v@[j as int]);
            assert(v@.skip(j as int).skip(1) =~= v@.skip(j as int + 1));
        }
        j = j + 1;
    }
    proof {
        if j < n {
            assert(v@.skip(j as int)[0] == v@[j as int]);
            assert(spec_trim_digits(v@.skip(j as int)) == v@.skip(j as int));
        } else {
            assert(v@.skip(j as int).len() == 0);
            assert(spec_trim_digits(v@.skip(j as int)) == v@.skip(j as int));
        }
    }
    j
}

fn skip_number(v: &Vec<char>, start: usize) -> (r: Option<usize>)
    requires
        start <= v@.len(),
    ensures
        (match r {
            Some(j) => start < j <= v@.len() && spec_skip_number(v@.skip(start as int)) == Some(
                v@.skip(j as int),
            ),
            None => spec_skip_number(v@.skip(start as int)) is None,
        }),
{
    let n = v.len();
    let ghost s = v@.skip(start as int);
    let i1: usize = if start < n && v[start] == '-' {
        start + 1
    } else {
        start
    };
    proof {
        if start < n {
            assert(s[0] == v@[start as int]);
            assert(s.skip(1) =~= v@.skip(start as int + 1));
        }
        assert(v@.skip(i1 as int) =~= (if s.len() > 0 && s[0] == '-' {
            s.skip(1)
        } else {
            s
        }));
    }
    let ghost s1 = v@.skip(i1 as int);
    if i1 == n {
        return None;
    }
    proof {
        assert(s1[0] == v@[i1 as int]);
    }
    let c1 = v[i1];
    if !is_digit_char(c1) {
        return None;
    }
    let i2: usize = if c1 == '0' {
        i1 + 1
    } else {
        trim_digits(v, i1)
    };
    proof {
        assert(s1.skip(1) =~= v@.skip(i1 as int + 1));
        assert(v@.skip(i2 as int) =~= (if s1[0] == '0' {
            s1.skip(1)
        } else {
            spec_trim_digits(s1)
        }));
    }
    let ghost s2 = v@.skip(i2 as int);
    let i4: usize;
    if i2 < n && v[i2] == '.' {
        proof {
            assert(s2[0] == v@[i2 as int]);
        }
        if i2 + 1 < n && is_digit_char(v[i2 + 1]) {
            proof {
                assert(s2[1] == v@[i2 as int + 1]);
                assert(s2.skip(1) =~= v@.skip(i2 as int + 1));
            }
            i4 = trim_digits(v, i2 + 1);
        } else {
            proof {
                if i2 + 1 < n {
                    assert(s2[1] == v@[i2 as int + 1]);
                }
            }
            return None;
        }
    } else {
        proof {
            if i2 < n {
                assert(s2[0] == v@[i2 as int]);
            }
        }
        i4 = i2;
    }
    let ghost s5 = v@.skip(i4 as int);
    if i4 < n && (v[i4] == 'e' || v[i4] == 'E') {
        proof {
            assert(s5[0] == v@[i4 as int]);
            if i4 + 1 < n {
                assert(s5[1] == v@[i4 as int + 1]);
            }
        }
        let i5: usize = if i4 + 1 < n && (v[i4 + 1] == '+' || v[i4 + 1] == '-') {
            i4 + 2
        } else {
            i4 + 1
        };
        proof {
            assert(s5.skip(1) =~= v@.skip(i4 as int + 1));
            if i4 + 1 < n {
                assert(s5.skip(2) =~= v@.skip(i4 as int + 2));
            }
            assert(v@.skip(i5 as int) =~= (if s5.len() >= 2 && (s5[1] == '+' || s5[1] == '-') {
                s5.skip(2)
            } else {
                s5.skip(1)
            }));
        }
        let ghost s6 = v@.skip(i5 as int);
        if i5 >= n {
            return None;
        }
        proof {
            assert(s6[0] == v@[i5 as int]);
        }
        if !is_digit_char(v[i5]) {
            return None;
        }
        let j = trim_digits(v, i5);
        return Some(j);
    } else {
        proof {
            if i4 < n {
                assert(s5[0] == v@[i4 as int]);
            }
        }
        return Some(i4);
    }
}

fn skip_value(v: &Vec<char>, start: usize, depth: u32, Ghost(fuel): Ghost<nat>) -> (r: Option<
    usize,
>)
    requires
        start <= v@.len(),
        fuel >= v@.len() - start + 1,
    ensures
        (match r {
            Some(j) => start < j <= v@.len() && spec_skip_value(
                v@.skip(start as int),
                depth as nat,
                fuel,
            ) == Some(v@.skip(j as int)),
            None => spec_skip_value(v@.skip(start as int), depth as nat, fuel) is None,
        }),
    decreases depth, 0int,
{
    let n = v.len();
    let ghost s = v@.skip(start as int);
    proof {
        assert(fuel > 0);
    }
    if start == n {
        return None;
    }
    let c = v[start];
    proof {
        assert(s[0] == v@[start as int]);
    }
    if c == '"' {
        proof {
            assert(s.skip(1) =~= v@.skip(start as int + 1));
        }
        match parse_string_from(v, start + 1) {
            None => None,
            Some(p) => Some(p.1),
        }
    } else if c == '-' || is_digit_char(c) {
        skip_number(v, start)
    } else if c == 't' {
        if n - start < 4 {
            return None;
        }
        proof {
            assert(s[1] == v@[start as int + 1]);
            assert(s[2] == v@[start as int + 2]);
            assert(s[3] == v@[start as int + 3]);
        }
        if v[start + 1] == 'r' && v[start + 2] == 'u' && v[start + 3] == 'e' {
            proof {
                assert(s.skip(4) =~= v@.skip(start as int + 4));
            }
            Some(start + 4)
        } else {
            None
        }
    } else if c == 'f' {
        if n - start < 5 {
            return None;
        }
        proof {
            assert(s[1] == v@[start as int + 1]);
            assert(s[2] == v@[start as int + 2]);
            assert(s[3] == v@[start as int + 3]);
            assert(s[4] == v@[start as int + 4]);
        }
        if v[start + 1] == 'a' && v[start + 2] == 'l' && v[start + 3] == 's' && v[start + 4]
            == 'e' {
            proof {
                assert(s.skip(5) =~= v@.skip(start as int + 5));
            }
            Some(start + 5)
        } else {
            None
        }
    } else if c == 'n' {
        if n - start < 4 {
            return None;
        }
        proof {
            assert(s[1] == v@[start as int + 1]);
            assert(s[2] == v@[start as int + 2]);
            assert(s[3] == v@[start as int + 3]);
        }
        if v[start + 1] == 'u' && v[start + 2] == 'l' && v[start + 3] == 'l' {
            proof {
                assert(s.skip(4) =~= v@.skip(start as int + 4));
            }
            Some(start + 4)
        } else {
            None
        }
    } else if c == '{' {
        if depth == 0 {
            return None;
        }
        proof {
            assert(s.skip(1) =~= v@.skip(start as int + 1));
        }
        skip_members(v, start + 1, depth - 1, Ghost((fuel - 1) as nat))
    } else if c == '[' {
        if depth == 0 {
            return None;
        }
        proof {
            assert(s.skip(1) =~= v@.skip(start as int + 1));
        }
        skip_elements(v, start + 1, depth - 1, Ghost((fuel - 1) as nat))
    } else {
        None
    }
}

fn skip_members(v: &Vec<char>, start: usize, depth: u32, Ghost(fuel): Ghost<nat>) -> (r: Option<
    usize,
>)
    requires
        start <= v@.len(),
        fuel >= v@.len() - start + 1,
    ensures
        (match r {
            Some(j) => start < j <= v@.len() && spec_skip_members(
                v@.skip(start as int),
                true,
                depth as nat,
                fuel,
            ) == Some(v@.skip(j as int)),
            None => spec_skip_members(v@.skip(start as int), true, depth as nat, fuel) is None,
        }),
    decreases depth, 1int,
{
    let n = v.len();
    let mut j = start;
    let mut first = true;
    let ghost mut f: nat = fuel;
    loop
        invariant
            start <= j <= n,
            n == v@.len(),
            f >= n - j + 1,
            spec_skip_members(v@.skip(start as int), true, depth as nat, fuel)
                == spec_skip_members(v@.skip(j as int), first, depth as nat, f),
        decreases n - j,
    {
        proof {
            assert(f > 0);
        }
        let jw = skip_ws(v, j);
        let ghost t = spec_trim_start(v@.skip(j as int));
        proof {
            assert(t == v@.skip(jw as int));
        }
        if jw == n {
            return None;
        }
        proof {
            assert(t[0] == v@[jw as int]);
        }
        if first && v[jw] == '}' {
            proof {
                assert(t.skip(1) =~= v@.skip(jw as int + 1));
            }
            return Some(jw + 1);
        }
        if v[jw] != '"' {
            return None;
        }
        proof {
            assert(t.skip(1) =~= v@.skip(jw as int + 1));
        }
        let jk: usize;
        match parse_string_from(v, jw + 1) {
            None => {
                return None;
            },
            Some(p) => {
                jk = p.1;
            },
        }
        let jc = skip_ws(v, jk);
        let ghost cc = spec_trim_start(v@.skip(jk as int));
        proof {
            assert(cc == v@.skip(jc as int));
        }
        if jc == n {
            return None;
        }
        proof {
            assert(cc[0] == v@[jc as int]);
        }
        if v[jc] != ':' {
            return None;
        }
        proof {
            assert(cc.skip(1) =~= v@.skip(jc as int + 1));
        }
        let jv = skip_ws(v, jc + 1);
        proof {
            assert(spec_trim_start(v@.skip(jc as int + 1)) == v@.skip(jv as int));
        }
        let jr: usize;
        match skip_value(v, jv, depth, Ghost(f)) {
            None => {
                return None;
            },
            Some(x) => {
                jr = x;
            },
        }
        let je = skip_ws(v, jr);
        let ghost e = spec_trim_start(v@.skip(jr as int));
        proof {
            assert(e == v@.skip(je as int));
        }
        if je == n {
            return None;
        }
        proof {
            assert(e[0] == v@[je as int]);
        }
        if v[je] == '}' {
            proof {
                assert(e.skip(1) =~= v@.skip(je as int + 1));
            }
            return Some(je + 1);
        }
        if v[je] != ',' {
            return None;
        }
        proof {
            assert(e.skip(1) =~= v@.skip(je as int + 1));
            assert(spec_skip_members(v@.skip(j as int), first, depth as nat, f)
                == spec_skip_members(v@.skip(je as int + 1), false, depth as nat, (f - 1) as nat));
            f = (f - 1) as nat;
        }
        j = je + 1;
        first = false;
    }
}

fn skip_elements(v: &Vec<char>, start: usize, depth: u32, Ghost(fuel): Ghost<nat>) -> (r: Option<
    usize,
>)
    requires
        start <= v@.len(),
        fuel >= v@.len() - start + 1,
    ensures
        (match r {
            Some(j) => start < j <= v@.len() && spec_skip_elements(
                v@.skip(start as int),
                true,
                depth as nat,
                fuel,
            ) == Some(v@.skip(j as int)),
            None => spec_skip_elements(v@.skip(start as int), true, depth as nat, fuel) is None,
        }),
    decreases depth, 1int,
{
    let n = v.len();
    let mut j = start;
    let mut first = true;
    let ghost mut f: nat = fuel;
    loop
        invariant
            start <= j <= n,
            n == v@.len(),
            f >= n - j + 1,
            spec_skip_elements(v@.skip(start as int), true, depth as nat, fuel)
                == spec_skip_elements(v@.skip(j as int), first, depth as nat, f),
        decreases n - j,
    {
        proof {
            assert(f > 0);
        }
        let jw = skip_ws(v, j);
        let ghost t = spec_trim_start(v@.skip(j as int));
        proof {
            assert(t == v@.skip(jw as int));
        }
        if jw == n {
            return None;
        }
        proof {
            assert(t[0] == v@[jw as int]);
        }
        if first && v[jw] == ']' {
            proof {
                assert(t.skip(1) =~= v@.skip(jw as int + 1));
            }
            return Some(jw + 1);
        }
        let jr: usize;
        match skip_value(v, jw, depth, Ghost(f)) {
            None => {
                return None;
            },
            Some(x) => {
                jr = x;
            },
        }
        let je = skip_ws(v, jr);
        let ghost e = spec_trim_start(v@.skip(jr as int));
        proof {
            assert(e == v@.skip(je as int));
        }
        if je == n {
            return None;
        }
        proof {
            assert(e[0] == v@[je as int]);
        }
        if v[je] == ']' {
            proof {
                assert(e.skip(1) =~= v@.skip(je as int + 1));
            }
            return Some(je + 1);
        }
        if v[je] != ',' {
            return None;
        }
        proof {
            assert(e.skip(1) =~= v@.skip(je as int + 1));
            assert(spec_skip_elements(v@.skip(j as int), first, depth as nat, f)
                == spec_skip_elements(
                v@.skip(je as int + 1),
                false,
                depth as nat,
                (f - 1) as nat,
            ));
            f = (f - 1) as nat;
        }
        j = je + 1;
        first = false;
    }
}

/// The content of the decoded reply member, if one was recorded.
spec fn found_view(f: Option<Vec<char>>) -> Option<Seq<char>> {
    match f {
        None => None,
        Some(c) => Some(c@),
    }
}

fn is_reply_key(key: &Vec<char>) -> (r: bool)
    ensures
        r == (key@ == spec_reply_key()),
{
    let r = key.len() == 5 && key[0] == 'r' && key[1] == 'e' && key[2] == 'p' && key[3] == 'l'
        && key[4] == 'y';
    proof {
        if r {
            assert(key@ =~= spec_reply_key());
        } else {
            if key@ == spec_reply_key() {
                assert(key@.len() == 5);
                assert(key@[0] == 'r' && key@[1] == 'e' && key@[2] == 'p' && key@[3] == 'l'
                    && key@[4] == 'y');
            }
        }
    }
    r
}

fn finish_reply(v: &Vec<char>, jend: usize, found: Option<Vec<char>>) -> (r: Option<String>)
    requires
        jend <= v@.len(),
    ensures
        spec_trim_start(v@.skip(jend as int)).len() != 0 ==> r is None,
        spec_trim_start(v@.skip(jend as int)).len() == 0 ==> {
            &&& r is Some <==> found_view(found) is Some
            &&& r is Some ==> r->0@ == found_view(found)->0
        },
{
    let n = v.len();
    let jz = skip_ws(v, jend);
    if jz < n {
        proof {
            assert(spec_trim_start(v@.skip(jend as int)) == v@.skip(jz as int));
        }
        return None;
    }
    match found {
        None => None,
        Some(content) => Some(chars_to_string(&content)),
    }
}

/// Parses a response body as the reply document, yielding the reply it
/// carries, or nothing if the body has any other shape.
#[verifier::rlimit(80)]
pub fn parse_reply(body: &str) -> (r: Option<String>)
    ensures
        r is Some <==> spec_parse_reply(body@) is Some,
        r is Some ==> r->0@ == spec_parse_reply(body@)->0,
{
    let v = str_to_chars(body);
    let n = v.len();
    proof {
        assert(v@.skip(0) =~= v@);
    }
    let j0 = skip_ws(&v, 0);
    let ghost t0 = spec_trim_start(body@);
    proof {
        assert(t0 == v@.skip(j0 as int));
    }
    if j0 == n {
        return None;
    }
    proof {
        assert(t0[0] == v@[j0 as int]);
    }
    if v[j0] != '{' {
        return None;
    }
    proof {
        assert(t0.skip(1) =~= v@.skip(j0 as int + 1));
    }
    let ghost fuel0: nat = (body@.len() + 1) as nat;
    let mut j = j0 + 1;
    let mut first = true;
    let mut found: Option<Vec<char>> = None;
    let ghost mut f: nat = fuel0;
    loop
        invariant
            j0 + 1 <= j <= n,
            n == v@.len(),
            v@ == body@,
            j0 < n,
            spec_trim_start(body@) == v@.skip(j0 as int),
            v@[j0 as int] == '{',
            fuel0 == body@.len() + 1,
            f >= n - j + 1,
            spec_top_members(v@.skip(j0 as int + 1), None, true, fuel0) == spec_top_members(
                v@.skip(j as int),
                found_view(found),
                first,
                f,
            ),
        decreases n - j,
    {
        proof {
            assert(f > 0);
            let t0 = spec_trim_start(body@);
            assert(t0.len() > 0);
            assert(t0[0] == '{');
            assert(t0.skip(1) =~= v@.skip(j0 as int + 1));
        }
        let jw = skip_ws(&v, j);
        let ghost t = spec_trim_start(v@.skip(j as int));
        proof {
            assert(t == v@.skip(jw as int));
        }
        if jw == n {
            return None;
        }
        proof {
            assert(t[0] == v@[jw as int]);
        }
        if first && v[jw] == '}' {
            proof {
                assert(t.skip(1) =~= v@.skip(jw as int + 1));
            }
            return finish_reply(&v, jw + 1, found);
        }
        if v[jw] != '"' {
            return None;
        }
        proof {
            assert(t.skip(1) =~= v@.skip(jw as int + 1));
        }
        let keyv: Vec<char>;
        let jk: usize;
        match parse_string_from(&v, jw + 1) {
            None => {
                return None;
            },
            Some(p) => {
                keyv = p.0;
                jk = p.1;
            },
        }
        let jc = skip_ws(&v, jk);
        let ghost cc = spec_trim_start(v@.skip(jk as int));
        proof {
            assert(cc == v@.skip(jc as int));
        }
        if jc == n {
            return None;
        }
        proof {
            assert(cc[0] == v@[jc as int]);
        }
        if v[jc] != ':' {
            return None;
        }
        proof {
            assert(cc.skip(1) =~= v@.skip(jc as int + 1));
        }
        let jv = skip_ws(&v, jc + 1);
        let ghost w = spec_trim_start(v@.skip(jc as int + 1));
        proof {
            assert(w == v@.skip(jv as int));
        }
        if is_reply_key(&keyv) {
            if found.is_some() {
                return None;
            }
            if jv == n {
                return None;
            }
            proof {
                assert(w[0] == v@[jv as int]);
            }
            if v[jv] != '"' {
                return None;
            }
            proof {
                assert(w.skip(1) =~= v@.skip(jv as int + 1));
            }
            let rvec: Vec<char>;
            let jr: usize;
            match parse_string_from(&v, jv + 1) {
                None => {
                    return None;
                },
                Some(p) => {
                    rvec = p.0;
                    jr = p.1;
                },
            }
            let je = skip_ws(&v, jr);
            let ghost e = spec_trim_start(v@.skip(jr as int));
            proof {
                assert(e == v@.skip(je as int));
            }
            if je == n {
                return None;
            }
            proof {
                assert(e[0] == v@[je as int]);
            }
            if v[je] == '}' {
                proof {
                    assert(e.skip(1) =~= v@.skip(je as int + 1));
                }
                return finish_reply(&v, je + 1, Some(rvec));
            }
            if v[je] != ',' {
                return None;
            }
            proof {
                assert(e.skip(1) =~= v@.skip(je as int + 1));
                f = (f - 1) as nat;
            }
            found = Some(rvec);
            j = je + 1;
            first = false;
        } else {
            let jr: usize;
            match skip_value(&v, jv, 127u32, Ghost(f)) {
                None => {
                    return None;
                },
                Some(x) => {
                    jr = x;
                },
            }
            proof {
                assert(spec_depth_limit() == 127nat);
            }
            let je = skip_ws(&v, jr);
            let ghost e = spec_trim_start(v@.skip(jr as int));
            proof {
                assert(e == v@.skip(je as int));
            }
            if je == n {
                return None;
            }
            proof {
                assert(e[0] == v@[je as int]);
            }
            if v[je] == '}' {
                proof {
                    assert(e.skip(1) =~= v@.skip(je as int + 1));
                }
                return finish_reply(&v, je + 1, found);
            }
            if v[je] != ',' {
                return None;
            }
            proof {
                assert(e.skip(1) =~= v@.skip(je as int + 1));
                f = (f - 1) as nat;
            }
            j = je + 1;
            first = false;
        }
    }
}

} // verus!

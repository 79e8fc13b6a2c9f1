//! Wire format of the relay.
//!
//! Inbound frames are JSON objects `{"session_id": "...", "content": "..."}`;
//! outbound broadcast frames are JSON objects `{"username": "...", "content":
//! "..."}`. This module gives the grammar as specification functions over
//! `Seq<char>` and verified executable functions that parse and render it.
//!
//! The parser accepts what the grammar accepts: an object with both fields as
//! JSON strings, in either order, other fields ignored whatever their value.
//! Client-supplied identity fields therefore never reach the parsed message.
//! String escapes cover the short forms and `\uXXXX` for code points below
//! `0x80`; any other escape, a raw control character, or nesting beyond
//! [`NESTING_LIMIT`] makes the frame malformed, and malformed frames are
//! dropped without closing the connection.

use vstd::prelude::*;

verus! {

broadcast use vstd::string::group_string_axioms;

/// Nesting depth allowed for the values of ignored fields.
pub const NESTING_LIMIT: usize = 127;

/// JSON insignificant whitespace.
pub open spec fn is_ws(c: char) -> bool {
    c == ' ' || c == '\t' || c == '\n' || c == '\r'
}

/// First position at or after `i` that does not hold whitespace.
pub open spec fn skip_ws(s: Seq<char>, i: int) -> int
    decreases s.len() - i,
{
    if 0 <= i < s.len() && is_ws(s[i]) {
        skip_ws(s, i + 1)
    } else {
        i
    }
}

/// Value of a hex digit, or `None`.
pub open spec fn hex_value(c: char) -> Option<int> {
    if '0' <= c <= '9' {
        Some(c as int - '0' as int)
    } else if 'a' <= c <= 'f' {
        Some(c as int - 'a' as int + 10)
    } else if 'A' <= c <= 'F' {
        Some(c as int - 'A' as int + 10)
    } else {
        None
    }
}

/// The character named by a single-letter escape.
pub open spec fn simple_escape(c: char) -> Option<char> {
    if c == '"' {
        Some('"')
    } else if c == '\\' {
        Some('\\')
    } else if c == '/' {
        Some('/')
    } else if c == 'b' {
        Some('\u{8}')
    } else if c == 'f' {
        Some('\u{c}')
    } else if c == 'n' {
        Some('\n')
    } else if c == 'r' {
        Some('\r')
    } else if c == 't' {
        Some('\t')
    } else {
        None
    }
}

/// Parses one escape at `i` (the position after the backslash); returns the
/// escaped character and the position after the escape. `\uXXXX` is accepted
/// for code points below `0x80`.
pub open spec fn parse_escape(s: Seq<char>, i: int) -> Option<(char, int)> {
    if !(0 <= i < s.len()) {
        None
    } else if s[i] == 'u' {
        if i + 5 <= s.len() {
            match (hex_value(s[i + 1]), hex_value(s[i + 2]), hex_value(s[i + 3]), hex_value(
                s[i + 4],
            )) {
                (Some(h1), Some(h2), Some(h3), Some(h4)) => {
                    let v = h1 * 4096 + h2 * 256 + h3 * 16 + h4;
                    if v < 0x80 {
                        Some(((v as u8) as char, i + 5))
                    } else {
                        None
                    }
                },
                _ => None,
            }
        } else {
            None
        }
    } else {
        match simple_escape(s[i]) {
            Some(c) => Some((c, i + 1)),
            None => None,
        }
    }
}

/// Parses the body of a JSON string from `i` (just after the opening quote)
/// to the closing quote; returns the decoded value and the position after the
/// closing quote.
pub open spec fn parse_string_body(s: Seq<char>, i: int) -> Option<(Seq<char>, int)>
    decreases s.len() - i,
{
    if !(0 <= i < s.len()) {
        None
    } else if s[i] == '"' {
        Some((Seq::empty(), i + 1))
    } else if s[i] == '\\' {
        match parse_escape(s, i + 1) {
            Some((c, j)) => if i + 1 < j <= s.len() {
                match parse_string_body(s, j) {
                    Some((rest, k)) => Some((seq![c] + rest, k)),
                    None => None,
                }
            } else {
                None
            },
            None => None,
        }
    } else if (s[i] as u32) < 0x20 {
        None
    } else {
        match parse_string_body(s, i + 1) {
            Some((rest, k)) => Some((seq![s[i]] + rest, k)),
            None => None,
        }
    }
}

/// Parses a JSON string whose opening quote stands at `i`.
pub open spec fn parse_string(s: Seq<char>, i: int) -> Option<(Seq<char>, int)> {
    if 0 <= i < s.len() && s[i] == '"' {
        parse_string_body(s, i + 1)
    } else {
        None
    }
}

/// ASCII decimal digit.
pub open spec fn is_digit(c: char) -> bool {
    '0' <= c <= '9'
}

/// First position at or after `i` that does not hold a digit.
pub open spec fn skip_digits(s: Seq<char>, i: int) -> int
    decreases s.len() - i,
{
    if 0 <= i < s.len() && is_digit(s[i]) {
        skip_digits(s, i + 1)
    } else {
        i
    }
}

/// Skips a JSON number starting at `i`: optional minus, digits, optional
/// fraction, optional exponent. Returns the position after the number.
pub open spec fn skip_number(s: Seq<char>, i: int) -> Option<int> {
    let j = if 0 <= i < s.len() && s[i] == '-' {
        i + 1
    } else {
        i
    };
    let k = skip_digits(s, j);
    if k == j {
        None
    } else {
        let m = if 0 <= k < s.len() && s[k] == '.' {
            let d = skip_digits(s, k + 1);
            if d == k + 1 {
                -1
            } else {
                d
            }
        } else {
            k
        };
        if m < 0 {
            None
        } else {
            if 0 <= m < s.len() && (s[m] == 'e' || s[m] == 'E') {
                let e = if 0 <= m + 1 < s.len() && (s[m + 1] == '+' || s[m + 1] == '-') {
                    m + 2
                } else {
                    m + 1
                };
                let d = skip_digits(s, e);
                if d == e {
                    None
                } else {
                    Some(d)
                }
            } else {
                Some(m)
            }
        }
    }
}

/// Skips one JSON value starting at `i`; `depth` bounds the nesting of
/// objects and arrays below it. Returns the position after the value.
pub open spec fn skip_value(s: Seq<char>, i: int, depth: nat) -> Option<int>
    decreases s.len() - i, 0int,
{
    if !(0 <= i < s.len()) {
        None
    } else if s[i] == '"' {
        match parse_string(s, i) {
            Some((_, j)) => Some(j),
            None => None,
        }
    } else if s[i] == '{' {
        if depth == 0 {
            None
        } else {
            skip_object_rest(s, i + 1, (depth - 1) as nat)
        }
    } else if s[i] == '[' {
        if depth == 0 {
            None
        } else {
            skip_array_rest(s, i + 1, (depth - 1) as nat)
        }
    } else if s[i] == 't' {
        if i + 4 <= s.len() && s[i + 1] == 'r' && s[i + 2] == 'u' && s[i + 3] == 'e' {
            Some(i + 4)
        } else {
            None
        }
    } else if s[i] == 'f' {
        if i + 5 <= s.len() && s[i + 1] == 'a' && s[i + 2] == 'l' && s[i + 3] == 's' && s[i + 4]
            == 'e' {
            Some(i + 5)
        } else {
            None
        }
    } else if s[i] == 'n' {
        if i + 4 <= s.len() && s[i + 1] == 'u' && s[i + 2] == 'l' && s[i + 3] == 'l' {
            Some(i + 4)
        } else {
            None
        }
    } else if s[i] == '-' || is_digit(s[i]) {
        skip_number(s, i)
    } else {
        None
    }
}

/// Skips the remainder of an object whose opening brace stands before `i`:
/// either a closing brace or members `"key": value` separated by commas.
pub open spec fn skip_object_rest(s: Seq<char>, i: int, depth: nat) -> Option<int>
    decreases s.len() - i, 1int,
{
    if !(0 <= i <= s.len()) {
        None
    } else {
        let j = skip_ws(s, i);
        if !(i <= j < s.len()) {
            None
        } else if s[j] == '}' {
            Some(j + 1)
        } else {
            match parse_string(s, j) {
                None => None,
                Some((_, k)) => {
                    let k2 = skip_ws(s, k);
                    if j < k2 < s.len() && s[k2] == ':' {
                        let k3 = skip_ws(s, k2 + 1);
                        if k2 < k3 <= s.len() {
                            match skip_value(s, k3, depth) {
                                None => None,
                                Some(m) => {
                                    let m2 = skip_ws(s, m);
                                    if k3 <= m2 < s.len() && i <= m2 {
                                        if s[m2] == ',' {
                                            skip_object_rest(s, m2 + 1, depth)
                                        } else if s[m2] == '}' {
                                            Some(m2 + 1)
                                        } else {
                                            None
                                        }
                                    } else {
                                        None
                                    }
                                },
                            }
                        } else {
                            None
                        }
                    } else {
                        None
                    }
                },
            }
        }
    }
}

/// Skips the remainder of an array whose opening bracket stands before `i`:
/// either a closing bracket or values separated by commas.
pub open spec fn skip_array_rest(s: Seq<char>, i: int, depth: nat) -> Option<int>
    decreases s.len() - i, 1int,
{
    if !(0 <= i <= s.len()) {
        None
    } else {
        let j = skip_ws(s, i);
        if !(i <= j < s.len()) {
            None
        } else if s[j] == ']' {
            Some(j + 1)
        } else {
            match skip_value(s, j, depth) {
                None => None,
                Some(m) => {
                    let m2 = skip_ws(s, m);
                    if j < m2 < s.len() && i <= m2 {
                        if s[m2] == ',' {
                            skip_array_rest(s, m2 + 1, depth)
                        } else if s[m2] == ']' {
                            Some(m2 + 1)
                        } else {
                            None
                        }
                    } else {
                        None
                    }
                },
            }
        }
    }
}

/// The characters of the inbound key `session_id`.
pub open spec fn session_id_key() -> Seq<char> {
    seq!['s', 'e', 's', 's', 'i', 'o', 'n', '_', 'i', 'd']
}

/// The characters of the key `content`.
pub open spec fn content_key() -> Seq<char> {
    seq!['c', 'o', 'n', 't', 'e', 'n', 't']
}

/// Parses the members of the inbound message object starting at the opening
/// quote of a key at `i`. `sid` and `content` hold values seen so far; a
/// duplicate of either named field is an error, other fields are skipped.
/// Returns both accumulators and the position after the closing brace.
pub open spec fn parse_members(
    s: Seq<char>,
    i: int,
    sid: Option<Seq<char>>,
    content: Option<Seq<char>>,
) -> Option<(Option<Seq<char>>, Option<Seq<char>>, int)>
    decreases s.len() - i, 0int,
{
    if !(0 <= i <= s.len()) {
        None
    } else {
        match parse_string(s, i) {
            None => None,
            Some((key, k)) => {
                let k2 = skip_ws(s, k);
                if i < k2 < s.len() && s[k2] == ':' {
                    let k3 = skip_ws(s, k2 + 1);
                    if k2 < k3 <= s.len() {
                        if key == session_id_key() {
                            if sid is Some {
                                None
                            } else {
                                match parse_string(s, k3) {
                                    None => None,
                                    Some((v, m)) => if k3 < m <= s.len() {
                                        parse_members_tail(s, m, Some(v), content)
                                    } else {
                                        None
                                    },
                                }
                            }
                        } else if key == content_key() {
                            if content is Some {
                                None
                            } else {
                                match parse_string(s, k3) {
                                    None => None,
                                    Some((v, m)) => if k3 < m <= s.len() {
                                        parse_members_tail(s, m, sid, Some(v))
                                    } else {
                                        None
                                    },
                                }
                            }
                        } else {
                            match skip_value(s, k3, NESTING_LIMIT as nat) {
                                None => None,
                                Some(m) => if k3 < m <= s.len() {
                                    parse_members_tail(s, m, sid, content)
                                } else {
                                    None
                                },
                            }
                        }
                    } else {
                        None
                    }
                } else {
                    None
                }
            },
        }
    }
}

/// After a member's value at `i`: whitespace, then a comma and the next
/// member, or the closing brace.
pub open spec fn parse_members_tail(
    s: Seq<char>,
    i: int,
    sid: Option<Seq<char>>,
    content: Option<Seq<char>>,
) -> Option<(Option<Seq<char>>, Option<Seq<char>>, int)>
    decreases s.len() - i, 1int,
{
    if !(0 <= i <= s.len()) {
        None
    } else {
        let j = skip_ws(s, i);
        if !(i <= j < s.len()) {
            None
        } else if s[j] == ',' {
            let k = skip_ws(s, j + 1);
            if j < k <= s.len() {
                parse_members(s, k, sid, content)
            } else {
                None
            }
        } else if s[j] == '}' {
            Some((sid, content, j + 1))
        } else {
            None
        }
    }
}

/// Relies on `str::chars`: iterating yields exactly the characters of the
/// string, in order.
#[verifier::external_body]
pub(crate) fn str_to_chars(s: &str) -> (v: Vec<char>)
    ensures
        v@ == s@,
{
    s.chars().collect()
}

/// Relies on `String: FromIterator<char>`: collecting characters yields the
/// string holding exactly those characters in order.
#[verifier::external_body]
pub(crate) fn chars_to_string(chars: &Vec<char>) -> (s: String)
    ensures
        s@ == chars@,
{
    chars.iter().collect()
}

fn exec_skip_ws(v: &Vec<char>, i: usize) -> (r: usize)
    requires
        i <= v.len(),
    ensures
        r == skip_ws(v@, i as int),
        i <= r <= v.len(),
{
    let mut j = i;
    while j < v.len()
        invariant
            i <= j <= v.len(),
            skip_ws(v@, i as int) == skip_ws(v@, j as int),
        ensures
            i <= j <= v.len(),
            skip_ws(v@, i as int) == skip_ws(v@, j as int),
            j == v.len() || !is_ws(v@[j as int]),
        decreases v.len() - j,
    {
        let c = v[j];
        if !(c == ' ' || c == '\t' || c == '\n' || c == '\r') {
            break ;
        }
        j = j + 1;
    }
    j
}

fn exec_hex(c: char) -> (r: Option<u8>)
    ensures
        match r {
            Some(h) => hex_value(c) == Some(h as int),
            None => hex_value(c) is None,
        },
{
    if '0' <= c && c <= '9' {
        Some((c as u8) - 48)
    } else if 'a' <= c && c <= 'f' {
        Some((c as u8) - 97 + 10)
    } else if 'A' <= c && c <= 'F' {
        Some((c as u8) - 65 + 10)
    } else {
        None
    }
}

fn exec_parse_escape(v: &Vec<char>, i: usize) -> (r: Option<(char, usize)>)
    requires
        i <= v.len(),
    ensures
        match r {
            Some(p) => parse_escape(v@, i as int) == Some((p.0, p.1 as int)) && i < p.1 <= v.len(),
            None => parse_escape(v@, i as int) is None,
        },
{
    if i >= v.len() {
        return None;
    }
    let c = v[i];
    if c == 'u' {
        if v.len() >= 5 && i <= v.len() - 5 {
            let h1 = exec_hex(v[i + 1]);
            let h2 = exec_hex(v[i + 2]);
            let h3 = exec_hex(v[i + 3]);
            let h4 = exec_hex(v[i + 4]);
            match (h1, h2, h3, h4) {
                (Some(a), Some(b), Some(x), Some(y)) => {
                    let val: u32 = (a as u32) * 4096 + (b as u32) * 256 + (x as u32) * 16 + (
                    y as u32);
                    if val < 0x80 {
                        Some(((val as u8) as char, i + 5))
                    } else {
                        None
                    }
                },
                _ => None,
            }
        } else {
            None
        }
    } else {
        match c {
            '"' => Some(('"', i + 1)),
            '\\' => Some(('\\', i + 1)),
            '/' => Some(('/', i + 1)),
            'b' => Some(('\u{8}', i + 1)),
            'f' => Some(('\u{c}', i + 1)),
            'n' => Some(('\n', i + 1)),
            'r' => Some(('\r', i + 1)),
            't' => Some(('\t', i + 1)),
            _ => None,
        }
    }
}

/// Holds when the remaining string body at `cur` extends what `acc` already
/// decoded into the result of the whole body starting at `start`.
spec fn body_continues(s: Seq<char>, start: int, cur: int, acc: Seq<char>) -> bool {
    match parse_string_body(s, cur) {
        Some((rest, k)) => parse_string_body(s, start) == Some((acc + rest, k)),
        None => parse_string_body(s, start) is None,
    }
}

fn exec_parse_string(v: &Vec<char>, i: usize) -> (r: Option<(Vec<char>, usize)>)
    requires
        i <= v.len(),
    ensures
        match r {
            Some(p) => parse_string(v@, i as int) == Some((p.0@, p.1 as int)) && i < p.1 <= v.len(),
            None => parse_string(v@, i as int) is None,
        },
{
    if i >= v.len() || !(v[i] == '"') {
        return None;
    }
    let mut acc: Vec<char> = Vec::new();
    let mut j = i + 1;
    loop
        invariant
            i + 1 <= j <= v.len(),
            v@.len() >= 1,
            v@[i as int] == '"',
            i < v.len(),
            body_continues(v@, i as int + 1, j as int, acc@),
        decreases v.len() - j,
    {
        if j >= v.len() {
            return None;
        }
        let c = v[j];
        if c == '"' {
            proof {
                assert(parse_string_body(v@, j as int) == Some((Seq::<char>::empty(), j + 1)));
                assert(acc@ + Seq::<char>::empty() =~= acc@);
            }
            return Some((acc, j + 1));
        } else if c == '\\' {
            match exec_parse_escape(v, j + 1) {
                None => {
                    return None;
                },
                Some((e, j2)) => {
                    let ghost old_acc = acc@;
                    acc.push(e);
                    proof {
                        if parse_string_body(v@, j2 as int) is Some {
                            let (rest, k) = parse_string_body(v@, j2 as int)->Some_0;
                            assert(parse_string_body(v@, j as int) == Some(
                                (seq![e] + rest, k),
                            ));
                            assert(old_acc + (seq![e] + rest) =~= acc@ + rest);
                        }
                    }
                    j = j2;
                },
            }
        } else if (c as u32) < 0x20 {
            return None;
        } else {
            let ghost old_acc = acc@;
            acc.push(c);
            proof {
                if parse_string_body(v@, j as int + 1) is Some {
                    let (rest, k) = parse_string_body(v@, j as int + 1)->Some_0;
                    assert(parse_string_body(v@, j as int) == Some((seq![c] + rest, k)));
                    assert(old_acc + (seq![c] + rest) =~= acc@ + rest);
                }
            }
            j = j + 1;
        }
    }
}

fn exec_skip_digits(v: &Vec<char>, i: usize) -> (r: usize)
    requires
        i <= v.len(),
    ensures
        r == skip_digits(v@, i as int),
        i <= r <= v.len(),
{
    let mut j = i;
    while j < v.len()
        invariant
            i <= j <= v.len(),
            skip_digits(v@, i as int) == skip_digits(v@, j as int),
        ensures
            i <= j <= v.len(),
            skip_digits(v@, i as int) == skip_digits(v@, j as int),
            j == v.len() || !is_digit(v@[j as int]),
        decreases v.len() - j,
    {
        let c = v[j];
        if !('0' <= c && c <= '9') {
            break ;
        }
        j = j + 1;
    }
    j
}

fn exec_skip_number(v: &Vec<char>, i: usize) -> (r: Option<usize>)
    requires
        i <= v.len(),
    ensures
        match r {
            Some(m) => skip_number(v@, i as int) == Some(m as int) && i < m <= v.len(),
            None => skip_number(v@, i as int) is None,
        },
{
    let j = if i < v.len() && v[i] == '-' {
        i + 1
    } else {
        i
    };
    let k = exec_skip_digits(v, j);
    if k == j {
        return None;
    }
    let m = if k < v.len() && v[k] == '.' {
        let d = exec_skip_digits(v, k + 1);
        if d == k + 1 {
            return None;
        }
        d
    } else {
        k
    };
    if m < v.len() && (v[m] == 'e' || v[m] == 'E') {
        let e = if m + 1 < v.len() && (v[m + 1] == '+' || v[m + 1] == '-') {
            m + 2
        } else {
            m + 1
        };
        let d = exec_skip_digits(v, e);
        if d == e {
            None
        } else {
            Some(d)
        }
    } else {
        Some(m)
    }
}

fn exec_skip_value(v: &Vec<char>, i: usize, depth: usize) -> (r: Option<usize>)
    requires
        i <= v.len(),
    ensures
        match r {
            Some(m) => skip_value(v@, i as int, depth as nat) == Some(m as int) && i < m <= v.len(),
            None => skip_value(v@, i as int, depth as nat) is None,
        },
    decreases v@.len() - i, 0int,
{
    if i >= v.len() {
        return None;
    }
    let c = v[i];
    if c == '"' {
        match exec_parse_string(v, i) {
            Some((_, j)) => Some(j),
            None => None,
        }
    } else if c == '{' {
        if depth == 0 {
            None
        } else {
            exec_skip_object_rest(v, i + 1, depth - 1)
        }
    } else if c == '[' {
        if depth == 0 {
            None
        } else {
            exec_skip_array_rest(v, i + 1, depth - 1)
        }
    } else if c == 't' {
        if v.len() - i >= 4 && v[i + 1] == 'r' && v[i + 2] == 'u' && v[i + 3] == 'e' {
            Some(i + 4)
        } else {
            None
        }
    } else if c == 'f' {
        if v.len() - i >= 5 && v[i + 1] == 'a' && v[i + 2] == 'l' && v[i + 3] == 's' && v[i + 4]
            == 'e' {
            Some(i + 5)
        } else {
            None
        }
    } else if c == 'n' {
        if v.len() - i >= 4 && v[i + 1] == 'u' && v[i + 2] == 'l' && v[i + 3] == 'l' {
            Some(i + 4)
        } else {
            None
        }
    } else if c == '-' || ('0' <= c && c <= '9') {
        exec_skip_number(v, i)
    } else {
        None
    }
}

fn exec_skip_object_rest(v: &Vec<char>, i: usize, depth: usize) -> (r: Option<usize>)
    requires
        i <= v.len(),
    ensures
        match r {
            Some(m) => skip_object_rest(v@, i as int, depth as nat) == Some(m as int) && i < m
                <= v.len(),
            None => skip_object_rest(v@, i as int, depth as nat) is None,
        },
    decreases v@.len() - i, 1int,
{
    let mut cur = i;
    loop
        invariant
            i <= cur <= v.len(),
            skip_object_rest(v@, i as int, depth as nat) == skip_object_rest(
                v@,
                cur as int,
                depth as nat,
            ),
        decreases v@.len() - cur,
    {
        let j = exec_skip_ws(v, cur);
        if j >= v.len() {
            return None;
        }
        if v[j] == '}' {
            return Some(j + 1);
        }
        match exec_parse_string(v, j) {
            None => {
                return None;
            },
            Some((_, k)) => {
                let k2 = exec_skip_ws(v, k);
                if k2 >= v.len() {
                    return None;
                }
                if !(v[k2] == ':') {
                    return None;
                }
                let k3 = exec_skip_ws(v, k2 + 1);
                match exec_skip_value(v, k3, depth) {
                    None => {
                        return None;
                    },
                    Some(m) => {
                        let m2 = exec_skip_ws(v, m);
                        if m2 >= v.len() {
                            return None;
                        }
                        if v[m2] == ',' {
                            cur = m2 + 1;
                        } else if v[m2] == '}' {
                            return Some(m2 + 1);
                        } else {
                            return None;
                        }
                    },
                }
            },
        }
    }
}

fn exec_skip_array_rest(v: &Vec<char>, i: usize, depth: usize) -> (r: Option<usize>)
    requires
        i <= v.len(),
    ensures
        match r {
            Some(m) => skip_array_rest(v@, i as int, depth as nat) == Some(m as int) && i < m
                <= v.len(),
            None => skip_array_rest(v@, i as int, depth as nat) is None,
        },
    decreases v@.len() - i, 1int,
{
    let mut cur = i;
    loop
        invariant
            i <= cur <= v.len(),
            skip_array_rest(v@, i as int, depth as nat) == skip_array_rest(
                v@,
                cur as int,
                depth as nat,
            ),
        decreases v@.len() - cur,
    {
        let j = exec_skip_ws(v, cur);
        if j >= v.len() {
            return None;
        }
        if v[j] == ']' {
            return Some(j + 1);
        }
        match exec_skip_value(v, j, depth) {
            None => {
                return None;
            },
            Some(m) => {
                let m2 = exec_skip_ws(v, m);
                if m2 >= v.len() {
                    return None;
                }
                if v[m2] == ',' {
                    cur = m2 + 1;
                } else if v[m2] == ']' {
                    return Some(m2 + 1);
                } else {
                    return None;
                }
            },
        }
    }
}

fn is_session_id_key(key: &Vec<char>) -> (r: bool)
    ensures
        r == (key@ == session_id_key()),
{
    if key.len() != 10 {
        return false;
    }
    let r = key[0] == 's' && key[1] == 'e' && key[2] == 's' && key[3] == 's' && key[4] == 'i'
        && key[5] == 'o' && key[6] == 'n' && key[7] == '_' && key[8] == 'i' && key[9] == 'd';
    proof {
        if r {
            assert(key@ =~= session_id_key());
        } else {
            if key@ == session_id_key() {
                assert(key@[0] == 's' && key@[1] == 'e' && key@[2] == 's' && key@[3] == 's'
                    && key@[4] == 'i' && key@[5] == 'o' && key@[6] == 'n' && key@[7] == '_'
                    && key@[8] == 'i' && key@[9] == 'd');
            }
        }
    }
    r
}

fn is_content_key(key: &Vec<char>) -> (r: bool)
    ensures
        r == (key@ == content_key()),
{
    if key.len() != 7 {
        return false;
    }
    let r = key[0] == 'c' && key[1] == 'o' && key[2] == 'n' && key[3] == 't' && key[4] == 'e'
        && key[5] == 'n' && key[6] == 't';
    proof {
        if r {
            assert(key@ =~= content_key());
        } else {
            if key@ == content_key() {
                assert(key@[0] == 'c' && key@[1] == 'o' && key@[2] == 'n' && key@[3] == 't'
                    && key@[4] == 'e' && key@[5] == 'n' && key@[6] == 't');
            }
        }
    }
    r
}

/// The view of an optional character vector.
spec fn view_opt(o: Option<Vec<char>>) -> Option<Seq<char>> {
    match o {
        Some(v) => Some(v@),
        None => None,
    }
}

fn exec_parse_members(v: &Vec<char>, i: usize) -> (r: Option<
    (Option<Vec<char>>, Option<Vec<char>>, usize),
>)
    requires
        i <= v.len(),
    ensures
        match r {
            Some(p) => parse_members(v@, i as int, None, None) == Some(
                (view_opt(p.0), view_opt(p.1), p.2 as int),
            ) && i < p.2 <= v.len(),
            None => parse_members(v@, i as int, None, None) is None,
        },
{
    let mut cur = i;
    let mut sid: Option<Vec<char>> = None;
    let mut content: Option<Vec<char>> = None;
    loop
        invariant
            i <= cur <= v.len(),
            parse_members(v@, i as int, None, None) == parse_members(
                v@,
                cur as int,
                view_opt(sid),
                view_opt(content),
            ),
        decreases v@.len() - cur,
    {
        match exec_parse_string(v, cur) {
            None => {
                return None;
            },
            Some((key, k)) => {
                let k2 = exec_skip_ws(v, k);
                if k2 >= v.len() {
                    return None;
                }
                if !(v[k2] == ':') {
                    return None;
                }
                let k3 = exec_skip_ws(v, k2 + 1);
                let after_value: usize;
                if is_session_id_key(&key) {
                    if sid.is_some() {
                        return None;
                    }
                    match exec_parse_string(v, k3) {
                        None => {
                            return None;
                        },
                        Some((val, m)) => {
                            sid = Some(val);
                            after_value = m;
                        },
                    }
                } else if is_content_key(&key) {
                    if content.is_some() {
                        return None;
                    }
                    match exec_parse_string(v, k3) {
                        None => {
                            return None;
                        },
                        Some((val, m)) => {
                            content = Some(val);
                            after_value = m;
                        },
                    }
                } else {
                    match exec_skip_value(v, k3, NESTING_LIMIT) {
                        None => {
                            return None;
                        },
                        Some(m) => {
                            after_value = m;
                        },
                    }
                }
                let j = exec_skip_ws(v, after_value);
                if j >= v.len() {
                    return None;
                }
                if v[j] == ',' {
                    cur = exec_skip_ws(v, j + 1);
                } else if v[j] == '}' {
                    return Some((sid, content, j + 1));
                } else {
                    return None;
                }
            },
        }
    }
}

/// An inbound chat message as the client sent it: the claimed session token
/// and the text. Identity fields never come from the wire.
pub struct WireMessage {
    pub session_id: String,
    pub content: String,
}

/// Parses an inbound text frame. Returns the message exactly when the frame
/// matches the wire grammar ([`spec_parse_message`]); any other frame is
/// malformed.
pub fn parse_chat_message(text: &str) -> (r: Option<WireMessage>)
    ensures
        match r {
            Some(m) => spec_parse_message(text@) == Some((m.session_id@, m.content@)),
            None => spec_parse_message(text@) is None,
        },
{
    let v = str_to_chars(text);
    let i = exec_skip_ws(&v, 0);
    if i >= v.len() {
        return None;
    }
    if !(v[i] == '{') {
        return None;
    }
    let j = exec_skip_ws(&v, i + 1);
    if j >= v.len() {
        return None;
    }
    if v[j] == '}' {
        return None;
    }
    match exec_parse_members(&v, j) {
        Some((Some(sid), Some(content), end)) => {
            let e2 = exec_skip_ws(&v, end);
            if e2 == v.len() {
                Some(
                    WireMessage {
                        session_id: chars_to_string(&sid),
                        content: chars_to_string(&content),
                    },
                )
            } else {
                None
            }
        },
        _ => None,
    }
}

/// Parses a whole inbound frame: one object holding string fields
/// `session_id` and `content` (in either order, other fields ignored), with
/// nothing but whitespace around it. Returns the two decoded values.
pub open spec fn spec_parse_message(s: Seq<char>) -> Option<(Seq<char>, Seq<char>)> {
    let i = skip_ws(s, 0);
    if 0 <= i < s.len() && s[i] == '{' {
        let j = skip_ws(s, i + 1);
        if !(0 <= j < s.len()) {
            None
        } else if s[j] == '}' {
            None
        } else {
            match parse_members(s, j, None, None) {
                Some((Some(sid), Some(content), end)) => if skip_ws(s, end) == s.len() {
                    Some((sid, content))
                } else {
                    None
                },
                _ => None,
            }
        }
    } else {
        None
    }
}

/// Lowercase hex digit character for a value below 16.
pub open spec fn hex_char(d: int) -> char {
    if d < 10 {
        ((48 + d) as u8) as char
    } else {
        ((87 + d) as u8) as char
    }
}

/// JSON escape of one character: quote, backslash and the control characters
/// with short forms take those; any other control character takes `\u00XX`;
/// everything else stands unescaped.
pub open spec fn escape_char(c: char) -> Seq<char> {
    if c == '"' {
        seq!['\\', '"']
    } else if c == '\\' {
        seq!['\\', '\\']
    } else if c == '\u{8}' {
        seq!['\\', 'b']
    } else if c == '\u{c}' {
        seq!['\\', 'f']
    } else if c == '\n' {
        seq!['\\', 'n']
    } else if c == '\r' {
        seq!['\\', 'r']
    } else if c == '\t' {
        seq!['\\', 't']
    } else if (c as u32) < 0x20 {
        seq!['\\', 'u', '0', '0', hex_char((c as u32) as int / 16), hex_char((c as u32) as int % 16)]
    } else {
        seq![c]
    }
}

/// JSON escape of a whole string.
pub open spec fn escape_string(s: Seq<char>) -> Seq<char>
    decreases s.len(),
{
    if s.len() == 0 {
        Seq::empty()
    } else {
        escape_string(s.drop_last()) + escape_char(s.last())
    }
}

/// The characters `{"username":"`.
pub open spec fn render_open() -> Seq<char> {
    seq!['{', '"', 'u', 's', 'e', 'r', 'n', 'a', 'm', 'e', '"', ':', '"']
}

/// The characters `","content":"`.
pub open spec fn render_mid() -> Seq<char> {
    seq!['"', ',', '"', 'c', 'o', 'n', 't', 'e', 'n', 't', '"', ':', '"']
}

/// The characters `"}`.
pub open spec fn render_close() -> Seq<char> {
    seq!['"', '}']
}

/// The outbound broadcast frame for a resolved username and a message text:
/// `{"username":"<escaped>","content":"<escaped>"}`.
pub open spec fn spec_render_broadcast(username: Seq<char>, content: Seq<char>) -> Seq<char> {
    render_open() + escape_string(username) + render_mid() + escape_string(content)
        + render_close()
}

fn exec_hex_char(d: u8) -> (r: char)
    requires
        d < 16,
    ensures
        r == hex_char(d as int),
{
    if d < 10 {
        (48 + d) as char
    } else {
        (87 + d) as char
    }
}

fn append_escaped(out: &mut Vec<char>, s: &Vec<char>)
    ensures
        final(out)@ == old(out)@ + escape_string(s@),
{
    let mut i: usize = 0;
    while i < s.len()
        invariant
            i <= s.len(),
            out@ == old(out)@ + escape_string(s@.take(i as int)),
        decreases s.len() - i,
    {
        let c = s[i];
        if c == '"' {
            out.push('\\');
            out.push('"');
        } else if c == '\\' {
            out.push('\\');
            out.push('\\');
        } else if c == '\u{8}' {
            out.push('\\');
            out.push('b');
        } else if c == '\u{c}' {
            out.push('\\');
            out.push('f');
        } else if c == '\n' {
            out.push('\\');
            out.push('n');
        } else if c == '\r' {
            out.push('\\');
            out.push('r');
        } else if c == '\t' {
            out.push('\\');
            out.push('t');
        } else if (c as u32) < 0x20 {
            let u = c as u32;
            out.push('\\');
            out.push('u');
            out.push('0');
            out.push('0');
            out.push(exec_hex_char((u / 16) as u8));
            out.push(exec_hex_char((u % 16) as u8));
        } else {
            out.push(c);
        }
        proof {
            assert(s@.take(i as int + 1).drop_last() =~= s@.take(i as int));
            assert(s@.take(i as int + 1).last() == s@[i as int]);
            assert(out@ =~= old(out)@ + escape_string(s@.take(i as int + 1)));
        }
        i = i + 1;
    }
    proof {
        assert(s@.take(s@.len() as int) =~= s@);
    }
}

/// Renders the broadcast frame sent to every subscriber: the resolved
/// username and the accepted message text, both JSON-escaped.
pub fn render_broadcast(username: &str, content: &str) -> (r: String)
    ensures
        r@ == spec_render_broadcast(username@, content@),
{
    let u = str_to_chars(username);
    let c = str_to_chars(content);
    let mut out: Vec<char> = Vec::new();
    out.push('{');
    out.push('"');
    out.push('u');
    out.push('s');
    out.push('e');
    out.push('r');
    out.push('n');
    out.push('a');
    out.push('m');
    out.push('e');
    out.push('"');
    out.push(':');
    out.push('"');
    proof {
        assert(out@ =~= render_open());
    }
    append_escaped(&mut out, &u);
    let ghost after_user = out@;
    out.push('"');
    out.push(',');
    out.push('"');
    out.push('c');
    out.push('o');
    out.push('n');
    out.push('t');
    out.push('e');
    out.push('n');
    out.push('t');
    out.push('"');
    out.push(':');
    out.push('"');
    proof {
        assert(out@ =~= after_user + render_mid());
    }
    append_escaped(&mut out, &c);
    let ghost after_content = out@;
    out.push('"');
    out.push('}');
    proof {
        assert(out@ =~= after_content + render_close());
        assert(out@ =~= spec_render_broadcast(username@, content@));
    }
    chars_to_string(&out)
}

/// Escaping distributes over concatenation.
pub proof fn lemma_escape_string_concat(a: Seq<char>, b: Seq<char>)
    ensures
        escape_string(a + b) == escape_string(a) + escape_string(b),
    decreases b.len(),
{
    if b.len() == 0 {
        assert(a + b =~= a);
        assert(escape_string(a) + escape_string(b) =~= escape_string(a));
    } else {
        lemma_escape_string_concat(a, b.drop_last());
        assert((a + b).drop_last() =~= a + b.drop_last());
        assert((a + b).last() == b.last());
        assert(escape_string(a) + (escape_string(b.drop_last()) + escape_char(b.last()))
            =~= (escape_string(a) + escape_string(b.drop_last())) + escape_char(b.last()));
    }
}

/// A hex digit character decodes back to its value.
pub proof fn lemma_hex_char_value(d: int)
    requires
        0 <= d < 16,
    ensures
        hex_value(hex_char(d)) == Some(d),
{
}

/// Every character's code is a Unicode scalar value, so the cast to `u32`
/// keeps it. Stated through a parameter, where the type's invariant is in
/// scope, for use on characters drawn from a sequence.
proof fn lemma_char_code_bound(c: char)
    ensures
        0 <= c as int <= 0x10FFFF,
        (c as u32) as int == c as int,
{
}

/// The body parser decodes an escaped string back to the original text: at
/// `i`, `t` holds the escape of `s` followed by the closing quote, and
/// parsing from `i` yields exactly `s`, ending past that quote.
pub proof fn lemma_parse_escaped_body(t: Seq<char>, i: int, s: Seq<char>)
    requires
        0 <= i,
        i + escape_string(s).len() + 1 <= t.len(),
        t.subrange(i, i + escape_string(s).len() + 1) == escape_string(s) + seq!['"'],
    ensures
        parse_string_body(t, i) == Some((s, i + escape_string(s).len() + 1)),
    decreases s.len(),
{
    let n = escape_string(s).len() as int;
    if s.len() == 0 {
        assert(t[i] == t.subrange(i, i + n + 1)[0]);
        assert(t[i] == '"');
        assert(s =~= Seq::<char>::empty());
    } else {
        let c = s[0];
        let s2 = s.drop_first();
        let e = escape_char(c);
        assert(s =~= seq![c] + s2);
        lemma_escape_string_concat(seq![c], s2);
        assert(escape_string(seq![c]) =~= e) by {
            assert(escape_string(Seq::<char>::empty()) == Seq::<char>::empty());
            assert(seq![c].drop_last() =~= Seq::<char>::empty());
            assert(seq![c].last() == c);
            assert(escape_string(seq![c]) == escape_string(seq![c].drop_last()) + escape_char(
                seq![c].last(),
            ));
            assert(Seq::<char>::empty() + e =~= e);
        }
        assert(escape_string(s) == e + escape_string(s2));
        let m = e.len() as int;
        let n2 = escape_string(s2).len() as int;
        assert(n == m + n2);
        assert forall|j: int| 0 <= j < m implies #[trigger] t[i + j] == e[j] by {
            assert(t[i + j] == t.subrange(i, i + n + 1)[j]);
            assert((escape_string(s) + seq!['"'])[j] == escape_string(s)[j]);
            assert((e + escape_string(s2))[j] == e[j]);
        }
        assert(t.subrange(i + m, i + m + n2 + 1) =~= escape_string(s2) + seq!['"']) by {
            assert forall|j: int| 0 <= j < n2 + 1 implies #[trigger] t.subrange(
                i + m,
                i + m + n2 + 1,
            )[j] == (escape_string(s2) + seq!['"'])[j] by {
                assert(t.subrange(i + m, i + m + n2 + 1)[j] == t[i + m + j]);
                assert(t[i + m + j] == t.subrange(i, i + n + 1)[m + j]);
                if m + j < n {
                    assert((escape_string(s) + seq!['"'])[m + j] == escape_string(s)[m + j]);
                    assert(escape_string(s)[m + j] == (e + escape_string(s2))[m + j]);
                    assert((e + escape_string(s2))[m + j] == escape_string(s2)[j]);
                } else {
                    assert((escape_string(s) + seq!['"'])[m + j] == '"');
                }
            }
        }
        lemma_parse_escaped_body(t, i + m, s2);
        if c == '"' || c == '\\' || c == '\u{8}' || c == '\u{c}' || c == '\n' || c == '\r' || c
            == '\t' {
            assert(m == 2);
            assert(t[i + 0] == e[0] && t[i + 1] == e[1]);
            assert(e[0] == '\\');
            assert(t[i] == '\\');
            assert(simple_escape(e[1]) == Some(c));
            assert(parse_escape(t, i + 1) == Some((c, i + 2)));
            assert(parse_string_body(t, i) == Some((seq![c] + s2, i + n + 1)));
        } else if (c as u32) < 0x20 {
            let cu = (c as u32) as int;
            assert(m == 6);
            assert(t[i + 0] == e[0] && t[i + 1] == e[1] && t[i + 2] == e[2] && t[i + 3] == e[3]
                && t[i + 4] == e[4] && t[i + 5] == e[5]);
            assert(t[i] == '\\');
            assert(t[i + 1] == 'u');
            assert(t[i + 2] == '0' && t[i + 3] == '0');
            assert(t[i + 4] == hex_char(cu / 16) && t[i + 5] == hex_char(cu % 16));
            assert(hex_value('0') == Some(0int));
            lemma_hex_char_value(cu / 16);
            lemma_hex_char_value(cu % 16);
            assert(cu == (cu / 16) * 16 + cu % 16);
            assert(0 * 4096 + 0 * 256 + (cu / 16) * 16 + (cu % 16) == cu);
            lemma_char_code_bound(c);
            assert(0 <= cu < 0x20);
            assert((cu as u8) as int == cu);
            assert(((cu as u8) as char) as int == cu);
            assert(c as int == cu);
            assert(((cu as u8) as char) == c);
            assert(parse_escape(t, i + 1) == Some((c, i + 6)));
            assert(parse_string_body(t, i) == Some((seq![c] + s2, i + n + 1)));
        } else {
            assert(m == 1);
            assert(t[i + 0] == e[0]);
            assert(e[0] == c);
            assert(t[i] == c);
            assert(!(c == '"') && !(c == '\\') && !((c as u32) < 0x20));
            assert(parse_string_body(t, i) == Some((seq![c] + s2, i + n + 1)));
        }
        assert(seq![c] + s2 =~= s);
    }
}

/// Escape and parse round trip: a JSON string written by the escaper decodes
/// back to the original text, for every text. What `render_broadcast` emits
/// therefore survives any reader of this grammar unchanged.
pub proof fn lemma_escape_round_trip(s: Seq<char>)
    ensures
        parse_string(seq!['"'] + escape_string(s) + seq!['"'], 0) == Some(
            (s, escape_string(s).len() as int + 2),
        ),
{
    let t = seq!['"'] + escape_string(s) + seq!['"'];
    let n = escape_string(s).len() as int;
    assert(t[0] == '"');
    assert(t.subrange(1, 1 + n + 1) =~= escape_string(s) + seq!['"']);
    lemma_parse_escaped_body(t, 1, s);
}

} // verus!

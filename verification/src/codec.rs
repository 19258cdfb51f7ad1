//! Wire codec for the outbound control command.
//!
//! A command travels as the JSON object `{"data": <instance-id>, "event":
//! <command-name>}`.  [`encode`] produces that text, escaping the two
//! strings as JSON requires; [`decode`] parses such a text back.  Decoding
//! inverts encoding exactly: see [`lemma_round_trip`].

use vstd::prelude::*;
use vstd::string::*;

use crate::DiscoverError;

verus! {

/// The wire shape of a control message sent back to an instance:
/// `{"data": <instance-id>, "event": <command-name>}`.  The command name is
/// free form; it is not validated against the lifecycle vocabulary.
#[derive(Debug, Clone)]
pub struct OutboundCommand {
    pub data: String,
    pub event: String,
}

/// The lowercase hex digit for a value below 16.
pub open spec fn hex_digit(n: int) -> char {
    if n == 0 {
        '0'
    } else if n == 1 {
        '1'
    } else if n == 2 {
        '2'
    } else if n == 3 {
        '3'
    } else if n == 4 {
        '4'
    } else if n == 5 {
        '5'
    } else if n == 6 {
        '6'
    } else if n == 7 {
        '7'
    } else if n == 8 {
        '8'
    } else if n == 9 {
        '9'
    } else if n == 10 {
        'a'
    } else if n == 11 {
        'b'
    } else if n == 12 {
        'c'
    } else if n == 13 {
        'd'
    } else if n == 14 {
        'e'
    } else if n == 15 {
        'f'
    } else {
        '0'
    }
}

/// The value of a hex digit, upper or lower case; 16 for anything else.
pub open spec fn hex_val(c: char) -> int {
    if c == '0' {
        0
    } else if c == '1' {
        1
    } else if c == '2' {
        2
    } else if c == '3' {
        3
    } else if c == '4' {
        4
    } else if c == '5' {
        5
    } else if c == '6' {
        6
    } else if c == '7' {
        7
    } else if c == '8' {
        8
    } else if c == '9' {
        9
    } else if c == 'a' || c == 'A' {
        10
    } else if c == 'b' || c == 'B' {
        11
    } else if c == 'c' || c == 'C' {
        12
    } else if c == 'd' || c == 'D' {
        13
    } else if c == 'e' || c == 'E' {
        14
    } else if c == 'f' || c == 'F' {
        15
    } else {
        16
    }
}

pub open spec fn is_hex(c: char) -> bool {
    hex_val(c) < 16
}

/// How one character appears inside a JSON string literal: the quote, the
/// backslash and the control characters are escaped, every other character
/// stands for itself.
pub open spec fn esc(c: char) -> Seq<char> {
    if c == '"' {
        seq!['\\', '"']
    } else if c == '\\' {
        seq!['\\', '\\']
    } else if c == '\u{8}' {
        seq!['\\', 'b']
    } else if c == '\t' {
        seq!['\\', 't']
    } else if c == '\n' {
        seq!['\\', 'n']
    } else if c == '\u{c}' {
        seq!['\\', 'f']
    } else if c == '\r' {
        seq!['\\', 'r']
    } else if (c as u32) < 0x20 {
        seq![
            '\\',
            'u',
            '0',
            '0',
            hex_digit(((c as u32) as int) / 16),
            hex_digit(((c as u32) as int) % 16),
        ]
    } else {
        seq![c]
    }
}

/// A whole string as it appears inside a JSON string literal.
pub open spec fn escape(s: Seq<char>) -> Seq<char>
    decreases s.len(),
{
    if s.len() == 0 {
        Seq::empty()
    } else {
        esc(s[0]) + escape(s.drop_first())
    }
}

/// The exact text [`encode`] produces for a command.
pub open spec fn encode_spec(data: Seq<char>, event: Seq<char>) -> Seq<char> {
    "{\"data\":\""@ + escape(data) + "\",\"event\":\""@ + escape(event) + "\"}"@
}

proof fn lemma_escape_snoc(s: Seq<char>, c: char)
    ensures
        escape(s.push(c)) == escape(s) + esc(c),
    decreases s.len(),
{
    let s2 = s.push(c);
    if s.len() == 0 {
        assert(s2[0] == c);
        assert(s2.drop_first() =~= Seq::<char>::empty());
        assert(escape(Seq::<char>::empty()) == Seq::<char>::empty());
        assert(escape(s2) == esc(c) + Seq::<char>::empty());
        assert(esc(c) + Seq::<char>::empty() =~= esc(c));
        assert(Seq::<char>::empty() + esc(c) =~= esc(c));
    } else {
        let rest = s.drop_first();
        assert(s2[0] == s[0]);
        assert(s2.drop_first() =~= rest.push(c));
        lemma_escape_snoc(rest, c);
        assert(escape(s2) == esc(s[0]) + escape(rest.push(c)));
        assert(escape(rest.push(c)) == escape(rest) + esc(c));
        assert(esc(s[0]) + (escape(rest) + esc(c)) =~= (esc(s[0]) + escape(rest)) + esc(c));
        assert(escape(s) == esc(s[0]) + escape(rest));
    }
}

/// Relies on `String::push`: appends one character to the string.
#[verifier::external_body]
fn push_char(s: &mut String, c: char)
    ensures
        final(s)@ == old(s)@.push(c),
{
    s.push(c)
}

/// Appends the escaped form of `s` to `out`.
fn append_escaped(out: &mut String, s: &String)
    ensures
        final(out)@ == old(out)@ + escape(s@),
{
    let n = s.as_str().unicode_len();
    let mut i: usize = 0;
    proof {
        assert(s@.subrange(0, 0) =~= Seq::<char>::empty());
        assert(out@ + escape(s@.subrange(0, 0)) =~= out@);
    }
    while i < n
        invariant
            i <= n,
            n == s@.len(),
            out@ == old(out)@ + escape(s@.subrange(0, i as int)),
        decreases n - i,
    {
        let c = s.as_str().get_char(i);
        let ghost pre = s@.subrange(0, i as int);
        proof {
            assert(s@.subrange(0, i + 1) =~= pre.push(c));
            lemma_escape_snoc(pre, c);
        }
        if c == '"' {
            out.append("\\\"");
            proof {
                reveal_strlit("\\\"");
                assert("\\\""@ =~= esc(c));
            }
        } else if c == '\\' {
            out.append("\\\\");
            proof {
                reveal_strlit("\\\\");
                assert("\\\\"@ =~= esc(c));
            }
        } else if c == '\u{8}' {
            out.append("\\b");
            proof {
                reveal_strlit("\\b");
                assert("\\b"@ =~= esc(c));
            }
        } else if c == '\t' {
            out.append("\\t");
            proof {
                reveal_strlit("\\t");
                assert("\\t"@ =~= esc(c));
            }
        } else if c == '\n' {
            out.append("\\n");
            proof {
                reveal_strlit("\\n");
                assert("\\n"@ =~= esc(c));
            }
        } else if c == '\u{c}' {
            out.append("\\f");
            proof {
                reveal_strlit("\\f");
                assert("\\f"@ =~= esc(c));
            }
        } else if c == '\r' {
            out.append("\\r");
            proof {
                reveal_strlit("\\r");
                assert("\\r"@ =~= esc(c));
            }
        } else if (c as u32) < 0x20 {
            let ghost before = out@;
            out.append("\\u00");
            let code: u32 = c as u32;
            let hi: usize = (code / 16) as usize;
            let lo: usize = (code % 16) as usize;
            let digits = "0123456789abcdef";
            proof {
                reveal_strlit("0123456789abcdef");
            }
            let h1 = digits.substring_char(hi, hi + 1);
            let h2 = digits.substring_char(lo, lo + 1);
            out.append(h1);
            out.append(h2);
            proof {
                reveal_strlit("\\u00");
                assert(digits@[hi as int] == hex_digit(((c as u32) as int) / 16));
                assert(digits@[lo as int] == hex_digit(((c as u32) as int) % 16));
                assert(h1@ =~= seq![hex_digit(((c as u32) as int) / 16)]);
                assert(h2@ =~= seq![hex_digit(((c as u32) as int) % 16)]);
                assert(before + "\\u00"@ + h1@ + h2@ =~= before + esc(c));
            }
        } else {
            let piece = s.as_str().substring_char(i, i + 1);
            out.append(piece);
            proof {
                assert(piece@ =~= esc(c));
            }
        }
        proof {
            assert(out@ =~= old(out)@ + escape(s@.subrange(0, i + 1)));
        }
        i = i + 1;
    }
    proof {
        assert(s@.subrange(0, n as int) =~= s@);
    }
}

/// Encodes a command as the JSON text `{"data":"...","event":"..."}`.
pub fn encode(cmd: &OutboundCommand) -> (r: String)
    ensures
        r@ == encode_spec(cmd.data@, cmd.event@),
{
    let mut out = String::from_str("{\"data\":\"");
    append_escaped(&mut out, &cmd.data);
    out.append("\",\"event\":\"");
    append_escaped(&mut out, &cmd.event);
    out.append("\"}");
    proof {
        assert(out@ =~= encode_spec(cmd.data@, cmd.event@));
    }
    out
}

/// Puts one more leading character on a string-body parse result.
pub open spec fn prepend_parsed(c: char, r: Option<(Seq<char>, int)>) -> Option<(Seq<char>, int)> {
    match r {
        Some(p) => Some((seq![c] + p.0, p.1)),
        None => None,
    }
}

/// Parses the body of a JSON string literal in `t` from index `i` to its
/// closing quote: the characters the literal denotes, and the index just
/// past the closing quote.
pub open spec fn parse_body(t: Seq<char>, i: int) -> Option<(Seq<char>, int)>
    decreases t.len() - i,
{
    if i < 0 || i >= t.len() {
        None
    } else if t[i] == '"' {
        Some((Seq::empty(), i + 1))
    } else if t[i] == '\\' {
        if i + 1 >= t.len() {
            None
        } else {
            let e = t[i + 1];
            if e == '"' {
                prepend_parsed('"', parse_body(t, i + 2))
            } else if e == '\\' {
                prepend_parsed('\\', parse_body(t, i + 2))
            } else if e == 'b' {
                prepend_parsed('\u{8}', parse_body(t, i + 2))
            } else if e == 't' {
                prepend_parsed('\t', parse_body(t, i + 2))
            } else if e == 'n' {
                prepend_parsed('\n', parse_body(t, i + 2))
            } else if e == 'f' {
                prepend_parsed('\u{c}', parse_body(t, i + 2))
            } else if e == 'r' {
                prepend_parsed('\r', parse_body(t, i + 2))
            } else if e == 'u' {
                if i + 5 < t.len() && t[i + 2] == '0' && t[i + 3] == '0' && is_hex(t[i + 4])
                    && is_hex(t[i + 5]) {
                    prepend_parsed(
                        ((hex_val(t[i + 4]) * 16 + hex_val(t[i + 5])) as u32) as char,
                        parse_body(t, i + 6),
                    )
                } else {
                    None
                }
            } else {
                None
            }
        }
    } else if (t[i] as u32) < 0x20 {
        None
    } else {
        prepend_parsed(t[i], parse_body(t, i + 1))
    }
}

/// What [`decode`] accepts: the text of one encoded command — the object
/// `{"data":"...","event":"..."}` with exactly those two members, in that
/// order, both strings — and the two strings it carries.
pub open spec fn decode_spec(t: Seq<char>) -> Option<(Seq<char>, Seq<char>)> {
    if t.len() < 9 || t.subrange(0, 9) != "{\"data\":\""@ {
        None
    } else {
        match parse_body(t, 9) {
            None => None,
            Some(p1) => {
                if p1.1 + 10 > t.len() || t.subrange(p1.1, p1.1 + 10) != ",\"event\":\""@ {
                    None
                } else {
                    match parse_body(t, p1.1 + 10) {
                        None => None,
                        Some(p2) => {
                            if p2.1 == t.len() - 1 && t[p2.1] == '}' {
                                Some((p1.0, p2.0))
                            } else {
                                None
                            }
                        },
                    }
                }
            },
        }
    }
}

/// A parsed string body ends after where it began, and within the text.
proof fn lemma_parse_body_bounds(t: Seq<char>, i: int)
    ensures
        parse_body(t, i) matches Some(p) ==> i < p.1 <= t.len(),
    decreases t.len() - i,
{
    if 0 <= i < t.len() {
        lemma_parse_body_bounds(t, i + 1);
        if i + 2 <= t.len() {
            lemma_parse_body_bounds(t, i + 2);
        }
        if i + 6 <= t.len() {
            lemma_parse_body_bounds(t, i + 6);
        }
    }
}

/// Puts an already-parsed prefix on a string-body parse result.
pub open spec fn prefixed_parsed(p: Seq<char>, r: Option<(Seq<char>, int)>) -> Option<
    (Seq<char>, int),
> {
    match r {
        Some(q) => Some((p + q.0, q.1)),
        None => None,
    }
}

proof fn lemma_prefix_step(p: Seq<char>, c: char, r: Option<(Seq<char>, int)>)
    ensures
        prefixed_parsed(p, prepend_parsed(c, r)) == prefixed_parsed(p.push(c), r),
{
    match r {
        Some(q) => {
            assert(p + (seq![c] + q.0) =~= p.push(c) + q.0);
        },
        None => {},
    }
}

/// The value of one hex digit character.
fn hex_val_of(c: char) -> (r: u32)
    ensures
        r as int == hex_val(c),
{
    if c == '0' {
        0
    } else if c == '1' {
        1
    } else if c == '2' {
        2
    } else if c == '3' {
        3
    } else if c == '4' {
        4
    } else if c == '5' {
        5
    } else if c == '6' {
        6
    } else if c == '7' {
        7
    } else if c == '8' {
        8
    } else if c == '9' {
        9
    } else if c == 'a' || c == 'A' {
        10
    } else if c == 'b' || c == 'B' {
        11
    } else if c == 'c' || c == 'C' {
        12
    } else if c == 'd' || c == 'D' {
        13
    } else if c == 'e' || c == 'E' {
        14
    } else if c == 'f' || c == 'F' {
        15
    } else {
        16
    }
}

/// Parses the body of a JSON string literal in `s`, from `start` to its
/// closing quote.
fn parse_string_body(s: &str, start: usize) -> (r: Option<(String, usize)>)
    ensures
        r matches Some(p) ==> parse_body(s@, start as int) == Some((p.0@, p.1 as int)),
        r is None ==> parse_body(s@, start as int) is None,
{
    let n = s.unicode_len();
    if start >= n {
        return None;
    }
    let mut i: usize = start;
    let mut out = String::new();
    loop
        invariant
            start <= i <= n,
            n == s@.len(),
            prefixed_parsed(out@, parse_body(s@, i as int)) == parse_body(s@, start as int),
        decreases n - i,
    {
        if i >= n {
            return None;
        }
        let c = s.get_char(i);
        if c == '"' {
            proof {
                assert(out@ + Seq::<char>::empty() =~= out@);
            }
            return Some((out, i + 1));
        } else if c == '\\' {
            if i + 1 >= n {
                return None;
            }
            let e = s.get_char(i + 1);
            if e == '"' {
                proof {
                    lemma_prefix_step(out@, '"', parse_body(s@, i + 2));
                }
                push_char(&mut out, '"');
                i = i + 2;
            } else if e == '\\' {
                proof {
                    lemma_prefix_step(out@, '\\', parse_body(s@, i + 2));
                }
                push_char(&mut out, '\\');
                i = i + 2;
            } else if e == 'b' {
                proof {
                    lemma_prefix_step(out@, '\u{8}', parse_body(s@, i + 2));
                }
                push_char(&mut out, '\u{8}');
                i = i + 2;
            } else if e == 't' {
                proof {
                    lemma_prefix_step(out@, '\t', parse_body(s@, i + 2));
                }
                push_char(&mut out, '\t');
                i = i + 2;
            } else if e == 'n' {
                proof {
                    lemma_prefix_step(out@, '\n', parse_body(s@, i + 2));
                }
                push_char(&mut out, '\n');
                i = i + 2;
            } else if e == 'f' {
                proof {
                    lemma_prefix_step(out@, '\u{c}', parse_body(s@, i + 2));
                }
                push_char(&mut out, '\u{c}');
                i = i + 2;
            } else if e == 'r' {
                proof {
                    lemma_prefix_step(out@, '\r', parse_body(s@, i + 2));
                }
                push_char(&mut out, '\r');
                i = i + 2;
            } else if e == 'u' {
                if n - i < 6 {
                    return None;
                }
                let d2 = s.get_char(i + 2);
                let d3 = s.get_char(i + 3);
                let d4 = s.get_char(i + 4);
                let d5 = s.get_char(i + 5);
                if d2 != '0' || d3 != '0' {
                    return None;
                }
                let h1 = hex_val_of(d4);
                let h2 = hex_val_of(d5);
                if h1 >= 16 || h2 >= 16 {
                    return None;
                }
                let code: u32 = h1 * 16 + h2;
                let parsed: char = (code as u8) as char;
                proof {
                    assert(parsed == ((hex_val(d4) * 16 + hex_val(d5)) as u32) as char);
                    lemma_prefix_step(out@, parsed, parse_body(s@, i + 6));
                }
                push_char(&mut out, parsed);
                i = i + 6;
            } else {
                return None;
            }
        } else if (c as u32) < 0x20 {
            return None;
        } else {
            proof {
                lemma_prefix_step(out@, c, parse_body(s@, i + 1));
            }
            push_char(&mut out, c);
            i = i + 1;
        }
    }
}

/// Decodes the text of one command; any other text is a format error.
pub fn decode(s: &str) -> (r: Result<OutboundCommand, DiscoverError>)
    ensures
        r matches Ok(c) ==> decode_spec(s@) == Some((c.data@, c.event@)),
        r matches Err(e) ==> e == DiscoverError::Format && decode_spec(s@) is None,
{
    let n = s.unicode_len();
    if n < 9 {
        return Err(DiscoverError::Format);
    }
    let head = s.substring_char(0, 9);
    if !(String::from_str(head) == String::from_str("{\"data\":\"")) {
        return Err(DiscoverError::Format);
    }
    let (data, i) = match parse_string_body(s, 9) {
        Some(p) => p,
        None => {
            return Err(DiscoverError::Format);
        },
    };
    proof {
        lemma_parse_body_bounds(s@, 9);
    }
    if n - i < 10 {
        return Err(DiscoverError::Format);
    }
    let sep = s.substring_char(i, i + 10);
    if !(String::from_str(sep) == String::from_str(",\"event\":\"")) {
        return Err(DiscoverError::Format);
    }
    let (event, j) = match parse_string_body(s, i + 10) {
        Some(p) => p,
        None => {
            return Err(DiscoverError::Format);
        },
    };
    proof {
        lemma_parse_body_bounds(s@, i + 10);
    }
    if j >= n {
        return Err(DiscoverError::Format);
    }
    if !(s.get_char(j) == '}') {
        return Err(DiscoverError::Format);
    }
    if j + 1 != n {
        return Err(DiscoverError::Format);
    }
    Ok(OutboundCommand { data, event })
}

proof fn lemma_hex_digit_val(n: int)
    requires
        0 <= n < 16,
    ensures
        hex_val(hex_digit(n)) == n,
        is_hex(hex_digit(n)),
{
}

/// Within a text that holds the escaped form of `x`, the characters of the
/// leading escape sequence stand at their offsets.
proof fn lemma_escape_head_chars(t: Seq<char>, i: int, x: Seq<char>, k: int)
    requires
        x.len() > 0,
        0 <= i,
        i + escape(x).len() <= t.len(),
        t.subrange(i, i + escape(x).len()) == escape(x),
        0 <= k < esc(x[0]).len(),
    ensures
        t[i + k] == esc(x[0])[k],
{
    assert(escape(x) == esc(x[0]) + escape(x.drop_first()));
    assert(t.subrange(i, i + escape(x).len())[k] == t[i + k]);
    assert((esc(x[0]) + escape(x.drop_first()))[k] == esc(x[0])[k]);
}

/// Within a text that holds the escaped form of `x`, the part after the
/// leading escape sequence holds the escaped form of the rest of `x`.
proof fn lemma_escape_tail_subrange(t: Seq<char>, i: int, x: Seq<char>)
    requires
        x.len() > 0,
        0 <= i,
        i + escape(x).len() <= t.len(),
        t.subrange(i, i + escape(x).len()) == escape(x),
    ensures
        t.subrange(
            i + esc(x[0]).len(),
            i + esc(x[0]).len() + escape(x.drop_first()).len(),
        ) == escape(x.drop_first()),
{
    let ec = esc(x[0]);
    let rest = x.drop_first();
    let l1 = ec.len() as int;
    let lr = escape(rest).len() as int;
    assert(escape(x) == ec + escape(rest));
    assert forall|m: int| 0 <= m < lr implies #[trigger] escape(rest)[m] == t[i + l1 + m] by {
        assert(t.subrange(i, i + escape(x).len())[l1 + m] == t[i + l1 + m]);
        assert((ec + escape(rest))[l1 + m] == escape(rest)[m]);
    }
    assert(t.subrange(i + l1, i + l1 + lr) =~= escape(rest)) by {
        assert forall|m: int| 0 <= m < lr implies t.subrange(i + l1, i + l1 + lr)[m] == escape(
            rest,
        )[m] by {
            assert(t.subrange(i + l1, i + l1 + lr)[m] == t[i + l1 + m]);
        }
    }
}

/// Parsing a string body that is the escaped form of `x` followed by a
/// closing quote gives back exactly `x`.
proof fn lemma_parse_body_escape(t: Seq<char>, i: int, x: Seq<char>)
    requires
        0 <= i,
        i + escape(x).len() + 1 <= t.len(),
        t.subrange(i, i + escape(x).len()) == escape(x),
        t[i + escape(x).len()] == '"',
    ensures
        parse_body(t, i) == Some((x, i + escape(x).len() + 1)),
    decreases x.len(),
{
    if x.len() == 0 {
        assert(escape(x).len() == 0);
        assert(parse_body(t, i) == Some((Seq::<char>::empty(), i + 1)));
        assert(Seq::<char>::empty() =~= x);
    } else {
        let c = x[0];
        let rest = x.drop_first();
        let ec = esc(c);
        let el = escape(x);
        let l1 = ec.len() as int;
        let ll = el.len() as int;
        assert(el == ec + escape(rest));
        assert(escape(rest).len() == ll - l1);
        lemma_escape_tail_subrange(t, i, x);
        lemma_parse_body_escape(t, i + l1, rest);
        assert(parse_body(t, i + l1) == Some((rest, i + ll + 1)));
        assert(seq![c] + rest =~= x);
        lemma_escape_head_chars(t, i, x, 0);
        if l1 >= 2 {
            lemma_escape_head_chars(t, i, x, 1);
        }
        if c == '"' {
            assert(t[i] == '\\' && t[i + 1] == '"');
            assert(parse_body(t, i) == prepend_parsed('"', parse_body(t, i + 2)));
        } else if c == '\\' {
            assert(t[i] == '\\' && t[i + 1] == '\\');
            assert(parse_body(t, i) == prepend_parsed('\\', parse_body(t, i + 2)));
        } else if c == '\u{8}' {
            assert(t[i] == '\\' && t[i + 1] == 'b');
            assert(parse_body(t, i) == prepend_parsed('\u{8}', parse_body(t, i + 2)));
        } else if c == '\t' {
            assert(t[i] == '\\' && t[i + 1] == 't');
            assert(parse_body(t, i) == prepend_parsed('\t', parse_body(t, i + 2)));
        } else if c == '\n' {
            assert(t[i] == '\\' && t[i + 1] == 'n');
            assert(parse_body(t, i) == prepend_parsed('\n', parse_body(t, i + 2)));
        } else if c == '\u{c}' {
            assert(t[i] == '\\' && t[i + 1] == 'f');
            assert(parse_body(t, i) == prepend_parsed('\u{c}', parse_body(t, i + 2)));
        } else if c == '\r' {
            assert(t[i] == '\\' && t[i + 1] == 'r');
            assert(parse_body(t, i) == prepend_parsed('\r', parse_body(t, i + 2)));
        } else if (c as u32) < 0x20 {
            let code = (c as u32) as int;
            lemma_escape_head_chars(t, i, x, 2);
            lemma_escape_head_chars(t, i, x, 3);
            lemma_escape_head_chars(t, i, x, 4);
            lemma_escape_head_chars(t, i, x, 5);
            assert(t[i] == '\\' && t[i + 1] == 'u' && t[i + 2] == '0' && t[i + 3] == '0');
            assert(t[i + 4] == hex_digit(code / 16) && t[i + 5] == hex_digit(code % 16));
            lemma_hex_digit_val(code / 16);
            lemma_hex_digit_val(code % 16);
            assert(hex_val(t[i + 4]) * 16 + hex_val(t[i + 5]) == code);
            assert(((hex_val(t[i + 4]) * 16 + hex_val(t[i + 5])) as u32) == c as u32);
            vstd::utf8::char_u32_cast(c, c as u32);
            assert((c as u32) as char == c);
            assert(((hex_val(t[i + 4]) * 16 + hex_val(t[i + 5])) as u32) as char == c);
            assert(parse_body(t, i) == prepend_parsed(c, parse_body(t, i + 6)));
        } else {
            assert(t[i] == c);
            assert(parse_body(t, i) == prepend_parsed(c, parse_body(t, i + 1)));
        }
    }
}

/// Law: decoding inverts encoding — for every command, the encoded text
/// decodes back to exactly the same two strings.
pub proof fn lemma_round_trip(data: Seq<char>, event: Seq<char>)
    ensures
        decode_spec(encode_spec(data, event)) == Some((data, event)),
{
    reveal_strlit("{\"data\":\"");
    reveal_strlit("\",\"event\":\"");
    reveal_strlit(",\"event\":\"");
    reveal_strlit("\"}");
    let a = "{\"data\":\""@;
    let b = "\",\"event\":\""@;
    let z = "\"}"@;
    let e1 = escape(data);
    let e2 = escape(event);
    let t = encode_spec(data, event);
    let l1 = e1.len() as int;
    let l2 = e2.len() as int;
    assert(a.len() == 9 && b.len() == 11 && z.len() == 2);
    assert(t.len() == 22 + l1 + l2);
    assert(t.subrange(0, 9) =~= a);
    assert(t.subrange(9, 9 + l1) =~= e1);
    assert(t[9 + l1] == b[0]);
    assert(b[0] == '"');
    lemma_parse_body_escape(t, 9, data);
    assert(parse_body(t, 9) == Some((data, 10 + l1)));
    let i = 10 + l1;
    assert(t.subrange(i, i + 10) =~= ",\"event\":\""@);
    assert(t.subrange(i + 10, i + 10 + l2) =~= e2);
    assert(t[i + 10 + l2] == z[0]);
    assert(z[0] == '"');
    lemma_parse_body_escape(t, i + 10, event);
    assert(parse_body(t, i + 10) == Some((event, i + 11 + l2)));
    let j = i + 11 + l2;
    assert(t[j] == z[1]);
    assert(z[1] == '}');
    assert(j == t.len() - 1);
}

} // verus!

//! The record format of the two stores: one JSON object per line for the
//! todo list, one JSON object for the settings file. Encoding and parsing
//! are defined as spec-level functions on character sequences; the
//! executable codec is proved against them, and a round-trip law shows
//! that a saved list reloads to the same sequence of items.

use vstd::prelude::*;
use crate::item::{Todo, TodoError};
use crate::text::push_char;

verus! {

/// The lower-case hex digit of a value below sixteen.
pub open spec fn hex_char(d: nat) -> char {
    if d == 0 {
        '0'
    } else if d == 1 {
        '1'
    } else if d == 2 {
        '2'
    } else if d == 3 {
        '3'
    } else if d == 4 {
        '4'
    } else if d == 5 {
        '5'
    } else if d == 6 {
        '6'
    } else if d == 7 {
        '7'
    } else if d == 8 {
        '8'
    } else if d == 9 {
        '9'
    } else if d == 10 {
        'a'
    } else if d == 11 {
        'b'
    } else if d == 12 {
        'c'
    } else if d == 13 {
        'd'
    } else if d == 14 {
        'e'
    } else {
        'f'
    }
}

/// Whether `c` is a hex digit, in either case.
pub open spec fn is_hex_digit(c: char) -> bool {
    ('0' <= c && c <= '9') || ('a' <= c && c <= 'f') || ('A' <= c && c <= 'F')
}

/// The numeric value of a hex digit.
pub open spec fn hex_val(c: char) -> nat {
    if '0' <= c && c <= '9' {
        (c as u32 - '0' as u32) as nat
    } else if 'a' <= c && c <= 'f' {
        (c as u32 - 'a' as u32 + 10) as nat
    } else {
        (c as u32 - 'A' as u32 + 10) as nat
    }
}

/// Whether `v` is a Unicode scalar value: not a surrogate and not above
/// the Unicode maximum.
pub open spec fn is_scalar_value(v: u32) -> bool {
    v < 0xD800 || (0xE000 <= v && v <= 0x10FFFF)
}

/// The JSON escape of one character: quote and backslash get a two
/// character escape, control characters a `\u00XX` escape, and everything
/// else stands for itself.
pub open spec fn escape_char(c: char) -> Seq<char> {
    if c == '"' {
        seq!['\\', '"']
    } else if c == '\\' {
        seq!['\\', '\\']
    } else if (c as u32) < 0x20 {
        seq!['\\', 'u', '0', '0', hex_char((c as u32 / 16) as nat), hex_char((c as u32 % 16) as nat)]
    } else {
        seq![c]
    }
}

/// The JSON string-body encoding of `s`: each character escaped in turn.
pub open spec fn escape_string(s: Seq<char>) -> Seq<char>
    decreases s.len(),
{
    if s.len() == 0 {
        Seq::empty()
    } else {
        escape_char(s.first()) + escape_string(s.drop_first())
    }
}

/// The characters that open a record, up to and including the opening
/// quote of the label value.
pub open spec fn label_prefix() -> Seq<char> {
    seq!['{', '"', 'l', 'a', 'b', 'e', 'l', '"', ':', '"']
}

/// The characters between the closing quote of the label value and the
/// completion flag.
pub open spec fn complete_infix() -> Seq<char> {
    seq![',', '"', 'c', 'o', 'm', 'p', 'l', 'e', 't', 'e', '"', ':']
}

/// The characters that open a settings record, up to and including the
/// opening quote of the value.
pub open spec fn silent_prefix() -> Seq<char> {
    seq!['{', '"', 's', 'i', 'l', 'e', 'n', 't', '"', ':', '"']
}

pub open spec fn true_lit() -> Seq<char> {
    seq!['t', 'r', 'u', 'e']
}

pub open spec fn false_lit() -> Seq<char> {
    seq!['f', 'a', 'l', 's', 'e']
}

/// The one-line record of an item with the given label and flag.
pub open spec fn encode_item_spec(label: Seq<char>, complete: bool) -> Seq<char> {
    label_prefix() + escape_string(label) + seq!['"'] + complete_infix() + (
    if complete {
        true_lit()
    } else {
        false_lit()
    }) + seq!['}']
}

/// The record file holding `items`: one record per line, each line
/// terminated by a newline.
pub open spec fn encode_list_spec(items: Seq<Todo>) -> Seq<char>
    decreases items.len(),
{
    if items.len() == 0 {
        Seq::empty()
    } else {
        encode_item_spec(items.first().label@, items.first().complete) + seq!['\n']
            + encode_list_spec(items.drop_first())
    }
}

/// The settings file holding the silent value `v`.
pub open spec fn encode_settings_spec(v: Seq<char>) -> Seq<char> {
    silent_prefix() + escape_string(v) + seq!['"', '}']
}

/// The character a simple escape stands for, if the character after the
/// backslash is one of the eight JSON short escapes.
pub open spec fn simple_unescape(e: char) -> Option<char> {
    if e == '"' {
        Some('"')
    } else if e == '\\' {
        Some('\\')
    } else if e == '/' {
        Some('/')
    } else if e == 'b' {
        Some('\u{0008}')
    } else if e == 'f' {
        Some('\u{000C}')
    } else if e == 'n' {
        Some('\n')
    } else if e == 'r' {
        Some('\r')
    } else if e == 't' {
        Some('\t')
    } else {
        None
    }
}

/// Parse a JSON string body from position `i` up to and over its closing
/// quote: the denoted characters and the position after the quote, or
/// `None` if the body is unterminated or holds a bad escape or a bare
/// control character.
pub open spec fn parse_string_body(s: Seq<char>, i: int) -> Option<(Seq<char>, int)>
    decreases s.len() - i,
{
    if i < 0 || i >= s.len() {
        None
    } else if s[i] == '"' {
        Some((Seq::empty(), i + 1))
    } else if s[i] == '\\' {
        if i + 1 < s.len() {
            let e = s[i + 1];
            if e == 'u' {
                if i + 6 <= s.len() && is_hex_digit(s[i + 2]) && is_hex_digit(s[i + 3])
                    && is_hex_digit(s[i + 4]) && is_hex_digit(s[i + 5]) {
                    let v = (hex_val(s[i + 2]) * 4096 + hex_val(s[i + 3]) * 256 + hex_val(
                        s[i + 4],
                    ) * 16 + hex_val(s[i + 5])) as u32;
                    if is_scalar_value(v) {
                        match parse_string_body(s, i + 6) {
                            Some((rest, j)) => Some((seq![v as char] + rest, j)),
                            None => None,
                        }
                    } else {
                        None
                    }
                } else {
                    None
                }
            } else {
                match simple_unescape(e) {
                    Some(c) => match parse_string_body(s, i + 2) {
                        Some((rest, j)) => Some((seq![c] + rest, j)),
                        None => None,
                    },
                    None => None,
                }
            }
        } else {
            None
        }
    } else if (s[i] as u32) < 0x20 {
        None
    } else {
        match parse_string_body(s, i + 1) {
            Some((rest, j)) => Some((seq![s[i]] + rest, j)),
            None => None,
        }
    }
}

/// Parse one whole line as a todo record: the label characters and the
/// completion flag, or `None` if the line is not a record.
pub open spec fn parse_item_spec(s: Seq<char>) -> Option<(Seq<char>, bool)> {
    if s.len() >= 10 && s.subrange(0, 10) == label_prefix() {
        match parse_string_body(s, 10) {
            Some((lab, j)) => {
                if j + 12 <= s.len() && s.subrange(j, j + 12) == complete_infix() {
                    let k = j + 12;
                    if k + 5 == s.len() && s.subrange(k, k + 4) == true_lit() && s[k + 4] == '}' {
                        Some((lab, true))
                    } else if k + 6 == s.len() && s.subrange(k, k + 5) == false_lit() && s[k + 5]
                        == '}' {
                        Some((lab, false))
                    } else {
                        None
                    }
                } else {
                    None
                }
            },
            None => None,
        }
    } else {
        None
    }
}

/// Parse a whole settings file as a settings record: the silent value,
/// or `None` if the text is not a record.
pub open spec fn parse_settings_spec(s: Seq<char>) -> Option<Seq<char>> {
    if s.len() >= 11 && s.subrange(0, 11) == silent_prefix() {
        match parse_string_body(s, 11) {
            Some((v, j)) => if j + 1 == s.len() && s[j] == '}' {
                Some(v)
            } else {
                None
            },
            None => None,
        }
    } else {
        None
    }
}

/// The index of the first newline of `s`, or its length if there is none.
pub open spec fn first_newline(s: Seq<char>) -> nat
    decreases s.len(),
{
    if s.len() == 0 {
        0
    } else if s.first() == '\n' {
        0
    } else {
        1 + first_newline(s.drop_first())
    }
}

/// The models of a sequence of items: each item as its label characters
/// and its flag.
pub open spec fn models(items: Seq<Todo>) -> Seq<(Seq<char>, bool)> {
    items.map_values(|t: Todo| t.model())
}

/// Parse a whole record file: each non-empty line one record, in order,
/// or `None` as soon as one line is not a record.
pub open spec fn parse_list_spec(s: Seq<char>) -> Option<Seq<(Seq<char>, bool)>>
    decreases s.len(),
{
    if s.len() == 0 {
        Some(Seq::empty())
    } else {
        let n = first_newline(s);
        if n >= s.len() {
            match parse_item_spec(s) {
                Some(m) => Some(seq![m]),
                None => None,
            }
        } else {
            let line = s.take(n as int);
            let rest = s.skip(n as int + 1);
            let tail = parse_list_spec(rest);
            if line.len() == 0 {
                tail
            } else {
                match (parse_item_spec(line), tail) {
                    (Some(m), Some(t)) => Some(seq![m] + t),
                    _ => None,
                }
            }
        }
    }
}

/// The lower-case hex digit of a value below sixteen, executably.
fn hex_to_char(d: u32) -> (c: char)
    requires
        d < 16,
    ensures
        c == hex_char(d as nat),
{
    if d == 0 {
        '0'
    } else if d == 1 {
        '1'
    } else if d == 2 {
        '2'
    } else if d == 3 {
        '3'
    } else if d == 4 {
        '4'
    } else if d == 5 {
        '5'
    } else if d == 6 {
        '6'
    } else if d == 7 {
        '7'
    } else if d == 8 {
        '8'
    } else if d == 9 {
        '9'
    } else if d == 10 {
        'a'
    } else if d == 11 {
        'b'
    } else if d == 12 {
        'c'
    } else if d == 13 {
        'd'
    } else if d == 14 {
        'e'
    } else {
        'f'
    }
}

/// Append the JSON string-body encoding of `s` from position `i` on.
fn push_escaped(out: &mut String, s: &str, i: usize)
    requires
        i <= s@.len(),
    ensures
        final(out)@ == old(out)@ + escape_string(s@.skip(i as int)),
    decreases s@.len() - i,
{
    if i == s.unicode_len() {
        proof {
            assert(s@.skip(i as int) =~= Seq::<char>::empty());
            assert(out@ =~= old(out)@ + escape_string(s@.skip(i as int)));
        }
    } else {
        let c = s.get_char(i);
        proof {
            assert(s@.skip(i as int).first() == s@[i as int]);
            assert(s@.skip(i as int).drop_first() =~= s@.skip(i + 1));
        }
        if c == '"' {
            push_char(out, '\\');
            push_char(out, '"');
        } else if c == '\\' {
            push_char(out, '\\');
            push_char(out, '\\');
        } else if (c as u32) < 0x20 {
            push_char(out, '\\');
            push_char(out, 'u');
            push_char(out, '0');
            push_char(out, '0');
            push_char(out, hex_to_char((c as u32) / 16));
            push_char(out, hex_to_char((c as u32) % 16));
        } else {
            push_char(out, c);
        }
        assert(out@ =~= old(out)@ + escape_char(s@[i as int]));
        push_escaped(out, s, i + 1);
        assert(out@ =~= old(out)@ + escape_string(s@.skip(i as int)));
    }
}

/// Encode one item as its one-line record.
pub fn encode_item(item: &Todo) -> (s: String)
    ensures
        s@ == encode_item_spec(item.label@, item.complete),
{
    let mut out = String::from_str("{\"label\":\"");
    proof {
        reveal_strlit("{\"label\":\"");
        assert(out@ =~= label_prefix());
    }
    push_escaped(&mut out, item.label.as_str(), 0);
    proof {
        assert(item.label@.skip(0) =~= item.label@);
    }
    out.append("\",\"complete\":");
    proof {
        reveal_strlit("\",\"complete\":");
        assert(("\",\"complete\":"@) =~= seq!['"'] + complete_infix());
    }
    if item.complete {
        out.append("true}");
        proof {
            reveal_strlit("true}");
            assert(("true}"@) =~= true_lit() + seq!['}']);
            assert(out@ =~= encode_item_spec(item.label@, item.complete));
        }
    } else {
        out.append("false}");
        proof {
            reveal_strlit("false}");
            assert(("false}"@) =~= false_lit() + seq!['}']);
            assert(out@ =~= encode_item_spec(item.label@, item.complete));
        }
    }
    out
}

/// Append the encoding of the items of `data` from index `i` on.
fn push_list_from(out: &mut String, data: &Vec<Todo>, i: usize)
    requires
        i <= data@.len(),
    ensures
        final(out)@ == old(out)@ + encode_list_spec(data@.skip(i as int)),
    decreases data@.len() - i,
{
    if i == data.len() {
        proof {
            assert(data@.skip(i as int) =~= Seq::<Todo>::empty());
            assert(out@ =~= old(out)@ + encode_list_spec(data@.skip(i as int)));
        }
    } else {
        proof {
            assert(data@.skip(i as int).first() == data@[i as int]);
            assert(data@.skip(i as int).drop_first() =~= data@.skip(i + 1));
        }
        let line = encode_item(&data[i]);
        out.append(line.as_str());
        push_char(out, '\n');
        push_list_from(out, data, i + 1);
        assert(out@ =~= old(out)@ + encode_list_spec(data@.skip(i as int)));
    }
}

/// Encode the whole list as the record file text: one line per item.
pub fn encode_list(data: &Vec<Todo>) -> (s: String)
    ensures
        s@ == encode_list_spec(data@),
{
    let mut out = String::new();
    push_list_from(&mut out, data, 0);
    proof {
        assert(data@.skip(0) =~= data@);
    }
    out
}

/// Encode the settings record as its file text.
pub fn encode_settings(silent: &String) -> (s: String)
    ensures
        s@ == encode_settings_spec(silent@),
{
    let mut out = String::from_str("{\"silent\":\"");
    proof {
        reveal_strlit("{\"silent\":\"");
        assert(out@ =~= silent_prefix());
    }
    push_escaped(&mut out, silent.as_str(), 0);
    proof {
        assert(silent@.skip(0) =~= silent@);
    }
    out.append("\"}");
    proof {
        reveal_strlit("\"}");
        assert(("\"}"@) =~= seq!['"', '}']);
        assert(out@ =~= encode_settings_spec(silent@));
    }
    out
}

/// Relies on `char::from_u32` from std: yields the character of a code
/// point, and `None` exactly on surrogates and values above the Unicode
/// maximum.
#[verifier::external_body]
fn char_from_code(v: u32) -> (r: Option<char>)
    ensures
        r is Some <==> is_scalar_value(v),
        r matches Some(c) ==> c as u32 == v,
{
    char::from_u32(v)
}

/// The value of a hex digit, or `None` for any other character.
fn hex_digit_val(c: char) -> (r: Option<u32>)
    ensures
        r is Some <==> is_hex_digit(c),
        r matches Some(v) ==> v == hex_val(c) && v < 16,
{
    let u = c as u32;
    if u >= 0x30 && u <= 0x39 {
        Some(u - 0x30)
    } else if u >= 0x61 && u <= 0x66 {
        Some(u - 0x61 + 10)
    } else if u >= 0x41 && u <= 0x46 {
        Some(u - 0x41 + 10)
    } else {
        None
    }
}

/// Whether the characters of `s` from position `i` on start with `p`.
fn has_prefix_at(s: &str, i: usize, p: &str) -> (r: bool)
    requires
        i <= s@.len(),
        p@.len() <= s@.len() - i,
    ensures
        r <==> s@.subrange(i as int, i + p@.len()) == p@,
{
    let slen = s.unicode_len();
    let plen = p.unicode_len();
    let mut k: usize = 0;
    while k < plen
        invariant
            slen == s@.len(),
            plen == p@.len(),
            i + plen <= slen,
            k <= plen,
            forall|m: int| 0 <= m < k ==> s@[i + m] == p@[m],
        decreases plen - k,
    {
        if s.get_char(i + k) != p.get_char(k) {
            assert(s@.subrange(i as int, i + p@.len())[k as int] == s@[i + k]);
            return false;
        }
        k += 1;
    }
    proof {
        assert(s@.subrange(i as int, i + p@.len()) =~= p@);
    }
    true
}

/// The string holding exactly the given characters.
fn string_of_chars(cs: &Vec<char>) -> (s: String)
    ensures
        s@ == cs@,
{
    let mut out = String::new();
    let mut i: usize = 0;
    while i < cs.len()
        invariant
            i <= cs@.len(),
            out@ == cs@.take(i as int),
        decreases cs@.len() - i,
    {
        push_char(&mut out, cs[i]);
        proof {
            assert(cs@.take(i + 1) =~= cs@.take(i as int).push(cs@[i as int]));
        }
        i += 1;
    }
    proof {
        assert(cs@.take(cs@.len() as int) =~= cs@);
    }
    out
}

/// Parse a JSON string body from position `i`, as `parse_string_body`
/// defines it.
fn parse_body(s: &str, i: usize) -> (r: Option<(Vec<char>, usize)>)
    requires
        i <= s@.len(),
    ensures
        r matches Some((cs, j)) ==> parse_string_body(s@, i as int) == Some((cs@, j as int))
            && i < j <= s@.len(),
        r is None ==> parse_string_body(s@, i as int) is None,
    decreases s@.len() - i,
{
    let len = s.unicode_len();
    if i >= len {
        return None;
    }
    let c = s.get_char(i);
    if c == '"' {
        let cs: Vec<char> = Vec::new();
        assert(cs@ =~= Seq::<char>::empty());
        return Some((cs, i + 1));
    }
    if c == '\\' {
        if i + 1 >= len {
            return None;
        }
        let e = s.get_char(i + 1);
        if e == 'u' {
            if len - i < 6 {
                return None;
            }
            let h2 = match hex_digit_val(s.get_char(i + 2)) {
                Some(v) => v,
                None => {
                    return None;
                },
            };
            let h3 = match hex_digit_val(s.get_char(i + 3)) {
                Some(v) => v,
                None => {
                    return None;
                },
            };
            let h4 = match hex_digit_val(s.get_char(i + 4)) {
                Some(v) => v,
                None => {
                    return None;
                },
            };
            let h5 = match hex_digit_val(s.get_char(i + 5)) {
                Some(v) => v,
                None => {
                    return None;
                },
            };
            let v: u32 = h2 * 4096 + h3 * 256 + h4 * 16 + h5;
            let ch = match char_from_code(v) {
                Some(ch) => ch,
                None => {
                    return None;
                },
            };
            match parse_body(s, i + 6) {
                Some((rest, j)) => {
                    let mut cs = rest;
                    cs.insert(0, ch);
                    proof {
                        vstd::utf8::char_u32_cast(ch, v);
                        assert(cs@ =~= seq![v as char] + cs@.skip(1));
                    }
                    Some((cs, j))
                },
                None => None,
            }
        } else {
            let uc = if e == '"' {
                Some('"')
            } else if e == '\\' {
                Some('\\')
            } else if e == '/' {
                Some('/')
            } else if e == 'b' {
                Some('\u{0008}')
            } else if e == 'f' {
                Some('\u{000C}')
            } else if e == 'n' {
                Some('\n')
            } else if e == 'r' {
                Some('\r')
            } else if e == 't' {
                Some('\t')
            } else {
                None
            };
            assert(uc == simple_unescape(s@[i as int + 1]));
            match uc {
                Some(u) => match parse_body(s, i + 2) {
                    Some((rest, j)) => {
                        let mut cs = rest;
                        cs.insert(0, u);
                        proof {
                            assert(cs@ =~= seq![u] + cs@.skip(1));
                        }
                        Some((cs, j))
                    },
                    None => None,
                },
                None => None,
            }
        }
    } else if (c as u32) < 0x20 {
        None
    } else {
        match parse_body(s, i + 1) {
            Some((rest, j)) => {
                let mut cs = rest;
                cs.insert(0, c);
                proof {
                    assert(cs@ =~= seq![s@[i as int]] + cs@.skip(1));
                }
                Some((cs, j))
            },
            None => None,
        }
    }
}

/// Parse one line as a todo record, as `parse_item_spec` defines it.
pub fn parse_item(s: &str) -> (r: Option<Todo>)
    ensures
        r matches Some(t) ==> parse_item_spec(s@) == Some((t.label@, t.complete)),
        r is None ==> parse_item_spec(s@) is None,
{
    proof {
        reveal_strlit("{\"label\":\"");
        assert(("{\"label\":\""@) =~= label_prefix());
        reveal_strlit(",\"complete\":");
        assert((",\"complete\":"@) =~= complete_infix());
        reveal_strlit("true}");
        assert(("true}"@) =~= true_lit() + seq!['}']);
        reveal_strlit("false}");
        assert(("false}"@) =~= false_lit() + seq!['}']);
    }
    let len = s.unicode_len();
    if len < 10 {
        return None;
    }
    if !has_prefix_at(s, 0, "{\"label\":\"") {
        return None;
    }
    assert(s@.subrange(0, 10) == label_prefix());
    let (lab_chars, j) = match parse_body(s, 10) {
        Some(p) => p,
        None => {
            return None;
        },
    };
    if len - j < 12 {
        return None;
    }
    if !has_prefix_at(s, j, ",\"complete\":") {
        return None;
    }
    let k = j + 12;
    if len - k == 5 && has_prefix_at(s, k, "true}") {
        proof {
            assert(s@.subrange(k as int, k as int + 5) == true_lit() + seq!['}']);
            assert forall|m: int| 0 <= m < 4 implies s@.subrange(k as int, k as int + 4)[m]
                == true_lit()[m] by {
                assert(s@.subrange(k as int, k as int + 4)[m] == s@[k + m]);
                assert(s@.subrange(k as int, k as int + 5)[m] == s@[k + m]);
            }
            assert(s@.subrange(k as int, k as int + 4) =~= true_lit());
            assert(s@[k as int + 4] == s@.subrange(k as int, k as int + 5)[4]);
        }
        let label = string_of_chars(&lab_chars);
        return Some(Todo { label, complete: true });
    }
    if len - k == 6 && has_prefix_at(s, k, "false}") {
        proof {
            assert(s@.subrange(k as int, k as int + 6) == false_lit() + seq!['}']);
            assert forall|m: int| 0 <= m < 5 implies s@.subrange(k as int, k as int + 5)[m]
                == false_lit()[m] by {
                assert(s@.subrange(k as int, k as int + 5)[m] == s@[k + m]);
                assert(s@.subrange(k as int, k as int + 6)[m] == s@[k + m]);
            }
            assert(s@.subrange(k as int, k as int + 5) =~= false_lit());
            assert(s@[k as int + 5] == s@.subrange(k as int, k as int + 6)[5]);
        }
        let label = string_of_chars(&lab_chars);
        return Some(Todo { label, complete: false });
    }
    proof {
        if k + 5 == s@.len() && s@.subrange(k as int, k as int + 4) == true_lit() && s@[k as int
            + 4] == '}' {
            assert(s@.subrange(k as int, k as int + 5) =~= true_lit() + seq!['}']);
        }
        if k + 6 == s@.len() && s@.subrange(k as int, k as int + 5) == false_lit() && s@[k as int
            + 5] == '}' {
            assert(s@.subrange(k as int, k as int + 6) =~= false_lit() + seq!['}']);
        }
    }
    None
}

/// Parse a whole settings file, as `parse_settings_spec` defines it; the
/// result is the silent value.
pub fn parse_settings_value(s: &str) -> (r: Option<String>)
    ensures
        r matches Some(v) ==> parse_settings_spec(s@) == Some(v@),
        r is None ==> parse_settings_spec(s@) is None,
{
    proof {
        reveal_strlit("{\"silent\":\"");
        assert(("{\"silent\":\""@) =~= silent_prefix());
    }
    let len = s.unicode_len();
    if len < 11 {
        return None;
    }
    if !has_prefix_at(s, 0, "{\"silent\":\"") {
        return None;
    }
    let (val_chars, j) = match parse_body(s, 11) {
        Some(p) => p,
        None => {
            return None;
        },
    };
    if len - j == 1 && s.get_char(j) == '}' {
        return Some(string_of_chars(&val_chars));
    }
    None
}

/// Parse the record file from position `i` on, as `parse_list_spec`
/// defines it on the remaining characters.
fn parse_list_from(s: &str, i: usize) -> (r: Result<Vec<Todo>, TodoError>)
    requires
        i <= s@.len(),
    ensures
        r matches Ok(v) ==> parse_list_spec(s@.skip(i as int)) == Some(models(v@)),
        r is Err ==> parse_list_spec(s@.skip(i as int)) is None,
        r matches Err(e) ==> e is MalformedRecord,
    decreases s@.len() - i,
{
    let len = s.unicode_len();
    if i == len {
        proof {
            assert(s@.skip(i as int) =~= Seq::<char>::empty());
            assert(models(Seq::<Todo>::empty()) =~= Seq::<(Seq<char>, bool)>::empty());
        }
        return Ok(Vec::new());
    }
    let ghost tail_seq = s@.skip(i as int);
    let mut j: usize = i;
    while j < len && s.get_char(j) != '\n'
        invariant
            len == s@.len(),
            i <= j <= len,
            forall|m: int| i <= m < j ==> s@[m] != '\n',
        decreases len - j,
    {
        j += 1;
    }
    proof {
        lemma_first_newline_is(tail_seq, (j - i) as nat);
    }
    if j == len {
        let line = s.substring_char(i, len);
        proof {
            assert(line@ =~= tail_seq);
        }
        match parse_item(line) {
            Some(t) => {
                let mut v: Vec<Todo> = Vec::new();
                v.push(t);
                proof {
                    assert(models(v@) =~= seq![(t.label@, t.complete)]);
                }
                Ok(v)
            },
            None => Err(TodoError::MalformedRecord { line: String::from_str(line) }),
        }
    } else {
        let line = s.substring_char(i, j);
        proof {
            assert(line@ =~= tail_seq.take((j - i) as int));
            assert(s@.skip(j as int + 1) =~= tail_seq.skip((j - i) as int + 1));
        }
        if j == i {
            parse_list_from(s, j + 1)
        } else {
            match parse_item(line) {
                Some(t) => match parse_list_from(s, j + 1) {
                    Ok(v) => {
                        let mut out = v;
                        out.insert(0, t);
                        proof {
                            assert(models(out@) =~= seq![(t.label@, t.complete)] + models(
                                out@.skip(1),
                            ));
                            assert(out@.skip(1) =~= out@.subrange(1, out@.len() as int));
                        }
                        Ok(out)
                    },
                    Err(e) => Err(e),
                },
                None => Err(TodoError::MalformedRecord { line: String::from_str(line) }),
            }
        }
    }
}

/// Parse the whole record file: each non-empty line one record. The
/// error carries the first line that is not a record.
pub fn parse_list(s: &str) -> (r: Result<Vec<Todo>, TodoError>)
    ensures
        r matches Ok(v) ==> parse_list_spec(s@) == Some(models(v@)),
        r is Err ==> parse_list_spec(s@) is None,
        r matches Err(e) ==> e is MalformedRecord,
{
    let r = parse_list_from(s, 0);
    proof {
        assert(s@.skip(0) =~= s@);
    }
    r
}

/// A lower-case hex digit denotes the value it was made from.
proof fn lemma_hex_char_val(d: nat)
    requires
        d < 16,
    ensures
        is_hex_digit(hex_char(d)),
        hex_val(hex_char(d)) == d,
{
}

/// Parsing a string body that starts with the escape of `label` and
/// continues with a closing quote yields exactly `label`, leaving off
/// right after the quote.
proof fn lemma_parse_escaped(label: Seq<char>, s: Seq<char>, i: int, rest: Seq<char>)
    requires
        0 <= i <= s.len(),
        s.skip(i) == escape_string(label) + seq!['"'] + rest,
    ensures
        parse_string_body(s, i) == Some((label, i + escape_string(label).len() + 1)),
    decreases label.len(),
{
    broadcast use vstd::seq_lib::group_seq_properties;

    let skipi = s.skip(i);
    let el = escape_string(label);
    assert(skipi.len() == s.len() - i);
    assert(skipi.len() == el.len() + 1 + rest.len());
    if label.len() == 0 {
        assert(el =~= Seq::<char>::empty());
        assert(label =~= Seq::<char>::empty());
        assert(s[i] == skipi[0]);
        assert(skipi[0] == '"');
    } else {
        let c = label.first();
        let tail = label.drop_first();
        let ec = escape_char(c);
        let et = escape_string(tail);
        assert(el == ec + et);
        assert(el.len() == ec.len() + et.len());
        if c == '"' || c == '\\' {
            assert(ec.len() == 2);
            assert(s[i] == skipi[0]);
            assert(s[i + 1] == skipi[1]);
            assert(skipi[0] == '\\');
            assert(skipi[1] == ec[1]);
            assert(simple_unescape(ec[1]) == Some(c));
            vstd::seq_lib::lemma_seq_skip_of_skip(s, i, 2);
            assert(skipi.skip(2) =~= et + seq!['"'] + rest);
            lemma_parse_escaped(tail, s, i + 2, rest);
            assert(seq![c] + tail =~= label);
        } else if (c as u32) < 0x20 {
            let hi = (c as u32 / 16) as nat;
            let lo = (c as u32 % 16) as nat;
            lemma_hex_char_val(hi);
            lemma_hex_char_val(lo);
            assert(ec.len() == 6);
            assert(s[i] == skipi[0]);
            assert(s[i + 1] == skipi[1]);
            assert(s[i + 2] == skipi[2]);
            assert(s[i + 3] == skipi[3]);
            assert(s[i + 4] == skipi[4]);
            assert(s[i + 5] == skipi[5]);
            assert(skipi[0] == '\\');
            assert(skipi[1] == 'u');
            assert(skipi[2] == '0');
            assert(skipi[3] == '0');
            assert(skipi[4] == hex_char(hi));
            assert(skipi[5] == hex_char(lo));
            assert(is_hex_digit('0') && hex_val('0') == 0);
            let v = (hex_val(s[i + 2]) * 4096 + hex_val(s[i + 3]) * 256 + hex_val(s[i + 4]) * 16
                + hex_val(s[i + 5])) as u32;
            assert(16 * ((c as u32) / 16) + (c as u32) % 16 == c as u32);
            assert(v == c as u32);
            assert(is_scalar_value(v));
            vstd::utf8::char_u32_cast(c, v);
            assert((v as char) == c);
            vstd::seq_lib::lemma_seq_skip_of_skip(s, i, 6);
            assert(skipi.skip(6) =~= et + seq!['"'] + rest);
            lemma_parse_escaped(tail, s, i + 6, rest);
            assert(seq![v as char] + tail =~= label);
        } else {
            assert(ec.len() == 1);
            assert(s[i] == skipi[0]);
            assert(skipi[0] == c);
            assert(s[i] != '"' && s[i] != '\\' && !((s[i] as u32) < 0x20));
            vstd::seq_lib::lemma_seq_skip_of_skip(s, i, 1);
            assert(skipi.skip(1) =~= et + seq!['"'] + rest);
            lemma_parse_escaped(tail, s, i + 1, rest);
            assert(seq![c] + tail =~= label);
        }
    }
}

/// Round trip of one record: parsing the encoding of an item yields the
/// item's label and flag.
pub proof fn lemma_item_round_trip(label: Seq<char>, complete: bool)
    ensures
        parse_item_spec(encode_item_spec(label, complete)) == Some((label, complete)),
{
    broadcast use vstd::seq_lib::group_seq_properties;

    let s = encode_item_spec(label, complete);
    let e = escape_string(label);
    let flag = if complete {
        true_lit()
    } else {
        false_lit()
    };
    assert(s.len() == 10 + e.len() + 1 + 12 + flag.len() + 1);
    assert(s.subrange(0, 10) =~= label_prefix());
    assert(s.skip(10) =~= e + seq!['"'] + (complete_infix() + flag + seq!['}']));
    lemma_parse_escaped(label, s, 10, complete_infix() + flag + seq!['}']);
    let j: int = 10 + e.len() as int + 1;
    assert(s.subrange(j, j + 12) =~= complete_infix());
    let k: int = j + 12;
    if complete {
        assert(s.subrange(k, k + 4) =~= true_lit());
        assert(s[k + 4] == '}');
        assert(k + 5 == s.len());
    } else {
        assert(s.subrange(k, k + 5) =~= false_lit());
        assert(s[k + 5] == '}');
        assert(k + 6 == s.len());
    }
}

/// Round trip of the settings record.
pub proof fn lemma_settings_round_trip(v: Seq<char>)
    ensures
        parse_settings_spec(encode_settings_spec(v)) == Some(v),
{
    broadcast use vstd::seq_lib::group_seq_properties;

    let s = encode_settings_spec(v);
    assert(s.subrange(0, 11) =~= silent_prefix());
    assert(s.skip(11) =~= escape_string(v) + seq!['"'] + seq!['}']);
    lemma_parse_escaped(v, s, 11, seq!['}']);
    let j: int = 11 + escape_string(v).len() as int + 1;
    assert(s[j] == '}');
    assert(j + 1 == s.len());
}

/// The escape of a label never holds a newline.
proof fn lemma_escape_no_newline(label: Seq<char>)
    ensures
        forall|m: int| 0 <= m < escape_string(label).len() ==> escape_string(label)[m] != '\n',
    decreases label.len(),
{
    broadcast use vstd::seq_lib::group_seq_properties;

    if label.len() > 0 {
        lemma_escape_no_newline(label.drop_first());
        let c = label.first();
        let ec = escape_char(c);
        let et = escape_string(label.drop_first());
        assert(escape_string(label) == ec + et);
        assert(forall|d: nat| hex_char(d) != '\n');
        assert(forall|m: int| 0 <= m < ec.len() ==> ec[m] != '\n');
        assert forall|m: int| 0 <= m < escape_string(label).len() implies escape_string(label)[m]
            != '\n' by {
            if m < ec.len() {
                assert(escape_string(label)[m] == ec[m]);
            } else {
                assert(escape_string(label)[m] == et[m - ec.len()]);
            }
        }
    }
}

/// A record line never holds a newline.
proof fn lemma_encode_item_no_newline(label: Seq<char>, complete: bool)
    ensures
        forall|m: int| 0 <= m < encode_item_spec(label, complete).len() ==> encode_item_spec(
            label,
            complete,
        )[m] != '\n',
{
    broadcast use vstd::seq_lib::group_seq_properties;

    let s = encode_item_spec(label, complete);
    let e = escape_string(label);
    let flag = if complete {
        true_lit()
    } else {
        false_lit()
    };
    lemma_escape_no_newline(label);
    assert forall|m: int| 0 <= m < s.len() implies s[m] != '\n' by {
        if m < 10 {
            assert(s[m] == label_prefix()[m]);
        } else if m < 10 + e.len() {
            assert(s[m] == e[m - 10]);
        } else if m == 10 + e.len() {
            assert(s[m] == '"');
        } else if m < 10 + e.len() + 1 + 12 {
            assert(s[m] == complete_infix()[m - 10 - e.len() - 1]);
        } else if m < 10 + e.len() + 13 + flag.len() {
            assert(s[m] == flag[m - 10 - e.len() - 13]);
        } else {
            assert(s[m] == '}');
        }
    }
}

/// Round trip of the whole store: parsing the encoding of a list yields
/// the same ordered sequence of label and flag pairs.
pub proof fn lemma_list_round_trip(items: Seq<Todo>)
    ensures
        parse_list_spec(encode_list_spec(items)) == Some(models(items)),
    decreases items.len(),
{
    broadcast use vstd::seq_lib::group_seq_properties;

    if items.len() == 0 {
        assert(models(items) =~= Seq::<(Seq<char>, bool)>::empty());
    } else {
        let t = items.first();
        let enc1 = encode_item_spec(t.label@, t.complete);
        let rest_enc = encode_list_spec(items.drop_first());
        let s = encode_list_spec(items);
        assert(s == enc1 + seq!['\n'] + rest_enc);
        lemma_encode_item_no_newline(t.label@, t.complete);
        assert(forall|k: int| 0 <= k < enc1.len() ==> s[k] == enc1[k]);
        assert(s[enc1.len() as int] == '\n');
        lemma_first_newline_is(s, enc1.len());
        let n = enc1.len();
        assert(n < s.len());
        assert(s.take(n as int) =~= enc1);
        assert(s.skip(n as int + 1) =~= rest_enc);
        lemma_item_round_trip(t.label@, t.complete);
        lemma_list_round_trip(items.drop_first());
        assert(models(items) =~= seq![(t.label@, t.complete)] + models(items.drop_first()));
    }
}

/// `first_newline` is the scan the record reader makes: no newline
/// before it, and a newline at it unless there is none at all.
proof fn lemma_first_newline_is(s: Seq<char>, n: nat)
    requires
        n <= s.len(),
        forall|k: int| 0 <= k < n ==> s[k] != '\n',
        n < s.len() ==> s[n as int] == '\n',
    ensures
        first_newline(s) == n,
    decreases n,
{
    if n == 0 {
        if s.len() > 0 {
            assert(s.first() == s[0]);
        }
    } else {
        assert(s[0] != '\n');
        lemma_first_newline_is(s.drop_first(), (n - 1) as nat);
    }
}

} // verus!

//! The configuration file format: a JSON document
//! `{ "commands": [ { "label": ..., "command": ... }, ... ] }`.
//!
//! This module defines the format twice over sequences of characters: a
//! serializer that emits the pretty-printed document, and a recursive-descent
//! parser for it.  The parser accepts the usual JSON freedoms the serializer
//! does not use: arbitrary whitespace between tokens, the two pair orders
//! inside an entry, the full set of single-character escapes, and `\u`
//! escapes for any scalar value in the basic plane.  Parsing a serialized
//! configuration gives the configuration back; the round-trip lemmas at the
//! end prove it.

use vstd::prelude::*;

verus! {

// ---------------------------------------------------------------------------
// Characters
// ---------------------------------------------------------------------------
/// JSON whitespace: space, newline, carriage return, tab.
pub open spec fn is_ws(c: char) -> bool {
    c == ' ' || c == '\n' || c == '\r' || c == '\t'
}

/// The value of a hexadecimal digit character, upper or lower case.
pub open spec fn hex_val(c: char) -> Option<u32> {
    let u = c as u32;
    if 0x30 <= u && u <= 0x39 {
        Some((u - 0x30) as u32)
    } else if 0x61 <= u && u <= 0x66 {
        Some((u - 0x61 + 10) as u32)
    } else if 0x41 <= u && u <= 0x46 {
        Some((u - 0x41 + 10) as u32)
    } else {
        None
    }
}

/// The lower-case hexadecimal digit character for a value below sixteen.
pub open spec fn hex_digit(v: u32) -> char {
    if v == 0 {
        '0'
    } else if v == 1 {
        '1'
    } else if v == 2 {
        '2'
    } else if v == 3 {
        '3'
    } else if v == 4 {
        '4'
    } else if v == 5 {
        '5'
    } else if v == 6 {
        '6'
    } else if v == 7 {
        '7'
    } else if v == 8 {
        '8'
    } else if v == 9 {
        '9'
    } else if v == 10 {
        'a'
    } else if v == 11 {
        'b'
    } else if v == 12 {
        'c'
    } else if v == 13 {
        'd'
    } else if v == 14 {
        'e'
    } else {
        'f'
    }
}

/// A Unicode scalar value: any code point that is not a surrogate.
pub open spec fn is_scalar_value(v: u32) -> bool {
    v < 0xD800 || (0xE000 <= v && v <= 0x10FFFF)
}

/// The character with scalar value `v`.
pub open spec fn char_of(v: u32) -> char {
    choose|c: char| (#[trigger] (c as u32)) == v
}

/// What the character `c` after a backslash stands for, for the
/// single-character escapes.
pub open spec fn unescape_char(c: char) -> Option<char> {
    if c == '"' {
        Some('"')
    } else if c == '\\' {
        Some('\\')
    } else if c == '/' {
        Some('/')
    } else if c == 'b' {
        Some('\u{8}')
    } else if c == 'f' {
        Some('\u{c}')
    } else if c == 'n' {
        Some('\n')
    } else if c == 'r' {
        Some('\r')
    } else if c == 't' {
        Some('\t')
    } else {
        None
    }
}

/// How the serializer writes one character inside a string: itself when
/// plain; a two-character escape for quote, backslash and the five short
/// control escapes; a `\u00xx` escape for the remaining control characters.
pub open spec fn esc_char(c: char) -> Seq<char> {
    if c == '"' {
        seq!['\\', '"']
    } else if c == '\\' {
        seq!['\\', '\\']
    } else if c == '\u{8}' {
        seq!['\\', 'b']
    } else if c == '\t' {
        seq!['\\', 't']
    } else if c == '\n' {
        seq!['\\', 'n']
    } else if c == '\u{c}' {
        seq!['\\', 'f']
    } else if c == '\r' {
        seq!['\\', 'r']
    } else if (c as u32) < 0x20 {
        seq!['\\', 'u', '0', '0', hex_digit((c as u32) / 16), hex_digit((c as u32) % 16)]
    } else {
        seq![c]
    }
}

// ---------------------------------------------------------------------------
// Serialization
// ---------------------------------------------------------------------------
/// The body of a serialized string: each character escaped as needed.
pub open spec fn escape_chars(s: Seq<char>) -> Seq<char>
    decreases s.len(),
{
    if s.len() == 0 {
        Seq::empty()
    } else {
        esc_char(s[0]) + escape_chars(s.skip(1))
    }
}

/// A serialized string: the escaped body between double quotes.
pub open spec fn ser_string(s: Seq<char>) -> Seq<char> {
    seq!['"'] + escape_chars(s) + seq!['"']
}

/// The key of an entry's label field.
pub open spec fn key_label() -> Seq<char> {
    seq!['l', 'a', 'b', 'e', 'l']
}

/// The key of an entry's command field.
pub open spec fn key_command() -> Seq<char> {
    seq!['c', 'o', 'm', 'm', 'a', 'n', 'd']
}

/// The key of the document's command list.
pub open spec fn key_commands() -> Seq<char> {
    seq!['c', 'o', 'm', 'm', 'a', 'n', 'd', 's']
}

/// Four spaces: the indentation of an entry.
pub open spec fn ws_entry_indent() -> Seq<char> {
    seq![' ', ' ', ' ', ' ']
}

/// A line break followed by the indentation of a field inside an entry.
pub open spec fn ws_field_break() -> Seq<char> {
    seq!['\n', ' ', ' ', ' ', ' ', ' ', ' ']
}

/// A line break followed by the indentation of an entry's closing brace.
pub open spec fn ws_entry_close() -> Seq<char> {
    seq!['\n', ' ', ' ', ' ', ' ']
}

/// A line break followed by the indentation of the top-level field.
pub open spec fn ws_top_break() -> Seq<char> {
    seq!['\n', ' ', ' ']
}

/// One serialized entry without its indentation: the braced object.
pub open spec fn ser_entry_core(e: (Seq<char>, Seq<char>)) -> Seq<char> {
    seq!['{'] + ws_field_break() + ser_string(key_label()) + seq![':'] + seq![' '] + ser_string(
        e.0,
    ) + seq![','] + ws_field_break() + ser_string(key_command()) + seq![':'] + seq![' ']
        + ser_string(e.1) + ws_entry_close() + seq!['}']
}

/// One serialized entry, pretty-printed at depth two.
pub open spec fn ser_entry(e: (Seq<char>, Seq<char>)) -> Seq<char> {
    ws_entry_indent() + ser_entry_core(e)
}

/// The serialized entry list, entries joined by a comma and a line break.
pub open spec fn ser_entries(es: Seq<(Seq<char>, Seq<char>)>) -> Seq<char>
    decreases es.len(),
{
    if es.len() == 0 {
        Seq::empty()
    } else if es.len() == 1 {
        ser_entry(es[0])
    } else {
        ser_entry(es[0]) + seq![',', '\n'] + ser_entries(es.skip(1))
    }
}

/// The serialized configuration document.
pub open spec fn ser_config(es: Seq<(Seq<char>, Seq<char>)>) -> Seq<char> {
    if es.len() == 0 {
        seq!['{'] + ws_top_break() + ser_string(key_commands()) + seq![':'] + seq![' '] + seq![
            '[',
            ']',
            '\n',
            '}',
        ]
    } else {
        seq!['{'] + ws_top_break() + ser_string(key_commands()) + seq![':'] + seq![' '] + seq!['[']
            + seq!['\n'] + ser_entries(es) + seq!['\n', ' ', ' '] + seq![']'] + seq!['\n'] + seq![
            '}',
        ]
    }
}

// ---------------------------------------------------------------------------
// Parsing
// ---------------------------------------------------------------------------
// Each parsing function takes the remaining input and returns the parsed
// value together with the input left over, or `None` when the input does not
// match the grammar.
/// Drops leading whitespace.
pub open spec fn skip_ws(s: Seq<char>) -> Seq<char>
    decreases s.len(),
{
    if s.len() > 0 && is_ws(s[0]) {
        skip_ws(s.skip(1))
    } else {
        s
    }
}

/// Parses the rest of a string after the opening quote: characters and
/// escapes up to the closing quote.
pub open spec fn parse_string_body(s: Seq<char>) -> Option<(Seq<char>, Seq<char>)>
    decreases s.len(),
{
    if s.len() == 0 {
        None
    } else if s[0] == '"' {
        Some((Seq::empty(), s.skip(1)))
    } else if s[0] == '\\' {
        if s.len() < 2 {
            None
        } else if s[1] == 'u' {
            if s.len() < 6 {
                None
            } else {
                match (hex_val(s[2]), hex_val(s[3]), hex_val(s[4]), hex_val(s[5])) {
                    (Some(a), Some(b), Some(c), Some(d)) => {
                        let v = (0x1000 * a + 0x100 * b + 0x10 * c + d) as u32;
                        if is_scalar_value(v) {
                            match parse_string_body(s.skip(6)) {
                                Some((rest, rem)) => Some((seq![char_of(v)] + rest, rem)),
                                None => None,
                            }
                        } else {
                            None
                        }
                    },
                    _ => None,
                }
            }
        } else {
            match unescape_char(s[1]) {
                Some(c) => match parse_string_body(s.skip(2)) {
                    Some((rest, rem)) => Some((seq![c] + rest, rem)),
                    None => None,
                },
                None => None,
            }
        }
    } else if (s[0] as u32) < 0x20 {
        None
    } else {
        match parse_string_body(s.skip(1)) {
            Some((rest, rem)) => Some((seq![s[0]] + rest, rem)),
            None => None,
        }
    }
}

/// Parses a quoted string.
pub open spec fn parse_string(s: Seq<char>) -> Option<(Seq<char>, Seq<char>)> {
    if s.len() > 0 && s[0] == '"' {
        parse_string_body(s.skip(1))
    } else {
        None
    }
}

/// Parses one `"key": "value"` pair.
pub open spec fn parse_pair(s: Seq<char>) -> Option<((Seq<char>, Seq<char>), Seq<char>)> {
    match parse_string(skip_ws(s)) {
        Some((k, r1)) => {
            let r2 = skip_ws(r1);
            if r2.len() > 0 && r2[0] == ':' {
                match parse_string(skip_ws(r2.skip(1))) {
                    Some((v, r3)) => Some(((k, v), r3)),
                    None => None,
                }
            } else {
                None
            }
        },
        None => None,
    }
}

/// The (label, command) entry made of two pairs, whichever order the pairs
/// come in; `None` unless the keys are exactly `label` and `command`.
pub open spec fn entry_of_pairs(p1: (Seq<char>, Seq<char>), p2: (Seq<char>, Seq<char>)) -> Option<
    (Seq<char>, Seq<char>),
> {
    if p1.0 == key_label() && p2.0 == key_command() {
        Some((p1.1, p2.1))
    } else if p1.0 == key_command() && p2.0 == key_label() {
        Some((p2.1, p1.1))
    } else {
        None
    }
}

/// Parses one entry object: `{ "label": ..., "command": ... }`, either pair
/// order.
pub open spec fn parse_entry(s: Seq<char>) -> Option<((Seq<char>, Seq<char>), Seq<char>)> {
    let s1 = skip_ws(s);
    if s1.len() > 0 && s1[0] == '{' {
        match parse_pair(s1.skip(1)) {
            Some((p1, r1)) => {
                let r2 = skip_ws(r1);
                if r2.len() > 0 && r2[0] == ',' {
                    match parse_pair(r2.skip(1)) {
                        Some((p2, r3)) => {
                            let r4 = skip_ws(r3);
                            if r4.len() > 0 && r4[0] == '}' {
                                match entry_of_pairs(p1, p2) {
                                    Some(e) => Some((e, r4.skip(1))),
                                    None => None,
                                }
                            } else {
                                None
                            }
                        },
                        None => None,
                    }
                } else {
                    None
                }
            },
            None => None,
        }
    } else {
        None
    }
}

/// Whatever whitespace is dropped, no input grows.
proof fn lemma_skip_ws_len(s: Seq<char>)
    ensures
        skip_ws(s).len() <= s.len(),
    decreases s.len(),
{
    if s.len() > 0 && is_ws(s[0]) {
        lemma_skip_ws_len(s.skip(1));
    }
}

/// A parsed string leaves strictly less input than it was given.
proof fn lemma_parse_string_body_len(s: Seq<char>)
    ensures
        parse_string_body(s) matches Some((val, rem)) ==> rem.len() < s.len(),
    decreases s.len(),
{
    if s.len() == 0 {
    } else if s[0] == '"' {
    } else if s[0] == '\\' {
        if s.len() >= 6 && s[1] == 'u' {
            lemma_parse_string_body_len(s.skip(6));
        }
        if s.len() >= 2 {
            lemma_parse_string_body_len(s.skip(2));
        }
    } else {
        lemma_parse_string_body_len(s.skip(1));
    }
}

/// A parsed pair leaves strictly less input than it was given.
proof fn lemma_parse_pair_len(s: Seq<char>)
    ensures
        parse_pair(s) matches Some((p, rem)) ==> rem.len() < s.len(),
{
    lemma_skip_ws_len(s);
    let s1 = skip_ws(s);
    if s1.len() > 0 && s1[0] == '"' {
        lemma_parse_string_body_len(s1.skip(1));
        if let Some((k, r1)) = parse_string(s1) {
            lemma_skip_ws_len(r1);
            let r2 = skip_ws(r1);
            if r2.len() > 0 && r2[0] == ':' {
                lemma_skip_ws_len(r2.skip(1));
                let r3 = skip_ws(r2.skip(1));
                if r3.len() > 0 && r3[0] == '"' {
                    lemma_parse_string_body_len(r3.skip(1));
                }
            }
        }
    }
}

/// A parsed entry leaves strictly less input than it was given.
proof fn lemma_parse_entry_len(s: Seq<char>)
    ensures
        parse_entry(s) matches Some((e, rem)) ==> rem.len() < s.len(),
{
    lemma_skip_ws_len(s);
    let s1 = skip_ws(s);
    if s1.len() > 0 && s1[0] == '{' {
        lemma_parse_pair_len(s1.skip(1));
        if let Some((p1, r1)) = parse_pair(s1.skip(1)) {
            lemma_skip_ws_len(r1);
            let r2 = skip_ws(r1);
            if r2.len() > 0 && r2[0] == ',' {
                lemma_parse_pair_len(r2.skip(1));
                if let Some((p2, r3)) = parse_pair(r2.skip(1)) {
                    lemma_skip_ws_len(r3);
                }
            }
        }
    }
}

/// Parses the rest of the entry list after one entry: either the closing
/// bracket, or a comma and another entry, again and again.
pub open spec fn parse_entries_rest(s: Seq<char>) -> Option<
    (Seq<(Seq<char>, Seq<char>)>, Seq<char>),
>
    decreases s.len(),
    via parse_entries_rest_decreases
{
    let s1 = skip_ws(s);
    if s1.len() > 0 && s1[0] == ']' {
        Some((Seq::empty(), s1.skip(1)))
    } else if s1.len() > 0 && s1[0] == ',' {
        match parse_entry(s1.skip(1)) {
            Some((e, r1)) => match parse_entries_rest(r1) {
                Some((more, rem)) => Some((seq![e] + more, rem)),
                None => None,
            },
            None => None,
        }
    } else {
        None
    }
}

#[via_fn]
proof fn parse_entries_rest_decreases(s: Seq<char>) {
    lemma_skip_ws_len(s);
    let s1 = skip_ws(s);
    if s1.len() > 0 && s1[0] == ',' {
        lemma_parse_entry_len(s1.skip(1));
    }
}

/// Parses the entry list after the opening bracket: empty, or a first entry
/// followed by the rest.
pub open spec fn parse_entries(s: Seq<char>) -> Option<(Seq<(Seq<char>, Seq<char>)>, Seq<char>)> {
    let s1 = skip_ws(s);
    if s1.len() > 0 && s1[0] == ']' {
        Some((Seq::empty(), s1.skip(1)))
    } else {
        match parse_entry(s) {
            Some((e, r1)) => match parse_entries_rest(r1) {
                Some((more, rem)) => Some((seq![e] + more, rem)),
                None => None,
            },
            None => None,
        }
    }
}

/// Parses a whole configuration document; `None` unless the document is
/// exactly one `{ "commands": [ ... ] }` object, possibly surrounded by
/// whitespace, with nothing after it.
pub open spec fn spec_parse_config(s: Seq<char>) -> Option<Seq<(Seq<char>, Seq<char>)>> {
    let s1 = skip_ws(s);
    if s1.len() > 0 && s1[0] == '{' {
        match parse_string(skip_ws(s1.skip(1))) {
            Some((k, r1)) => if k == key_commands() {
                let r2 = skip_ws(r1);
                if r2.len() > 0 && r2[0] == ':' {
                    let r3 = skip_ws(r2.skip(1));
                    if r3.len() > 0 && r3[0] == '[' {
                        match parse_entries(r3.skip(1)) {
                            Some((es, r4)) => {
                                let r5 = skip_ws(r4);
                                if r5.len() > 0 && r5[0] == '}' {
                                    if skip_ws(r5.skip(1)).len() == 0 {
                                        Some(es)
                                    } else {
                                        None
                                    }
                                } else {
                                    None
                                }
                            },
                            None => None,
                        }
                    } else {
                        None
                    }
                } else {
                    None
                }
            } else {
                None
            },
            None => None,
        }
    } else {
        None
    }
}

// ---------------------------------------------------------------------------
// The executable serializer
// ---------------------------------------------------------------------------
/// Splitting a string splits its escaped form.
proof fn lemma_escape_chars_concat(a: Seq<char>, b: Seq<char>)
    ensures
        escape_chars(a + b) == escape_chars(a) + escape_chars(b),
    decreases a.len(),
{
    if a.len() == 0 {
        assert(a + b =~= b);
        assert(escape_chars(a) + escape_chars(b) =~= escape_chars(b));
    } else {
        assert((a + b).skip(1) =~= a.skip(1) + b);
        lemma_escape_chars_concat(a.skip(1), b);
        assert((a + b)[0] == a[0]);
        assert(escape_chars(a + b) =~= escape_chars(a) + escape_chars(b));
    }
}

/// Appends the characters of a string slice.
fn append_str(out: &mut Vec<char>, s: &str)
    ensures
        final(out)@ == old(out)@ + s@,
{
    let mut chars = crate::text::str_to_chars(s);
    out.append(&mut chars);
}

/// The lower-case hexadecimal digit character for a value below sixteen.
fn hex_digit_char(v: u32) -> (c: char)
    requires
        v < 16,
    ensures
        c == hex_digit(v),
{
    if v == 0 {
        '0'
    } else if v == 1 {
        '1'
    } else if v == 2 {
        '2'
    } else if v == 3 {
        '3'
    } else if v == 4 {
        '4'
    } else if v == 5 {
        '5'
    } else if v == 6 {
        '6'
    } else if v == 7 {
        '7'
    } else if v == 8 {
        '8'
    } else if v == 9 {
        '9'
    } else if v == 10 {
        'a'
    } else if v == 11 {
        'b'
    } else if v == 12 {
        'c'
    } else if v == 13 {
        'd'
    } else if v == 14 {
        'e'
    } else {
        'f'
    }
}

/// Appends the escaped form of one character.
fn write_escaped_char(out: &mut Vec<char>, c: char)
    ensures
        final(out)@ == old(out)@ + esc_char(c),
{
    if c == '"' {
        out.push('\\');
        out.push('"');
    } else if c == '\\' {
        out.push('\\');
        out.push('\\');
    } else if c == '\u{8}' {
        out.push('\\');
        out.push('b');
    } else if c == '\t' {
        out.push('\\');
        out.push('t');
    } else if c == '\n' {
        out.push('\\');
        out.push('n');
    } else if c == '\u{c}' {
        out.push('\\');
        out.push('f');
    } else if c == '\r' {
        out.push('\\');
        out.push('r');
    } else if (c as u32) < 0x20 {
        out.push('\\');
        out.push('u');
        out.push('0');
        out.push('0');
        out.push(hex_digit_char((c as u32) / 16));
        out.push(hex_digit_char((c as u32) % 16));
    } else {
        out.push(c);
    }
    proof {
        assert(final(out)@ =~= old(out)@ + esc_char(c));
    }
}

/// Appends the escaped body of a string.
fn write_escaped(out: &mut Vec<char>, s: &Vec<char>)
    ensures
        final(out)@ == old(out)@ + escape_chars(s@),
{
    let ghost orig = out@;
    let mut k: usize = 0;
    while k < s.len()
        invariant
            k <= s.len(),
            out@ == orig + escape_chars(s@.take(k as int)),
        decreases s.len() - k,
    {
        write_escaped_char(out, s[k]);
        proof {
            assert(s@.take(k as int + 1) =~= s@.take(k as int) + seq![s@[k as int]]);
            lemma_escape_chars_concat(s@.take(k as int), seq![s@[k as int]]);
            reveal_with_fuel(escape_chars, 3);
            assert(seq![s@[k as int]].skip(1) =~= Seq::<char>::empty());
            assert(escape_chars(seq![s@[k as int]]) =~= esc_char(s@[k as int]));
            assert(out@ =~= orig + escape_chars(s@.take(k as int + 1)));
        }
        k = k + 1;
    }
    proof {
        assert(s@.take(s@.len() as int) =~= s@);
    }
}

/// Appends a serialized string: the escaped body between double quotes.
fn write_string(out: &mut Vec<char>, s: &Vec<char>)
    ensures
        final(out)@ == old(out)@ + ser_string(s@),
{
    out.push('"');
    write_escaped(out, s);
    out.push('"');
    proof {
        assert(final(out)@ =~= old(out)@ + ser_string(s@));
    }
}

/// Appends one serialized entry.
fn write_entry(out: &mut Vec<char>, label: &Vec<char>, command: &Vec<char>)
    ensures
        final(out)@ == old(out)@ + ser_entry((label@, command@)),
{
    proof {
        reveal_strlit("    {\n      ");
        reveal_strlit(": ");
        reveal_strlit(",\n      ");
        reveal_strlit("\n    }");
        reveal_strlit("label");
        reveal_strlit("command");
    }
    append_str(out, "    {\n      ");
    let label_key = crate::text::str_to_chars("label");
    write_string(out, &label_key);
    append_str(out, ": ");
    write_string(out, label);
    append_str(out, ",\n      ");
    let command_key = crate::text::str_to_chars("command");
    write_string(out, &command_key);
    append_str(out, ": ");
    write_string(out, command);
    append_str(out, "\n    }");
    proof {
        assert("label"@ =~= key_label());
        assert("command"@ =~= key_command());
        assert(final(out)@ =~= old(out)@ + ser_entry((label@, command@)));
    }
}

/// Adding an entry at the end of the list adds a separator and the entry at
/// the end of the serialized list.
proof fn lemma_ser_entries_push(es: Seq<(Seq<char>, Seq<char>)>, e: (Seq<char>, Seq<char>))
    ensures
        es.len() == 0 ==> ser_entries(es.push(e)) == ser_entry(e),
        es.len() > 0 ==> ser_entries(es.push(e)) == ser_entries(es) + seq![',', '\n'] + ser_entry(e),
    decreases es.len(),
{
    if es.len() == 0 {
        assert(es.push(e)[0] == e);
    } else {
        lemma_ser_entries_push(es.skip(1), e);
        assert(es.push(e).skip(1) =~= es.skip(1).push(e));
        assert(es.push(e)[0] == es[0]);
        if es.len() == 1 {
            assert(ser_entries(es.push(e)) =~= ser_entries(es) + seq![',', '\n'] + ser_entry(e));
        } else {
            assert(ser_entries(es.push(e)) =~= ser_entries(es) + seq![',', '\n'] + ser_entry(e));
        }
    }
}

/// Appends the serialized entry list.
fn write_entries(out: &mut Vec<char>, entries: &Vec<crate::config::CommandEntry>)
    requires
        entries@.len() > 0,
    ensures
        final(out)@ == old(out)@ + ser_entries(crate::config::entry_views(entries@)),
{
    let ghost orig = out@;
    let ghost vs = crate::config::entry_views(entries@);
    let first_label = crate::text::string_to_chars(&entries[0].label);
    let first_command = crate::text::string_to_chars(&entries[0].command);
    write_entry(out, &first_label, &first_command);
    proof {
        assert(vs.take(1) =~= Seq::empty().push(vs[0]));
        lemma_ser_entries_push(Seq::empty(), vs[0]);
        assert(out@ =~= orig + ser_entries(vs.take(1)));
    }
    let mut k: usize = 1;
    while k < entries.len()
        invariant
            1 <= k <= entries.len(),
            vs == crate::config::entry_views(entries@),
            out@ == orig + ser_entries(vs.take(k as int)),
        decreases entries.len() - k,
    {
        append_str(out, ",\n");
        let label = crate::text::string_to_chars(&entries[k].label);
        let command = crate::text::string_to_chars(&entries[k].command);
        write_entry(out, &label, &command);
        proof {
            reveal_strlit(",\n");
            assert(",\n"@ =~= seq![',', '\n']);
            assert(vs.take(k as int + 1) =~= vs.take(k as int).push(vs[k as int]));
            lemma_ser_entries_push(vs.take(k as int), vs[k as int]);
            assert(out@ =~= orig + ser_entries(vs.take(k as int + 1)));
        }
        k = k + 1;
    }
    proof {
        assert(vs.take(vs.len() as int) =~= vs);
    }
}

/// Serializes a command list as the pretty-printed configuration document.
pub fn write_config(entries: &Vec<crate::config::CommandEntry>) -> (out: Vec<char>)
    ensures
        out@ == ser_config(crate::config::entry_views(entries@)),
{
    proof {
        reveal_strlit("{\n  ");
        reveal_strlit(": []\n}");
        reveal_strlit(": [\n");
        reveal_strlit("\n  ]\n}");
        reveal_strlit("commands");
    }
    let ghost vs = crate::config::entry_views(entries@);
    let mut out: Vec<char> = Vec::new();
    append_str(&mut out, "{\n  ");
    let key = crate::text::str_to_chars("commands");
    write_string(&mut out, &key);
    if entries.len() == 0 {
        append_str(&mut out, ": []\n}");
    } else {
        append_str(&mut out, ": [\n");
        write_entries(&mut out, entries);
        append_str(&mut out, "\n  ]\n}");
    }
    proof {
        assert("commands"@ =~= key_commands());
        assert(out@ =~= ser_config(vs));
    }
    out
}

// ---------------------------------------------------------------------------
// The executable parser
// ---------------------------------------------------------------------------
// Each function takes the input and a position in it, and mirrors the
// specification function applied to the input's suffix at that position.
/// Whether `c` is JSON whitespace.
fn is_ws_char(c: char) -> (r: bool)
    ensures
        r == is_ws(c),
{
    c == ' ' || c == '\n' || c == '\r' || c == '\t'
}

/// Advances the position past leading whitespace.
fn exec_skip_ws(v: &Vec<char>, i: usize) -> (r: usize)
    requires
        i <= v.len(),
    ensures
        i <= r <= v@.len(),
        v@.skip(r as int) == skip_ws(v@.skip(i as int)),
{
    let mut cur: usize = i;
    while cur < v.len() && is_ws_char(v[cur])
        invariant
            i <= cur <= v.len(),
            skip_ws(v@.skip(i as int)) == skip_ws(v@.skip(cur as int)),
        decreases v.len() - cur,
    {
        proof {
            assert(v@.skip(cur as int).skip(1) =~= v@.skip(cur as int + 1));
        }
        cur = cur + 1;
    }
    proof {
        assert(v@.skip(cur as int).len() == v@.len() - cur);
        if cur < v.len() {
            assert(v@.skip(cur as int)[0] == v@[cur as int]);
        }
        assert(skip_ws(v@.skip(cur as int)) == v@.skip(cur as int));
    }
    cur
}

/// The value of a hexadecimal digit character, if it is one.
fn exec_hex_val(c: char) -> (r: Option<u32>)
    ensures
        r == hex_val(c),
{
    let u = c as u32;
    if 0x30 <= u && u <= 0x39 {
        Some(u - 0x30)
    } else if 0x61 <= u && u <= 0x66 {
        Some(u - 0x61 + 10)
    } else if 0x41 <= u && u <= 0x46 {
        Some(u - 0x41 + 10)
    } else {
        None
    }
}

/// What a single-character escape stands for, if it is one.
fn exec_unescape_char(c: char) -> (r: Option<char>)
    ensures
        r == unescape_char(c),
{
    if c == '"' {
        Some('"')
    } else if c == '\\' {
        Some('\\')
    } else if c == '/' {
        Some('/')
    } else if c == 'b' {
        Some('\u{8}')
    } else if c == 'f' {
        Some('\u{c}')
    } else if c == 'n' {
        Some('\n')
    } else if c == 'r' {
        Some('\r')
    } else if c == 't' {
        Some('\t')
    } else {
        None
    }
}

/// Compares two character vectors.
fn chars_eq(a: &Vec<char>, b: &Vec<char>) -> (r: bool)
    ensures
        r == (a@ == b@),
{
    if a.len() != b.len() {
        proof {
            assert(a@ != b@);
        }
        return false;
    }
    let mut k: usize = 0;
    while k < a.len()
        invariant
            k <= a.len(),
            a@.len() == b@.len(),
            forall|m: int| 0 <= m < k ==> a@[m] == b@[m],
        decreases a.len() - k,
    {
        if a[k] != b[k] {
            return false;
        }
        k = k + 1;
    }
    proof {
        assert(a@ =~= b@);
    }
    true
}

/// Parses the rest of a string after the opening quote.
#[verifier::rlimit(60)]
fn exec_parse_string_body(v: &Vec<char>, i: usize) -> (r: Option<(Vec<char>, usize)>)
    requires
        i <= v.len(),
    ensures
        (match r {
            Some((val, j)) => i <= j <= v@.len() && parse_string_body(v@.skip(i as int)) == Some(
                (val@, v@.skip(j as int)),
            ),
            None => parse_string_body(v@.skip(i as int)) is None,
        }),
{
    let mut acc: Vec<char> = Vec::new();
    let mut cur: usize = i;
    loop
        invariant
            i <= cur <= v.len(),
            parse_string_body(v@.skip(i as int)) == (match parse_string_body(
                v@.skip(cur as int),
            ) {
                Some((rest, rem)) => Some((acc@ + rest, rem)),
                None => None::<(Seq<char>, Seq<char>)>,
            }),
        decreases v.len() - cur,
    {
        proof {
            assert(v@.skip(cur as int).len() == v@.len() - cur);
            if cur < v.len() {
                assert(v@.skip(cur as int)[0] == v@[cur as int]);
                assert(v@.skip(cur as int).skip(1) =~= v@.skip(cur as int + 1));
                if cur + 2 <= v.len() {
                    assert(v@.skip(cur as int).skip(2) =~= v@.skip(cur as int + 2));
                }
                if cur + 6 <= v.len() {
                    assert(v@.skip(cur as int).skip(6) =~= v@.skip(cur as int + 6));
                }
                if cur + 1 < v.len() {
                    assert(v@.skip(cur as int)[1] == v@[cur as int + 1]);
                }
                if cur + 5 < v.len() {
                    assert(v@.skip(cur as int)[2] == v@[cur as int + 2]);
                    assert(v@.skip(cur as int)[3] == v@[cur as int + 3]);
                    assert(v@.skip(cur as int)[4] == v@[cur as int + 4]);
                    assert(v@.skip(cur as int)[5] == v@[cur as int + 5]);
                }
            }
        }
        if cur >= v.len() {
            return None;
        }
        let c = v[cur];
        if c == '"' {
            proof {
                assert(acc@ + Seq::<char>::empty() =~= acc@);
            }
            return Some((acc, cur + 1));
        } else if c == '\\' {
            if cur + 1 >= v.len() {
                return None;
            }
            let e = v[cur + 1];
            if e == 'u' {
                if v.len() - cur < 6 {
                    return None;
                }
                let h2 = exec_hex_val(v[cur + 2]);
                let h3 = exec_hex_val(v[cur + 3]);
                let h4 = exec_hex_val(v[cur + 4]);
                let h5 = exec_hex_val(v[cur + 5]);
                if let (Some(a), Some(b), Some(cc), Some(d)) = (h2, h3, h4, h5) {
                    let val: u32 = 0x1000 * a + 0x100 * b + 0x10 * cc + d;
                    if val < 0xD800 || val >= 0xE000 {
                        match crate::text::char_from_code(val) {
                            Some(ch) => {
                                proof {
                                    crate::text::lemma_char_code_injective(ch, char_of(val));
                                    assert(char_of(val) as u32 == val);
                                    let s = v@.skip(cur as int);
                                    let tail = parse_string_body(s.skip(6));
                                    if let Some((rest, rem)) = tail {
                                        assert(acc@ + (seq![ch] + rest) =~= (acc@ + seq![ch])
                                            + rest);
                                    }
                                }
                                acc.push(ch);
                                cur = cur + 6;
                            },
                            None => {
                                proof {
                                    assert(false);
                                }
                                return None;
                            },
                        }
                    } else {
                        return None;
                    }
                } else {
                    return None;
                }
            } else {
                match exec_unescape_char(e) {
                    Some(u) => {
                        proof {
                            let s = v@.skip(cur as int);
                            let tail = parse_string_body(s.skip(2));
                            if let Some((rest, rem)) = tail {
                                assert(acc@ + (seq![u] + rest) =~= (acc@ + seq![u]) + rest);
                            }
                        }
                        acc.push(u);
                        cur = cur + 2;
                    },
                    None => {
                        return None;
                    },
                }
            }
        } else if (c as u32) < 0x20 {
            return None;
        } else {
            proof {
                let s = v@.skip(cur as int);
                let tail = parse_string_body(s.skip(1));
                if let Some((rest, rem)) = tail {
                    assert(acc@ + (seq![c] + rest) =~= (acc@ + seq![c]) + rest);
                }
            }
            acc.push(c);
            cur = cur + 1;
        }
    }
}

/// Parses a quoted string starting at `i`.
fn exec_parse_string(v: &Vec<char>, i: usize) -> (r: Option<(Vec<char>, usize)>)
    requires
        i <= v.len(),
    ensures
        (match r {
            Some((val, j)) => i <= j <= v@.len() && parse_string(v@.skip(i as int)) == Some(
                (val@, v@.skip(j as int)),
            ),
            None => parse_string(v@.skip(i as int)) is None,
        }),
{
    proof {
        assert(v@.skip(i as int).len() == v@.len() - i);
        if i < v.len() {
            assert(v@.skip(i as int)[0] == v@[i as int]);
            assert(v@.skip(i as int).skip(1) =~= v@.skip(i as int + 1));
        }
    }
    if i < v.len() && v[i] == '"' {
        exec_parse_string_body(v, i + 1)
    } else {
        None
    }
}

/// The basic facts about the suffix of `v` at position `x`.
proof fn lemma_suffix(v: Seq<char>, x: int)
    requires
        0 <= x <= v.len(),
    ensures
        v.skip(x).len() == v.len() - x,
        x < v.len() ==> v.skip(x)[0] == v[x],
        x < v.len() ==> v.skip(x).skip(1) == v.skip(x + 1),
{
    if x < v.len() {
        assert(v.skip(x).skip(1) =~= v.skip(x + 1));
    }
}

/// Parses one `"key": "value"` pair starting at `i`.
fn exec_parse_pair(v: &Vec<char>, i: usize) -> (r: Option<((Vec<char>, Vec<char>), usize)>)
    requires
        i <= v.len(),
    ensures
        (match r {
            Some((p, j)) => i <= j <= v@.len() && parse_pair(v@.skip(i as int)) == Some(
                ((p.0@, p.1@), v@.skip(j as int)),
            ),
            None => parse_pair(v@.skip(i as int)) is None,
        }),
{
    let s0 = exec_skip_ws(v, i);
    match exec_parse_string(v, s0) {
        Some((k, r1)) => {
            let r2 = exec_skip_ws(v, r1);
            proof {
                lemma_suffix(v@, r2 as int);
            }
            if r2 < v.len() && v[r2] == ':' {
                let s3 = exec_skip_ws(v, r2 + 1);
                match exec_parse_string(v, s3) {
                    Some((val, r3)) => Some(((k, val), r3)),
                    None => None,
                }
            } else {
                None
            }
        },
        None => None,
    }
}

/// Parses one entry object starting at `i`.
fn exec_parse_entry(v: &Vec<char>, i: usize) -> (r: Option<(crate::config::CommandEntry, usize)>)
    requires
        i <= v.len(),
    ensures
        (match r {
            Some((e, j)) => i <= j <= v@.len() && parse_entry(v@.skip(i as int)) == Some(
                (e@, v@.skip(j as int)),
            ),
            None => parse_entry(v@.skip(i as int)) is None,
        }),
{
    let s1 = exec_skip_ws(v, i);
    proof {
        lemma_suffix(v@, s1 as int);
    }
    if s1 < v.len() && v[s1] == '{' {
        match exec_parse_pair(v, s1 + 1) {
            Some((p1, r1)) => {
                let r2 = exec_skip_ws(v, r1);
                proof {
                    lemma_suffix(v@, r2 as int);
                }
                if r2 < v.len() && v[r2] == ',' {
                    match exec_parse_pair(v, r2 + 1) {
                        Some((p2, r3)) => {
                            let r4 = exec_skip_ws(v, r3);
                            proof {
                                lemma_suffix(v@, r4 as int);
                            }
                            if r4 < v.len() && v[r4] == '}' {
                                proof {
                                    reveal_strlit("label");
                                    reveal_strlit("command");
                                    assert("label"@ =~= key_label());
                                    assert("command"@ =~= key_command());
                                }
                                let label_key = crate::text::str_to_chars("label");
                                let command_key = crate::text::str_to_chars("command");
                                let (k1, v1) = p1;
                                let (k2, v2) = p2;
                                if chars_eq(&k1, &label_key) && chars_eq(&k2, &command_key) {
                                    let e = crate::config::CommandEntry {
                                        label: crate::text::chars_to_string(&v1),
                                        command: crate::text::chars_to_string(&v2),
                                    };
                                    Some((e, r4 + 1))
                                } else if chars_eq(&k1, &command_key) && chars_eq(&k2, &label_key) {
                                    let e = crate::config::CommandEntry {
                                        label: crate::text::chars_to_string(&v2),
                                        command: crate::text::chars_to_string(&v1),
                                    };
                                    Some((e, r4 + 1))
                                } else {
                                    None
                                }
                            } else {
                                None
                            }
                        },
                        None => None,
                    }
                } else {
                    None
                }
            },
            None => None,
        }
    } else {
        None
    }
}

/// Parses the entry list after the opening bracket, through the closing one.
fn exec_parse_entries(v: &Vec<char>, i: usize) -> (r: Option<
    (Vec<crate::config::CommandEntry>, usize),
>)
    requires
        i <= v.len(),
    ensures
        (match r {
            Some((es, j)) => i <= j <= v@.len() && parse_entries(v@.skip(i as int)) == Some(
                (crate::config::entry_views(es@), v@.skip(j as int)),
            ),
            None => parse_entries(v@.skip(i as int)) is None,
        }),
{
    let s1 = exec_skip_ws(v, i);
    proof {
        lemma_suffix(v@, s1 as int);
    }
    if s1 < v.len() && v[s1] == ']' {
        let empty: Vec<crate::config::CommandEntry> = Vec::new();
        proof {
            assert(crate::config::entry_views(empty@) =~= Seq::<(Seq<char>, Seq<char>)>::empty());
        }
        return Some((empty, s1 + 1));
    }
    let mut acc: Vec<crate::config::CommandEntry> = Vec::new();
    let mut cur: usize;
    match exec_parse_entry(v, i) {
        Some((e, r1)) => {
            acc.push(e);
            cur = r1;
            proof {
                assert(crate::config::entry_views(acc@) =~= seq![e@]);
            }
        },
        None => {
            return None;
        },
    }
    loop
        invariant
            i <= cur <= v.len(),
            parse_entries(v@.skip(i as int)) == (match parse_entries_rest(v@.skip(cur as int)) {
                Some((more, rem)) => Some((crate::config::entry_views(acc@) + more, rem)),
                None => None::<(Seq<(Seq<char>, Seq<char>)>, Seq<char>)>,
            }),
        decreases v.len() - cur,
    {
        let t = exec_skip_ws(v, cur);
        proof {
            lemma_suffix(v@, t as int);
        }
        if t < v.len() && v[t] == ']' {
            proof {
                assert(crate::config::entry_views(acc@) + Seq::<(Seq<char>, Seq<char>)>::empty()
                    =~= crate::config::entry_views(acc@));
            }
            return Some((acc, t + 1));
        }
        if t < v.len() && v[t] == ',' {
            match exec_parse_entry(v, t + 1) {
                Some((e, r)) => {
                    proof {
                        lemma_parse_entry_len(v@.skip(t as int + 1));
                        let ghost m = crate::config::entry_views(acc@);
                        if let Some((more, rem)) = parse_entries_rest(v@.skip(r as int)) {
                            assert(m + (seq![e@] + more) =~= (m + seq![e@]) + more);
                        }
                        assert(crate::config::entry_views(acc@.push(e)) =~= m + seq![e@]);
                    }
                    acc.push(e);
                    cur = r;
                },
                None => {
                    return None;
                },
            }
        } else {
            return None;
        }
    }
}

/// Parses a whole configuration document: the command list of
/// `{ "commands": [ ... ] }`, or `None` when the text does not match the
/// grammar.
pub fn parse_config(v: &Vec<char>) -> (r: Option<Vec<crate::config::CommandEntry>>)
    ensures
        (match r {
            Some(es) => spec_parse_config(v@) == Some(crate::config::entry_views(es@)),
            None => spec_parse_config(v@) is None,
        }),
{
    proof {
        assert(v@.skip(0) =~= v@);
    }
    let s1 = exec_skip_ws(v, 0);
    proof {
        lemma_suffix(v@, s1 as int);
    }
    if s1 < v.len() && v[s1] == '{' {
        let s2 = exec_skip_ws(v, s1 + 1);
        match exec_parse_string(v, s2) {
            Some((k, r1)) => {
                proof {
                    reveal_strlit("commands");
                    assert("commands"@ =~= key_commands());
                }
                let key = crate::text::str_to_chars("commands");
                if chars_eq(&k, &key) {
                    let r2 = exec_skip_ws(v, r1);
                    proof {
                        lemma_suffix(v@, r2 as int);
                    }
                    if r2 < v.len() && v[r2] == ':' {
                        let r3 = exec_skip_ws(v, r2 + 1);
                        proof {
                            lemma_suffix(v@, r3 as int);
                        }
                        if r3 < v.len() && v[r3] == '[' {
                            match exec_parse_entries(v, r3 + 1) {
                                Some((es, r4)) => {
                                    let r5 = exec_skip_ws(v, r4);
                                    proof {
                                        lemma_suffix(v@, r5 as int);
                                    }
                                    if r5 < v.len() && v[r5] == '}' {
                                        let r6 = exec_skip_ws(v, r5 + 1);
                                        if r6 == v.len() {
                                            Some(es)
                                        } else {
                                            None
                                        }
                                    } else {
                                        None
                                    }
                                },
                                None => None,
                            }
                        } else {
                            None
                        }
                    } else {
                        None
                    }
                } else {
                    None
                }
            },
            None => None,
        }
    } else {
        None
    }
}

// ---------------------------------------------------------------------------
// Round trip: parsing inverts serialization
// ---------------------------------------------------------------------------
/// Leading whitespace parses away.
proof fn lemma_skip_ws_all_ws(p: Seq<char>, rest: Seq<char>)
    requires
        forall|i: int| 0 <= i < p.len() ==> is_ws(#[trigger] p[i]),
    ensures
        skip_ws(p + rest) == skip_ws(rest),
    decreases p.len(),
{
    if p.len() == 0 {
        assert(p + rest =~= rest);
    } else {
        assert((p + rest)[0] == p[0]);
        assert((p + rest).skip(1) =~= p.skip(1) + rest);
        lemma_skip_ws_all_ws(p.skip(1), rest);
    }
}

/// An escaped string body followed by the closing quote parses back to the
/// string, whatever comes after.
proof fn lemma_parse_escaped(s: Seq<char>, rest: Seq<char>)
    ensures
        parse_string_body(escape_chars(s) + seq!['"'] + rest) == Some((s, rest)),
    decreases s.len(),
{
    let u = escape_chars(s) + seq!['"'] + rest;
    if s.len() == 0 {
        assert(u =~= seq!['"'] + rest);
        assert(u[0] == '"');
        assert(u.skip(1) =~= rest);
    } else {
        let c = s[0];
        let tail_input = escape_chars(s.skip(1)) + seq!['"'] + rest;
        lemma_parse_escaped(s.skip(1), rest);
        assert(u =~= esc_char(c) + tail_input);
        assert(seq![c] + s.skip(1) =~= s);
        if c == '"' || c == '\\' || c == '\u{8}' || c == '\t' || c == '\n' || c == '\u{c}' || c
            == '\r' {
            assert(u[0] == '\\');
            assert(u[1] == esc_char(c)[1]);
            assert(u[1] != 'u');
            assert(unescape_char(u[1]) == Some(c));
            assert(u.skip(2) =~= tail_input);
        } else if (c as u32) < 0x20 {
            let hi = (c as u32) / 16;
            let lo = (c as u32) % 16;
            assert(u[0] == '\\');
            assert(u[1] == 'u');
            assert(u[2] == '0');
            assert(u[3] == '0');
            assert(u[4] == hex_digit(hi));
            assert(u[5] == hex_digit(lo));
            assert(hex_val('0') == Some(0u32));
            assert(hex_val(hex_digit(hi)) == Some(hi));
            assert(hex_val(hex_digit(lo)) == Some(lo));
            let v = (0x10 * hi + lo) as u32;
            assert(v == c as u32);
            assert(is_scalar_value(v));
            assert(char_of(v) as u32 == v);
            crate::text::lemma_char_code_injective(char_of(v), c);
            assert(char_of(v) == c);
            assert(u.skip(6) =~= tail_input);
        } else {
            assert(u[0] == c);
            assert(u.skip(1) =~= tail_input);
        }
    }
}

/// A serialized string parses back to the string, whatever comes after.
proof fn lemma_parse_ser_string(s: Seq<char>, rest: Seq<char>)
    ensures
        parse_string(ser_string(s) + rest) == Some((s, rest)),
{
    let u = ser_string(s) + rest;
    assert(u[0] == '"');
    assert(u.skip(1) =~= escape_chars(s) + seq!['"'] + rest);
    lemma_parse_escaped(s, rest);
}

/// A serialized pair, after any whitespace, parses back to the pair.
proof fn lemma_parse_ser_pair(pre: Seq<char>, k: Seq<char>, val: Seq<char>, rest: Seq<char>)
    requires
        forall|i: int| 0 <= i < pre.len() ==> is_ws(#[trigger] pre[i]),
    ensures
        parse_pair(pre + ser_string(k) + seq![':'] + seq![' '] + ser_string(val) + rest) == Some(
            ((k, val), rest),
        ),
{
    let u = pre + ser_string(k) + seq![':'] + seq![' '] + ser_string(val) + rest;
    let after_k = seq![':'] + seq![' '] + ser_string(val) + rest;
    assert(u =~= pre + (ser_string(k) + after_k));
    lemma_skip_ws_all_ws(pre, ser_string(k) + after_k);
    assert((ser_string(k) + after_k)[0] == '"');
    lemma_parse_ser_string(k, after_k);
    assert(after_k[0] == ':');
    assert(after_k.skip(1) =~= seq![' '] + (ser_string(val) + rest));
    lemma_skip_ws_all_ws(seq![' '], ser_string(val) + rest);
    assert((ser_string(val) + rest)[0] == '"');
    lemma_parse_ser_string(val, rest);
}

/// A serialized entry, after any whitespace, parses back to the entry.
#[verifier::rlimit(100)]
proof fn lemma_parse_ser_entry(pre: Seq<char>, e: (Seq<char>, Seq<char>), rest: Seq<char>)
    requires
        forall|i: int| 0 <= i < pre.len() ==> is_ws(#[trigger] pre[i]),
    ensures
        parse_entry(pre + ser_entry(e) + rest) == Some((e, rest)),
{
    let u = pre + ser_entry(e) + rest;
    let p1_text = ser_string(key_label()) + seq![':'] + seq![' '] + ser_string(e.0);
    let p2_text = ser_string(key_command()) + seq![':'] + seq![' '] + ser_string(e.1);
    let rest1 = seq![','] + ws_field_break() + p2_text + ws_entry_close() + seq!['}'] + rest;
    let rest2 = ws_entry_close() + seq!['}'] + rest;
    let body = ws_field_break() + p1_text + rest1;
    let pre_full = pre + ws_entry_indent();
    assert(u =~= pre_full + (seq!['{'] + body));
    lemma_skip_ws_all_ws(pre_full, seq!['{'] + body);
    let s1 = skip_ws(u);
    assert(s1 == seq!['{'] + body);
    assert(s1[0] == '{');
    assert(s1.skip(1) =~= body);
    assert(body =~= ws_field_break() + ser_string(key_label()) + seq![':'] + seq![' ']
        + ser_string(e.0) + rest1);
    lemma_parse_ser_pair(ws_field_break(), key_label(), e.0, rest1);
    assert(parse_pair(body) == Some(((key_label(), e.0), rest1)));
    assert(rest1[0] == ',');
    assert(rest1.skip(1) =~= ws_field_break() + ser_string(key_command()) + seq![':'] + seq![' ']
        + ser_string(e.1) + rest2);
    lemma_parse_ser_pair(ws_field_break(), key_command(), e.1, rest2);
    assert(parse_pair(rest1.skip(1)) == Some(((key_command(), e.1), rest2)));
    assert(rest2 =~= ws_entry_close() + (seq!['}'] + rest));
    lemma_skip_ws_all_ws(ws_entry_close(), seq!['}'] + rest);
    assert(skip_ws(rest2) == seq!['}'] + rest);
    assert((seq!['}'] + rest)[0] == '}');
    assert((seq!['}'] + rest).skip(1) =~= rest);
    assert(entry_of_pairs((key_label(), e.0), (key_command(), e.1)) == Some((e.0, e.1)));
    assert((e.0, e.1) == e);
}

/// The text that follows the first serialized entry of a list: for each
/// further entry, the separator and the entry.
spec fn sep_entries(es: Seq<(Seq<char>, Seq<char>)>) -> Seq<char>
    decreases es.len(),
{
    if es.len() == 0 {
        Seq::empty()
    } else {
        seq![',', '\n'] + ser_entry(es[0]) + sep_entries(es.skip(1))
    }
}

/// A non-empty serialized list is its first entry followed by the separated
/// rest.
proof fn lemma_ser_entries_decomp(es: Seq<(Seq<char>, Seq<char>)>)
    requires
        es.len() >= 1,
    ensures
        ser_entries(es) == ser_entry(es[0]) + sep_entries(es.skip(1)),
    decreases es.len(),
{
    if es.len() == 1 {
        assert(es.skip(1).len() == 0);
        assert(ser_entry(es[0]) + sep_entries(es.skip(1)) =~= ser_entry(es[0]));
    } else {
        lemma_ser_entries_decomp(es.skip(1));
        assert(sep_entries(es.skip(1)) =~= seq![',', '\n'] + ser_entries(es.skip(1)));
        assert(ser_entries(es) =~= ser_entry(es[0]) + sep_entries(es.skip(1)));
    }
}

/// The separated entries and the list's closing bracket parse back to those
/// entries.
#[verifier::rlimit(100)]
proof fn lemma_parse_sep_entries(es: Seq<(Seq<char>, Seq<char>)>, rest: Seq<char>)
    ensures
        parse_entries_rest(sep_entries(es) + seq!['\n', ' ', ' '] + seq![']'] + rest) == Some(
            (es, rest),
        ),
    decreases es.len(),
{
    let u = sep_entries(es) + seq!['\n', ' ', ' '] + seq![']'] + rest;
    if es.len() == 0 {
        assert(u =~= seq!['\n', ' ', ' '] + (seq![']'] + rest));
        lemma_skip_ws_all_ws(seq!['\n', ' ', ' '], seq![']'] + rest);
        assert((seq![']'] + rest)[0] == ']');
        assert((seq![']'] + rest).skip(1) =~= rest);
        assert(es =~= Seq::<(Seq<char>, Seq<char>)>::empty());
    } else {
        let tail = sep_entries(es.skip(1)) + seq!['\n', ' ', ' '] + seq![']'] + rest;
        assert(u =~= seq![','] + (seq!['\n'] + ser_entry(es[0]) + tail));
        assert(u[0] == ',');
        assert(u.skip(1) =~= seq!['\n'] + ser_entry(es[0]) + tail);
        lemma_parse_ser_entry(seq!['\n'], es[0], tail);
        lemma_parse_sep_entries(es.skip(1), rest);
        assert(seq![es[0]] + es.skip(1) =~= es);
    }
}

/// A non-empty serialized entry list, from just after the opening bracket
/// through the closing one, parses back to the whole list.
proof fn lemma_parse_ser_entries(es: Seq<(Seq<char>, Seq<char>)>, rest: Seq<char>)
    requires
        es.len() >= 1,
    ensures
        parse_entries(seq!['\n'] + ser_entries(es) + seq!['\n', ' ', ' '] + seq![']'] + rest)
            == Some((es, rest)),
{
    let u = seq!['\n'] + ser_entries(es) + seq!['\n', ' ', ' '] + seq![']'] + rest;
    lemma_ser_entries_decomp(es);
    let tail = sep_entries(es.skip(1)) + seq!['\n', ' ', ' '] + seq![']'] + rest;
    assert(u =~= seq!['\n'] + (ser_entry(es[0]) + tail));
    lemma_skip_ws_all_ws(seq!['\n'], ser_entry(es[0]) + tail);
    assert(ser_entry(es[0]) + tail =~= ws_entry_indent() + (ser_entry_core(es[0]) + tail));
    lemma_skip_ws_all_ws(ws_entry_indent(), ser_entry_core(es[0]) + tail);
    assert((ser_entry_core(es[0]) + tail)[0] == '{');
    assert(skip_ws(u) == ser_entry_core(es[0]) + tail);
    lemma_parse_ser_entry(seq!['\n'], es[0], tail);
    assert(u =~= seq!['\n'] + ser_entry(es[0]) + tail);
    assert(parse_entry(u) == Some((es[0], tail)));
    lemma_parse_sep_entries(es.skip(1), rest);
    assert(seq![es[0]] + es.skip(1) =~= es);
}

/// A serialized configuration document parses back to exactly its command
/// list.
#[verifier::rlimit(100)]
pub proof fn lemma_parse_ser_config(es: Seq<(Seq<char>, Seq<char>)>)
    ensures
        spec_parse_config(ser_config(es)) == Some(es),
{
    let u = ser_config(es);
    assert(u[0] == '{');
    assert(skip_ws(u) == u);
    if es.len() == 0 {
        let after_key = seq![':'] + seq![' '] + seq!['[', ']', '\n', '}'];
        assert(u.skip(1) =~= ws_top_break() + (ser_string(key_commands()) + after_key));
        lemma_skip_ws_all_ws(ws_top_break(), ser_string(key_commands()) + after_key);
        assert((ser_string(key_commands()) + after_key)[0] == '"');
        lemma_parse_ser_string(key_commands(), after_key);
        assert(after_key[0] == ':');
        assert(after_key.skip(1) =~= seq![' '] + seq!['[', ']', '\n', '}']);
        lemma_skip_ws_all_ws(seq![' '], seq!['[', ']', '\n', '}']);
        assert(skip_ws(after_key.skip(1)) =~= seq!['[', ']', '\n', '}']);
        let r3 = skip_ws(after_key.skip(1));
        assert(r3[0] == '[');
        assert(r3.skip(1) =~= seq![']', '\n', '}']);
        assert(r3.skip(1)[0] == ']');
        assert(skip_ws(r3.skip(1)) == r3.skip(1));
        assert(parse_entries(r3.skip(1)) == Some(
            (Seq::<(Seq<char>, Seq<char>)>::empty(), r3.skip(1).skip(1)),
        ));
        assert(r3.skip(1).skip(1) =~= seq!['\n', '}']);
        assert(seq!['\n', '}'] =~= seq!['\n'] + seq!['}']);
        lemma_skip_ws_all_ws(seq!['\n'], seq!['}']);
        assert(skip_ws(seq!['\n', '}']) == seq!['}']);
        assert(seq!['}'].skip(1) =~= Seq::<char>::empty());
        assert(skip_ws(Seq::<char>::empty()).len() == 0);
        assert(es =~= Seq::<(Seq<char>, Seq<char>)>::empty());
    } else {
        let list_text = seq!['\n'] + ser_entries(es) + seq!['\n', ' ', ' '] + seq![']'] + seq![
            '\n',
            '}',
        ];
        let after_key = seq![':'] + seq![' '] + (seq!['['] + list_text);
        assert(u.skip(1) =~= ws_top_break() + (ser_string(key_commands()) + after_key));
        lemma_skip_ws_all_ws(ws_top_break(), ser_string(key_commands()) + after_key);
        assert((ser_string(key_commands()) + after_key)[0] == '"');
        lemma_parse_ser_string(key_commands(), after_key);
        assert(after_key[0] == ':');
        assert(after_key.skip(1) =~= seq![' '] + (seq!['['] + list_text));
        lemma_skip_ws_all_ws(seq![' '], seq!['['] + list_text);
        let r3 = skip_ws(after_key.skip(1));
        assert(r3 == seq!['['] + list_text);
        assert(r3[0] == '[');
        assert(r3.skip(1) =~= list_text);
        lemma_parse_ser_entries(es, seq!['\n', '}']);
        assert(parse_entries(list_text) == Some((es, seq!['\n', '}'])));
        assert(seq!['\n', '}'] =~= seq!['\n'] + seq!['}']);
        lemma_skip_ws_all_ws(seq!['\n'], seq!['}']);
        assert(skip_ws(seq!['\n', '}']) == seq!['}']);
        assert(seq!['}'].skip(1) =~= Seq::<char>::empty());
        assert(skip_ws(Seq::<char>::empty()).len() == 0);
    }
}

} // verus!

//! The persisted form of a task store: a pretty-printed JSON array of
//! `{ "name": ..., "done": ... }` records, with a verified encoder and a
//! verified strict parser. A file that does not match this shape parses
//! to nothing, which the loader treats as an empty store.
use crate::store::Task;
use crate::store::TaskManager;
use crate::text;
use vstd::prelude::*;

verus! {

/// The lower-case hexadecimal digit for `d`.
pub open spec fn hex_digit(d: nat) -> char {
    if d < 10 {
        ((0x30 + d) as u8) as char
    } else {
        ((0x57 + d) as u8) as char
    }
}

/// The JSON escaping of one character of a string value: quote and
/// backslash get a backslash escape, other control characters a `\u00XX`
/// escape, and every other character stands as itself.
pub open spec fn escape_char(c: char) -> Seq<char> {
    if c == '"' {
        seq!['\\', '"']
    } else if c == '\\' {
        seq!['\\', '\\']
    } else if (c as u32) < 0x20 {
        seq![
            '\\',
            'u',
            '0',
            '0',
            hex_digit(((c as u32) / 16) as nat),
            hex_digit(((c as u32) % 16) as nat),
        ]
    } else {
        seq![c]
    }
}

/// The body of a JSON string value: each character escaped, without the
/// surrounding quotes.
pub open spec fn encode_string(s: Seq<char>) -> Seq<char>
    decreases s.len(),
{
    if s.len() == 0 {
        Seq::empty()
    } else {
        escape_char(s[0]) + encode_string(s.drop_first())
    }
}

/// The JSON literal for a boolean.
pub open spec fn bool_lit(b: bool) -> Seq<char> {
    if b {
        seq!['t', 'r', 'u', 'e']
    } else {
        seq!['f', 'a', 'l', 's', 'e']
    }
}

/// One task record: `{ "name": "...", "done": ... }`.
pub open spec fn encode_task(t: (Seq<char>, bool)) -> Seq<char> {
    seq!['{', ' ', '"', 'n', 'a', 'm', 'e', '"', ':', ' ', '"'] + encode_string(t.0) + seq![
        '"',
        ',',
        ' ',
        '"',
        'd',
        'o',
        'n',
        'e',
        '"',
        ':',
        ' ',
    ] + bool_lit(t.1) + seq![' ', '}']
}

/// The lines of a non-empty array body: each record indented by two
/// spaces, records separated by commas, a final newline before `]`.
pub open spec fn encode_items(ts: Seq<(Seq<char>, bool)>) -> Seq<char>
    decreases ts.len(),
{
    if ts.len() == 0 {
        Seq::empty()
    } else {
        seq![' ', ' '] + encode_task(ts[0]) + (if ts.len() == 1 {
            seq!['\n']
        } else {
            seq![',', '\n'] + encode_items(ts.drop_first())
        })
    }
}

/// The whole persisted file for a store: `[]` when empty, else the
/// records between `[` and `]`, one per line.
pub open spec fn encode_tasks(ts: Seq<(Seq<char>, bool)>) -> Seq<char> {
    if ts.len() == 0 {
        seq!['[', ']']
    } else {
        seq!['[', '\n'] + encode_items(ts) + seq![']']
    }
}

/// The views of a sequence of tasks, in order.
pub open spec fn views_of(tasks: Seq<Task>) -> Seq<(Seq<char>, bool)> {
    tasks.map_values(|t: Task| t@)
}

/// JSON insignificant whitespace.
pub open spec fn is_ws(c: char) -> bool {
    c == ' ' || c == '\n' || c == '\t' || c == '\r'
}

/// The first position at or after `i` that does not hold whitespace.
pub open spec fn skip_ws(s: Seq<char>, i: int) -> int
    decreases s.len() - i,
{
    if 0 <= i < s.len() && is_ws(s[i]) {
        skip_ws(s, i + 1)
    } else {
        i
    }
}

/// A hexadecimal digit, either case.
pub open spec fn is_hex(c: char) -> bool {
    (0x30 <= c as u32 <= 0x39) || (0x61 <= c as u32 <= 0x66) || (0x41 <= c as u32 <= 0x46)
}

/// The value of a hexadecimal digit.
pub open spec fn hex_val(c: char) -> nat {
    if 0x30 <= c as u32 <= 0x39 {
        ((c as u32) - 0x30) as nat
    } else if 0x61 <= c as u32 <= 0x66 {
        ((c as u32) - 0x57) as nat
    } else {
        ((c as u32) - 0x37) as nat
    }
}

/// The character stood for by a single-letter escape, if any.
pub open spec fn unescape(e: char) -> Option<char> {
    if e == '"' {
        Some('"')
    } else if e == '\\' {
        Some('\\')
    } else if e == '/' {
        Some('/')
    } else if e == 'n' {
        Some('\n')
    } else if e == 't' {
        Some('\t')
    } else if e == 'r' {
        Some('\r')
    } else if e == 'b' {
        Some('\u{8}')
    } else if e == 'f' {
        Some('\u{c}')
    } else {
        None
    }
}

/// Parses the body of a JSON string value starting at `i` (just after the
/// opening quote), up to and including the closing quote. Yields the
/// unescaped characters and the position after the closing quote. An
/// unterminated string, an unknown escape, or a raw control character
/// yields nothing.
pub open spec fn parse_string_body(s: Seq<char>, i: int) -> Option<(Seq<char>, int)>
    decreases s.len() - i,
{
    if !(0 <= i < s.len()) {
        None
    } else if s[i] == '"' {
        Some((Seq::empty(), i + 1))
    } else if s[i] == '\\' {
        if i + 1 < s.len() && s[i + 1] == 'u' {
            if i + 6 <= s.len() && s[i + 2] == '0' && s[i + 3] == '0' && is_hex(s[i + 4]) && is_hex(
                s[i + 5],
            ) {
                let c = ((16 * hex_val(s[i + 4]) + hex_val(s[i + 5])) as u8) as char;
                match parse_string_body(s, i + 6) {
                    Some((rest, k)) => Some((seq![c] + rest, k)),
                    None => None,
                }
            } else {
                None
            }
        } else if i + 1 < s.len() {
            match unescape(s[i + 1]) {
                Some(c) => match parse_string_body(s, i + 2) {
                    Some((rest, k)) => Some((seq![c] + rest, k)),
                    None => None,
                },
                None => None,
            }
        } else {
            None
        }
    } else if (s[i] as u32) < 0x20 {
        None
    } else {
        match parse_string_body(s, i + 1) {
            Some((rest, k)) => Some((seq![s[i]] + rest, k)),
            None => None,
        }
    }
}

/// Parses a JSON boolean literal at `i`.
pub open spec fn parse_bool(s: Seq<char>, i: int) -> Option<(bool, int)> {
    if 0 <= i && i + 4 <= s.len() && s[i] == 't' && s[i + 1] == 'r' && s[i + 2] == 'u' && s[i + 3]
        == 'e' {
        Some((true, i + 4))
    } else if 0 <= i && i + 5 <= s.len() && s[i] == 'f' && s[i + 1] == 'a' && s[i + 2] == 'l' && s[i
        + 3] == 's' && s[i + 4] == 'e' {
        Some((false, i + 5))
    } else {
        None
    }
}

/// Parses one task record at `i` (whitespace allowed before and between
/// tokens): exactly a `name` string field and then a `done` boolean field.
/// Yields the pair and the position after the closing brace.
pub open spec fn parse_task(s: Seq<char>, i: int) -> Option<((Seq<char>, bool), int)> {
    if !(0 <= i <= s.len()) {
        None
    } else {
        let a = skip_ws(s, i);
        if !(a < s.len() && s[a] == '{') {
            None
        } else {
            let b = skip_ws(s, a + 1);
            if !(b + 6 <= s.len() && s[b] == '"' && s[b + 1] == 'n' && s[b + 2] == 'a' && s[b + 3]
                == 'm' && s[b + 4] == 'e' && s[b + 5] == '"') {
                None
            } else {
                let c = skip_ws(s, b + 6);
                if !(c < s.len() && s[c] == ':') {
                    None
                } else {
                    let d = skip_ws(s, c + 1);
                    if !(d < s.len() && s[d] == '"') {
                        None
                    } else {
                        match parse_string_body(s, d + 1) {
                            None => None,
                            Some((name, e)) => {
                                let f = skip_ws(s, e);
                                if !(f < s.len() && s[f] == ',') {
                                    None
                                } else {
                                    let g = skip_ws(s, f + 1);
                                    if !(g + 6 <= s.len() && s[g] == '"' && s[g + 1] == 'd' && s[g
                                        + 2] == 'o' && s[g + 3] == 'n' && s[g + 4] == 'e' && s[g
                                        + 5] == '"') {
                                        None
                                    } else {
                                        let h = skip_ws(s, g + 6);
                                        if !(h < s.len() && s[h] == ':') {
                                            None
                                        } else {
                                            match parse_bool(s, skip_ws(s, h + 1)) {
                                                None => None,
                                                Some((done, j)) => {
                                                    let k = skip_ws(s, j);
                                                    if !(k < s.len() && s[k] == '}') {
                                                        None
                                                    } else {
                                                        Some(((name, done), k + 1))
                                                    }
                                                },
                                            }
                                        }
                                    }
                                }
                            },
                        }
                    }
                }
            }
        }
    }
}

proof fn lemma_skip_ws_bounds(s: Seq<char>, i: int)
    requires
        0 <= i <= s.len(),
    ensures
        i <= skip_ws(s, i) <= s.len(),
    decreases s.len() - i,
{
    if i < s.len() && is_ws(s[i]) {
        lemma_skip_ws_bounds(s, i + 1);
    }
}

proof fn lemma_parse_string_body_bounds(s: Seq<char>, i: int)
    ensures
        parse_string_body(s, i) matches Some((v, k)) ==> i < k <= s.len(),
    decreases s.len() - i,
{
    if 0 <= i < s.len() {
        if s[i] == '\\' {
            if i + 1 < s.len() && s[i + 1] == 'u' {
                if i + 6 <= s.len() {
                    lemma_parse_string_body_bounds(s, i + 6);
                }
            } else if i + 1 < s.len() {
                lemma_parse_string_body_bounds(s, i + 2);
            }
        } else {
            lemma_parse_string_body_bounds(s, i + 1);
        }
    }
}

proof fn lemma_parse_task_bounds(s: Seq<char>, i: int)
    ensures
        parse_task(s, i) matches Some((t, k)) ==> 0 <= i < k <= s.len(),
{
    if parse_task(s, i) is Some {
        let a = skip_ws(s, i);
        lemma_skip_ws_bounds(s, i);
        let b = skip_ws(s, a + 1);
        lemma_skip_ws_bounds(s, a + 1);
        let c = skip_ws(s, b + 6);
        lemma_skip_ws_bounds(s, b + 6);
        let d = skip_ws(s, c + 1);
        lemma_skip_ws_bounds(s, c + 1);
        lemma_parse_string_body_bounds(s, d + 1);
        let (name, e) = parse_string_body(s, d + 1)->Some_0;
        let f = skip_ws(s, e);
        lemma_skip_ws_bounds(s, e);
        let g = skip_ws(s, f + 1);
        lemma_skip_ws_bounds(s, f + 1);
        let h = skip_ws(s, g + 6);
        lemma_skip_ws_bounds(s, g + 6);
        lemma_skip_ws_bounds(s, h + 1);
        let (done, j) = parse_bool(s, skip_ws(s, h + 1))->Some_0;
        lemma_skip_ws_bounds(s, j);
    }
}

/// Parses the records of a non-empty array, starting just after `[` or
/// just after a separating comma, up to and including the closing `]`.
pub open spec fn parse_items(s: Seq<char>, i: int) -> Option<(Seq<(Seq<char>, bool)>, int)>
    decreases s.len() - i,
    via parse_items_decreases
{
    match parse_task(s, i) {
        None => None,
        Some((t, j)) => {
            let k = skip_ws(s, j);
            if k < s.len() && s[k] == ']' {
                Some((seq![t], k + 1))
            } else if k < s.len() && s[k] == ',' {
                match parse_items(s, k + 1) {
                    Some((rest, m)) => Some((seq![t] + rest, m)),
                    None => None,
                }
            } else {
                None
            }
        },
    }
}

#[via_fn]
proof fn parse_items_decreases(s: Seq<char>, i: int) {
    lemma_parse_task_bounds(s, i);
    match parse_task(s, i) {
        Some((t, j)) => {
            lemma_skip_ws_bounds(s, j);
        },
        None => {},
    }
}

/// Parses a whole file: optional whitespace, a JSON array of task
/// records, optional whitespace, end of input. Anything else yields
/// nothing.
pub open spec fn parse_tasks(s: Seq<char>) -> Option<Seq<(Seq<char>, bool)>> {
    let i = skip_ws(s, 0);
    if i < s.len() && s[i] == '[' {
        let j = skip_ws(s, i + 1);
        if j < s.len() && s[j] == ']' {
            if skip_ws(s, j + 1) == s.len() {
                Some(Seq::empty())
            } else {
                None
            }
        } else {
            match parse_items(s, i + 1) {
                Some((ts, k)) => if skip_ws(s, k) == s.len() {
                    Some(ts)
                } else {
                    None
                },
                None => None,
            }
        }
    } else {
        None
    }
}

/// What loading file text `s` yields: the parsed records, or an empty
/// store when `s` does not parse as an array of task records.
pub open spec fn loaded_tasks(s: Seq<char>) -> Seq<(Seq<char>, bool)> {
    match parse_tasks(s) {
        Some(ts) => ts,
        None => Seq::empty(),
    }
}

fn hex_digit_x(d: u32) -> (c: char)
    requires
        d < 16,
    ensures
        c == hex_digit(d as nat),
{
    if d < 10 {
        ((0x30 + d) as u8) as char
    } else {
        ((0x57 + d) as u8) as char
    }
}

fn escape_char_x(c: char) -> (r: Vec<char>)
    ensures
        r@ == escape_char(c),
{
    let mut r: Vec<char> = Vec::new();
    if c == '"' {
        r.push('\\');
        r.push('"');
    } else if c == '\\' {
        r.push('\\');
        r.push('\\');
    } else if (c as u32) < 0x20 {
        r.push('\\');
        r.push('u');
        r.push('0');
        r.push('0');
        r.push(hex_digit_x((c as u32) / 16));
        r.push(hex_digit_x((c as u32) % 16));
    } else {
        r.push(c);
    }
    proof {
        assert(r@ =~= escape_char(c));
    }
    r
}

fn encode_string_x(name: &Vec<char>, i: usize) -> (r: Vec<char>)
    requires
        i <= name@.len(),
    ensures
        r@ == encode_string(name@.skip(i as int)),
    decreases name@.len() - i,
{
    if i == name.len() {
        let r: Vec<char> = Vec::new();
        proof {
            assert(name@.skip(i as int) =~= Seq::<char>::empty());
        }
        r
    } else {
        let mut r = escape_char_x(name[i]);
        let mut rest = encode_string_x(name, i + 1);
        r.append(&mut rest);
        proof {
            let tail = name@.skip(i as int);
            assert(tail[0] == name@[i as int]);
            assert(tail.drop_first() =~= name@.skip(i as int + 1));
            assert(r@ =~= encode_string(name@.skip(i as int)));
        }
        r
    }
}

#[verifier::rlimit(50)]
fn encode_task_x(name: &Vec<char>, done: bool) -> (r: Vec<char>)
    ensures
        r@ == encode_task((name@, done)),
{
    let mut r: Vec<char> = Vec::new();
    r.push('{');
    r.push(' ');
    r.push('"');
    r.push('n');
    r.push('a');
    r.push('m');
    r.push('e');
    r.push('"');
    r.push(':');
    r.push(' ');
    r.push('"');
    let mut body = encode_string_x(name, 0);
    r.append(&mut body);
    r.push('"');
    r.push(',');
    r.push(' ');
    r.push('"');
    r.push('d');
    r.push('o');
    r.push('n');
    r.push('e');
    r.push('"');
    r.push(':');
    r.push(' ');
    if done {
        r.push('t');
        r.push('r');
        r.push('u');
        r.push('e');
    } else {
        r.push('f');
        r.push('a');
        r.push('l');
        r.push('s');
        r.push('e');
    }
    r.push(' ');
    r.push('}');
    proof {
        assert(name@.skip(0) =~= name@);
        assert(r@ =~= encode_task((name@, done)));
    }
    r
}

fn encode_items_x(tasks: &Vec<Task>, i: usize) -> (r: Vec<char>)
    requires
        i <= tasks@.len(),
    ensures
        r@ == encode_items(views_of(tasks@).skip(i as int)),
    decreases tasks@.len() - i,
{
    if i == tasks.len() {
        let r: Vec<char> = Vec::new();
        proof {
            assert(views_of(tasks@).skip(i as int) =~= Seq::<(Seq<char>, bool)>::empty());
        }
        r
    } else {
        let name_chars = text::str_to_chars(tasks[i].name.as_str());
        let mut r: Vec<char> = Vec::new();
        r.push(' ');
        r.push(' ');
        let mut item = encode_task_x(&name_chars, tasks[i].done);
        r.append(&mut item);
        if i + 1 == tasks.len() {
            r.push('\n');
        } else {
            r.push(',');
            r.push('\n');
            let mut rest = encode_items_x(tasks, i + 1);
            r.append(&mut rest);
        }
        proof {
            let vs = views_of(tasks@);
            let tail = vs.skip(i as int);
            assert(tail[0] == vs[i as int]);
            assert(vs[i as int] == tasks@[i as int]@);
            assert(tail.drop_first() =~= vs.skip(i as int + 1));
            assert(r@ =~= encode_items(vs.skip(i as int)));
        }
        r
    }
}

proof fn lemma_char_cast_round(c: char)
    requires
        (c as u32) < 0x20,
    ensures
        (((c as u32) as u8) as char) == c,
{
}

proof fn lemma_hex_digit_val(d: nat)
    requires
        d < 16,
    ensures
        is_hex(hex_digit(d)),
        hex_val(hex_digit(d)) == d,
{
}

/// Parsing a string body at the position right after the opening quote
/// recovers exactly the characters that were encoded, and stops right
/// after the closing quote.
proof fn lemma_parse_encoded_string(s: Seq<char>, pre: Seq<char>, name: Seq<char>, rest: Seq<char>)
    requires
        s == pre + encode_string(name) + seq!['"'] + rest,
    ensures
        parse_string_body(s, pre.len() as int) == Some(
            (name, (pre.len() + encode_string(name).len() + 1) as int),
        ),
    decreases name.len(),
{
    let i = pre.len() as int;
    if name.len() == 0 {
        assert(encode_string(name) =~= Seq::<char>::empty());
        assert(s[i] == '"');
        assert(name =~= Seq::<char>::empty());
    } else {
        let c = name[0];
        let tail = name.drop_first();
        assert(encode_string(name) == escape_char(c) + encode_string(tail));
        let pre2 = pre + escape_char(c);
        assert(s =~= pre2 + encode_string(tail) + seq!['"'] + rest);
        lemma_parse_encoded_string(s, pre2, tail, rest);
        let e = encode_string(name).len() as int;
        if c == '"' {
            assert(s[i] == '\\' && s[i + 1] == '"');
            assert(parse_string_body(s, i) == Some((seq![c] + tail, i + e + 1)));
        } else if c == '\\' {
            assert(s[i] == '\\' && s[i + 1] == '\\');
            assert(parse_string_body(s, i) == Some((seq![c] + tail, i + e + 1)));
        } else if (c as u32) < 0x20 {
            let hi = ((c as u32) / 16) as nat;
            let lo = ((c as u32) % 16) as nat;
            lemma_hex_digit_val(hi);
            lemma_hex_digit_val(lo);
            assert(s[i] == '\\' && s[i + 1] == 'u' && s[i + 2] == '0' && s[i + 3] == '0');
            assert(s[i + 4] == hex_digit(hi) && s[i + 5] == hex_digit(lo));
            assert(16 * hex_val(s[i + 4]) + hex_val(s[i + 5]) == c as u32);
            lemma_char_cast_round(c);
            assert(((c as u32) as u8) as char == c);
            assert((16 * hex_val(s[i + 4]) + hex_val(s[i + 5])) as u8 == (c as u32) as u8);
            assert(((16 * hex_val(s[i + 4]) + hex_val(s[i + 5])) as u8) as char == c);
            assert(parse_string_body(s, i) == Some((seq![c] + tail, i + e + 1)));
        } else {
            assert(s[i] == c);
            assert(parse_string_body(s, i) == Some((seq![c] + tail, i + e + 1)));
        }
        assert(seq![c] + tail =~= name);
    }
}

/// Parsing a record at a position from which the whitespace skip lands on
/// an encoded record consumes exactly that record and recovers its pair.
#[verifier::rlimit(100)]
proof fn lemma_parse_encoded_task(
    s: Seq<char>,
    i: int,
    pre: Seq<char>,
    t: (Seq<char>, bool),
    rest: Seq<char>,
)
    requires
        0 <= i <= s.len(),
        skip_ws(s, i) == pre.len(),
        s == pre + encode_task(t) + rest,
    ensures
        parse_task(s, i) == Some((t, (pre.len() + encode_task(t).len()) as int)),
{
    let p = pre.len() as int;
    let e0 = encode_task(t);
    let enc = encode_string(t.0);
    let en = enc.len() as int;
    let bl = bool_lit(t.1).len() as int;
    let l1 = seq!['{', ' ', '"', 'n', 'a', 'm', 'e', '"', ':', ' ', '"'];
    let l2 = seq!['"', ',', ' ', '"', 'd', 'o', 'n', 'e', '"', ':', ' '];
    let l3 = seq![' ', '}'];
    assert(e0 == l1 + enc + l2 + bool_lit(t.1) + l3);
    assert(e0.len() == 24 + en + bl);
    assert forall|j: int| 0 <= j < e0.len() implies s[p + j] == #[trigger] e0[j] by {
        assert(s[p + j] == (pre + e0 + rest)[p + j]);
    }
    // the record opener and the name key
    assert(e0[0] == '{' && e0[1] == ' ' && e0[2] == '"' && e0[3] == 'n' && e0[4] == 'a' && e0[5]
        == 'm' && e0[6] == 'e' && e0[7] == '"' && e0[8] == ':' && e0[9] == ' ' && e0[10] == '"');
    assert(s[p] == '{');
    assert(skip_ws(s, p + 2) == p + 2);
    assert(skip_ws(s, p + 1) == p + 2);
    assert(skip_ws(s, p + 8) == p + 8);
    assert(skip_ws(s, p + 10) == p + 10);
    assert(skip_ws(s, p + 9) == p + 10);
    // the name's string value
    let pre2 = pre + l1;
    let rest2 = seq![',', ' ', '"', 'd', 'o', 'n', 'e', '"', ':', ' '] + bool_lit(t.1) + l3 + rest;
    assert(s =~= pre2 + enc + seq!['"'] + rest2);
    lemma_parse_encoded_string(s, pre2, t.0, rest2);
    let q = p + 12 + en;
    assert(parse_string_body(s, p + 11) == Some((t.0, q)));
    // the done key and value
    assert(e0[12 + en] == ',' && e0[13 + en] == ' ' && e0[14 + en] == '"' && e0[15 + en] == 'd'
        && e0[16 + en] == 'o' && e0[17 + en] == 'n' && e0[18 + en] == 'e' && e0[19 + en] == '"'
        && e0[20 + en] == ':' && e0[21 + en] == ' ');
    assert(skip_ws(s, q) == q);
    assert(skip_ws(s, q + 2) == q + 2);
    assert(skip_ws(s, q + 1) == q + 2);
    assert(skip_ws(s, q + 8) == q + 8);
    assert(e0[22 + en] == bool_lit(t.1)[0]);
    assert(skip_ws(s, q + 10) == q + 10);
    assert(skip_ws(s, q + 9) == q + 10);
    if t.1 {
        assert(e0[22 + en] == 't' && e0[23 + en] == 'r' && e0[24 + en] == 'u' && e0[25 + en]
            == 'e');
        assert(parse_bool(s, q + 10) == Some((true, q + 10 + bl)));
    } else {
        assert(e0[22 + en] == 'f' && e0[23 + en] == 'a' && e0[24 + en] == 'l' && e0[25 + en] == 's'
            && e0[26 + en] == 'e');
        assert(s[q + 10] != 't');
        assert(parse_bool(s, q + 10) == Some((false, q + 10 + bl)));
    }
    // the record closer
    assert(e0[22 + en + bl] == ' ' && e0[23 + en + bl] == '}');
    assert(skip_ws(s, q + 11 + bl) == q + 11 + bl);
    assert(skip_ws(s, q + 10 + bl) == q + 11 + bl);
    assert(parse_task(s, i) == Some(((t.0, t.1), q + 12 + bl)));
    assert(t == (t.0, t.1));
}

/// Parsing the records of a non-empty encoded array body consumes them
/// all, up to and including the closing bracket.
#[verifier::rlimit(100)]
proof fn lemma_parse_encoded_items(
    s: Seq<char>,
    pre: Seq<char>,
    ts: Seq<(Seq<char>, bool)>,
    rest: Seq<char>,
)
    requires
        ts.len() >= 1,
        s == pre + seq!['\n'] + encode_items(ts) + seq![']'] + rest,
    ensures
        parse_items(s, pre.len() as int) == Some(
            (ts, (pre.len() + 1 + encode_items(ts).len() + 1) as int),
        ),
    decreases ts.len(),
{
    let i = pre.len() as int;
    let e0 = encode_task(ts[0]);
    let ei = encode_items(ts);
    assert(s[i] == '\n');
    assert(ei[0] == ' ' && ei[1] == ' ');
    assert(e0[0] == '{');
    assert(ei[2] == e0[0]);
    assert(s[i + 1] == ' ' && s[i + 2] == ' ' && s[i + 3] == '{');
    assert(skip_ws(s, i + 3) == i + 3);
    assert(skip_ws(s, i + 2) == i + 3);
    assert(skip_ws(s, i + 1) == i + 3);
    assert(skip_ws(s, i) == i + 3);
    let pre2 = pre + seq!['\n', ' ', ' '];
    let j = i + 3 + e0.len() as int;
    if ts.len() == 1 {
        let rest3 = seq!['\n'] + seq![']'] + rest;
        assert(ei =~= seq![' ', ' '] + e0 + seq!['\n']);
        assert(s =~= pre2 + e0 + rest3);
        lemma_parse_encoded_task(s, i, pre2, ts[0], rest3);
        assert(parse_task(s, i) == Some((ts[0], j)));
        assert(s[j] == '\n' && s[j + 1] == ']');
        assert(skip_ws(s, j + 1) == j + 1);
        assert(skip_ws(s, j) == j + 1);
        assert(seq![ts[0]] =~= ts);
        assert(parse_items(s, i) == Some((ts, j + 2)));
    } else {
        let tail = ts.drop_first();
        let ei2 = encode_items(tail);
        assert(ei =~= seq![' ', ' '] + e0 + (seq![',', '\n'] + ei2));
        let rest3 = seq![','] + seq!['\n'] + ei2 + seq![']'] + rest;
        assert(s =~= pre2 + e0 + rest3);
        lemma_parse_encoded_task(s, i, pre2, ts[0], rest3);
        assert(parse_task(s, i) == Some((ts[0], j)));
        assert(s[j] == ',');
        assert(skip_ws(s, j) == j);
        let pre3 = pre2 + e0 + seq![','];
        assert(pre3.len() == j + 1);
        assert(s =~= pre3 + seq!['\n'] + ei2 + seq![']'] + rest);
        lemma_parse_encoded_items(s, pre3, tail, rest);
        let m = j + 1 + 1 + ei2.len() as int + 1;
        assert(parse_items(s, j + 1) == Some((tail, m)));
        assert(seq![ts[0]] + tail =~= ts);
        assert(parse_items(s, i) == Some((ts, m)));
        assert(m == i + 1 + ei.len() + 1);
    }
}

/// Text that does not parse as an array of task records — missing, cut
/// short, malformed, or of the wrong shape — loads as the empty store
/// rather than as an error or a partial store.
pub proof fn lemma_invalid_text_loads_empty(s: Seq<char>)
    ensures
        parse_tasks(s) is None ==> loaded_tasks(s) == Seq::<(Seq<char>, bool)>::empty(),
{
}

/// Round trip: the persisted text of any store parses back to exactly the
/// same ordered sequence of `(name, done)` pairs, so loading what was
/// saved reproduces the store, for any store including the empty one.
pub proof fn lemma_json_round_trip(ts: Seq<(Seq<char>, bool)>)
    ensures
        parse_tasks(encode_tasks(ts)) == Some(ts),
        loaded_tasks(encode_tasks(ts)) == ts,
{
    let s = encode_tasks(ts);
    if ts.len() == 0 {
        assert(s == seq!['[', ']']);
        assert(skip_ws(s, 0) == 0);
        assert(skip_ws(s, 1) == 1);
        assert(skip_ws(s, 2) == 2);
        assert(ts =~= Seq::<(Seq<char>, bool)>::empty());
        assert(parse_tasks(s) == Some(ts));
    } else {
        let ei = encode_items(ts);
        let e0 = encode_task(ts[0]);
        assert(s == seq!['[', '\n'] + ei + seq![']']);
        assert(s[0] == '[');
        assert(skip_ws(s, 0) == 0);
        assert(ei[0] == ' ' && ei[1] == ' ');
        assert(e0[0] == '{');
        assert(ei[2] == e0[0]);
        assert(s[1] == '\n' && s[2] == ' ' && s[3] == ' ' && s[4] == '{');
        assert(skip_ws(s, 4) == 4);
        assert(skip_ws(s, 3) == 4);
        assert(skip_ws(s, 2) == 4);
        assert(skip_ws(s, 1) == 4);
        assert(s =~= seq!['['] + seq!['\n'] + ei + seq![']'] + Seq::<char>::empty());
        lemma_parse_encoded_items(s, seq!['['], ts, Seq::empty());
        assert(parse_items(s, 1) == Some((ts, s.len() as int)));
        assert(skip_ws(s, s.len() as int) == s.len());
        assert(parse_tasks(s) == Some(ts));
    }
}

/// The views of a sequence of parsed `(characters, done)` pairs.
pub open spec fn pairs_view(ps: Seq<(Vec<char>, bool)>) -> Seq<(Seq<char>, bool)> {
    ps.map_values(|p: (Vec<char>, bool)| (p.0@, p.1))
}

fn is_ws_x(c: char) -> (b: bool)
    ensures
        b == is_ws(c),
{
    c == ' ' || c == '\n' || c == '\t' || c == '\r'
}

fn skip_ws_x(s: &Vec<char>, i: usize) -> (r: usize)
    requires
        i <= s@.len(),
    ensures
        r as int == skip_ws(s@, i as int),
        i <= r <= s@.len(),
    decreases s@.len() - i,
{
    if i < s.len() && is_ws_x(s[i]) {
        skip_ws_x(s, i + 1)
    } else {
        i
    }
}

fn is_hex_x(c: char) -> (b: bool)
    ensures
        b == is_hex(c),
{
    let u = c as u32;
    (0x30 <= u && u <= 0x39) || (0x61 <= u && u <= 0x66) || (0x41 <= u && u <= 0x46)
}

fn hex_val_x(c: char) -> (r: u32)
    requires
        is_hex(c),
    ensures
        r == hex_val(c),
        r < 16,
{
    let u = c as u32;
    if 0x30 <= u && u <= 0x39 {
        u - 0x30
    } else if 0x61 <= u && u <= 0x66 {
        u - 0x57
    } else {
        u - 0x37
    }
}

fn unescape_x(e: char) -> (r: Option<char>)
    ensures
        r == unescape(e),
{
    if e == '"' {
        Some('"')
    } else if e == '\\' {
        Some('\\')
    } else if e == '/' {
        Some('/')
    } else if e == 'n' {
        Some('\n')
    } else if e == 't' {
        Some('\t')
    } else if e == 'r' {
        Some('\r')
    } else if e == 'b' {
        Some('\u{8}')
    } else if e == 'f' {
        Some('\u{c}')
    } else {
        None
    }
}

fn parse_string_body_x(s: &Vec<char>, i: usize) -> (r: Option<(Vec<char>, usize)>)
    requires
        i <= s@.len(),
    ensures
        (match r {
            Some((v, k)) => parse_string_body(s@, i as int) == Some((v@, k as int)) && k <= s@.len(),
            None => parse_string_body(s@, i as int) is None,
        }),
    decreases s@.len() - i,
{
    if !(i < s.len()) {
        None
    } else if s[i] == '"' {
        let v: Vec<char> = Vec::new();
        proof {
            assert(v@ =~= Seq::<char>::empty());
        }
        Some((v, i + 1))
    } else if s[i] == '\\' {
        if i + 1 < s.len() && s[i + 1] == 'u' {
            if s.len() - i >= 6 && s[i + 2] == '0' && s[i + 3] == '0' && is_hex_x(s[i + 4])
                && is_hex_x(s[i + 5]) {
                let c = ((16 * hex_val_x(s[i + 4]) + hex_val_x(s[i + 5])) as u8) as char;
                match parse_string_body_x(s, i + 6) {
                    Some((rest, k)) => {
                        let mut v = rest;
                        v.insert(0, c);
                        proof {
                            assert(v@ =~= seq![c] + v@.drop_first());
                        }
                        Some((v, k))
                    },
                    None => None,
                }
            } else {
                None
            }
        } else if i + 1 < s.len() {
            match unescape_x(s[i + 1]) {
                Some(c) => match parse_string_body_x(s, i + 2) {
                    Some((rest, k)) => {
                        let mut v = rest;
                        v.insert(0, c);
                        proof {
                            assert(v@ =~= seq![c] + v@.drop_first());
                        }
                        Some((v, k))
                    },
                    None => None,
                },
                None => None,
            }
        } else {
            None
        }
    } else if (s[i] as u32) < 0x20 {
        None
    } else {
        let c = s[i];
        match parse_string_body_x(s, i + 1) {
            Some((rest, k)) => {
                let mut v = rest;
                v.insert(0, c);
                proof {
                    assert(v@ =~= seq![c] + v@.drop_first());
                }
                Some((v, k))
            },
            None => None,
        }
    }
}

fn parse_bool_x(s: &Vec<char>, i: usize) -> (r: Option<(bool, usize)>)
    requires
        i <= s@.len(),
    ensures
        (match r {
            Some((b, k)) => parse_bool(s@, i as int) == Some((b, k as int)) && k <= s@.len(),
            None => parse_bool(s@, i as int) is None,
        }),
{
    if s.len() - i >= 4 && s[i] == 't' && s[i + 1] == 'r' && s[i + 2] == 'u' && s[i + 3] == 'e' {
        Some((true, i + 4))
    } else if s.len() - i >= 5 && s[i] == 'f' && s[i + 1] == 'a' && s[i + 2] == 'l' && s[i + 3]
        == 's' && s[i + 4] == 'e' {
        Some((false, i + 5))
    } else {
        None
    }
}

#[verifier::rlimit(50)]
fn parse_task_x(s: &Vec<char>, i: usize) -> (r: Option<((Vec<char>, bool), usize)>)
    requires
        i <= s@.len(),
    ensures
        (match r {
            Some(((name, done), k)) => parse_task(s@, i as int) == Some(
                ((name@, done), k as int),
            ) && k <= s@.len(),
            None => parse_task(s@, i as int) is None,
        }),
{
    let a = skip_ws_x(s, i);
    if !(a < s.len() && s[a] == '{') {
        return None;
    }
    let b = skip_ws_x(s, a + 1);
    if !(s.len() - b >= 6 && s[b] == '"' && s[b + 1] == 'n' && s[b + 2] == 'a' && s[b + 3] == 'm'
        && s[b + 4] == 'e' && s[b + 5] == '"') {
        return None;
    }
    let c = skip_ws_x(s, b + 6);
    if !(c < s.len() && s[c] == ':') {
        return None;
    }
    let d = skip_ws_x(s, c + 1);
    if !(d < s.len() && s[d] == '"') {
        return None;
    }
    match parse_string_body_x(s, d + 1) {
        None => None,
        Some((name, e)) => {
            let f = skip_ws_x(s, e);
            if !(f < s.len() && s[f] == ',') {
                return None;
            }
            let g = skip_ws_x(s, f + 1);
            if !(s.len() - g >= 6 && s[g] == '"' && s[g + 1] == 'd' && s[g + 2] == 'o' && s[g + 3]
                == 'n' && s[g + 4] == 'e' && s[g + 5] == '"') {
                return None;
            }
            let h = skip_ws_x(s, g + 6);
            if !(h < s.len() && s[h] == ':') {
                return None;
            }
            let bpos = skip_ws_x(s, h + 1);
            match parse_bool_x(s, bpos) {
                None => None,
                Some((done, j)) => {
                    let k = skip_ws_x(s, j);
                    if !(k < s.len() && s[k] == '}') {
                        return None;
                    }
                    Some(((name, done), k + 1))
                },
            }
        },
    }
}

fn parse_items_x(s: &Vec<char>, i: usize) -> (r: Option<(Vec<(Vec<char>, bool)>, usize)>)
    requires
        i <= s@.len(),
    ensures
        (match r {
            Some((ps, k)) => parse_items(s@, i as int) == Some((pairs_view(ps@), k as int)) && k
                <= s@.len(),
            None => parse_items(s@, i as int) is None,
        }),
    decreases s@.len() - i,
{
    match parse_task_x(s, i) {
        None => None,
        Some((t, j)) => {
            proof {
                lemma_parse_task_bounds(s@, i as int);
            }
            let k = skip_ws_x(s, j);
            if k < s.len() && s[k] == ']' {
                let mut ps: Vec<(Vec<char>, bool)> = Vec::new();
                ps.push(t);
                proof {
                    assert(pairs_view(ps@) =~= seq![(ps@[0].0@, ps@[0].1)]);
                }
                Some((ps, k + 1))
            } else if k < s.len() && s[k] == ',' {
                match parse_items_x(s, k + 1) {
                    Some((rest, m)) => {
                        let ghost rest_snap = rest@;
                        let mut ps = rest;
                        ps.insert(0, t);
                        proof {
                            assert(pairs_view(ps@) =~= seq![(ps@[0].0@, ps@[0].1)] + pairs_view(
                                rest_snap,
                            ));
                        }
                        Some((ps, m))
                    },
                    None => None,
                }
            } else {
                None
            }
        },
    }
}

fn parse_tasks_x(s: &Vec<char>) -> (r: Option<Vec<(Vec<char>, bool)>>)
    ensures
        (match r {
            Some(ps) => parse_tasks(s@) == Some(pairs_view(ps@)),
            None => parse_tasks(s@) is None,
        }),
{
    let i = skip_ws_x(s, 0);
    if i < s.len() && s[i] == '[' {
        let j = skip_ws_x(s, i + 1);
        if j < s.len() && s[j] == ']' {
            if skip_ws_x(s, j + 1) == s.len() {
                let ps: Vec<(Vec<char>, bool)> = Vec::new();
                proof {
                    assert(pairs_view(ps@) =~= Seq::<(Seq<char>, bool)>::empty());
                }
                Some(ps)
            } else {
                None
            }
        } else {
            match parse_items_x(s, i + 1) {
                Some((ps, k)) => {
                    if skip_ws_x(s, k) == s.len() {
                        Some(ps)
                    } else {
                        None
                    }
                },
                None => None,
            }
        }
    } else {
        None
    }
}

impl TaskManager {
    /// Rebuilds a store from persisted JSON text; text that does not
    /// parse as an array of task records yields an empty store.
    pub fn from_json(s: &str) -> (r: TaskManager)
        ensures
            r@ == loaded_tasks(s@),
    {
        let chars = text::str_to_chars(s);
        match parse_tasks_x(&chars) {
            None => TaskManager::new(),
            Some(ps) => {
                let mut tasks: Vec<Task> = Vec::new();
                let mut i: usize = 0;
                while i < ps.len()
                    invariant
                        i <= ps@.len(),
                        views_of(tasks@) == pairs_view(ps@).take(i as int),
                    decreases ps@.len() - i,
                {
                    let p = &ps[i];
                    let name = text::chars_to_string(&p.0);
                    let done = p.1;
                    let ghost pre = tasks@;
                    let ghost nv = name@;
                    tasks.push(Task { name, done });
                    i = i + 1;
                    proof {
                        let n = i as int;
                        assert(views_of(pre).len() == pre.len());
                        assert(pairs_view(ps@).len() == ps@.len());
                        assert(pairs_view(ps@).take(n - 1).len() == n - 1);
                        assert(pre.len() == n - 1);
                        assert(tasks@.len() == n);
                        assert(nv == ps@[n - 1].0@);
                        assert(tasks@ == pre.push(tasks@.last()));
                        assert(tasks@.last()@ == (nv, done));
                        assert forall|j: int| 0 <= j < n implies views_of(tasks@)[j] == pairs_view(
                            ps@,
                        ).take(n)[j] by {
                            assert(views_of(tasks@)[j] == tasks@[j]@);
                            assert(pairs_view(ps@).take(n)[j] == (ps@[j].0@, ps@[j].1));
                            if j < n - 1 {
                                assert(tasks@[j] == pre[j]);
                                assert(views_of(pre)[j] == pairs_view(ps@).take(n - 1)[j]);
                            }
                        }
                        assert(views_of(tasks@) =~~= pairs_view(ps@).take(n));
                    }
                }
                proof {
                    assert(pairs_view(ps@).take(ps@.len() as int) =~~= pairs_view(ps@));
                }
                let r = TaskManager { tasks };
                proof {
                    assert(r@ =~= views_of(r.tasks@));
                }
                r
            },
        }
    }

    /// Serializes the store to its persisted JSON text.
    pub fn to_json(&self) -> (r: String)
        ensures
            r@ == encode_tasks(self@),
    {
        let mut out: Vec<char> = Vec::new();
        out.push('[');
        if self.tasks.len() == 0 {
            out.push(']');
        } else {
            out.push('\n');
            let mut body = encode_items_x(&self.tasks, 0);
            out.append(&mut body);
            out.push(']');
            proof {
                assert(views_of(self.tasks@).skip(0) =~= self@);
            }
        }
        proof {
            assert(out@ =~= encode_tasks(self@));
        }
        text::chars_to_string(&out)
    }
}

} // verus!

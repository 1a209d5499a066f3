//! The codec for the backing file: the task list as one pretty-printed array
//! of objects, each holding the fields `priority`, `title` and `is_completed`.
//! An empty or whitespace-only file stands for the empty list. The decoder
//! takes whitespace between tokens as it comes, the three fields of an object
//! in any order, and the standard string escapes; the encoder and decoder are
//! proved inverse.
use crate::lexer::{check_space, copy_range, digit_end, digit_of, digits_val, is_digit, is_space,
    lemma_digit_end, parse_digits, scan_digits};
use crate::tasks::{Task, TaskModel};
use crate::text::{chars_to_string, str_chars};
use vstd::prelude::*;

verus! {

/// The character of a decimal digit value.
pub open spec fn digit_char(d: int) -> char {
    if d == 0 {
        '0'
    } else if d == 1 {
        '1'
    } else if d == 2 {
        '2'
    } else if d == 3 {
        '3'
    } else if d == 4 {
        '4'
    } else if d == 5 {
        '5'
    } else if d == 6 {
        '6'
    } else if d == 7 {
        '7'
    } else if d == 8 {
        '8'
    } else {
        '9'
    }
}

/// The decimal representation of a non-negative number, most significant
/// digit first, no leading zeroes.
pub open spec fn dec_rep(n: int) -> Seq<char>
    decreases n,
{
    if n <= 9 {
        seq![digit_char(n)]
    } else {
        dec_rep(n / 10).push(digit_char(n % 10))
    }
}

/// The decimal representation of a signed machine number.
pub open spec fn int_rep(n: int) -> Seq<char> {
    if n < 0 {
        seq!['-'] + dec_rep(-n)
    } else {
        dec_rep(n)
    }
}

/// The character of a hexadecimal digit value, lower case.
pub open spec fn hex_digit_char(d: int) -> char {
    if d <= 9 {
        digit_char(d)
    } else if d == 10 {
        'a'
    } else if d == 11 {
        'b'
    } else if d == 12 {
        'c'
    } else if d == 13 {
        'd'
    } else if d == 14 {
        'e'
    } else {
        'f'
    }
}

/// How one character of a title is written inside a quoted JSON string: the
/// named escapes, a four-digit escape for any other control character, and
/// everything else verbatim.
pub open spec fn escape_char(c: char) -> Seq<char> {
    if c == '"' {
        seq!['\\', '"']
    } else if c == '\\' {
        seq!['\\', '\\']
    } else if c == '\n' {
        seq!['\\', 'n']
    } else if c == '\t' {
        seq!['\\', 't']
    } else if c == '\r' {
        seq!['\\', 'r']
    } else if c == '\u{0008}' {
        seq!['\\', 'b']
    } else if c == '\u{000C}' {
        seq!['\\', 'f']
    } else if (c as u32) < 32 {
        seq!['\\', 'u', '0', '0', hex_digit_char((c as u32 / 16) as int), hex_digit_char((c as u32 % 16) as int)]
    } else {
        seq![c]
    }
}

/// A title written inside a quoted JSON string, character by character.
pub open spec fn escape_text(s: Seq<char>) -> Seq<char>
    decreases s.len(),
{
    if s.len() == 0 {
        Seq::empty()
    } else {
        escape_char(s[0]) + escape_text(s.drop_first())
    }
}

/// One encoded task: the three fields, in this order, at this indentation.
pub open spec fn encode_task(t: TaskModel) -> Seq<char> {
    "  {\n    \"priority\": "@ + dec_rep(t.priority as int) + ",\n    \"title\": \""@
        + escape_text(t.title) + seq!['"'] + ",\n    \"is_completed\": "@ + (if t.is_completed {
        "true"@
    } else {
        "false"@
    }) + "\n  }"@
}

/// The encoded tasks, separated by a comma and a line break.
pub open spec fn encode_body(ts: Seq<TaskModel>) -> Seq<char>
    decreases ts.len(),
{
    if ts.len() == 0 {
        Seq::empty()
    } else if ts.len() == 1 {
        encode_task(ts[0])
    } else {
        encode_task(ts[0]) + ",\n"@ + encode_body(ts.drop_first())
    }
}

/// The whole backing file: an empty list is a bare empty array, any other
/// list is the bracketed, line-broken array of its encoded tasks.
pub open spec fn encode_spec(ts: Seq<TaskModel>) -> Seq<char> {
    if ts.len() == 0 {
        "[]"@
    } else {
        "[\n"@ + encode_body(ts) + "\n]"@
    }
}

fn digit_char_x(d: u8) -> (c: char)
    requires
        d <= 9,
    ensures
        c == digit_char(d as int),
{
    if d == 0 {
        '0'
    } else if d == 1 {
        '1'
    } else if d == 2 {
        '2'
    } else if d == 3 {
        '3'
    } else if d == 4 {
        '4'
    } else if d == 5 {
        '5'
    } else if d == 6 {
        '6'
    } else if d == 7 {
        '7'
    } else if d == 8 {
        '8'
    } else {
        '9'
    }
}

fn hex_digit_char_x(d: u8) -> (c: char)
    requires
        d <= 15,
    ensures
        c == hex_digit_char(d as int),
{
    if d <= 9 {
        digit_char_x(d)
    } else if d == 10 {
        'a'
    } else if d == 11 {
        'b'
    } else if d == 12 {
        'c'
    } else if d == 13 {
        'd'
    } else if d == 14 {
        'e'
    } else {
        'f'
    }
}

/// Appends the decimal representation of `n`.
pub(crate) fn push_dec(buf: &mut Vec<char>, n: u8)
    ensures
        final(buf)@ == old(buf)@ + dec_rep(n as int),
    decreases n,
{
    if n <= 9 {
        buf.push(digit_char_x(n));
        proof {
            assert(buf@ =~= old(buf)@ + dec_rep(n as int));
        }
    } else {
        push_dec(buf, n / 10);
        buf.push(digit_char_x(n % 10));
        proof {
            assert(buf@ =~= old(buf)@ + dec_rep(n as int));
        }
    }
}

pub(crate) fn push_lit(buf: &mut Vec<char>, lit: &str)
    ensures
        final(buf)@ == old(buf)@ + lit@,
{
    let mut v = str_chars(lit);
    buf.append(&mut v);
}

fn push_escaped(buf: &mut Vec<char>, title: &str)
    ensures
        final(buf)@ == old(buf)@ + escape_text(title@),
{
    let cs = str_chars(title);
    proof {
        assert(cs@.subrange(0, cs@.len() as int) =~= cs@);
    }
    let mut j: usize = 0;
    while j < cs.len()
        invariant
            j <= cs@.len(),
            cs@ == title@,
            buf@ + escape_text(cs@.subrange(j as int, cs@.len() as int)) == old(buf)@
                + escape_text(cs@),
        decreases cs@.len() - j,
    {
        let ghost before = buf@;
        let ghost suffix = cs@.subrange(j as int, cs@.len() as int);
        proof {
            assert(suffix[0] == cs@[j as int]);
            assert(suffix.drop_first() =~= cs@.subrange(j + 1 as int, cs@.len() as int));
        }
        let c = cs[j];
        if c == '"' {
            buf.push('\\');
            buf.push('"');
        } else if c == '\\' {
            buf.push('\\');
            buf.push('\\');
        } else if c == '\n' {
            buf.push('\\');
            buf.push('n');
        } else if c == '\t' {
            buf.push('\\');
            buf.push('t');
        } else if c == '\r' {
            buf.push('\\');
            buf.push('r');
        } else if c == '\u{0008}' {
            buf.push('\\');
            buf.push('b');
        } else if c == '\u{000C}' {
            buf.push('\\');
            buf.push('f');
        } else if (c as u32) < 32 {
            let u = c as u32;
            buf.push('\\');
            buf.push('u');
            buf.push('0');
            buf.push('0');
            buf.push(hex_digit_char_x((u / 16) as u8));
            buf.push(hex_digit_char_x((u % 16) as u8));
        } else {
            buf.push(c);
        }
        proof {
            assert(buf@ =~= before + escape_char(cs@[j as int]));
            assert(buf@ + escape_text(cs@.subrange(j + 1 as int, cs@.len() as int)) =~= before
                + escape_text(suffix));
        }
        j += 1;
    }
    proof {
        assert(cs@.subrange(cs@.len() as int, cs@.len() as int) =~= Seq::<char>::empty());
        assert(buf@ + Seq::<char>::empty() =~= buf@);
    }
}

fn push_task(buf: &mut Vec<char>, t: &Task)
    ensures
        final(buf)@ == old(buf)@ + encode_task(t@),
{
    push_lit(buf, "  {\n    \"priority\": ");
    push_dec(buf, t.priority);
    push_lit(buf, ",\n    \"title\": \"");
    push_escaped(buf, t.title.as_str());
    buf.push('"');
    push_lit(buf, ",\n    \"is_completed\": ");
    if t.is_completed {
        push_lit(buf, "true");
    } else {
        push_lit(buf, "false");
    }
    push_lit(buf, "\n  }");
    proof {
        assert(buf@ =~= old(buf)@ + encode_task(t@));
    }
}

/// Encodes the whole task list as the text of the backing file: exactly what
/// `encode_spec` says of it.
pub fn encode(tasks: &Vec<Task>) -> (s: String)
    ensures
        s@ == encode_spec(tasks.deep_view()),
{
    let mut buf: Vec<char> = Vec::new();
    if tasks.len() == 0 {
        push_lit(&mut buf, "[]");
        proof {
            assert(buf@ =~= encode_spec(tasks.deep_view()));
        }
        return chars_to_string(&buf);
    }
    push_lit(&mut buf, "[\n");
    let mut j: usize = 0;
    while j < tasks.len()
        invariant
            j <= tasks@.len(),
            tasks@.len() > 0,
            buf@ == "[\n"@ + encode_body(tasks.deep_view().subrange(0, j as int)) + (if 0 < j
                < tasks@.len() {
                ",\n"@
            } else {
                Seq::<char>::empty()
            }),
        decreases tasks@.len() - j,
    {
        let ghost ts = tasks.deep_view();
        let ghost before = buf@;
        push_task(&mut buf, &tasks[j]);
        if j + 1 < tasks.len() {
            push_lit(&mut buf, ",\n");
        }
        proof {
            lemma_encode_body_snoc(ts, j as int);
            if j + 1 < ts.len() {
                assert(buf@ =~= "[\n"@ + encode_body(ts.subrange(0, j + 1 as int)) + ",\n"@);
            } else {
                assert(buf@ =~= "[\n"@ + encode_body(ts.subrange(0, j + 1 as int)));
            }
        }
        j += 1;
    }
    push_lit(&mut buf, "\n]");
    proof {
        assert(tasks.deep_view().subrange(0, tasks.deep_view().len() as int) =~= tasks.deep_view());
        assert(buf@ =~= encode_spec(tasks.deep_view()));
    }
    chars_to_string(&buf)
}

/// The backing file could not be read as a task list.
#[derive(Debug, PartialEq, Eq, Structural, Clone, Copy)]
pub struct DecodeError {}

/// Consumes the given literal at position `i`, when it stands there.
pub open spec fn take_lit(s: Seq<char>, i: int, lit: Seq<char>) -> Option<int> {
    if 0 <= i && i + lit.len() <= s.len() && s.subrange(i, i + lit.len()) == lit {
        Some(i + lit.len())
    } else {
        None
    }
}

/// First position at or after `i` that does not continue a whitespace run.
pub open spec fn ws_end(s: Seq<char>, i: int) -> int
    decreases s.len() - i,
{
    if i < s.len() && is_space(s[i]) {
        ws_end(s, i + 1)
    } else {
        i
    }
}

pub proof fn lemma_ws_end(s: Seq<char>, i: int)
    requires
        i <= s.len(),
    ensures
        i <= ws_end(s, i) <= s.len(),
        forall|j: int| i <= j < ws_end(s, i) ==> is_space(s[j]),
        ws_end(s, i) < s.len() ==> !is_space(s[ws_end(s, i)]),
    decreases s.len() - i,
{
    if i < s.len() && is_space(s[i]) {
        lemma_ws_end(s, i + 1);
    }
}

/// What a backslash escape of one character stands for.
pub open spec fn unescape(c: char) -> Option<char> {
    if c == '"' {
        Some('"')
    } else if c == '\\' {
        Some('\\')
    } else if c == '/' {
        Some('/')
    } else if c == 'n' {
        Some('\n')
    } else if c == 't' {
        Some('\t')
    } else if c == 'r' {
        Some('\r')
    } else if c == 'b' {
        Some('\u{0008}')
    } else if c == 'f' {
        Some('\u{000C}')
    } else {
        None
    }
}

/// A hexadecimal digit of either case.
pub open spec fn is_hex_digit(c: char) -> bool {
    ('0' <= c && c <= '9') || ('a' <= c && c <= 'f') || ('A' <= c && c <= 'F')
}

/// The value of a hexadecimal digit character.
pub open spec fn hex_val_of(c: char) -> int {
    if '0' <= c && c <= '9' {
        c as u32 - 48
    } else if 'a' <= c && c <= 'f' {
        c as u32 - 87
    } else {
        c as u32 - 55
    }
}

/// The character with the given code point: what a four-digit escape stands
/// for.
pub open spec fn char_of_code(v: int) -> char {
    choose|c: char| (#[trigger] (c as u32)) == v
}

/// Each character is the one its own code point names.
proof fn lemma_char_of_code(c: char)
    ensures
        char_of_code(c as u32 as int) == c,
{
    let v = c as u32 as int;
    assert(c as u32 == v);
    assert(exists|x: char| (#[trigger] (x as u32)) == v);
    assert(char_of_code(v) as u32 == v);
}

/// Reads a quoted string's characters from `i` up to and over the closing
/// quote, undoing the escapes; an unterminated string, an unknown escape or a
/// four-digit escape naming a surrogate fails.
pub open spec fn parse_text(s: Seq<char>, i: int) -> Option<(Seq<char>, int)>
    decreases s.len() - i,
{
    if i < 0 || i >= s.len() {
        None
    } else if s[i] == '"' {
        Some((Seq::empty(), i + 1))
    } else if s[i] == '\\' {
        if i + 1 < s.len() && s[i + 1] == 'u' {
            if i + 6 <= s.len() && is_hex_digit(s[i + 2]) && is_hex_digit(s[i + 3]) && is_hex_digit(
                s[i + 4],
            ) && is_hex_digit(s[i + 5]) {
                let v = ((hex_val_of(s[i + 2]) * 16 + hex_val_of(s[i + 3])) * 16 + hex_val_of(
                    s[i + 4],
                )) * 16 + hex_val_of(s[i + 5]);
                if v < 0xD800 {
                    match parse_text(s, i + 6) {
                        Some(r) => Some((seq![char_of_code(v)] + r.0, r.1)),
                        None => None,
                    }
                } else {
                    None
                }
            } else {
                None
            }
        } else if i + 1 < s.len() {
            match unescape(s[i + 1]) {
                Some(c) => match parse_text(s, i + 2) {
                    Some(r) => Some((seq![c] + r.0, r.1)),
                    None => None,
                },
                None => None,
            }
        } else {
            None
        }
    } else {
        match parse_text(s, i + 1) {
            Some(r) => Some((seq![s[i]] + r.0, r.1)),
            None => None,
        }
    }
}

pub proof fn lemma_parse_text_bounds(s: Seq<char>, i: int)
    ensures
        parse_text(s, i) matches Some(r) ==> i < r.1 <= s.len(),
    decreases s.len() - i,
{
    if 0 <= i < s.len() {
        if s[i] == '"' {
        } else if s[i] == '\\' {
            if i + 1 < s.len() && s[i + 1] == 'u' {
                if i + 6 <= s.len() {
                    lemma_parse_text_bounds(s, i + 6);
                }
            } else if i + 1 < s.len() {
                lemma_parse_text_bounds(s, i + 2);
            }
        } else {
            lemma_parse_text_bounds(s, i + 1);
        }
    }
}

/// Reads a priority: a non-empty digit run whose value fits an unsigned
/// 8-bit number.
pub open spec fn parse_u8(s: Seq<char>, i: int) -> Option<(u8, int)> {
    if i < 0 {
        None
    } else {
        let e = digit_end(s, i);
        if e == i {
            None
        } else if digits_val(s.subrange(i, e)) <= 255 {
            Some((digits_val(s.subrange(i, e)) as u8, e))
        } else {
            None
        }
    }
}

/// Reads a completion flag.
pub open spec fn parse_bool(s: Seq<char>, i: int) -> Option<(bool, int)> {
    match take_lit(s, i, "true"@) {
        Some(j) => Some((true, j)),
        None => match take_lit(s, i, "false"@) {
            Some(j) => Some((false, j)),
            None => None,
        },
    }
}

/// The object once its closing brace is met: all three fields must have been
/// read, each exactly once.
pub open spec fn finish_obj(
    pr: Option<u8>,
    ti: Option<Seq<char>>,
    co: Option<bool>,
    end: int,
) -> Option<(TaskModel, int)> {
    match (pr, ti, co) {
        (Some(p), Some(t), Some(c)) => Some(
            (TaskModel { priority: p, title: t, is_completed: c }, end),
        ),
        _ => None,
    }
}

/// Consumes whitespace, a colon and whitespace: what stands between a field
/// name and its value.
pub open spec fn after_colon(s: Seq<char>, i: int) -> Option<int> {
    let j = ws_end(s, i);
    if j < s.len() && s[j] == ':' {
        Some(ws_end(s, j + 1))
    } else {
        None
    }
}

/// Reads an object's fields from a field name on: the three fields may come
/// in any order, each exactly once; an unknown, repeated or missing field
/// fails. `pr`, `ti` and `co` hold what was already read.
pub open spec fn parse_fields(
    s: Seq<char>,
    i: int,
    pr: Option<u8>,
    ti: Option<Seq<char>>,
    co: Option<bool>,
) -> Option<(TaskModel, int)>
    decreases s.len() - i, 1int,
    via parse_fields_decreases
{
    if pr is None && take_lit(s, i, "\"priority\""@) is Some {
        match after_colon(s, take_lit(s, i, "\"priority\""@)->0) {
            Some(k) => match parse_u8(s, k) {
                Some(v) => fields_tail(s, v.1, Some(v.0), ti, co),
                None => None,
            },
            None => None,
        }
    } else if ti is None && take_lit(s, i, "\"title\""@) is Some {
        match after_colon(s, take_lit(s, i, "\"title\""@)->0) {
            Some(k) => if k < s.len() && s[k] == '"' {
                match parse_text(s, k + 1) {
                    Some(t) => fields_tail(s, t.1, pr, Some(t.0), co),
                    None => None,
                }
            } else {
                None
            },
            None => None,
        }
    } else if co is None && take_lit(s, i, "\"is_completed\""@) is Some {
        match after_colon(s, take_lit(s, i, "\"is_completed\""@)->0) {
            Some(k) => match parse_bool(s, k) {
                Some(b) => fields_tail(s, b.1, pr, ti, Some(b.0)),
                None => None,
            },
            None => None,
        }
    } else {
        None
    }
}

/// After one field's value: a comma brings the next field, a closing brace
/// ends the object.
pub open spec fn fields_tail(
    s: Seq<char>,
    ve: int,
    pr: Option<u8>,
    ti: Option<Seq<char>>,
    co: Option<bool>,
) -> Option<(TaskModel, int)>
    decreases s.len() - ve, 0int,
    via fields_tail_decreases
{
    let m = ws_end(s, ve);
    if m < s.len() && s[m] == ',' {
        parse_fields(s, ws_end(s, m + 1), pr, ti, co)
    } else if m < s.len() && s[m] == '}' {
        finish_obj(pr, ti, co, m + 1)
    } else {
        None
    }
}

#[via_fn]
proof fn parse_fields_decreases(
    s: Seq<char>,
    i: int,
    pr: Option<u8>,
    ti: Option<Seq<char>>,
    co: Option<bool>,
) {
    if take_lit(s, i, "\"priority\""@) is Some {
        let j = take_lit(s, i, "\"priority\""@)->0;
        lemma_ws_end(s, j);
        let a = ws_end(s, j);
        if a < s.len() {
            lemma_ws_end(s, a + 1);
            lemma_digit_end(s, ws_end(s, a + 1));
        }
    }
    if take_lit(s, i, "\"title\""@) is Some {
        let j = take_lit(s, i, "\"title\""@)->0;
        lemma_ws_end(s, j);
        let a = ws_end(s, j);
        if a < s.len() {
            lemma_ws_end(s, a + 1);
            lemma_parse_text_bounds(s, ws_end(s, a + 1) + 1);
        }
    }
    if take_lit(s, i, "\"is_completed\""@) is Some {
        let j = take_lit(s, i, "\"is_completed\""@)->0;
        lemma_ws_end(s, j);
        let a = ws_end(s, j);
        if a < s.len() {
            lemma_ws_end(s, a + 1);
        }
    }
}

#[via_fn]
proof fn fields_tail_decreases(
    s: Seq<char>,
    ve: int,
    pr: Option<u8>,
    ti: Option<Seq<char>>,
    co: Option<bool>,
) {
    if ve <= s.len() {
        lemma_ws_end(s, ve);
        let m = ws_end(s, ve);
        if m + 1 <= s.len() {
            lemma_ws_end(s, m + 1);
        }
    }
}

proof fn lemma_parse_fields_bounds(
    s: Seq<char>,
    i: int,
    pr: Option<u8>,
    ti: Option<Seq<char>>,
    co: Option<bool>,
)
    ensures
        parse_fields(s, i, pr, ti, co) matches Some(r) ==> i <= r.1 <= s.len(),
    decreases s.len() - i, 1int,
{
    if pr is None && take_lit(s, i, "\"priority\""@) is Some {
        let j = take_lit(s, i, "\"priority\""@)->0;
        lemma_ws_end(s, j);
        let a = ws_end(s, j);
        if a < s.len() && s[a] == ':' {
            lemma_ws_end(s, a + 1);
            let k = ws_end(s, a + 1);
            lemma_digit_end(s, k);
            match parse_u8(s, k) {
                Some(v) => {
                    lemma_fields_tail_bounds(s, v.1, Some(v.0), ti, co);
                },
                None => {},
            }
        }
    } else if ti is None && take_lit(s, i, "\"title\""@) is Some {
        let j = take_lit(s, i, "\"title\""@)->0;
        lemma_ws_end(s, j);
        let a = ws_end(s, j);
        if a < s.len() && s[a] == ':' {
            lemma_ws_end(s, a + 1);
            let k = ws_end(s, a + 1);
            if k < s.len() && s[k] == '"' {
                lemma_parse_text_bounds(s, k + 1);
                match parse_text(s, k + 1) {
                    Some(t) => {
                        lemma_fields_tail_bounds(s, t.1, pr, Some(t.0), co);
                    },
                    None => {},
                }
            }
        }
    } else if co is None && take_lit(s, i, "\"is_completed\""@) is Some {
        let j = take_lit(s, i, "\"is_completed\""@)->0;
        lemma_ws_end(s, j);
        let a = ws_end(s, j);
        if a < s.len() && s[a] == ':' {
            lemma_ws_end(s, a + 1);
            let k = ws_end(s, a + 1);
            match parse_bool(s, k) {
                Some(b) => {
                    lemma_fields_tail_bounds(s, b.1, pr, ti, Some(b.0));
                },
                None => {},
            }
        }
    }
}

proof fn lemma_fields_tail_bounds(
    s: Seq<char>,
    ve: int,
    pr: Option<u8>,
    ti: Option<Seq<char>>,
    co: Option<bool>,
)
    ensures
        fields_tail(s, ve, pr, ti, co) matches Some(r) ==> ve <= r.1 <= s.len(),
    decreases s.len() - ve, 0int,
{
    if ve <= s.len() {
        lemma_ws_end(s, ve);
        let m = ws_end(s, ve);
        if m < s.len() && s[m] == ',' {
            lemma_ws_end(s, m + 1);
            lemma_parse_fields_bounds(s, ws_end(s, m + 1), pr, ti, co);
        }
    }
}

/// Reads one object: an opening brace, then its fields.
pub open spec fn parse_obj(s: Seq<char>, i: int) -> Option<(TaskModel, int)> {
    if 0 <= i && i < s.len() && s[i] == '{' {
        parse_fields(s, ws_end(s, i + 1), None, None, None)
    } else {
        None
    }
}

pub proof fn lemma_parse_obj_bounds(s: Seq<char>, i: int)
    ensures
        parse_obj(s, i) matches Some(t) ==> i < t.1 <= s.len(),
{
    if 0 <= i && i < s.len() && s[i] == '{' {
        lemma_ws_end(s, i + 1);
        lemma_parse_fields_bounds(s, ws_end(s, i + 1), None, None, None);
    }
}

/// Reads one or more objects, separated by commas, and stops at the first
/// position after them that holds neither a comma nor whitespace.
pub open spec fn parse_items(s: Seq<char>, i: int) -> Option<(Seq<TaskModel>, int)>
    decreases s.len() - i,
    via parse_items_decreases
{
    match parse_obj(s, i) {
        Some(t) => {
            let m = ws_end(s, t.1);
            if m < s.len() && s[m] == ',' {
                match parse_items(s, ws_end(s, m + 1)) {
                    Some(r) => Some((seq![t.0] + r.0, r.1)),
                    None => None,
                }
            } else {
                Some((seq![t.0], m))
            }
        },
        None => None,
    }
}

#[via_fn]
proof fn parse_items_decreases(s: Seq<char>, i: int) {
    lemma_parse_obj_bounds(s, i);
    if parse_obj(s, i) is Some {
        let t = parse_obj(s, i)->0;
        lemma_ws_end(s, t.1);
        let m = ws_end(s, t.1);
        if m + 1 <= s.len() {
            lemma_ws_end(s, m + 1);
        }
    }
}

pub proof fn lemma_parse_items_bounds(s: Seq<char>, i: int)
    ensures
        parse_items(s, i) matches Some(r) ==> i < r.1 <= s.len(),
    decreases s.len() - i,
{
    lemma_parse_obj_bounds(s, i);
    if parse_obj(s, i) is Some {
        let t = parse_obj(s, i)->0;
        lemma_ws_end(s, t.1);
        let m = ws_end(s, t.1);
        if m < s.len() && s[m] == ',' {
            lemma_ws_end(s, m + 1);
            lemma_parse_items_bounds(s, ws_end(s, m + 1));
        }
    }
}

/// What a backing file's text stands for: nothing but whitespace is the empty
/// list; otherwise a bracketed array of objects — whitespace between tokens
/// as it comes, fields in any order — read exactly to the end of the text.
pub open spec fn decode_spec(s: Seq<char>) -> Option<Seq<TaskModel>> {
    let i0 = ws_end(s, 0);
    if i0 == s.len() {
        Some(Seq::empty())
    } else if s[i0] != '[' {
        None
    } else {
        let i1 = ws_end(s, i0 + 1);
        if i1 < s.len() && s[i1] == ']' {
            if ws_end(s, i1 + 1) == s.len() {
                Some(Seq::empty())
            } else {
                None
            }
        } else {
            match parse_items(s, i1) {
                Some(r) => if r.1 < s.len() && s[r.1] == ']' && ws_end(s, r.1 + 1) == s.len() {
                    Some(r.0)
                } else {
                    None
                },
                None => None,
            }
        }
    }
}

fn scan_ws(s: &Vec<char>, start: usize) -> (e: usize)
    requires
        start <= s@.len(),
    ensures
        start <= e <= s@.len(),
        e == ws_end(s@, start as int),
{
    let mut j: usize = start;
    while j < s.len() && check_space(s[j])
        invariant
            start <= j <= s@.len(),
            ws_end(s@, start as int) == ws_end(s@, j as int),
        decreases s@.len() - j,
    {
        j += 1;
    }
    j
}

fn take_lit_x(s: &Vec<char>, i: usize, lit: &str) -> (r: Option<usize>)
    requires
        i <= s@.len(),
    ensures
        (match r {
            Some(j) => take_lit(s@, i as int, lit@) == Some(j as int) && i <= j <= s@.len(),
            None => take_lit(s@, i as int, lit@) is None,
        }),
{
    let lv = str_chars(lit);
    if lv.len() > s.len() - i {
        return None;
    }
    let mut m: usize = 0;
    while m < lv.len()
        invariant
            m <= lv@.len(),
            i + lv@.len() <= s@.len(),
            s@.len() <= usize::MAX,
            lv@ == lit@,
            forall|q: int| 0 <= q < m ==> s@[i + q] == lv@[q],
        decreases lv@.len() - m,
    {
        if s[i + m] != lv[m] {
            proof {
                assert(s@.subrange(i as int, i + lv@.len())[m as int] != lit@[m as int]);
            }
            return None;
        }
        m += 1;
    }
    proof {
        assert(s@.subrange(i as int, i + lv@.len()) =~= lit@);
    }
    Some(i + lv.len())
}

fn unescape_x(c: char) -> (r: Option<char>)
    ensures
        r == unescape(c),
{
    if c == '"' {
        Some('"')
    } else if c == '\\' {
        Some('\\')
    } else if c == '/' {
        Some('/')
    } else if c == 'n' {
        Some('\n')
    } else if c == 't' {
        Some('\t')
    } else if c == 'r' {
        Some('\r')
    } else if c == 'b' {
        Some('\u{0008}')
    } else if c == 'f' {
        Some('\u{000C}')
    } else {
        None
    }
}

fn check_hex(c: char) -> (r: bool)
    ensures
        r == is_hex_digit(c),
{
    ('0' <= c && c <= '9') || ('a' <= c && c <= 'f') || ('A' <= c && c <= 'F')
}

fn hex_val_x(c: char) -> (v: u8)
    requires
        is_hex_digit(c),
    ensures
        v as int == hex_val_of(c),
        v <= 15,
{
    let u = c as u32;
    if u >= 97 {
        (u - 87) as u8
    } else if u >= 65 {
        (u - 55) as u8
    } else {
        (u - 48) as u8
    }
}

/// Relies on char::from_u32: some character exactly for the valid code
/// points, which below the surrogate range is every value, and that character
/// carries the given code point.
#[verifier::external_body]
fn char_from(v: u32) -> (r: Option<char>)
    ensures
        r matches Some(c) ==> c as u32 == v,
        v < 0xD800 ==> r is Some,
{
    char::from_u32(v)
}

fn parse_text_x(s: &Vec<char>, start: usize) -> (r: Option<(Vec<char>, usize)>)
    requires
        start <= s@.len(),
    ensures
        (match r {
            Some(p) => parse_text(s@, start as int) == Some((p.0@, p.1 as int)) && p.1 <= s@.len(),
            None => parse_text(s@, start as int) is None,
        }),
{
    let mut acc: Vec<char> = Vec::new();
    let mut j: usize = start;
    proof {
        let pr = parse_text(s@, start as int);
        if pr is Some {
            assert(Seq::<char>::empty() + (pr->0).0 =~= (pr->0).0);
        }
        lemma_parse_text_bounds(s@, start as int);
    }
    loop
        invariant
            j <= s@.len(),
            (match parse_text(s@, j as int) {
                Some(r2) => parse_text(s@, start as int) == Some((acc@ + r2.0, r2.1)) && r2.1
                    <= s@.len(),
                None => parse_text(s@, start as int) is None,
            }),
        decreases s@.len() - j,
    {
        if j >= s.len() {
            return None;
        }
        let c = s[j];
        if c == '"' {
            proof {
                assert(acc@ + Seq::<char>::empty() =~= acc@);
            }
            return Some((acc, j + 1));
        } else if c == '\\' {
            if j + 1 >= s.len() {
                return None;
            }
            let c2 = s[j + 1];
            if c2 == 'u' {
                if s.len() - j < 6 {
                    return None;
                }
                let h2 = s[j + 2];
                let h3 = s[j + 3];
                let h4 = s[j + 4];
                let h5 = s[j + 5];
                if !(check_hex(h2) && check_hex(h3) && check_hex(h4) && check_hex(h5)) {
                    return None;
                }
                let v: u32 = ((hex_val_x(h2) as u32 * 16 + hex_val_x(h3) as u32) * 16 + hex_val_x(
                    h4,
                ) as u32) * 16 + hex_val_x(h5) as u32;
                if v >= 0xD800 {
                    return None;
                }
                let ch = match char_from(v) {
                    Some(c3) => c3,
                    None => {
                        return None;
                    },
                };
                let ghost before = acc@;
                acc.push(ch);
                proof {
                    lemma_char_of_code(ch);
                    assert(ch as u32 as int == v as int);
                    assert(char_of_code(v as int) == ch);
                    lemma_parse_text_bounds(s@, j + 6 as int);
                    let pr = parse_text(s@, j + 6 as int);
                    if pr is Some {
                        assert(before + (seq![ch] + (pr->0).0) =~= acc@ + (pr->0).0);
                    }
                }
                j += 6;
            } else {
                match unescape_x(c2) {
                    Some(ch) => {
                        let ghost before = acc@;
                        acc.push(ch);
                        proof {
                            lemma_parse_text_bounds(s@, j + 2 as int);
                            let pr = parse_text(s@, j + 2 as int);
                            if pr is Some {
                                assert(before + (seq![ch] + (pr->0).0) =~= acc@ + (pr->0).0);
                            }
                        }
                        j += 2;
                    },
                    None => {
                        return None;
                    },
                }
            }
        } else {
            let ghost before = acc@;
            acc.push(c);
            proof {
                lemma_parse_text_bounds(s@, j + 1 as int);
                let pr = parse_text(s@, j + 1 as int);
                if pr is Some {
                    assert(before + (seq![s@[j as int]] + (pr->0).0) =~= acc@ + (pr->0).0);
                }
            }
            j += 1;
        }
    }
}

fn parse_u8_x(s: &Vec<char>, i: usize) -> (r: Option<(u8, usize)>)
    requires
        i <= s@.len(),
    ensures
        (match r {
            Some(p) => parse_u8(s@, i as int) == Some((p.0, p.1 as int)) && p.1 <= s@.len(),
            None => parse_u8(s@, i as int) is None,
        }),
{
    let e = scan_digits(s, i);
    if e == i {
        return None;
    }
    let w = copy_range(s, i, e);
    proof {
        lemma_digit_end(s@, i as int);
    }
    match parse_digits(&w) {
        Some(v) => {
            if v <= 255 {
                Some((v as u8, e))
            } else {
                None
            }
        },
        None => None,
    }
}

fn parse_bool_x(s: &Vec<char>, i: usize) -> (r: Option<(bool, usize)>)
    requires
        i <= s@.len(),
    ensures
        (match r {
            Some(p) => parse_bool(s@, i as int) == Some((p.0, p.1 as int)) && p.1 <= s@.len(),
            None => parse_bool(s@, i as int) is None,
        }),
{
    match take_lit_x(s, i, "true") {
        Some(j) => Some((true, j)),
        None => match take_lit_x(s, i, "false") {
            Some(j) => Some((false, j)),
            None => None,
        },
    }
}

fn after_colon_x(s: &Vec<char>, i: usize) -> (r: Option<usize>)
    requires
        i <= s@.len(),
    ensures
        (match r {
            Some(k) => after_colon(s@, i as int) == Some(k as int) && k <= s@.len(),
            None => after_colon(s@, i as int) is None,
        }),
{
    let j = scan_ws(s, i);
    if j < s.len() && s[j] == ':' {
        Some(scan_ws(s, j + 1))
    } else {
        None
    }
}

spec fn title_view(t: Option<Vec<char>>) -> Option<Seq<char>> {
    match t {
        Some(v) => Some(v@),
        None => None,
    }
}

fn parse_fields_x(
    s: &Vec<char>,
    i: usize,
    pr: Option<u8>,
    ti: Option<Vec<char>>,
    co: Option<bool>,
) -> (r: Option<(Task, usize)>)
    requires
        i <= s@.len(),
    ensures
        (match r {
            Some(p) => parse_fields(s@, i as int, pr, title_view(ti), co) == Some(
                (p.0@, p.1 as int),
            ) && p.1 <= s@.len(),
            None => parse_fields(s@, i as int, pr, title_view(ti), co) is None,
        }),
    decreases s@.len() - i, 1int,
{
    if pr.is_none() {
        if let Some(j) = take_lit_x(s, i, "\"priority\"") {
            return match after_colon_x(s, j) {
                Some(k) => match parse_u8_x(s, k) {
                    Some((v, ve)) => {
                        proof {
                            lemma_ws_end(s@, j as int);
                            lemma_ws_end(s@, ws_end(s@, j as int) + 1);
                            lemma_digit_end(s@, k as int);
                        }
                        fields_tail_x(s, ve, Some(v), ti, co)
                    },
                    None => None,
                },
                None => None,
            };
        }
    }
    if ti.is_none() {
        if let Some(j) = take_lit_x(s, i, "\"title\"") {
            return match after_colon_x(s, j) {
                Some(k) => {
                    if k < s.len() && s[k] == '"' {
                        match parse_text_x(s, k + 1) {
                            Some((tv, ve)) => {
                                proof {
                                    lemma_ws_end(s@, j as int);
                                    lemma_ws_end(s@, ws_end(s@, j as int) + 1);
                                    lemma_parse_text_bounds(s@, k + 1 as int);
                                }
                                fields_tail_x(s, ve, pr, Some(tv), co)
                            },
                            None => None,
                        }
                    } else {
                        None
                    }
                },
                None => None,
            };
        }
    }
    if co.is_none() {
        if let Some(j) = take_lit_x(s, i, "\"is_completed\"") {
            return match after_colon_x(s, j) {
                Some(k) => match parse_bool_x(s, k) {
                    Some((b, ve)) => {
                        proof {
                            lemma_ws_end(s@, j as int);
                            lemma_ws_end(s@, ws_end(s@, j as int) + 1);
                        }
                        fields_tail_x(s, ve, pr, ti, Some(b))
                    },
                    None => None,
                },
                None => None,
            };
        }
    }
    None
}

fn fields_tail_x(
    s: &Vec<char>,
    ve: usize,
    pr: Option<u8>,
    ti: Option<Vec<char>>,
    co: Option<bool>,
) -> (r: Option<(Task, usize)>)
    requires
        ve <= s@.len(),
    ensures
        (match r {
            Some(p) => fields_tail(s@, ve as int, pr, title_view(ti), co) == Some(
                (p.0@, p.1 as int),
            ) && p.1 <= s@.len(),
            None => fields_tail(s@, ve as int, pr, title_view(ti), co) is None,
        }),
    decreases s@.len() - ve, 0int,
{
    let m = scan_ws(s, ve);
    if m < s.len() && s[m] == ',' {
        let next = scan_ws(s, m + 1);
        parse_fields_x(s, next, pr, ti, co)
    } else if m < s.len() && s[m] == '}' {
        match (pr, ti, co) {
            (Some(p), Some(tv), Some(c)) => {
                let title = chars_to_string(&tv);
                Some((Task { priority: p, title, is_completed: c }, m + 1))
            },
            _ => None,
        }
    } else {
        None
    }
}

fn parse_obj_x(s: &Vec<char>, i: usize) -> (r: Option<(Task, usize)>)
    requires
        i <= s@.len(),
    ensures
        (match r {
            Some(p) => parse_obj(s@, i as int) == Some((p.0@, p.1 as int)) && p.1 <= s@.len(),
            None => parse_obj(s@, i as int) is None,
        }),
{
    if i < s.len() && s[i] == '{' {
        let j = scan_ws(s, i + 1);
        parse_fields_x(s, j, None, None, None)
    } else {
        None
    }
}

fn parse_items_x(s: &Vec<char>, start: usize) -> (r: Option<(Vec<Task>, usize)>)
    requires
        start <= s@.len(),
    ensures
        (match r {
            Some(p) => parse_items(s@, start as int) == Some((p.0.deep_view(), p.1 as int)) && p.1
                <= s@.len(),
            None => parse_items(s@, start as int) is None,
        }),
{
    let mut acc: Vec<Task> = Vec::new();
    let mut j: usize = start;
    proof {
        let pr = parse_items(s@, start as int);
        if pr is Some {
            assert(Seq::<TaskModel>::empty() + (pr->0).0 =~= (pr->0).0);
            assert(acc.deep_view() =~= Seq::<TaskModel>::empty());
        }
        lemma_parse_items_bounds(s@, start as int);
    }
    loop
        invariant
            j <= s@.len(),
            (match parse_items(s@, j as int) {
                Some(r2) => parse_items(s@, start as int) == Some((acc.deep_view() + r2.0, r2.1))
                    && r2.1 <= s@.len(),
                None => parse_items(s@, start as int) is None,
            }),
        decreases s@.len() - j,
    {
        proof {
            lemma_parse_obj_bounds(s@, j as int);
        }
        let (t, j2) = match parse_obj_x(s, j) {
            Some(p) => p,
            None => {
                return None;
            },
        };
        let m = scan_ws(s, j2);
        let ghost before = acc.deep_view();
        if m < s.len() && s[m] == ',' {
            let next = scan_ws(s, m + 1);
            acc.push(t);
            proof {
                lemma_parse_items_bounds(s@, next as int);
                assert(acc.deep_view() =~= before.push(t@));
                let pr2 = parse_items(s@, next as int);
                if pr2 is Some {
                    assert(before + (seq![t@] + (pr2->0).0) =~= acc.deep_view() + (pr2->0).0);
                }
            }
            j = next;
        } else {
            acc.push(t);
            proof {
                assert(acc.deep_view() =~= before.push(t@));
                assert(before + seq![t@] =~= acc.deep_view());
            }
            return Some((acc, m));
        }
    }
}

/// Decodes the text of a backing file into its task list: exactly when and
/// what `decode_spec` says of it.
pub fn decode(s: &str) -> (r: Result<Vec<Task>, DecodeError>)
    ensures
        (match r {
            Ok(ts) => decode_spec(s@) == Some(ts.deep_view()),
            Err(_) => decode_spec(s@) is None,
        }),
{
    let cs = str_chars(s);
    let i0 = scan_ws(&cs, 0);
    if i0 == cs.len() {
        let v: Vec<Task> = Vec::new();
        proof {
            assert(v.deep_view() =~= Seq::<TaskModel>::empty());
        }
        return Ok(v);
    }
    if cs[i0] != '[' {
        return Err(DecodeError {});
    }
    let i1 = scan_ws(&cs, i0 + 1);
    if i1 < cs.len() && cs[i1] == ']' {
        if scan_ws(&cs, i1 + 1) == cs.len() {
            let v: Vec<Task> = Vec::new();
            proof {
                assert(v.deep_view() =~= Seq::<TaskModel>::empty());
            }
            Ok(v)
        } else {
            Err(DecodeError {})
        }
    } else {
        match parse_items_x(&cs, i1) {
            Some((tasks, m)) => {
                if m < cs.len() && cs[m] == ']' {
                    if scan_ws(&cs, m + 1) == cs.len() {
                        Ok(tasks)
                    } else {
                        Err(DecodeError {})
                    }
                } else {
                    Err(DecodeError {})
                }
            },
            None => Err(DecodeError {}),
        }
    }
}

/// Extending the encoded prefix by one task appends a separator first unless
/// the prefix was empty.
proof fn lemma_encode_body_snoc(ts: Seq<TaskModel>, j: int)
    requires
        0 <= j < ts.len(),
    ensures
        j == 0 ==> encode_body(ts.subrange(0, 1)) == encode_task(ts[0]),
        j > 0 ==> encode_body(ts.subrange(0, j + 1)) == encode_body(ts.subrange(0, j)) + ",\n"@
            + encode_task(ts[j]),
    decreases j,
{
    if j == 0 {
        assert(ts.subrange(0, 1).len() == 1);
        assert(ts.subrange(0, 1)[0] == ts[0]);
    } else {
        lemma_encode_body_snoc(ts.drop_first(), j - 1);
        let a = ts.subrange(0, j + 1);
        let b = ts.subrange(0, j);
        assert(a[0] == ts[0]);
        assert(a.drop_first() =~= ts.drop_first().subrange(0, j));
        assert(b.drop_first() =~= ts.drop_first().subrange(0, j - 1));
        if j == 1 {
            assert(encode_body(a) == encode_task(ts[0]) + ",\n"@ + encode_body(a.drop_first()));
            assert(encode_body(ts.drop_first().subrange(0, 1)) == encode_task(ts[1]));
            assert(encode_body(b) == encode_task(ts[0]));
        } else {
            assert(encode_body(a) == encode_task(ts[0]) + ",\n"@ + encode_body(a.drop_first()));
            assert(encode_body(b) == encode_task(ts[0]) + ",\n"@ + encode_body(b.drop_first()));
            assert(ts.drop_first()[j - 1] == ts[j]);
            assert(encode_body(a) =~= encode_body(b) + ",\n"@ + encode_task(ts[j]));
        }
    }
}

proof fn lemma_sub_at(s: Seq<char>, i: int, full: Seq<char>, a: int, b: int)
    requires
        0 <= i,
        i + full.len() <= s.len(),
        s.subrange(i, i + full.len()) == full,
        0 <= a <= b <= full.len(),
    ensures
        s.subrange(i + a, i + b) == full.subrange(a, b),
{
    assert forall|m: int| 0 <= m < b - a implies s[i + a + m] == #[trigger] full[a + m] by {
        assert(full[a + m] == s.subrange(i, i + full.len())[a + m]);
    }
    assert(s.subrange(i + a, i + b) =~= full.subrange(a, b));
}

proof fn lemma_digits_val_dec_rep(n: int)
    requires
        0 <= n,
    ensures
        dec_rep(n).len() >= 1,
        forall|m: int| 0 <= m < dec_rep(n).len() ==> is_digit(#[trigger] dec_rep(n)[m]),
        digits_val(dec_rep(n)) == n,
    decreases n,
{
    if n <= 9 {
        let w = seq![digit_char(n)];
        assert(w.drop_last() =~= Seq::<char>::empty());
        assert(digits_val(Seq::<char>::empty()) == 0);
        assert(digits_val(w) == digit_of(digit_char(n)));
    } else {
        lemma_digits_val_dec_rep(n / 10);
        let p = dec_rep(n / 10);
        let w = p.push(digit_char(n % 10));
        assert(w.drop_last() =~= p);
        assert(digits_val(w) == digits_val(p) * 10 + digit_of(digit_char(n % 10)));
        assert(n == n / 10 * 10 + n % 10);
    }
}

proof fn lemma_pin_digit_end(s: Seq<char>, i: int, k: int)
    requires
        0 <= i,
        0 <= k,
        i + k <= s.len(),
        forall|m: int| i <= m < i + k ==> is_digit(#[trigger] s[m]),
        i + k == s.len() || !is_digit(s[i + k]),
    ensures
        digit_end(s, i) == i + k,
    decreases k,
{
    if k > 0 {
        lemma_pin_digit_end(s, i + 1, k - 1);
    }
}

proof fn lemma_hex_digit_char(d: int)
    requires
        0 <= d <= 15,
    ensures
        is_hex_digit(hex_digit_char(d)),
        hex_val_of(hex_digit_char(d)) == d,
{
}

proof fn lemma_parse_text_pin(s: Seq<char>, i: int, t: Seq<char>)
    requires
        0 <= i,
        i + escape_text(t).len() + 1 <= s.len(),
        s.subrange(i, i + escape_text(t).len()) == escape_text(t),
        s[i + escape_text(t).len()] == '"',
    ensures
        parse_text(s, i) == Some((t, i + escape_text(t).len() + 1)),
    decreases t.len(),
{
    let et = escape_text(t);
    if t.len() == 0 {
        assert(et =~= Seq::<char>::empty());
        assert(s[i] == '"');
    } else {
        let c = t[0];
        let ec = escape_char(c);
        let rest = t.drop_first();
        let er = escape_text(rest);
        assert(et == ec + er);
        lemma_sub_at(s, i, et, ec.len() as int, et.len() as int);
        assert(et.subrange(ec.len() as int, et.len() as int) =~= er);
        assert(s[i + et.len()] == '"');
        lemma_parse_text_pin(s, i + ec.len(), rest);
        lemma_sub_at(s, i, et, 0, ec.len() as int);
        assert(et.subrange(0, ec.len() as int) =~= ec);
        assert(s[i] == s.subrange(i, i + ec.len())[0]);
        if c == '"' || c == '\\' || c == '\n' || c == '\t' || c == '\r' || c == '\u{0008}' || c
            == '\u{000C}' {
            assert(ec[0] == '\\' && ec[1] != 'u' && unescape(ec[1]) == Some(c));
            assert(s[i] == '\\');
            assert(s[i + 1] == s.subrange(i, i + ec.len())[1]);
            assert(s[i + 1] == ec[1]);
            assert(parse_text(s, i) == Some((seq![c] + rest, i + et.len() + 1)));
            assert(seq![c] + rest =~= t);
        } else if (c as u32) < 32 {
            let v = c as u32 as int;
            lemma_hex_digit_char(v / 16);
            lemma_hex_digit_char(v % 16);
            assert(ec[0] == '\\' && ec[1] == 'u' && ec[2] == '0' && ec[3] == '0');
            assert(ec[4] == hex_digit_char(v / 16));
            assert(ec[5] == hex_digit_char(v % 16));
            assert(s[i] == '\\');
            assert forall|q: int| 0 <= q < 6 implies s[i + q] == #[trigger] ec[q] by {
                assert(s[i + q] == s.subrange(i, i + ec.len())[q]);
            }
            assert(is_hex_digit(s[i + 2]) && is_hex_digit(s[i + 3]) && is_hex_digit(s[i + 4])
                && is_hex_digit(s[i + 5]));
            let v2 = ((hex_val_of(s[i + 2]) * 16 + hex_val_of(s[i + 3])) * 16 + hex_val_of(
                s[i + 4],
            )) * 16 + hex_val_of(s[i + 5]);
            assert(hex_val_of('0') == 0);
            assert(v2 == hex_val_of(s[i + 4]) * 16 + hex_val_of(s[i + 5]));
            assert(v == v / 16 * 16 + v % 16);
            assert(v2 == v);
            lemma_char_of_code(c);
            assert(char_of_code(v) == c);
            assert(parse_text(s, i) == Some((seq![c] + rest, i + et.len() + 1)));
            assert(seq![c] + rest =~= t);
        } else {
            assert(ec == seq![c]);
            assert(s[i] == c);
            assert(parse_text(s, i) == Some((seq![c] + rest, i + et.len() + 1)));
            assert(seq![c] + rest =~= t);
        }
    }
}

/// The canonical text has no whitespace run longer than five characters: a
/// helper that pins `ws_end` over a known run.
proof fn lemma_pin_ws_end(s: Seq<char>, i: int, k: int)
    requires
        0 <= i,
        0 <= k,
        i + k <= s.len(),
        forall|m: int| i <= m < i + k ==> is_space(#[trigger] s[m]),
        i + k == s.len() || !is_space(s[i + k]),
    ensures
        ws_end(s, i) == i + k,
    decreases k,
{
    if k > 0 {
        lemma_pin_ws_end(s, i + 1, k - 1);
    }
}

#[verifier::rlimit(100)]
proof fn lemma_parse_obj_pin(s: Seq<char>, a: int, t: TaskModel)
    requires
        0 <= a,
        a + encode_task(t).len() <= s.len(),
        s.subrange(a, a + encode_task(t).len()) == encode_task(t),
    ensures
        parse_obj(s, a + 2) == Some((t, a + encode_task(t).len())),
{
    reveal_strlit("  {\n    \"priority\": ");
    reveal_strlit(",\n    \"title\": \"");
    reveal_strlit(",\n    \"is_completed\": ");
    reveal_strlit("\n  }");
    reveal_strlit("true");
    reveal_strlit("false");
    reveal_strlit("\"priority\"");
    reveal_strlit("\"title\"");
    reveal_strlit("\"is_completed\"");
    let l1 = "  {\n    \"priority\": "@;
    let lt = ",\n    \"title\": \""@;
    let lc = ",\n    \"is_completed\": "@;
    let l4 = "\n  }"@;
    let d = dec_rep(t.priority as int);
    let e = escape_text(t.title);
    let b = if t.is_completed {
        "true"@
    } else {
        "false"@
    };
    let full = encode_task(t);
    lemma_digits_val_dec_rep(t.priority as int);
    let p1 = a + 20;
    let p2 = p1 + d.len();
    let p3 = p2 + 16;
    let p4 = p3 + e.len();
    let p5 = p4 + 1;
    let p6 = p5 + 22;
    let p7 = p6 + b.len();
    let p8 = p7 + l4.len();
    assert(full.len() == l1.len() + d.len() + lt.len() + e.len() + 1 + lc.len() + b.len()
        + l4.len());
    // the opening brace and the run of whitespace before the first field name
    lemma_sub_at(s, a, full, 0, 20);
    assert(full.subrange(0, 20) =~= l1);
    assert(s.subrange(a, a + 20) == l1);
    assert(s[a + 2] == s.subrange(a, a + 20)[2]);
    assert(s[a + 2] == '{');
    assert forall|m: int| a + 3 <= m < a + 8 implies is_space(#[trigger] s[m]) by {
        assert(s[m] == s.subrange(a, a + 20)[m - a]);
    }
    assert(s[a + 8] == s.subrange(a, a + 20)[8]);
    lemma_pin_ws_end(s, a + 3, 5);
    assert(ws_end(s, a + 3) == a + 8);
    // the priority field: its name, the colon, the digits
    lemma_sub_at(s, a, l1, 8, 18);
    assert(l1.subrange(8, 18) =~= "\"priority\""@);
    assert(take_lit(s, a + 8, "\"priority\""@) == Some(a + 18));
    assert(s[a + 18] == s.subrange(a, a + 20)[18]);
    assert(s[a + 19] == s.subrange(a, a + 20)[19]);
    lemma_pin_ws_end(s, a + 18, 0);
    lemma_sub_at(s, a, full, 20, p2 - a);
    assert(full.subrange(20, p2 - a) =~= d);
    assert(s.subrange(p1, p2) == d);
    assert(s[a + 20] == s.subrange(p1, p2)[0]);
    assert(is_digit(s[a + 20]));
    lemma_pin_ws_end(s, a + 19, 1);
    assert(after_colon(s, a + 18) == Some(p1));
    assert forall|m: int| p1 <= m < p2 implies is_digit(#[trigger] s[m]) by {
        assert(s[m] == s.subrange(p1, p2)[m - p1]);
    }
    lemma_sub_at(s, a, full, (p2 - a) as int, (p3 - a) as int);
    assert(full.subrange(p2 - a, p3 - a) =~= lt);
    assert(s.subrange(p2, p3) == lt);
    assert(s[p2] == s.subrange(p2, p3)[0]);
    assert(!is_digit(','));
    lemma_pin_digit_end(s, p1, d.len() as int);
    assert(parse_u8(s, p1) == Some((t.priority, p2)));
    // the separator, then the title field
    assert forall|m: int| p2 + 1 <= m < p2 + 6 implies is_space(#[trigger] s[m]) by {
        assert(s[m] == s.subrange(p2, p3)[m - p2]);
    }
    assert(s[p2 + 6] == s.subrange(p2, p3)[6]);
    lemma_pin_ws_end(s, p2, 0);
    lemma_pin_ws_end(s, p2 + 1, 5);
    lemma_sub_at(s, p2, lt, 6, 13);
    assert(lt.subrange(6, 13) =~= "\"title\""@);
    assert(take_lit(s, p2 + 6, "\"title\""@) == Some(p2 + 13));
    assert(s[p2 + 13] == s.subrange(p2, p3)[13]);
    assert(s[p2 + 14] == s.subrange(p2, p3)[14]);
    assert(s[p2 + 15] == s.subrange(p2, p3)[15]);
    lemma_pin_ws_end(s, p2 + 13, 0);
    lemma_pin_ws_end(s, p2 + 14, 1);
    assert(after_colon(s, p2 + 13) == Some(p2 + 15));
    assert(s[p2 + 15] == '"');
    lemma_sub_at(s, a, full, (p3 - a) as int, (p4 - a) as int);
    assert(full.subrange(p3 - a, p4 - a) =~= e);
    lemma_sub_at(s, a, full, (p4 - a) as int, (p5 - a) as int);
    assert(full.subrange(p4 - a, p5 - a) =~= seq!['"']);
    assert(s[p4] == s.subrange(p4, p5)[0]);
    assert(s[p4] == '"');
    lemma_parse_text_pin(s, p3, t.title);
    assert(parse_text(s, p3) == Some((t.title, p5)));
    // the separator, then the completion field
    lemma_sub_at(s, a, full, (p5 - a) as int, (p6 - a) as int);
    assert(full.subrange(p5 - a, p6 - a) =~= lc);
    assert(s.subrange(p5, p6) == lc);
    assert(s[p5] == s.subrange(p5, p6)[0]);
    assert forall|m: int| p5 + 1 <= m < p5 + 6 implies is_space(#[trigger] s[m]) by {
        assert(s[m] == s.subrange(p5, p6)[m - p5]);
    }
    assert(s[p5 + 6] == s.subrange(p5, p6)[6]);
    lemma_pin_ws_end(s, p5, 0);
    lemma_pin_ws_end(s, p5 + 1, 5);
    lemma_sub_at(s, p5, lc, 6, 20);
    assert(lc.subrange(6, 20) =~= "\"is_completed\""@);
    assert(take_lit(s, p5 + 6, "\"is_completed\""@) == Some(p5 + 20));
    assert(s[p5 + 20] == s.subrange(p5, p6)[20]);
    assert(s[p5 + 21] == s.subrange(p5, p6)[21]);
    lemma_sub_at(s, a, full, (p6 - a) as int, (p7 - a) as int);
    assert(full.subrange(p6 - a, p7 - a) =~= b);
    assert(s.subrange(p6, p7) == b);
    assert(s[p6] == s.subrange(p6, p7)[0]);
    lemma_pin_ws_end(s, p5 + 20, 0);
    lemma_pin_ws_end(s, p5 + 21, 1);
    assert(after_colon(s, p5 + 20) == Some(p6));
    if t.is_completed {
        assert(take_lit(s, p6, "true"@) == Some(p7));
        assert(parse_bool(s, p6) == Some((true, p7)));
    } else {
        assert(take_lit(s, p6, "true"@) is None) by {
            if p6 + 4 <= s.len() {
                assert(s[p6] == 'f');
                assert(s.subrange(p6, p6 + 4)[0] == 'f');
            }
        }
        assert(take_lit(s, p6, "false"@) == Some(p7));
        assert(parse_bool(s, p6) == Some((false, p7)));
    }
    // the closing brace after its run of whitespace
    lemma_sub_at(s, a, full, (p7 - a) as int, (p8 - a) as int);
    assert(full.subrange(p7 - a, p8 - a) =~= l4);
    assert(s.subrange(p7, p8) == l4);
    assert forall|m: int| p7 <= m < p7 + 3 implies is_space(#[trigger] s[m]) by {
        assert(s[m] == s.subrange(p7, p8)[m - p7]);
    }
    assert(s[p7 + 3] == s.subrange(p7, p8)[3]);
    lemma_pin_ws_end(s, p7, 3);
    assert(s[p7 + 3] == '}');
    assert(fields_tail(s, p7, Some(t.priority), Some(t.title), Some(t.is_completed)) == Some(
        (TaskModel { priority: t.priority, title: t.title, is_completed: t.is_completed }, p8),
    ));
    assert(TaskModel { priority: t.priority, title: t.title, is_completed: t.is_completed } =~= t);
    assert(fields_tail(s, p5, Some(t.priority), Some(t.title), None) == Some((t, p8)));
    assert(fields_tail(s, p2, Some(t.priority), None, None) == Some((t, p8)));
    assert(parse_fields(s, a + 8, None, None, None) == Some((t, p8)));
    assert(ws_end(s, a + 3) == a + 8);
    assert(parse_obj(s, a + 2) == Some((t, p8)));
}

/// The first characters of an encoded list are the indentation and the brace
/// of its first task.
proof fn lemma_body_head(ts: Seq<TaskModel>)
    requires
        ts.len() >= 1,
    ensures
        encode_body(ts).len() >= 3,
        encode_body(ts)[0] == ' ',
        encode_body(ts)[1] == ' ',
        encode_body(ts)[2] == '{',
{
    reveal_strlit("  {\n    \"priority\": ");
    let enc = encode_task(ts[0]);
    lemma_digits_val_dec_rep(ts[0].priority as int);
    assert(enc[0] == ' ' && enc[1] == ' ' && enc[2] == '{');
    if ts.len() == 1 {
    } else {
        assert(encode_body(ts)[0] == enc[0]);
        assert(encode_body(ts)[1] == enc[1]);
        assert(encode_body(ts)[2] == enc[2]);
    }
}

#[verifier::rlimit(100)]
proof fn lemma_parse_items_pin(s: Seq<char>, i: int, ts: Seq<TaskModel>)
    requires
        ts.len() >= 1,
        0 <= i,
        i + encode_body(ts).len() + 2 <= s.len(),
        s.subrange(i, i + encode_body(ts).len()) == encode_body(ts),
        s[i + encode_body(ts).len()] == '\n',
        s[i + encode_body(ts).len() + 1] == ']',
    ensures
        parse_items(s, i + 2) == Some((ts, i + encode_body(ts).len() + 1)),
    decreases ts.len(),
{
    reveal_strlit(",\n");
    let body = encode_body(ts);
    let t0 = ts[0];
    let e0 = encode_task(t0);
    if ts.len() == 1 {
        assert(body == e0);
        lemma_parse_obj_pin(s, i, t0);
        let j = i + e0.len();
        assert(s[j] == '\n');
        lemma_pin_ws_end(s, j, 1);
        assert(ws_end(s, j) == j + 1);
        assert(s[j + 1] == ']');
        assert(seq![t0] =~= ts);
    } else {
        let rest = ts.drop_first();
        let br = encode_body(rest);
        assert(body == e0 + ",\n"@ + br);
        assert(body.len() == e0.len() + 2 + br.len());
        lemma_sub_at(s, i, body, 0, e0.len() as int);
        assert(body.subrange(0, e0.len() as int) =~= e0);
        lemma_parse_obj_pin(s, i, t0);
        let j = i + e0.len();
        lemma_sub_at(s, i, body, e0.len() as int, e0.len() + 2 as int);
        assert(body.subrange(e0.len() as int, e0.len() + 2 as int) =~= ",\n"@);
        assert(s.subrange(j, j + 2) == ",\n"@);
        assert(s[j] == s.subrange(j, j + 2)[0]);
        assert(s[j + 1] == s.subrange(j, j + 2)[1]);
        assert(s[j] == ',');
        assert(s[j + 1] == '\n');
        lemma_sub_at(s, i, body, e0.len() + 2 as int, body.len() as int);
        assert(body.subrange(e0.len() + 2 as int, body.len() as int) =~= br);
        assert(s.subrange(j + 2, j + 2 + br.len()) == br);
        lemma_body_head(rest);
        assert(s[j + 2] == s.subrange(j + 2, j + 2 + br.len())[0]);
        assert(s[j + 3] == s.subrange(j + 2, j + 2 + br.len())[1]);
        assert(s[j + 4] == s.subrange(j + 2, j + 2 + br.len())[2]);
        assert(s[j + 2] == ' ' && s[j + 3] == ' ' && s[j + 4] == '{');
        lemma_pin_ws_end(s, j, 0);
        assert(ws_end(s, j) == j);
        lemma_pin_ws_end(s, j + 1, 3);
        assert(ws_end(s, j + 1) == j + 4);
        lemma_parse_items_pin(s, j + 2, rest);
        assert(parse_items(s, j + 4) == Some((rest, i + body.len() + 1)));
        assert(seq![t0] + rest =~= ts);
    }
}

/// Decoding an encoded task list yields exactly the original list: the codec
/// round-trips, whatever the titles, priorities and completion flags hold.
pub proof fn lemma_round_trip(ts: Seq<TaskModel>)
    ensures
        decode_spec(encode_spec(ts)) == Some(ts),
{
    reveal_strlit("[]");
    reveal_strlit("[\n");
    reveal_strlit("\n]");
    let s = encode_spec(ts);
    if ts.len() == 0 {
        assert(s == "[]"@);
        assert(s[0] == '[' && s[1] == ']');
        lemma_pin_ws_end(s, 0, 0);
        lemma_pin_ws_end(s, 1, 0);
        lemma_pin_ws_end(s, 2, 0);
        assert(decode_spec(s) == Some(Seq::<TaskModel>::empty()));
        assert(Seq::<TaskModel>::empty() =~= ts);
    } else {
        let body = encode_body(ts);
        assert(s == "[\n"@ + body + "\n]"@);
        assert(s.len() == 2 + body.len() as int + 2);
        lemma_body_head(ts);
        assert(s[0] == '[');
        assert(s[1] == '\n');
        assert(s.subrange(2, 2 + body.len() as int) =~= body);
        assert(s[2] == s.subrange(2, 2 + body.len() as int)[0]);
        assert(s[3] == s.subrange(2, 2 + body.len() as int)[1]);
        assert(s[4] == s.subrange(2, 2 + body.len() as int)[2]);
        assert(s[2] == ' ' && s[3] == ' ' && s[4] == '{');
        assert(s[2 + body.len() as int] == '\n');
        assert(s[2 + body.len() as int + 1] == ']');
        lemma_pin_ws_end(s, 0, 0);
        assert(ws_end(s, 0) == 0);
        lemma_pin_ws_end(s, 1, 3);
        assert(ws_end(s, 1) == 4);
        lemma_parse_items_pin(s, 2, ts);
        assert(parse_items(s, 4) == Some((ts, 2 + body.len() as int + 1)));
        let r1 = 2 + body.len() as int + 1;
        assert(s[r1] == ']');
        lemma_pin_ws_end(s, r1 + 1, 0);
        assert(ws_end(s, r1 + 1) == s.len());
        assert(decode_spec(s) == Some(ts));
    }
}

/// Appends the decimal representation of a machine-word number.
pub(crate) fn push_dec_usize(buf: &mut Vec<char>, n: usize)
    ensures
        final(buf)@ == old(buf)@ + dec_rep(n as int),
    decreases n,
{
    if n <= 9 {
        buf.push(digit_char_x(n as u8));
        proof {
            assert(buf@ =~= old(buf)@ + dec_rep(n as int));
        }
    } else {
        push_dec_usize(buf, n / 10);
        buf.push(digit_char_x((n % 10) as u8));
        proof {
            assert(buf@ =~= old(buf)@ + dec_rep(n as int));
        }
    }
}

/// Appends the decimal representation of a signed machine number.
pub(crate) fn push_int(buf: &mut Vec<char>, n: isize)
    ensures
        final(buf)@ == old(buf)@ + int_rep(n as int),
{
    if n < 0 {
        buf.push('-');
        let m: usize = (-(n as i128)) as usize;
        push_dec_usize(buf, m);
        proof {
            assert(buf@ =~= old(buf)@ + int_rep(n as int));
        }
    } else {
        push_dec_usize(buf, n as usize);
    }
}

proof fn lemma_encode_body_min_len(ts: Seq<TaskModel>)
    requires
        ts.len() >= 1,
    ensures
        encode_body(ts).len() >= 1,
{
    lemma_digits_val_dec_rep(ts[0].priority as int);
}

} // verus!

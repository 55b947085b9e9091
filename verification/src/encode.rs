//! The JSON writer.  The spec functions define, character for character, the
//! canonical pretty-printed form of a task-list document and of the settings
//! document; the executable functions produce exactly that form.

use vstd::prelude::*;

use crate::task::{TaskEntry, TaskView, Tasks};
use crate::text::{digit_char, digit_char_of, hex_char, hex_char_of};

verus! {

/// The escape of one character inside a JSON string: `"` and `\` get a
/// backslash, the common control characters get their short escapes, the
/// remaining control characters a `\u00..` escape, and every other
/// character stands for itself.
pub open spec fn esc_char(c: char) -> Seq<char> {
    if c == '"' {
        seq!['\\', '"']
    } else if c == '\\' {
        seq!['\\', '\\']
    } else if c == '\n' {
        seq!['\\', 'n']
    } else if c == '\r' {
        seq!['\\', 'r']
    } else if c == '\t' {
        seq!['\\', 't']
    } else if (c as int) < 32 {
        seq!['\\', 'u', '0', '0', hex_char(c as int / 16), hex_char(c as int % 16)]
    } else {
        seq![c]
    }
}

/// The escapes of the characters of `s` from position `i` on, concatenated.
pub open spec fn escape_from(s: Seq<char>, i: int) -> Seq<char>
    decreases s.len() - i,
{
    if i < s.len() {
        esc_char(s[i]) + escape_from(s, i + 1)
    } else {
        Seq::empty()
    }
}

/// A JSON string: a quote, the escaped characters, a quote.
pub open spec fn enc_string(s: Seq<char>) -> Seq<char> {
    seq!['"'] + escape_from(s, 0) + seq!['"']
}

/// The decimal digits of a non-negative number, most significant first.
pub open spec fn enc_nat(n: int) -> Seq<char>
    decreases n,
{
    if n < 10 {
        seq![digit_char(n)]
    } else {
        enc_nat(n / 10) + seq![digit_char(n % 10)]
    }
}

/// A JSON integer: an optional minus sign and the decimal digits.
pub open spec fn enc_int(i: int) -> Seq<char> {
    if i < 0 {
        seq!['-'] + enc_nat(-i)
    } else {
        enc_nat(i)
    }
}

/// A JSON boolean.
pub open spec fn enc_bool(b: bool) -> Seq<char> {
    if b {
        "true"@
    } else {
        "false"@
    }
}

/// The elements of a tag array from position `k` on, separated by `, `.
pub open spec fn enc_tags_from(tags: Seq<Seq<char>>, k: int) -> Seq<char>
    decreases tags.len() - k,
{
    if k < tags.len() {
        enc_string(tags[k]) + (if k + 1 < tags.len() {
            ", "@ + enc_tags_from(tags, k + 1)
        } else {
            Seq::empty()
        })
    } else {
        Seq::empty()
    }
}

/// A tag array on one line, `["a", "b"]`.
pub open spec fn enc_tags(tags: Seq<Seq<char>>) -> Seq<char> {
    seq!['['] + enc_tags_from(tags, 0) + seq![']']
}

/// One task entry as a one-line JSON object with its five fields in
/// canonical order.
pub open spec fn enc_entry(t: TaskView) -> Seq<char> {
    "{\"id\": "@ + enc_int(t.id) + ", \"name\": "@ + enc_string(t.name) + ", \"description\": "@
        + enc_string(t.description) + ", \"tags\": "@ + enc_tags(t.tags) + ", \"completed\": "@
        + enc_bool(t.completed) + seq!['}']
}

/// The entries from position `k` on, one per line, indented and separated
/// by commas; the last is followed by the closing bracket's indentation.
pub open spec fn enc_items_from(ts: Seq<TaskView>, k: int) -> Seq<char>
    decreases ts.len() - k,
{
    if k < ts.len() {
        "    "@ + enc_entry(ts[k]) + (if k + 1 < ts.len() {
            ",\n"@ + enc_items_from(ts, k + 1)
        } else {
            "\n  "@
        })
    } else {
        Seq::empty()
    }
}

/// A whole task-list document.
pub open spec fn enc_tasks_doc(ts: Seq<TaskView>) -> Seq<char> {
    "{\n  \"tasks\": ["@ + (if ts.len() == 0 {
        Seq::<char>::empty()
    } else {
        seq!['\n'] + enc_items_from(ts, 0)
    }) + "]\n}"@
}

/// The settings document.
pub open spec fn enc_settings_doc(run: bool, x: int, y: int) -> Seq<char> {
    "{\n  \"run\": "@ + enc_bool(run) + ",\n  \"x\": "@ + enc_int(x) + ",\n  \"y\": "@ + enc_int(y)
        + "\n}"@
}

/// Appends the characters of a literal.
fn push_lit(out: &mut Vec<char>, s: &str)
    ensures
        final(out)@ == old(out)@ + s@,
{
    let n = s.unicode_len();
    let mut i: usize = 0;
    while i < n
        invariant
            i <= n,
            n == s@.len(),
            out@ == old(out)@ + s@.take(i as int),
        decreases n - i,
    {
        let c = s.get_char(i);
        out.push(c);
        assert(s@.take(i + 1 as int) =~= s@.take(i as int).push(s@[i as int]));
        i += 1;
    }
    assert(s@.take(s@.len() as int) =~= s@);
}

/// Appends the escape of one character.
fn push_esc_char(out: &mut Vec<char>, c: char)
    ensures
        final(out)@ == old(out)@ + esc_char(c),
{
    if c == '"' {
        out.push('\\');
        out.push('"');
        assert(out@ =~= old(out)@ + esc_char(c));
    } else if c == '\\' {
        out.push('\\');
        out.push('\\');
        assert(out@ =~= old(out)@ + esc_char(c));
    } else if c == '\n' {
        out.push('\\');
        out.push('n');
        assert(out@ =~= old(out)@ + esc_char(c));
    } else if c == '\r' {
        out.push('\\');
        out.push('r');
        assert(out@ =~= old(out)@ + esc_char(c));
    } else if c == '\t' {
        out.push('\\');
        out.push('t');
        assert(out@ =~= old(out)@ + esc_char(c));
    } else if (c as u32) < 32 {
        out.push('\\');
        out.push('u');
        out.push('0');
        out.push('0');
        out.push(hex_char_of((c as u32) / 16));
        out.push(hex_char_of((c as u32) % 16));
        assert(out@ =~= old(out)@ + esc_char(c));
    } else {
        out.push(c);
        assert(out@ =~= old(out)@ + esc_char(c));
    }
}

/// Appends the escapes of the characters of `s` from position `i` on.
fn push_escaped_from(out: &mut Vec<char>, s: &Vec<char>, i: usize)
    requires
        i <= s@.len(),
    ensures
        final(out)@ == old(out)@ + escape_from(s@, i as int),
    decreases s@.len() - i,
{
    if i < s.len() {
        push_esc_char(out, s[i]);
        push_escaped_from(out, s, i + 1);
        assert(out@ =~= old(out)@ + escape_from(s@, i as int));
    }
}

/// Appends a JSON string.
fn push_string(out: &mut Vec<char>, s: &Vec<char>)
    ensures
        final(out)@ == old(out)@ + enc_string(s@),
{
    out.push('"');
    push_escaped_from(out, s, 0);
    out.push('"');
    assert(out@ =~= old(out)@ + enc_string(s@));
}

/// Appends the decimal digits of a non-negative number.
fn push_nat(out: &mut Vec<char>, n: u32)
    ensures
        final(out)@ == old(out)@ + enc_nat(n as int),
    decreases n,
{
    if n < 10 {
        out.push(digit_char_of(n));
        assert(out@ =~= old(out)@ + enc_nat(n as int));
    } else {
        push_nat(out, n / 10);
        out.push(digit_char_of(n % 10));
        assert(out@ =~= old(out)@ + enc_nat(n as int));
    }
}

/// Appends a JSON integer.
fn push_int(out: &mut Vec<char>, i: i32)
    ensures
        final(out)@ == old(out)@ + enc_int(i as int),
{
    if i < 0 {
        out.push('-');
        if i == i32::MIN {
            push_nat(out, 2147483648u32);
        } else {
            push_nat(out, (-i) as u32);
        }
        assert(out@ =~= old(out)@ + enc_int(i as int));
    } else {
        push_nat(out, i as u32);
    }
}

/// Appends a JSON boolean.
fn push_bool(out: &mut Vec<char>, b: bool)
    ensures
        final(out)@ == old(out)@ + enc_bool(b),
{
    if b {
        push_lit(out, "true");
    } else {
        push_lit(out, "false");
    }
}

/// Appends the tag-array elements from position `k` on.
fn push_tags_from(out: &mut Vec<char>, tags: &Vec<Vec<char>>, k: usize)
    requires
        k < tags@.len(),
    ensures
        final(out)@ == old(out)@ + enc_tags_from(
            Seq::new(tags@.len(), |i: int| tags@[i]@),
            k as int,
        ),
    decreases tags@.len() - k,
{
    let ghost tv = Seq::new(tags@.len(), |i: int| tags@[i]@);
    let n = tags.len();
    push_string(out, &tags[k]);
    if k + 1 < n {
        push_lit(out, ", ");
        push_tags_from(out, tags, k + 1);
        assert(out@ =~= old(out)@ + enc_tags_from(tv, k as int));
    } else {
        assert(out@ =~= old(out)@ + enc_tags_from(tv, k as int));
    }
}

/// Appends a tag array.
fn push_tags(out: &mut Vec<char>, tags: &Vec<Vec<char>>)
    ensures
        final(out)@ == old(out)@ + enc_tags(Seq::new(tags@.len(), |i: int| tags@[i]@)),
{
    let ghost tv = Seq::new(tags@.len(), |i: int| tags@[i]@);
    out.push('[');
    if tags.len() > 0 {
        push_tags_from(out, tags, 0);
    }
    out.push(']');
    assert(out@ =~= old(out)@ + enc_tags(tv));
}

/// Appends one task entry.
fn push_entry(out: &mut Vec<char>, t: &TaskEntry)
    ensures
        final(out)@ == old(out)@ + enc_entry(t@),
{
    push_lit(out, "{\"id\": ");
    push_int(out, t.id);
    push_lit(out, ", \"name\": ");
    push_string(out, &t.name);
    push_lit(out, ", \"description\": ");
    push_string(out, &t.description);
    push_lit(out, ", \"tags\": ");
    push_tags(out, &t.tags);
    push_lit(out, ", \"completed\": ");
    push_bool(out, t.completed);
    out.push('}');
    assert(out@ =~= old(out)@ + enc_entry(t@));
}

/// Appends the entry lines from position `k` on.
fn push_items_from(out: &mut Vec<char>, ts: &Tasks, k: usize)
    requires
        k < ts@.len(),
    ensures
        final(out)@ == old(out)@ + enc_items_from(ts@, k as int),
    decreases ts@.len() - k,
{
    let n = ts.tasks.len();
    push_lit(out, "    ");
    push_entry(out, &ts.tasks[k]);
    if k + 1 < n {
        push_lit(out, ",\n");
        push_items_from(out, ts, k + 1);
        assert(out@ =~= old(out)@ + enc_items_from(ts@, k as int));
    } else {
        push_lit(out, "\n  ");
        assert(out@ =~= old(out)@ + enc_items_from(ts@, k as int));
    }
}

/// The canonical document text of a task collection.
pub fn encode_tasks(ts: &Tasks) -> (r: Vec<char>)
    ensures
        r@ == enc_tasks_doc(ts@),
{
    let mut out: Vec<char> = Vec::new();
    push_lit(&mut out, "{\n  \"tasks\": [");
    if ts.tasks.len() > 0 {
        out.push('\n');
        push_items_from(&mut out, ts, 0);
    }
    push_lit(&mut out, "]\n}");
    assert(out@ =~= enc_tasks_doc(ts@));
    out
}

/// The canonical document text of the settings record.
pub fn encode_settings(run: bool, x: i32, y: i32) -> (r: Vec<char>)
    ensures
        r@ == enc_settings_doc(run, x as int, y as int),
{
    let mut out: Vec<char> = Vec::new();
    push_lit(&mut out, "{\n  \"run\": ");
    push_bool(&mut out, run);
    push_lit(&mut out, ",\n  \"x\": ");
    push_int(&mut out, x);
    push_lit(&mut out, ",\n  \"y\": ");
    push_int(&mut out, y);
    push_lit(&mut out, "\n}");
    assert(out@ =~= enc_settings_doc(run, x as int, y as int));
    out
}

} // verus!

//! Character-level helpers shared by the JSON reader and writer: character
//! classes, digit conversions, and small executable utilities on `Vec<char>`
//! (the crate's representation of decoded file text and of names).

use vstd::prelude::*;

verus! {

/// JSON insignificant whitespace.
pub open spec fn is_ws(c: char) -> bool {
    c == ' ' || c == '\n' || c == '\r' || c == '\t'
}

pub fn is_ws_char(c: char) -> (r: bool)
    ensures
        r == is_ws(c),
{
    c == ' ' || c == '\n' || c == '\r' || c == '\t'
}

/// A decimal digit.
pub open spec fn is_digit(c: char) -> bool {
    '0' <= c && c <= '9'
}

pub fn is_digit_char(c: char) -> (r: bool)
    ensures
        r == is_digit(c),
{
    '0' <= c && c <= '9'
}

/// The numeric value of a decimal digit.
pub open spec fn digit_val(c: char) -> int {
    c as int - '0' as int
}

pub fn digit_val_char(c: char) -> (r: u32)
    requires
        is_digit(c),
    ensures
        r == digit_val(c),
        r <= 9,
{
    (c as u32) - ('0' as u32)
}

/// The decimal digit character for a value below ten.
pub open spec fn digit_char(d: int) -> char {
    if d == 0 { '0' }
    else if d == 1 { '1' }
    else if d == 2 { '2' }
    else if d == 3 { '3' }
    else if d == 4 { '4' }
    else if d == 5 { '5' }
    else if d == 6 { '6' }
    else if d == 7 { '7' }
    else if d == 8 { '8' }
    else { '9' }
}

pub fn digit_char_of(d: u32) -> (r: char)
    requires
        d <= 9,
    ensures
        r == digit_char(d as int),
        is_digit(r),
        digit_val(r) == d,
{
    match d {
        0 => '0',
        1 => '1',
        2 => '2',
        3 => '3',
        4 => '4',
        5 => '5',
        6 => '6',
        7 => '7',
        8 => '8',
        _ => '9',
    }
}

/// A hexadecimal digit of either case (the writer emits lowercase).
pub open spec fn is_hex(c: char) -> bool {
    is_digit(c) || ('a' <= c && c <= 'f') || ('A' <= c && c <= 'F')
}

pub fn is_hex_char(c: char) -> (r: bool)
    ensures
        r == is_hex(c),
{
    ('0' <= c && c <= '9') || ('a' <= c && c <= 'f') || ('A' <= c && c <= 'F')
}

/// The numeric value of a hexadecimal digit of either case.
pub open spec fn hex_val(c: char) -> int {
    if is_digit(c) {
        digit_val(c)
    } else if 'a' <= c && c <= 'f' {
        c as int - 'a' as int + 10
    } else {
        c as int - 'A' as int + 10
    }
}

pub fn hex_val_char(c: char) -> (r: u32)
    requires
        is_hex(c),
    ensures
        r == hex_val(c),
        r <= 15,
{
    if '0' <= c && c <= '9' {
        (c as u32) - ('0' as u32)
    } else if 'a' <= c && c <= 'f' {
        (c as u32) - ('a' as u32) + 10
    } else {
        (c as u32) - ('A' as u32) + 10
    }
}

/// The lowercase hexadecimal digit character for a value below sixteen.
pub open spec fn hex_char(d: int) -> char {
    if d < 10 { digit_char(d) }
    else if d == 10 { 'a' }
    else if d == 11 { 'b' }
    else if d == 12 { 'c' }
    else if d == 13 { 'd' }
    else if d == 14 { 'e' }
    else { 'f' }
}

pub fn hex_char_of(d: u32) -> (r: char)
    requires
        d <= 15,
    ensures
        r == hex_char(d as int),
        is_hex(r),
        hex_val(r) == d,
{
    if d < 10 {
        digit_char_of(d)
    } else {
        match d {
            10 => 'a',
            11 => 'b',
            12 => 'c',
            13 => 'd',
            14 => 'e',
            _ => 'f',
        }
    }
}

/// Equality of two character vectors.
pub fn chars_eq(a: &Vec<char>, b: &Vec<char>) -> (r: bool)
    ensures
        r == (a@ == b@),
{
    if a.len() != b.len() {
        assert(a@ != b@) by {
            assert(a@.len() != b@.len());
        }
        return false;
    }
    let mut i: usize = 0;
    while i < a.len()
        invariant
            i <= a.len(),
            a@.len() == b@.len(),
            forall|k: int| 0 <= k < i ==> a@[k] == b@[k],
        decreases a.len() - i,
    {
        if a[i] != b[i] {
            return false;
        }
        i += 1;
    }
    assert(a@ =~= b@);
    true
}

/// A copy of a character vector.
pub fn chars_copy(v: &Vec<char>) -> (r: Vec<char>)
    ensures
        r@ == v@,
{
    let mut out: Vec<char> = Vec::new();
    let mut i: usize = 0;
    while i < v.len()
        invariant
            i <= v.len(),
            out@ == v@.take(i as int),
        decreases v.len() - i,
    {
        out.push(v[i]);
        assert(v@.take(i + 1 as int) =~= v@.take(i as int).push(v@[i as int]));
        i += 1;
    }
    assert(v@.take(v@.len() as int) =~= v@);
    out
}

/// Appends one character vector to another.
pub fn chars_extend(out: &mut Vec<char>, v: &Vec<char>)
    ensures
        final(out)@ == old(out)@ + v@,
{
    let mut i: usize = 0;
    while i < v.len()
        invariant
            i <= v.len(),
            out@ == old(out)@ + v@.take(i as int),
        decreases v.len() - i,
    {
        out.push(v[i]);
        assert(v@.take(i + 1 as int) =~= v@.take(i as int).push(v@[i as int]));
        i += 1;
    }
    assert(v@.take(v@.len() as int) =~= v@);
}

/// The name of the settings file that lives beside the task-list files.
pub open spec fn spec_settings_file_name() -> Seq<char> {
    "settings.json"@
}

/// Builds the settings file name, `settings.json`.
pub fn settings_file_name() -> (r: Vec<char>)
    ensures
        r@ == spec_settings_file_name(),
{
    proof {
        reveal_strlit("settings.json");
    }
    let mut out: Vec<char> = Vec::new();
    out.push('s');
    out.push('e');
    out.push('t');
    out.push('t');
    out.push('i');
    out.push('n');
    out.push('g');
    out.push('s');
    out.push('.');
    out.push('j');
    out.push('s');
    out.push('o');
    out.push('n');
    assert(out@ =~= "settings.json"@);
    out
}

/// The file-name suffix that turns a list name into its file name.
pub open spec fn spec_json_suffix() -> Seq<char> {
    ".json"@
}

/// The file name of a task list: the list name followed by `.json`.
pub open spec fn spec_list_file_name(list: Seq<char>) -> Seq<char> {
    list + spec_json_suffix()
}

/// Builds the file name of a task list, the list name with `.json` appended.
pub fn list_file_name(list: &Vec<char>) -> (r: Vec<char>)
    ensures
        r@ == spec_list_file_name(list@),
{
    proof {
        reveal_strlit(".json");
    }
    let mut out = chars_copy(list);
    out.push('.');
    out.push('j');
    out.push('s');
    out.push('o');
    out.push('n');
    assert(out@ =~= list@ + ".json"@);
    out
}

/// The path of a store file under the per-user data root: the root, the
/// application's `Tasks` directory, and the store name, joined by the
/// platform's separator.
pub open spec fn spec_resolve_path(root: Seq<char>, sep: char, store_name: Seq<char>) -> Seq<char> {
    root + seq![sep] + "Tasks"@ + seq![sep] + store_name
}

/// Builds the path of a store file under the per-user data root.  The
/// caller appends `.json` to a list name first (the settings store's name
/// already carries it); directory creation is the caller's concern and is
/// deferred to the writer.
pub fn resolve_path(root: &Vec<char>, sep: char, store_name: &Vec<char>) -> (r: Vec<char>)
    ensures
        r@ == spec_resolve_path(root@, sep, store_name@),
{
    proof {
        reveal_strlit("Tasks");
    }
    let mut out = chars_copy(root);
    out.push(sep);
    out.push('T');
    out.push('a');
    out.push('s');
    out.push('k');
    out.push('s');
    out.push(sep);
    chars_extend(&mut out, store_name);
    assert(out@ =~= spec_resolve_path(root@, sep, store_name@));
    out
}

} // verus!

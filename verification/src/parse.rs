//! The JSON reader.  The spec functions define which texts are accepted and
//! what they mean: a recursive-descent grammar over a character sequence,
//! positioned by index.  The grammar is a JSON subset: it accepts any
//! insignificant whitespace, the short string escapes and `\u00..` escapes
//! of either hex case, but requires the canonical key order that the
//! writer emits and refuses integers outside the stored width, unknown
//! fields, general `\u....` escapes and leading zeros.  A text the grammar
//! refuses is a parse error.  The executable functions mirror the spec
//! functions exactly.

use vstd::prelude::*;

use crate::task::{TaskEntry, TaskView, Tasks};
use crate::text::{digit_val, hex_val, is_digit, is_digit_char, is_hex, is_hex_char, is_ws,
    is_ws_char};

verus! {

/// The first position at or after `i` that does not hold whitespace.
pub open spec fn sp_ws(s: Seq<char>, i: int) -> int
    decreases s.len() - i,
{
    if 0 <= i < s.len() && is_ws(s[i]) {
        sp_ws(s, i + 1)
    } else {
        i
    }
}

/// The position after `lit`, if `lit` stands at `i`.
pub open spec fn sp_lit(s: Seq<char>, i: int, lit: Seq<char>) -> Option<int> {
    if 0 <= i && i + lit.len() <= s.len() && s.subrange(i, i + lit.len()) == lit {
        Some(i + lit.len())
    } else {
        None
    }
}

/// Folds decimal digits from `i` on into `acc`; yields the value and the
/// position of the first non-digit.
pub open spec fn sp_digits(s: Seq<char>, i: int, acc: int) -> (int, int)
    decreases s.len() - i,
{
    if 0 <= i < s.len() && is_digit(s[i]) {
        sp_digits(s, i + 1, acc * 10 + digit_val(s[i]))
    } else {
        (acc, i)
    }
}

/// A JSON integer at `i`: an optional minus sign and decimal digits with no
/// leading zero.  Values outside the stored integer width are refused.
pub open spec fn sp_num(s: Seq<char>, i: int) -> Option<(int, int)> {
    if 0 <= i < s.len() {
        let neg = s[i] == '-';
        let j = if neg { i + 1 } else { i };
        if j < s.len() && is_digit(s[j]) {
            if s[j] == '0' && j + 1 < s.len() && is_digit(s[j + 1]) {
                None
            } else {
                let (v, end) = sp_digits(s, j, 0);
                let val = if neg { -v } else { v };
                if i32::MIN <= val <= i32::MAX {
                    Some((val, end))
                } else {
                    None
                }
            }
        } else {
            None
        }
    } else {
        None
    }
}

/// A JSON boolean at `i`.
pub open spec fn sp_bool(s: Seq<char>, i: int) -> Option<(bool, int)> {
    match sp_lit(s, i, "true"@) {
        Some(j) => Some((true, j)),
        None => match sp_lit(s, i, "false"@) {
            Some(j) => Some((false, j)),
            None => None,
        },
    }
}

/// One character of a string body at `i`: a character that stands for
/// itself, or an escape.  A closing quote is not a character.
pub open spec fn sp_str_char(s: Seq<char>, i: int) -> Option<(char, int)> {
    if 0 <= i < s.len() && s[i] != '"' {
        if s[i] == '\\' {
            if i + 1 < s.len() {
                let e = s[i + 1];
                if e == '"' || e == '\\' || e == '/' {
                    Some((e, i + 2))
                } else if e == 'n' {
                    Some(('\n', i + 2))
                } else if e == 'r' {
                    Some(('\r', i + 2))
                } else if e == 't' {
                    Some(('\t', i + 2))
                } else if e == 'b' {
                    Some(('\u{8}', i + 2))
                } else if e == 'f' {
                    Some(('\u{c}', i + 2))
                } else if e == 'u' {
                    if i + 5 < s.len() && s[i + 2] == '0' && s[i + 3] == '0' && is_hex(s[i + 4])
                        && is_hex(s[i + 5]) {
                        Some(((((hex_val(s[i + 4]) * 16 + hex_val(s[i + 5])) as u32) as char),
                            i + 6))
                    } else {
                        None
                    }
                } else {
                    None
                }
            } else {
                None
            }
        } else {
            Some((s[i], i + 1))
        }
    } else {
        None
    }
}

/// A string body starting at `i` (the opening quote already behind):
/// characters up to and including the closing quote.
pub open spec fn sp_str_body(s: Seq<char>, i: int) -> Option<(Seq<char>, int)>
    decreases s.len() - i,
{
    if 0 <= i < s.len() {
        if s[i] == '"' {
            Some((Seq::empty(), i + 1))
        } else {
            match sp_str_char(s, i) {
                Some((c, j)) => if i < j <= s.len() {
                    match sp_str_body(s, j) {
                        Some((t, e)) => Some((seq![c] + t, e)),
                        None => None,
                    }
                } else {
                    None
                },
                None => None,
            }
        }
    } else {
        None
    }
}

/// A JSON string at `i`.
pub open spec fn sp_string(s: Seq<char>, i: int) -> Option<(Seq<char>, int)> {
    if 0 <= i < s.len() && s[i] == '"' {
        sp_str_body(s, i + 1)
    } else {
        None
    }
}

/// The rest of a string array, positioned after an element: either the
/// closing bracket, or a comma and a further element.
pub open spec fn sp_tags_rest(s: Seq<char>, i: int, acc: Seq<Seq<char>>) -> Option<
    (Seq<Seq<char>>, int),
>
    decreases s.len() - i,
{
    let k = sp_ws(s, i);
    if k < s.len() && s[k] == ']' {
        Some((acc, k + 1))
    } else if k < s.len() && s[k] == ',' {
        match sp_string(s, sp_ws(s, k + 1)) {
            Some((t, j)) => if i < j <= s.len() {
                sp_tags_rest(s, j, acc.push(t))
            } else {
                None
            },
            None => None,
        }
    } else {
        None
    }
}

/// A string array at `i`.
pub open spec fn sp_tags(s: Seq<char>, i: int) -> Option<(Seq<Seq<char>>, int)> {
    if 0 <= i < s.len() && s[i] == '[' {
        let k = sp_ws(s, i + 1);
        if k < s.len() && s[k] == ']' {
            Some((Seq::empty(), k + 1))
        } else {
            match sp_string(s, k) {
                Some((t, j)) => if j <= s.len() {
                    sp_tags_rest(s, j, seq![t])
                } else {
                    None
                },
                None => None,
            }
        }
    } else {
        None
    }
}

/// A quoted key followed by a colon, whitespace allowed around both; yields
/// the position after the colon's trailing whitespace.  `key` includes the
/// quotes.
pub open spec fn sp_key(s: Seq<char>, i: int, key: Seq<char>) -> Option<int> {
    match sp_lit(s, sp_ws(s, i), key) {
        Some(j) => {
            let k = sp_ws(s, j);
            if k < s.len() && s[k] == ':' {
                Some(sp_ws(s, k + 1))
            } else {
                None
            }
        },
        None => None,
    }
}

/// One task entry at `i`: an object with the five fields in canonical
/// order.
pub open spec fn sp_entry(s: Seq<char>, i: int) -> Option<(TaskView, int)> {
    if 0 <= i < s.len() && s[i] == '{' {
        match sp_key(s, i + 1, "\"id\""@) {
            Some(p1) => match sp_num(s, p1) {
                Some((id, p2)) => {
                    let c1 = sp_ws(s, p2);
                    if c1 < s.len() && s[c1] == ',' {
                        match sp_key(s, c1 + 1, "\"name\""@) {
                            Some(p3) => match sp_string(s, p3) {
                                Some((name, p4)) => {
                                    let c2 = sp_ws(s, p4);
                                    if c2 < s.len() && s[c2] == ',' {
                                        match sp_key(s, c2 + 1, "\"description\""@) {
                                            Some(p5) => match sp_string(s, p5) {
                                                Some((description, p6)) => {
                                                    let c3 = sp_ws(s, p6);
                                                    if c3 < s.len() && s[c3] == ',' {
                                                        match sp_key(s, c3 + 1, "\"tags\""@) {
                                                            Some(p7) => match sp_tags(s, p7) {
                                                                Some((tags, p8)) => {
                                                                    let c4 = sp_ws(s, p8);
                                                                    if c4 < s.len() && s[c4]
                                                                        == ',' {
                                                                        sp_entry_tail(
                                                                            s,
                                                                            c4 + 1,
                                                                            id,
                                                                            name,
                                                                            description,
                                                                            tags,
                                                                        )
                                                                    } else {
                                                                        None
                                                                    }
                                                                },
                                                                None => None,
                                                            },
                                                            None => None,
                                                        }
                                                    } else {
                                                        None
                                                    }
                                                },
                                                None => None,
                                            },
                                            None => None,
                                        }
                                    } else {
                                        None
                                    }
                                },
                                None => None,
                            },
                            None => None,
                        }
                    } else {
                        None
                    }
                },
                None => None,
            },
            None => None,
        }
    } else {
        None
    }
}

/// The last field of a task entry and the closing brace.
pub open spec fn sp_entry_tail(
    s: Seq<char>,
    i: int,
    id: int,
    name: Seq<char>,
    description: Seq<char>,
    tags: Seq<Seq<char>>,
) -> Option<(TaskView, int)> {
    match sp_key(s, i, "\"completed\""@) {
        Some(p9) => match sp_bool(s, p9) {
            Some((completed, p10)) => {
                let c5 = sp_ws(s, p10);
                if c5 < s.len() && s[c5] == '}' {
                    Some((TaskView { id, name, description, tags, completed }, c5 + 1))
                } else {
                    None
                }
            },
            None => None,
        },
        None => None,
    }
}

/// The rest of an entry array, positioned after an element.
pub open spec fn sp_entries_rest(s: Seq<char>, i: int, acc: Seq<TaskView>) -> Option<
    (Seq<TaskView>, int),
>
    decreases s.len() - i,
{
    let k = sp_ws(s, i);
    if k < s.len() && s[k] == ']' {
        Some((acc, k + 1))
    } else if k < s.len() && s[k] == ',' {
        match sp_entry(s, sp_ws(s, k + 1)) {
            Some((t, j)) => if i < j <= s.len() {
                sp_entries_rest(s, j, acc.push(t))
            } else {
                None
            },
            None => None,
        }
    } else {
        None
    }
}

/// An entry array at `i`.
pub open spec fn sp_entries(s: Seq<char>, i: int) -> Option<(Seq<TaskView>, int)> {
    if 0 <= i < s.len() && s[i] == '[' {
        let k = sp_ws(s, i + 1);
        if k < s.len() && s[k] == ']' {
            Some((Seq::empty(), k + 1))
        } else {
            match sp_entry(s, k) {
                Some((t, j)) => if j <= s.len() {
                    sp_entries_rest(s, j, seq![t])
                } else {
                    None
                },
                None => None,
            }
        }
    } else {
        None
    }
}

/// A whole task-list document: an object whose single field `tasks` holds
/// the entry array, with nothing but whitespace after it.
pub open spec fn sp_tasks_doc(s: Seq<char>) -> Option<Seq<TaskView>> {
    let i = sp_ws(s, 0);
    if i < s.len() && s[i] == '{' {
        match sp_key(s, i + 1, "\"tasks\""@) {
            Some(p) => match sp_entries(s, p) {
                Some((ts, j)) => {
                    let k = sp_ws(s, j);
                    if k < s.len() && s[k] == '}' && sp_ws(s, k + 1) == s.len() {
                        Some(ts)
                    } else {
                        None
                    }
                },
                None => None,
            },
            None => None,
        }
    } else {
        None
    }
}

/// The settings document: an object with the fields `run`, `x`, `y` in
/// canonical order, with nothing but whitespace after it.
pub open spec fn sp_settings_doc(s: Seq<char>) -> Option<(bool, int, int)> {
    let i = sp_ws(s, 0);
    if i < s.len() && s[i] == '{' {
        match sp_key(s, i + 1, "\"run\""@) {
            Some(p1) => match sp_bool(s, p1) {
                Some((run, p2)) => {
                    let c1 = sp_ws(s, p2);
                    if c1 < s.len() && s[c1] == ',' {
                        match sp_key(s, c1 + 1, "\"x\""@) {
                            Some(p3) => match sp_num(s, p3) {
                                Some((x, p4)) => {
                                    let c2 = sp_ws(s, p4);
                                    if c2 < s.len() && s[c2] == ',' {
                                        match sp_key(s, c2 + 1, "\"y\""@) {
                                            Some(p5) => match sp_num(s, p5) {
                                                Some((y, p6)) => {
                                                    let k = sp_ws(s, p6);
                                                    if k < s.len() && s[k] == '}' && sp_ws(
                                                        s,
                                                        k + 1,
                                                    ) == s.len() {
                                                        Some((run, x, y))
                                                    } else {
                                                        None
                                                    }
                                                },
                                                None => None,
                                            },
                                            None => None,
                                        }
                                    } else {
                                        None
                                    }
                                },
                                None => None,
                            },
                            None => None,
                        }
                    } else {
                        None
                    }
                },
                None => None,
            },
            None => None,
        }
    } else {
        None
    }
}

/// Glues a parsed head onto the result of parsing the rest of a string
/// body.
spec fn cons_opt(a: Seq<char>, r: Option<(Seq<char>, int)>) -> Option<(Seq<char>, int)> {
    match r {
        Some((t, e)) => Some((a + t, e)),
        None => None,
    }
}

/// The position of the first non-whitespace character at or after `i`.
pub fn ws_end(s: &Vec<char>, i: usize) -> (r: usize)
    requires
        i <= s@.len(),
    ensures
        r == sp_ws(s@, i as int),
        i <= r <= s@.len(),
    decreases s@.len() - i,
{
    if i < s.len() && is_ws_char(s[i]) {
        ws_end(s, i + 1)
    } else {
        i
    }
}

/// Checks for `lit` at position `i`.
pub fn lit_end(s: &Vec<char>, i: usize, lit: &str) -> (r: Option<usize>)
    requires
        i <= s@.len(),
    ensures
        match r {
            Some(j) => sp_lit(s@, i as int, lit@) == Some(j as int) && i <= j <= s@.len(),
            None => sp_lit(s@, i as int, lit@) is None,
        },
{
    let n = lit.unicode_len();
    let slen = s.len();
    if n > slen - i {
        return None;
    }
    let mut k: usize = 0;
    while k < n
        invariant
            k <= n,
            n == lit@.len(),
            i + n <= slen,
            slen == s@.len(),
            forall|m: int| 0 <= m < k ==> s@[i + m] == lit@[m],
        decreases n - k,
    {
        if s[i + k] != lit.get_char(k) {
            proof {
                assert(s@.subrange(i as int, i + lit@.len())[k as int] != lit@[k as int]);
            }
            return None;
        }
        k += 1;
    }
    proof {
        assert(s@.subrange(i as int, i + lit@.len()) =~= lit@);
    }
    Some(i + n)
}

/// Parses a JSON integer at `i`.
pub fn parse_num(s: &Vec<char>, i: usize) -> (r: Option<(i32, usize)>)
    requires
        i <= s@.len(),
    ensures
        match r {
            Some((v, j)) => sp_num(s@, i as int) == Some((v as int, j as int)) && i < j
                <= s@.len(),
            None => sp_num(s@, i as int) is None,
        },
{
    if i >= s.len() {
        return None;
    }
    let neg = s[i] == '-';
    let j: usize = if neg { i + 1 } else { i };
    if !(j < s.len() && is_digit_char(s[j])) {
        return None;
    }
    if s[j] == '0' && j + 1 < s.len() && is_digit_char(s[j + 1]) {
        return None;
    }
    let d0 = crate::text::digit_val_char(s[j]);
    proof {
        assert(sp_digits(s@, j as int, 0) == sp_digits(s@, j + 1 as int, digit_val(s@[j as int])));
    }
    let mut k: usize = j + 1;
    let mut acc: u64 = d0 as u64;
    let mut over = false;
    let ghost mut accg: int = digit_val(s@[j as int]);
    loop
        invariant
            j + 1 <= k <= s@.len(),
            accg >= 0,
            sp_digits(s@, j as int, 0) == sp_digits(s@, k as int, accg),
            !over ==> acc == accg,
            over ==> accg > 2147483648int,
        ensures
            j + 1 <= k <= s@.len(),
            accg >= 0,
            sp_digits(s@, j as int, 0) == (accg, k as int),
            !over ==> acc == accg,
            over ==> accg > 2147483648int,
        decreases s@.len() - k,
    {
        if k >= s.len() {
            proof {
                assert(sp_digits(s@, k as int, accg) == (accg, k as int));
            }
            break;
        }
        let c = s[k];
        if !is_digit_char(c) {
            proof {
                assert(sp_digits(s@, k as int, accg) == (accg, k as int));
            }
            break;
        }
        let d = crate::text::digit_val_char(c);
        proof {
            assert(sp_digits(s@, k as int, accg) == sp_digits(
                s@,
                k + 1 as int,
                accg * 10 + digit_val(c),
            ));
        }
        if !over {
            if acc > 3_000_000_000u64 {
                over = true;
            } else {
                acc = acc * 10 + (d as u64);
            }
        }
        proof {
            accg = accg * 10 + digit_val(c);
        }
        k += 1;
    }
    if over {
        return None;
    }
    if neg {
        if acc > 2147483648u64 {
            None
        } else if acc == 2147483648u64 {
            Some((i32::MIN, k))
        } else {
            Some((-(acc as i32), k))
        }
    } else {
        if acc > 2147483647u64 {
            None
        } else {
            Some((acc as i32, k))
        }
    }
}

/// Parses a JSON boolean at `i`.
pub fn parse_bool(s: &Vec<char>, i: usize) -> (r: Option<(bool, usize)>)
    requires
        i <= s@.len(),
    ensures
        match r {
            Some((b, j)) => sp_bool(s@, i as int) == Some((b, j as int)) && i < j <= s@.len(),
            None => sp_bool(s@, i as int) is None,
        },
{
    match lit_end(s, i, "true") {
        Some(j) => {
            proof {
                reveal_strlit("true");
            }
            Some((true, j))
        },
        None => match lit_end(s, i, "false") {
            Some(j) => {
                proof {
                    reveal_strlit("false");
                }
                Some((false, j))
            },
            None => None,
        },
    }
}

/// Parses a JSON string at `i`.
pub fn parse_string(s: &Vec<char>, i: usize) -> (r: Option<(Vec<char>, usize)>)
    requires
        i <= s@.len(),
    ensures
        match r {
            Some((t, j)) => sp_string(s@, i as int) == Some((t@, j as int)) && i < j <= s@.len(),
            None => sp_string(s@, i as int) is None,
        },
{
    if !(i < s.len() && s[i] == '"') {
        return None;
    }
    let mut pos: usize = i + 1;
    let mut acc: Vec<char> = Vec::new();
    loop
        invariant
            i + 1 <= pos <= s@.len(),
            s@.len() == s.len(),
            i < s@.len() && s@[i as int] == '"',
            sp_str_body(s@, i + 1 as int) == cons_opt(acc@, sp_str_body(s@, pos as int)),
        decreases s@.len() - pos,
    {
        if pos >= s.len() {
            return None;
        }
        let c = s[pos];
        if c == '"' {
            proof {
                assert(acc@ + Seq::<char>::empty() =~= acc@);
            }
            return Some((acc, pos + 1));
        }
        let ch: char;
        let newpos: usize;
        if c == '\\' {
            if pos + 1 >= s.len() {
                return None;
            }
            let e = s[pos + 1];
            if e == '"' || e == '\\' || e == '/' {
                ch = e;
                newpos = pos + 2;
            } else if e == 'n' {
                ch = '\n';
                newpos = pos + 2;
            } else if e == 'r' {
                ch = '\r';
                newpos = pos + 2;
            } else if e == 't' {
                ch = '\t';
                newpos = pos + 2;
            } else if e == 'b' {
                ch = '\u{8}';
                newpos = pos + 2;
            } else if e == 'f' {
                ch = '\u{c}';
                newpos = pos + 2;
            } else if e == 'u' {
                if s.len() - pos > 5 && s[pos + 2] == '0' && s[pos + 3] == '0' && is_hex_char(
                    s[pos + 4],
                ) && is_hex_char(s[pos + 5]) {
                    let code: u32 = crate::text::hex_val_char(s[pos + 4]) * 16
                        + crate::text::hex_val_char(s[pos + 5]);
                    ch = (code as u8) as char;
                    newpos = pos + 6;
                    proof {
                        assert((code as u8) as char == code as char);
                    }
                } else {
                    return None;
                }
            } else {
                return None;
            }
        } else {
            ch = c;
            newpos = pos + 1;
        }
        proof {
            assert(sp_str_char(s@, pos as int) == Some((ch, newpos as int)));
            let r = sp_str_body(s@, newpos as int);
            match r {
                Some((t, e)) => {
                    assert(acc@ + (seq![ch] + t) =~= acc@.push(ch) + t);
                },
                None => {},
            }
        }
        acc.push(ch);
        pos = newpos;
    }
}

/// Parses a string array at `i`.
pub fn parse_tags(s: &Vec<char>, i: usize) -> (r: Option<(Vec<Vec<char>>, usize)>)
    requires
        i <= s@.len(),
    ensures
        match r {
            Some((t, j)) => sp_tags(s@, i as int) == Some(
                (Seq::new(t@.len(), |m: int| t@[m]@), j as int),
            ) && i < j <= s@.len(),
            None => sp_tags(s@, i as int) is None,
        },
{
    if !(i < s.len() && s[i] == '[') {
        return None;
    }
    let k = ws_end(s, i + 1);
    if k < s.len() && s[k] == ']' {
        let empty: Vec<Vec<char>> = Vec::new();
        proof {
            assert(Seq::new(empty@.len(), |m: int| empty@[m]@) =~= Seq::<Seq<char>>::empty());
        }
        return Some((empty, k + 1));
    }
    let mut acc: Vec<Vec<char>> = Vec::new();
    let mut pos: usize;
    match parse_string(s, k) {
        None => {
            return None;
        },
        Some((t0, j0)) => {
            proof {
                let accv = Seq::new(1nat, |m: int| seq![t0@][m]);
                assert(seq![t0@] =~= accv);
            }
            acc.push(t0);
            pos = j0;
        },
    }
    proof {
        assert(Seq::new(acc@.len(), |m: int| acc@[m]@) =~= seq![acc@[0]@]);
        assert(sp_tags(s@, i as int) == sp_tags_rest(
            s@,
            pos as int,
            Seq::new(acc@.len(), |m: int| acc@[m]@),
        ));
    }
    loop
        invariant
            i < pos <= s@.len(),
            s@.len() == s.len(),
            sp_tags(s@, i as int) == sp_tags_rest(
                s@,
                pos as int,
                Seq::new(acc@.len(), |m: int| acc@[m]@),
            ),
        decreases s@.len() - pos,
    {
        let ghost accv = Seq::new(acc@.len(), |m: int| acc@[m]@);
        let k2 = ws_end(s, pos);
        if k2 < s.len() && s[k2] == ']' {
            return Some((acc, k2 + 1));
        }
        if !(k2 < s.len() && s[k2] == ',') {
            return None;
        }
        let m = ws_end(s, k2 + 1);
        match parse_string(s, m) {
            None => {
                return None;
            },
            Some((t, j2)) => {
                let ghost accv_next = accv.push(t@);
                acc.push(t);
                proof {
                    assert(Seq::new(acc@.len(), |q: int| acc@[q]@) =~= accv_next);
                }
                pos = j2;
            },
        }
    }
}

/// Parses a key and its colon at `i`; `key` includes the quotes.
pub fn key_end(s: &Vec<char>, i: usize, key: &str) -> (r: Option<usize>)
    requires
        i <= s@.len(),
    ensures
        match r {
            Some(j) => sp_key(s@, i as int, key@) == Some(j as int) && i <= j <= s@.len(),
            None => sp_key(s@, i as int, key@) is None,
        },
{
    let k = ws_end(s, i);
    match lit_end(s, k, key) {
        None => None,
        Some(j) => {
            let k2 = ws_end(s, j);
            if k2 < s.len() && s[k2] == ':' {
                Some(ws_end(s, k2 + 1))
            } else {
                None
            }
        },
    }
}

/// Parses one task entry at `i`.
pub fn parse_entry(s: &Vec<char>, i: usize) -> (r: Option<(TaskEntry, usize)>)
    requires
        i <= s@.len(),
    ensures
        match r {
            Some((t, j)) => sp_entry(s@, i as int) == Some((t@, j as int)) && i < j <= s@.len(),
            None => sp_entry(s@, i as int) is None,
        },
{
    if !(i < s.len() && s[i] == '{') {
        return None;
    }
    let p1 = match key_end(s, i + 1, "\"id\"") {
        Some(p) => p,
        None => {
            return None;
        },
    };
    let (id, p2) = match parse_num(s, p1) {
        Some(v) => v,
        None => {
            return None;
        },
    };
    let c1 = ws_end(s, p2);
    if !(c1 < s.len() && s[c1] == ',') {
        return None;
    }
    let p3 = match key_end(s, c1 + 1, "\"name\"") {
        Some(p) => p,
        None => {
            return None;
        },
    };
    let (name, p4) = match parse_string(s, p3) {
        Some(v) => v,
        None => {
            return None;
        },
    };
    let c2 = ws_end(s, p4);
    if !(c2 < s.len() && s[c2] == ',') {
        return None;
    }
    let p5 = match key_end(s, c2 + 1, "\"description\"") {
        Some(p) => p,
        None => {
            return None;
        },
    };
    let (description, p6) = match parse_string(s, p5) {
        Some(v) => v,
        None => {
            return None;
        },
    };
    let c3 = ws_end(s, p6);
    if !(c3 < s.len() && s[c3] == ',') {
        return None;
    }
    let p7 = match key_end(s, c3 + 1, "\"tags\"") {
        Some(p) => p,
        None => {
            return None;
        },
    };
    let (tags, p8) = match parse_tags(s, p7) {
        Some(v) => v,
        None => {
            return None;
        },
    };
    let c4 = ws_end(s, p8);
    if !(c4 < s.len() && s[c4] == ',') {
        return None;
    }
    let p9 = match key_end(s, c4 + 1, "\"completed\"") {
        Some(p) => p,
        None => {
            return None;
        },
    };
    let (completed, p10) = match parse_bool(s, p9) {
        Some(v) => v,
        None => {
            return None;
        },
    };
    let c5 = ws_end(s, p10);
    if !(c5 < s.len() && s[c5] == '}') {
        return None;
    }
    let entry = TaskEntry { id, name, description, tags, completed };
    proof {
        assert(Seq::new(entry.tags@.len(), |m: int| entry.tags@[m]@) =~= Seq::new(
            tags@.len(),
            |m: int| tags@[m]@,
        ));
    }
    Some((entry, c5 + 1))
}

/// Parses an entry array at `i`.
pub fn parse_entries(s: &Vec<char>, i: usize) -> (r: Option<(Vec<TaskEntry>, usize)>)
    requires
        i <= s@.len(),
    ensures
        match r {
            Some((t, j)) => sp_entries(s@, i as int) == Some(
                (Seq::new(t@.len(), |m: int| t@[m]@), j as int),
            ) && i < j <= s@.len(),
            None => sp_entries(s@, i as int) is None,
        },
{
    if !(i < s.len() && s[i] == '[') {
        return None;
    }
    let k = ws_end(s, i + 1);
    if k < s.len() && s[k] == ']' {
        let empty: Vec<TaskEntry> = Vec::new();
        proof {
            assert(Seq::new(empty@.len(), |m: int| empty@[m]@) =~= Seq::<TaskView>::empty());
        }
        return Some((empty, k + 1));
    }
    let mut acc: Vec<TaskEntry> = Vec::new();
    let mut pos: usize;
    match parse_entry(s, k) {
        None => {
            return None;
        },
        Some((t0, j0)) => {
            acc.push(t0);
            pos = j0;
        },
    }
    proof {
        assert(Seq::new(acc@.len(), |m: int| acc@[m]@) =~= seq![acc@[0]@]);
        assert(sp_entries(s@, i as int) == sp_entries_rest(
            s@,
            pos as int,
            Seq::new(acc@.len(), |m: int| acc@[m]@),
        ));
    }
    loop
        invariant
            i < pos <= s@.len(),
            s@.len() == s.len(),
            sp_entries(s@, i as int) == sp_entries_rest(
                s@,
                pos as int,
                Seq::new(acc@.len(), |m: int| acc@[m]@),
            ),
        decreases s@.len() - pos,
    {
        let ghost accv = Seq::new(acc@.len(), |m: int| acc@[m]@);
        let k2 = ws_end(s, pos);
        if k2 < s.len() && s[k2] == ']' {
            return Some((acc, k2 + 1));
        }
        if !(k2 < s.len() && s[k2] == ',') {
            return None;
        }
        let m = ws_end(s, k2 + 1);
        match parse_entry(s, m) {
            None => {
                return None;
            },
            Some((t, j2)) => {
                let ghost accv_next = accv.push(t@);
                acc.push(t);
                proof {
                    assert(Seq::new(acc@.len(), |q: int| acc@[q]@) =~= accv_next);
                }
                pos = j2;
            },
        }
    }
}

/// Parses a whole task-list document.
pub fn parse_tasks_doc(s: &Vec<char>) -> (r: Option<Tasks>)
    ensures
        match r {
            Some(t) => sp_tasks_doc(s@) == Some(t@),
            None => sp_tasks_doc(s@) is None,
        },
{
    let i = ws_end(s, 0);
    if !(i < s.len() && s[i] == '{') {
        return None;
    }
    let p = match key_end(s, i + 1, "\"tasks\"") {
        Some(p) => p,
        None => {
            return None;
        },
    };
    let (entries, j) = match parse_entries(s, p) {
        Some(v) => v,
        None => {
            return None;
        },
    };
    let k = ws_end(s, j);
    if !(k < s.len() && s[k] == '}') {
        return None;
    }
    if ws_end(s, k + 1) != s.len() {
        return None;
    }
    let t = Tasks { tasks: entries };
    proof {
        assert(t@ =~= Seq::new(entries@.len(), |m: int| entries@[m]@));
    }
    Some(t)
}

/// Parses the settings document; yields the run flag and the window
/// position.
pub fn parse_settings_doc(s: &Vec<char>) -> (r: Option<(bool, i32, i32)>)
    ensures
        match r {
            Some((run, x, y)) => sp_settings_doc(s@) == Some((run, x as int, y as int)),
            None => sp_settings_doc(s@) is None,
        },
{
    let i = ws_end(s, 0);
    if !(i < s.len() && s[i] == '{') {
        return None;
    }
    let p1 = match key_end(s, i + 1, "\"run\"") {
        Some(p) => p,
        None => {
            return None;
        },
    };
    let (run, p2) = match parse_bool(s, p1) {
        Some(v) => v,
        None => {
            return None;
        },
    };
    let c1 = ws_end(s, p2);
    if !(c1 < s.len() && s[c1] == ',') {
        return None;
    }
    let p3 = match key_end(s, c1 + 1, "\"x\"") {
        Some(p) => p,
        None => {
            return None;
        },
    };
    let (x, p4) = match parse_num(s, p3) {
        Some(v) => v,
        None => {
            return None;
        },
    };
    let c2 = ws_end(s, p4);
    if !(c2 < s.len() && s[c2] == ',') {
        return None;
    }
    let p5 = match key_end(s, c2 + 1, "\"y\"") {
        Some(p) => p,
        None => {
            return None;
        },
    };
    let (y, p6) = match parse_num(s, p5) {
        Some(v) => v,
        None => {
            return None;
        },
    };
    let k = ws_end(s, p6);
    if !(k < s.len() && s[k] == '}') {
        return None;
    }
    if ws_end(s, k + 1) != s.len() {
        return None;
    }
    Some((run, x, y))
}

} // verus!

//! Round-trip lemmas: the reader accepts the writer's canonical text and
//! yields back exactly the value that was written.  Each lemma speaks about
//! a region of a larger sequence, so the document-level lemmas can peel the
//! canonical pieces off one by one.

use vstd::prelude::*;

use crate::encode::{enc_bool, enc_int, enc_nat, enc_string, enc_tags, enc_tags_from, enc_entry,
    enc_items_from, enc_tasks_doc, enc_settings_doc, esc_char, escape_from};
use crate::parse::{sp_bool, sp_digits, sp_entries, sp_entries_rest, sp_entry, sp_entry_tail,
    sp_key, sp_lit, sp_num, sp_settings_doc, sp_str_body, sp_str_char, sp_string, sp_tags,
    sp_tags_rest, sp_tasks_doc, sp_ws};
use crate::task::TaskView;
use crate::text::{digit_char, digit_val, hex_char, hex_val, is_digit, is_hex, is_ws};

verus! {

/// A run of whitespace ends at the first non-whitespace position.
pub proof fn lemma_ws_run(s: Seq<char>, i: int, k: int)
    requires
        0 <= i <= k <= s.len(),
        forall|m: int| i <= m < k ==> is_ws(s[m]),
        k == s.len() || !is_ws(s[k]),
    ensures
        sp_ws(s, i) == k,
    decreases k - i,
{
    if i < k {
        lemma_ws_run(s, i + 1, k);
    }
}

/// Splits a matched region into its two halves.
pub proof fn lemma_peel(s: Seq<char>, i: int, a: Seq<char>, b: Seq<char>)
    requires
        0 <= i,
        i + a.len() + b.len() <= s.len(),
        s.subrange(i, i + a.len() + b.len()) == a + b,
    ensures
        s.subrange(i, i + a.len()) == a,
        s.subrange(i + a.len(), i + a.len() + b.len()) == b,
{
    assert forall|m: int| 0 <= m < a.len() implies s.subrange(i, i + a.len())[m] == a[m] by {
        assert(s.subrange(i, i + a.len() + b.len())[m] == (a + b)[m]);
    }
    assert(s.subrange(i, i + a.len()) =~= a);
    assert forall|m: int| 0 <= m < b.len() implies s.subrange(
        i + a.len(),
        i + a.len() + b.len(),
    )[m] == b[m] by {
        assert(s.subrange(i + a.len(), i + a.len() + b.len())[m] == s[i + a.len() + m]);
        assert(s.subrange(i, i + a.len() + b.len())[a.len() + m] == s[i + a.len() + m]);
        assert((a + b)[a.len() + m] == b[m]);
    }
    assert(s.subrange(i + a.len(), i + a.len() + b.len()) =~= b);
}

/// The decimal digit characters are digits with the right values, and only
/// zero prints as `0`.
pub proof fn lemma_digit_char(d: int)
    requires
        0 <= d <= 9,
    ensures
        is_digit(digit_char(d)),
        digit_val(digit_char(d)) == d,
        digit_char(d) == '0' <==> d == 0,
{
}

/// The hexadecimal digit characters are hexadecimal digits with the right
/// values.
pub proof fn lemma_hex_char(d: int)
    requires
        0 <= d <= 15,
    ensures
        is_hex(hex_char(d)),
        hex_val(hex_char(d)) == d,
{
}

/// The digits of a non-negative number: at least one, all decimal digits,
/// and a leading `0` only for zero itself.
pub proof fn lemma_enc_nat_shape(n: int)
    requires
        n >= 0,
    ensures
        enc_nat(n).len() >= 1,
        forall|m: int| 0 <= m < enc_nat(n).len() ==> is_digit(#[trigger] enc_nat(n)[m]),
        enc_nat(n)[0] == '0' ==> n == 0,
    decreases n,
{
    if n < 10 {
        lemma_digit_char(n);
    } else {
        lemma_enc_nat_shape(n / 10);
        lemma_digit_char(n % 10);
        assert forall|m: int| 0 <= m < enc_nat(n).len() implies is_digit(
            #[trigger] enc_nat(n)[m],
        ) by {
            if m < enc_nat(n / 10).len() {
                assert(enc_nat(n)[m] == enc_nat(n / 10)[m]);
            } else {
                assert(enc_nat(n)[m] == digit_char(n % 10));
            }
        }
        assert(enc_nat(n)[0] == enc_nat(n / 10)[0]);
    }
}

/// Ten to the `k`.
pub open spec fn pow10(k: nat) -> int
    decreases k,
{
    if k == 0 {
        1
    } else {
        10 * pow10((k - 1) as nat)
    }
}

/// Folding the digits of `n` written at `i` scales the accumulator by ten
/// to the digit count and adds `n`.
pub proof fn lemma_rt_digits(s: Seq<char>, i: int, n: int, acc: int)
    requires
        n >= 0,
        0 <= i,
        i + enc_nat(n).len() <= s.len(),
        s.subrange(i, i + enc_nat(n).len()) == enc_nat(n),
    ensures
        sp_digits(s, i, acc) == sp_digits(
            s,
            i + enc_nat(n).len(),
            acc * pow10(enc_nat(n).len() as nat) + n,
        ),
    decreases n,
{
    lemma_enc_nat_shape(n);
    if n < 10 {
        lemma_digit_char(n);
        assert(s.subrange(i, i + 1)[0] == enc_nat(n)[0]);
        assert(s[i] == digit_char(n));
        assert(sp_digits(s, i, acc) == sp_digits(s, i + 1, acc * 10 + n));
        assert(pow10(1nat) == 10 * pow10(0nat));
        assert(acc * pow10(1nat) + n == acc * 10 + n);
    } else {
        let a = enc_nat(n / 10);
        let b = seq![digit_char(n % 10)];
        lemma_peel(s, i, a, b);
        lemma_rt_digits(s, i, n / 10, acc);
        let j = i + a.len();
        let acc1 = acc * pow10(a.len() as nat) + n / 10;
        lemma_digit_char(n % 10);
        assert(s.subrange(j, j + 1)[0] == b[0]);
        assert(s[j] == digit_char(n % 10));
        assert(sp_digits(s, j, acc1) == sp_digits(s, j + 1, acc1 * 10 + n % 10));
        let p = pow10(a.len() as nat);
        assert((acc * p + n / 10) * 10 + n % 10 == acc * (p * 10) + (n / 10) * 10 + n % 10)
            by (nonlinear_arith);
        vstd::arithmetic::div_mod::lemma_fundamental_div_mod(n, 10);
        assert((n / 10) * 10 + n % 10 == n);
        assert(pow10(enc_nat(n).len() as nat) == p * 10) by {
            assert(enc_nat(n).len() == a.len() + 1);
            assert(pow10((a.len() + 1) as nat) == 10 * pow10(a.len() as nat));
        }
        assert(acc1 * 10 + n % 10 == acc * pow10(enc_nat(n).len() as nat) + n);
    }
}

/// A region that holds the digits of `n`, followed by something that is not
/// a digit, folds to exactly `n`.
pub proof fn lemma_rt_digits_end(s: Seq<char>, i: int, n: int)
    requires
        n >= 0,
        0 <= i,
        i + enc_nat(n).len() <= s.len(),
        s.subrange(i, i + enc_nat(n).len()) == enc_nat(n),
        i + enc_nat(n).len() == s.len() || !is_digit(s[i + enc_nat(n).len()]),
    ensures
        sp_digits(s, i, 0) == (n, i + enc_nat(n).len()),
{
    lemma_rt_digits(s, i, n, 0);
    let j = i + enc_nat(n).len();
    assert(0 * pow10(enc_nat(n).len() as nat) + n == n) by (nonlinear_arith);
    assert(sp_digits(s, j, n) == (n, j));
}

/// A region that holds a written integer parses back to that integer.
pub proof fn lemma_rt_num(s: Seq<char>, i: int, v: int)
    requires
        i32::MIN <= v <= i32::MAX,
        0 <= i,
        i + enc_int(v).len() <= s.len(),
        s.subrange(i, i + enc_int(v).len()) == enc_int(v),
        i + enc_int(v).len() == s.len() || !is_digit(s[i + enc_int(v).len()]),
    ensures
        sp_num(s, i) == Some((v, i + enc_int(v).len())),
{
    if v >= 0 {
        lemma_enc_nat_shape(v);
        assert(s[i] == enc_nat(v)[0]);
        assert(!is_digit('-') && is_digit(s[i]));
        assert(s[i] != '-');
        if s[i] == '0' {
            assert(v == 0);
            assert(enc_nat(v).len() == 1);
        } else {
            assert(enc_nat(v)[0] != '0');
        }
        lemma_rt_digits_end(s, i, v);
    } else {
        let a = seq!['-'];
        let b = enc_nat(-v);
        lemma_peel(s, i, a, b);
        lemma_enc_nat_shape(-v);
        assert(s.subrange(i, i + 1)[0] == '-');
        assert(s[i] == '-');
        let j = i + 1;
        assert(s.subrange(j, j + b.len()) == b);
        assert(s[j] == b[0]);
        assert(is_digit(s[j]));
        if s[j] == '0' {
            assert(-v == 0);
            assert(false);
        }
        lemma_rt_digits_end(s, j, -v);
    }
}

/// A region that holds a written boolean parses back to that boolean.
pub proof fn lemma_rt_bool(s: Seq<char>, i: int, b: bool)
    requires
        0 <= i,
        i + enc_bool(b).len() <= s.len(),
        s.subrange(i, i + enc_bool(b).len()) == enc_bool(b),
    ensures
        sp_bool(s, i) == Some((b, i + enc_bool(b).len())),
{
    reveal_strlit("true");
    reveal_strlit("false");
    if b {
        assert(sp_lit(s, i, "true"@) == Some(i + 4));
    } else {
        assert(s.subrange(i, i + 5)[0] == 'f');
        assert(s[i] == 'f');
        if i + 4 <= s.len() && s.subrange(i, i + 4) == "true"@ {
            assert(s.subrange(i, i + 4)[0] == 't');
            assert(false);
        }
        assert(sp_lit(s, i, "true"@) is None);
        assert(sp_lit(s, i, "false"@) == Some(i + 5));
    }
}

/// An escape is non-empty and never starts with a quote.
pub proof fn lemma_esc_shape(c: char)
    ensures
        esc_char(c).len() >= 1,
        esc_char(c)[0] != '"',
{
}

/// A region that holds the escape of one character parses back to that
/// character.
pub proof fn lemma_rt_str_char(s: Seq<char>, i: int, c: char)
    requires
        0 <= i,
        i + esc_char(c).len() <= s.len(),
        s.subrange(i, i + esc_char(c).len()) == esc_char(c),
    ensures
        sp_str_char(s, i) == Some((c, i + esc_char(c).len())),
{
    if c == '"' || c == '\\' || c == '\n' || c == '\r' || c == '\t' {
        assert(s.subrange(i, i + 2)[0] == esc_char(c)[0]);
        assert(s.subrange(i, i + 2)[1] == esc_char(c)[1]);
    } else if (c as int) < 32 {
        assert(s.subrange(i, i + 6)[0] == esc_char(c)[0]);
        assert(s.subrange(i, i + 6)[1] == esc_char(c)[1]);
        assert(s.subrange(i, i + 6)[2] == esc_char(c)[2]);
        assert(s.subrange(i, i + 6)[3] == esc_char(c)[3]);
        assert(s.subrange(i, i + 6)[4] == esc_char(c)[4]);
        assert(s.subrange(i, i + 6)[5] == esc_char(c)[5]);
        let hi = c as int / 16;
        let lo = c as int % 16;
        assert(c as int >= 0) by {
            assert(c as int == (c as u32) as int);
        }
        lemma_hex_char(hi);
        lemma_hex_char(lo);
        assert(s[i + 4] == hex_char(hi) && s[i + 5] == hex_char(lo));
        let code = hex_val(s[i + 4]) * 16 + hex_val(s[i + 5]);
        assert(code == c as int) by {
            vstd::arithmetic::div_mod::lemma_fundamental_div_mod(c as int, 16);
        }
        assert((code as u32) == c as u32) by {
            assert(c as int == (c as u32) as int);
        }
        vstd::utf8::char_u32_cast(c, code as u32);
        assert(((code as u32) as char) == c);
    } else {
        assert(s.subrange(i, i + 1)[0] == c);
    }
}

/// A region that holds the escaped characters of `v` from `k` on, closed by
/// a quote, parses back to those characters.
pub proof fn lemma_rt_str_body(s: Seq<char>, i: int, v: Seq<char>, k: int)
    requires
        0 <= k <= v.len(),
        0 <= i,
        i + escape_from(v, k).len() + 1 <= s.len(),
        s.subrange(i, i + escape_from(v, k).len() + 1) == escape_from(v, k) + seq!['"'],
    ensures
        sp_str_body(s, i) == Some(
            (v.subrange(k, v.len() as int), i + escape_from(v, k).len() + 1),
        ),
    decreases v.len() - k,
{
    if k == v.len() {
        assert(s.subrange(i, i + 1)[0] == (escape_from(v, k) + seq!['"'])[0]);
        assert(s[i] == '"');
        assert(v.subrange(k, v.len() as int) =~= Seq::<char>::empty());
    } else {
        let e0 = esc_char(v[k]);
        let rest = escape_from(v, k + 1);
        assert(escape_from(v, k) + seq!['"'] =~= e0 + (rest + seq!['"']));
        lemma_peel(s, i, e0, rest + seq!['"']);
        lemma_rt_str_char(s, i, v[k]);
        lemma_esc_shape(v[k]);
        assert(s.subrange(i, i + e0.len())[0] == e0[0]);
        assert(s[i] != '"');
        let j = i + e0.len();
        lemma_rt_str_body(s, j, v, k + 1);
        assert(seq![v[k]] + v.subrange(k + 1, v.len() as int) =~= v.subrange(k, v.len() as int));
    }
}

/// A region that holds a written string parses back to that string.
pub proof fn lemma_rt_string(s: Seq<char>, i: int, v: Seq<char>)
    requires
        0 <= i,
        i + enc_string(v).len() <= s.len(),
        s.subrange(i, i + enc_string(v).len()) == enc_string(v),
    ensures
        sp_string(s, i) == Some((v, i + enc_string(v).len())),
{
    assert(enc_string(v) =~= seq!['"'] + (escape_from(v, 0) + seq!['"']));
    lemma_peel(s, i, seq!['"'], escape_from(v, 0) + seq!['"']);
    assert(s.subrange(i, i + 1)[0] == '"');
    lemma_rt_str_body(s, i + 1, v, 0);
    assert(v.subrange(0, v.len() as int) =~= v);
}

/// What follows a tag-array element in the canonical text: either the next
/// separated elements or nothing, then the closing bracket.
pub open spec fn tags_tail(tags: Seq<Seq<char>>, k: int) -> Seq<char> {
    (if k + 1 < tags.len() {
        ", "@ + enc_tags_from(tags, k + 1)
    } else {
        Seq::empty()
    }) + seq![']']
}

/// After a written element, the rest of a written tag array parses back to
/// the remaining elements.
pub proof fn lemma_rt_tags_rest(
    s: Seq<char>,
    j: int,
    tags: Seq<Seq<char>>,
    k: int,
    acc: Seq<Seq<char>>,
)
    requires
        0 <= k < tags.len(),
        0 <= j,
        j + tags_tail(tags, k).len() <= s.len(),
        s.subrange(j, j + tags_tail(tags, k).len()) == tags_tail(tags, k),
    ensures
        sp_tags_rest(s, j, acc) == Some(
            (acc + tags.subrange(k + 1, tags.len() as int), j + tags_tail(tags, k).len()),
        ),
    decreases tags.len() - k,
{
    reveal_strlit(", ");
    if k + 1 == tags.len() {
        assert(tags_tail(tags, k) =~= seq![']']);
        assert(s.subrange(j, j + 1)[0] == ']');
        assert(s[j] == ']');
        assert(sp_ws(s, j) == j);
        assert(acc + tags.subrange(k + 1, tags.len() as int) =~= acc);
    } else {
        let e1 = enc_string(tags[k + 1]);
        let t1 = tags_tail(tags, k + 1);
        assert(tags_tail(tags, k) =~= ", "@ + (e1 + t1));
        lemma_peel(s, j, ", "@, e1 + t1);
        assert(s.subrange(j, j + 2)[0] == ", "@[0]);
        assert(s.subrange(j, j + 2)[1] == ", "@[1]);
        assert(s[j] == ',' && s[j + 1] == ' ');
        assert(sp_ws(s, j) == j);
        lemma_peel(s, j + 2, e1, t1);
        assert(s.subrange(j + 2, j + 2 + e1.len())[0] == e1[0]);
        assert(enc_string(tags[k + 1])[0] == '"');
        assert(s[j + 2] == '"');
        lemma_ws_run(s, j + 1, j + 2);
        lemma_rt_string(s, j + 2, tags[k + 1]);
        let j2 = j + 2 + e1.len();
        lemma_rt_tags_rest(s, j2, tags, k + 1, acc.push(tags[k + 1]));
        assert(acc.push(tags[k + 1]) + tags.subrange(k + 2, tags.len() as int) =~= acc
            + tags.subrange(k + 1, tags.len() as int));
    }
}

/// A region that holds a written tag array parses back to that array.
pub proof fn lemma_rt_tags(s: Seq<char>, i: int, tags: Seq<Seq<char>>)
    requires
        0 <= i,
        i + enc_tags(tags).len() <= s.len(),
        s.subrange(i, i + enc_tags(tags).len()) == enc_tags(tags),
    ensures
        sp_tags(s, i) == Some((tags, i + enc_tags(tags).len())),
{
    assert(s.subrange(i, i + enc_tags(tags).len())[0] == enc_tags(tags)[0]);
    assert(s[i] == '[');
    if tags.len() == 0 {
        assert(enc_tags(tags) =~= seq!['[', ']']);
        assert(s.subrange(i, i + 2)[1] == ']');
        assert(s[i + 1] == ']');
        assert(sp_ws(s, i + 1) == i + 1);
        assert(tags =~= Seq::<Seq<char>>::empty());
    } else {
        let e0 = enc_string(tags[0]);
        let t0 = tags_tail(tags, 0);
        assert(enc_tags_from(tags, 0) + seq![']'] =~= e0 + t0);
        assert(enc_tags(tags) =~= seq!['['] + (e0 + t0));
        lemma_peel(s, i, seq!['['], e0 + t0);
        lemma_peel(s, i + 1, e0, t0);
        assert(s.subrange(i + 1, i + 1 + e0.len())[0] == e0[0]);
        assert(e0[0] == '"');
        assert(s[i + 1] == '"');
        assert(sp_ws(s, i + 1) == i + 1);
        lemma_rt_string(s, i + 1, tags[0]);
        let j0 = i + 1 + e0.len();
        lemma_rt_tags_rest(s, j0, tags, 0, seq![tags[0]]);
        assert(seq![tags[0]] + tags.subrange(1, tags.len() as int) =~= tags);
    }
}

/// A key region shaped `"key": ` (whitespace already behind, one space
/// after the colon, a non-blank value next) parses as that key.
pub proof fn lemma_rt_key(s: Seq<char>, i: int, p: int, key: Seq<char>)
    requires
        sp_ws(s, i) == p,
        0 <= p,
        p + key.len() + 2 <= s.len(),
        s.subrange(p, p + key.len()) == key,
        s[p + key.len()] == ':',
        s[p + key.len() + 1] == ' ',
        p + key.len() + 2 == s.len() || !is_ws(s[p + key.len() + 2]),
    ensures
        sp_key(s, i, key) == Some(p + key.len() + 2),
{
    assert(sp_lit(s, p, key) == Some(p + key.len()));
    assert(sp_ws(s, p + key.len()) == p + key.len());
    lemma_ws_run(s, p + key.len() + 1, p + key.len() + 2);
}

/// A region that holds a written task entry parses back to that entry.
#[verifier::rlimit(100)]
pub proof fn lemma_rt_entry(s: Seq<char>, i: int, t: TaskView)
    requires
        t.id_in_range(),
        0 <= i,
        i + enc_entry(t).len() <= s.len(),
        s.subrange(i, i + enc_entry(t).len()) == enc_entry(t),
    ensures
        sp_entry(s, i) == Some((t, i + enc_entry(t).len())),
{
    reveal_strlit("{\"id\": ");
    reveal_strlit(", \"name\": ");
    reveal_strlit(", \"description\": ");
    reveal_strlit(", \"tags\": ");
    reveal_strlit(", \"completed\": ");
    reveal_strlit("\"id\"");
    reveal_strlit("\"name\"");
    reveal_strlit("\"description\"");
    reveal_strlit("\"tags\"");
    reveal_strlit("\"completed\"");
    reveal_strlit(", ");
    reveal_strlit(": ");
    reveal_strlit("true");
    reveal_strlit("false");
    let l1 = "{\"id\": "@;
    let l2 = ", \"name\": "@;
    let l3 = ", \"description\": "@;
    let l4 = ", \"tags\": "@;
    let l5 = ", \"completed\": "@;
    let x_id = enc_int(t.id);
    let x_nm = enc_string(t.name);
    let x_ds = enc_string(t.description);
    let x_tg = enc_tags(t.tags);
    let x_bl = enc_bool(t.completed);
    let a1 = l1 + x_id;
    let a2 = a1 + l2;
    let a3 = a2 + x_nm;
    let a4 = a3 + l3;
    let a5 = a4 + x_ds;
    let a6 = a5 + l4;
    let a7 = a6 + x_tg;
    let a8 = a7 + l5;
    let a9 = a8 + x_bl;
    assert(enc_entry(t) == a9 + seq!['}']);
    lemma_peel(s, i, a9, seq!['}']);
    lemma_peel(s, i, a8, x_bl);
    lemma_peel(s, i, a7, l5);
    lemma_peel(s, i, a6, x_tg);
    lemma_peel(s, i, a5, l4);
    lemma_peel(s, i, a4, x_ds);
    lemma_peel(s, i, a3, l3);
    lemma_peel(s, i, a2, x_nm);
    lemma_peel(s, i, a1, l2);
    lemma_peel(s, i, l1, x_id);
    let p1 = i + l1.len();
    let p2 = p1 + x_id.len();
    let p3 = p2 + l2.len();
    let p4 = p3 + x_nm.len();
    let p5 = p4 + l3.len();
    let p6 = p5 + x_ds.len();
    let p7 = p6 + l4.len();
    let p8 = p7 + x_tg.len();
    let p9 = p8 + l5.len();
    let p10 = p9 + x_bl.len();
    // the opening brace and the id key
    assert(l1 =~= seq!['{'] + ("\"id\""@ + ": "@));
    lemma_peel(s, i, seq!['{'], "\"id\""@ + ": "@);
    lemma_peel(s, i + 1, "\"id\""@, ": "@);
    assert(s.subrange(i, i + 1)[0] == '{');
    assert(s[i] == '{');
    assert(s.subrange(i + 1, i + 5)[0] == '"');
    assert(s[i + 1] == '"');
    assert(s.subrange(i + 5, i + 7)[0] == ':' && s.subrange(i + 5, i + 7)[1] == ' ');
    assert(s[i + 5] == ':' && s[i + 6] == ' ');
    // the integer value starts with a minus sign or a digit, so the key's
    // trailing whitespace ends right before it
    assert(s.subrange(p1, p2)[0] == x_id[0]);
    if t.id < 0 {
        assert(x_id[0] == '-');
    } else {
        lemma_enc_nat_shape(t.id);
    }
    assert(!is_ws(s[p1]));
    assert(sp_ws(s, i + 1) == i + 1);
    lemma_rt_key(s, i + 1, i + 1, "\"id\""@);
    assert(sp_key(s, i + 1, "\"id\""@) == Some(p1));
    // the id itself, delimited by the comma that follows
    assert(s.subrange(p2, p3)[0] == l2[0]);
    assert(s[p2] == ',');
    lemma_rt_num(s, p1, t.id);
    assert(sp_ws(s, p2) == p2);
    // the name key and value
    assert(l2 =~= ", "@ + ("\"name\""@ + ": "@));
    lemma_peel(s, p2, ", "@, "\"name\""@ + ": "@);
    lemma_peel(s, p2 + 2, "\"name\""@, ": "@);
    assert(s.subrange(p2, p2 + 2)[1] == ' ');
    assert(s[p2 + 1] == ' ');
    assert(s.subrange(p2 + 2, p2 + 8)[0] == '"');
    assert(s[p2 + 2] == '"');
    assert(s.subrange(p2 + 8, p2 + 10)[0] == ':' && s.subrange(p2 + 8, p2 + 10)[1] == ' ');
    assert(s.subrange(p3, p4)[0] == x_nm[0]);
    assert(s[p3] == '"');
    lemma_ws_run(s, p2 + 1, p2 + 2);
    lemma_rt_key(s, p2 + 1, p2 + 2, "\"name\""@);
    assert(sp_key(s, p2 + 1, "\"name\""@) == Some(p3));
    lemma_rt_string(s, p3, t.name);
    assert(s.subrange(p4, p5)[0] == l3[0]);
    assert(s[p4] == ',');
    assert(sp_ws(s, p4) == p4);
    // the description key and value
    assert(l3 =~= ", "@ + ("\"description\""@ + ": "@));
    lemma_peel(s, p4, ", "@, "\"description\""@ + ": "@);
    lemma_peel(s, p4 + 2, "\"description\""@, ": "@);
    assert(s.subrange(p4, p4 + 2)[1] == ' ');
    assert(s[p4 + 1] == ' ');
    assert(s.subrange(p4 + 2, p4 + 15)[0] == '"');
    assert(s[p4 + 2] == '"');
    assert(s.subrange(p4 + 15, p4 + 17)[0] == ':' && s.subrange(p4 + 15, p4 + 17)[1] == ' ');
    assert(s.subrange(p5, p6)[0] == x_ds[0]);
    assert(s[p5] == '"');
    lemma_ws_run(s, p4 + 1, p4 + 2);
    lemma_rt_key(s, p4 + 1, p4 + 2, "\"description\""@);
    assert(sp_key(s, p4 + 1, "\"description\""@) == Some(p5));
    lemma_rt_string(s, p5, t.description);
    assert(s.subrange(p6, p7)[0] == l4[0]);
    assert(s[p6] == ',');
    assert(sp_ws(s, p6) == p6);
    // the tags key and value
    assert(l4 =~= ", "@ + ("\"tags\""@ + ": "@));
    lemma_peel(s, p6, ", "@, "\"tags\""@ + ": "@);
    lemma_peel(s, p6 + 2, "\"tags\""@, ": "@);
    assert(s.subrange(p6, p6 + 2)[1] == ' ');
    assert(s[p6 + 1] == ' ');
    assert(s.subrange(p6 + 2, p6 + 8)[0] == '"');
    assert(s[p6 + 2] == '"');
    assert(s.subrange(p6 + 8, p6 + 10)[0] == ':' && s.subrange(p6 + 8, p6 + 10)[1] == ' ');
    assert(s.subrange(p7, p8)[0] == x_tg[0]);
    assert(s[p7] == '[');
    lemma_ws_run(s, p6 + 1, p6 + 2);
    lemma_rt_key(s, p6 + 1, p6 + 2, "\"tags\""@);
    assert(sp_key(s, p6 + 1, "\"tags\""@) == Some(p7));
    lemma_rt_tags(s, p7, t.tags);
    assert(s.subrange(p8, p9)[0] == l5[0]);
    assert(s[p8] == ',');
    assert(sp_ws(s, p8) == p8);
    // the completed key and value
    assert(l5 =~= ", "@ + ("\"completed\""@ + ": "@));
    lemma_peel(s, p8, ", "@, "\"completed\""@ + ": "@);
    lemma_peel(s, p8 + 2, "\"completed\""@, ": "@);
    assert(s.subrange(p8, p8 + 2)[1] == ' ');
    assert(s[p8 + 1] == ' ');
    assert(s.subrange(p8 + 2, p8 + 13)[0] == '"');
    assert(s[p8 + 2] == '"');
    assert(s.subrange(p8 + 13, p8 + 15)[0] == ':' && s.subrange(p8 + 13, p8 + 15)[1] == ' ');
    assert(s.subrange(p9, p10)[0] == x_bl[0]);
    assert(!is_ws(s[p9]));
    lemma_ws_run(s, p8 + 1, p8 + 2);
    lemma_rt_key(s, p8 + 1, p8 + 2, "\"completed\""@);
    assert(sp_key(s, p8 + 1, "\"completed\""@) == Some(p9));
    lemma_rt_bool(s, p9, t.completed);
    // the closing brace
    assert(s.subrange(p10, p10 + 1)[0] == '}');
    assert(s[p10] == '}');
    assert(sp_ws(s, p10) == p10);
    assert(sp_entry_tail(s, p8 + 1, t.id, t.name, t.description, t.tags) == Some((t, p10 + 1)));
    assert(sp_entry(s, i) == Some((t, p10 + 1)));
}

/// What follows an entry line in the canonical text: either the next
/// separated entry lines or the closing indentation, then the bracket.
pub open spec fn items_tail(ts: Seq<TaskView>, k: int) -> Seq<char> {
    (if k + 1 < ts.len() {
        ",\n"@ + enc_items_from(ts, k + 1)
    } else {
        "\n  "@
    }) + seq![']']
}

/// After a written entry, the rest of a written entry array parses back to
/// the remaining entries.
#[verifier::rlimit(100)]
pub proof fn lemma_rt_items_rest(
    s: Seq<char>,
    j: int,
    ts: Seq<TaskView>,
    k: int,
    acc: Seq<TaskView>,
)
    requires
        0 <= k < ts.len(),
        forall|m: int| 0 <= m < ts.len() ==> (#[trigger] ts[m]).id_in_range(),
        0 <= j,
        j + items_tail(ts, k).len() <= s.len(),
        s.subrange(j, j + items_tail(ts, k).len()) == items_tail(ts, k),
    ensures
        sp_entries_rest(s, j, acc) == Some(
            (acc + ts.subrange(k + 1, ts.len() as int), j + items_tail(ts, k).len()),
        ),
    decreases ts.len() - k,
{
    reveal_strlit(",\n");
    reveal_strlit("\n  ");
    reveal_strlit("    ");
    reveal_strlit("{\"id\": ");
    if k + 1 == ts.len() {
        assert(items_tail(ts, k) =~= "\n  "@ + seq![']']);
        lemma_peel(s, j, "\n  "@, seq![']']);
        assert(s.subrange(j, j + 3)[0] == '\n');
        assert(s.subrange(j, j + 3)[1] == ' ');
        assert(s.subrange(j, j + 3)[2] == ' ');
        assert(s.subrange(j + 3, j + 4)[0] == ']');
        assert(s[j] == '\n' && s[j + 1] == ' ' && s[j + 2] == ' ' && s[j + 3] == ']');
        lemma_ws_run(s, j, j + 3);
        assert(acc + ts.subrange(k + 1, ts.len() as int) =~= acc);
    } else {
        let e1 = enc_entry(ts[k + 1]);
        let t1 = items_tail(ts, k + 1);
        assert(items_tail(ts, k) =~= ",\n"@ + ("    "@ + (e1 + t1)));
        lemma_peel(s, j, ",\n"@, "    "@ + (e1 + t1));
        lemma_peel(s, j + 2, "    "@, e1 + t1);
        lemma_peel(s, j + 6, e1, t1);
        assert(s.subrange(j, j + 2)[0] == ',');
        assert(s.subrange(j, j + 2)[1] == '\n');
        assert(s.subrange(j + 2, j + 6)[0] == ' ');
        assert(s.subrange(j + 2, j + 6)[1] == ' ');
        assert(s.subrange(j + 2, j + 6)[2] == ' ');
        assert(s.subrange(j + 2, j + 6)[3] == ' ');
        assert(s[j] == ',' && s[j + 1] == '\n');
        assert(s[j + 2] == ' ' && s[j + 3] == ' ' && s[j + 4] == ' ' && s[j + 5] == ' ');
        assert(s.subrange(j + 6, j + 6 + e1.len())[0] == e1[0]);
        assert(e1[0] == '{');
        assert(s[j + 6] == '{');
        assert(sp_ws(s, j) == j);
        lemma_ws_run(s, j + 1, j + 6);
        lemma_rt_entry(s, j + 6, ts[k + 1]);
        let j2 = j + 6 + e1.len();
        lemma_rt_items_rest(s, j2, ts, k + 1, acc.push(ts[k + 1]));
        assert(acc.push(ts[k + 1]) + ts.subrange(k + 2, ts.len() as int) =~= acc + ts.subrange(
            k + 1,
            ts.len() as int,
        ));
    }
}

/// The layout of the canonical text of an empty task collection.
proof fn lemma_doc_skeleton_empty(ts: Seq<TaskView>)
    requires
        ts.len() == 0,
    ensures
        enc_tasks_doc(ts).len() == 17,
        enc_tasks_doc(ts).subrange(0, 14) == "{\n  \"tasks\": ["@,
        enc_tasks_doc(ts).subrange(14, 17) == "]\n}"@,
{
    let s = enc_tasks_doc(ts);
    let h = "{\n  \"tasks\": ["@;
    reveal_strlit("{\n  \"tasks\": [");
    reveal_strlit("]\n}");
    assert(s.subrange(0, s.len() as int) =~= s);
    assert(h + Seq::<char>::empty() =~= h);
    lemma_peel(s, 0, h, "]\n}"@);
}

/// The layout of the canonical text of a non-empty task collection: the
/// header, the first entry line, the remaining lines, and the footer.
proof fn lemma_doc_skeleton_nonempty(ts: Seq<TaskView>)
    requires
        ts.len() > 0,
    ensures
        enc_tasks_doc(ts).len() == 19 + enc_entry(ts[0]).len() + items_tail(ts, 0).len() + 2,
        enc_tasks_doc(ts).subrange(0, 14) == "{\n  \"tasks\": ["@,
        enc_tasks_doc(ts).subrange(14, 19) == "\n    "@,
        enc_tasks_doc(ts).subrange(19, 19 + enc_entry(ts[0]).len() as int) == enc_entry(ts[0]),
        enc_tasks_doc(ts).subrange(
            19 + enc_entry(ts[0]).len() as int,
            19 + enc_entry(ts[0]).len() + items_tail(ts, 0).len() as int,
        ) == items_tail(ts, 0),
        enc_tasks_doc(ts).subrange(
            19 + enc_entry(ts[0]).len() + items_tail(ts, 0).len() as int,
            19 + enc_entry(ts[0]).len() + items_tail(ts, 0).len() + 2 as int,
        ) == "\n}"@,
{
    let s = enc_tasks_doc(ts);
    let h = "{\n  \"tasks\": ["@;
    let e0 = enc_entry(ts[0]);
    let t0 = items_tail(ts, 0);
    reveal_strlit("{\n  \"tasks\": [");
    reveal_strlit("]\n}");
    reveal_strlit("\n    ");
    reveal_strlit("    ");
    reveal_strlit("\n  ");
    reveal_strlit(",\n");
    reveal_strlit("\n}");
    assert(s.subrange(0, s.len() as int) =~= s);
    assert(s =~= h + ("\n    "@ + (e0 + (t0 + "\n}"@))));
    lemma_peel(s, 0, h, "\n    "@ + (e0 + (t0 + "\n}"@)));
    lemma_peel(s, 14, "\n    "@, e0 + (t0 + "\n}"@));
    lemma_peel(s, 19, e0, t0 + "\n}"@);
    lemma_peel(s, 19 + e0.len() as int, t0, "\n}"@);
}

/// A text that opens with the canonical header parses up to the entry
/// array: the object brace, the `tasks` key, and the bracket.
proof fn lemma_doc_header(s: Seq<char>)
    requires
        s.len() >= 14,
        s.subrange(0, 14) == "{\n  \"tasks\": ["@,
    ensures
        sp_ws(s, 0) == 0,
        s[0] == '{',
        sp_key(s, 1, "\"tasks\""@) == Some(13int),
        s[13] == '[',
{
    reveal_strlit("{\n  \"tasks\": [");
    reveal_strlit("\"tasks\"");
    assert(s.subrange(0, 14)[0] == '{' && s.subrange(0, 14)[1] == '\n');
    assert(s.subrange(0, 14)[2] == ' ' && s.subrange(0, 14)[3] == ' ');
    assert(s.subrange(0, 14)[11] == ':' && s.subrange(0, 14)[12] == ' ');
    assert(s.subrange(0, 14)[13] == '[');
    assert(s[0] == '{' && s[1] == '\n' && s[2] == ' ' && s[3] == ' ');
    assert(s[11] == ':' && s[12] == ' ' && s[13] == '[');
    assert(s.subrange(0, 14)[4] == '"');
    assert(s[4] == '"');
    assert forall|m: int| 0 <= m < 7 implies s.subrange(4, 11)[m] == "\"tasks\""@[m] by {
        assert(s.subrange(4, 11)[m] == s.subrange(0, 14)[4 + m]);
    }
    assert(s.subrange(4, 11) =~= "\"tasks\""@);
    assert(sp_ws(s, 0) == 0);
    lemma_ws_run(s, 1, 4);
    lemma_rt_key(s, 1, 4, "\"tasks\""@);
}

/// A text that holds a written first entry line and the written remaining
/// lines after its bracket parses as the whole entry array.
proof fn lemma_doc_entries(s: Seq<char>, ts: Seq<TaskView>)
    requires
        ts.len() > 0,
        forall|m: int| 0 <= m < ts.len() ==> (#[trigger] ts[m]).id_in_range(),
        19 + enc_entry(ts[0]).len() + items_tail(ts, 0).len() <= s.len(),
        s[13] == '[',
        s.subrange(14, 19) == "\n    "@,
        s.subrange(19, 19 + enc_entry(ts[0]).len() as int) == enc_entry(ts[0]),
        s.subrange(
            19 + enc_entry(ts[0]).len() as int,
            19 + enc_entry(ts[0]).len() + items_tail(ts, 0).len() as int,
        ) == items_tail(ts, 0),
    ensures
        sp_entries(s, 13) == Some(
            (ts, 19 + enc_entry(ts[0]).len() + items_tail(ts, 0).len() as int),
        ),
{
    reveal_strlit("\n    ");
    reveal_strlit("{\"id\": ");
    let e0 = enc_entry(ts[0]);
    let j0: int = 19int + e0.len() as int;
    let je: int = j0 + items_tail(ts, 0).len() as int;
    assert(s.subrange(14, 19)[0] == '\n' && s.subrange(14, 19)[1] == ' ');
    assert(s.subrange(14, 19)[2] == ' ' && s.subrange(14, 19)[3] == ' ');
    assert(s.subrange(14, 19)[4] == ' ');
    assert(s[14] == '\n' && s[15] == ' ' && s[16] == ' ' && s[17] == ' ' && s[18] == ' ');
    assert(s.subrange(19, j0)[0] == e0[0]);
    assert(e0[0] == '{');
    assert(s[19] == '{');
    lemma_ws_run(s, 14, 19);
    lemma_rt_entry(s, 19, ts[0]);
    lemma_rt_items_rest(s, j0, ts, 0, seq![ts[0]]);
    assert(seq![ts[0]] + ts.subrange(1, ts.len() as int) =~= ts);
}

/// With the header, the entry array, and the footer each parsed, the whole
/// document parses to the array's entries.
proof fn lemma_doc_close(s: Seq<char>, ts: Seq<TaskView>, je: int)
    requires
        0 <= je,
        sp_ws(s, 0) == 0,
        0 < s.len(),
        s[0] == '{',
        sp_key(s, 1, "\"tasks\""@) == Some(13int),
        sp_entries(s, 13) == Some((ts, je)),
        je + 2 == s.len(),
        s[je] == '\n',
        s[je + 1] == '}',
    ensures
        sp_tasks_doc(s) == Some(ts),
{
    lemma_ws_run(s, je, je + 1);
    assert(sp_ws(s, je + 2) == je + 2);
}

/// The canonical text of a task collection parses back to exactly that
/// collection.
#[verifier::rlimit(100)]
pub proof fn lemma_rt_tasks_doc(ts: Seq<TaskView>)
    requires
        forall|m: int| 0 <= m < ts.len() ==> (#[trigger] ts[m]).id_in_range(),
    ensures
        sp_tasks_doc(enc_tasks_doc(ts)) == Some(ts),
{
    let s = enc_tasks_doc(ts);
    if ts.len() == 0 {
        lemma_doc_skeleton_empty(ts);
        lemma_doc_header(s);
        reveal_strlit("]\n}");
        assert(s.subrange(14, 17)[0] == ']' && s.subrange(14, 17)[1] == '\n');
        assert(s.subrange(14, 17)[2] == '}');
        assert(s[14] == ']' && s[15] == '\n' && s[16] == '}');
        assert(sp_ws(s, 14) == 14);
        assert(ts =~= Seq::<TaskView>::empty());
        assert(sp_entries(s, 13) == Some((ts, 15int)));
        lemma_doc_close(s, ts, 15);
    } else {
        lemma_doc_skeleton_nonempty(ts);
        lemma_doc_header(s);
        let e0 = enc_entry(ts[0]);
        let j0: int = 19int + e0.len() as int;
        let je: int = j0 + items_tail(ts, 0).len() as int;
        lemma_doc_entries(s, ts);
        reveal_strlit("\n}");
        assert(s.subrange(je, je + 2)[0] == '\n' && s.subrange(je, je + 2)[1] == '}');
        assert(s[je] == '\n' && s[je + 1] == '}');
        lemma_doc_close(s, ts, je);
    }
}

/// The layout of the canonical settings text: the three labelled values
/// and the footer.
proof fn lemma_settings_skeleton(run: bool, x: int, y: int)
    ensures
        ({
            let s = enc_settings_doc(run, x, y);
            let p2 = 11 + enc_bool(run).len() as int;
            let p3 = p2 + 9;
            let p4 = p3 + enc_int(x).len() as int;
            let p5 = p4 + 9;
            let p6 = p5 + enc_int(y).len() as int;
            &&& s.len() == p6 + 2
            &&& s.subrange(0, 11) == "{\n  \"run\": "@
            &&& s.subrange(11, p2) == enc_bool(run)
            &&& s.subrange(p2, p3) == ",\n  \"x\": "@
            &&& s.subrange(p3, p4) == enc_int(x)
            &&& s.subrange(p4, p5) == ",\n  \"y\": "@
            &&& s.subrange(p5, p6) == enc_int(y)
            &&& s.subrange(p6, p6 + 2) == "\n}"@
        }),
{
    let s = enc_settings_doc(run, x, y);
    let xb = enc_bool(run);
    let xx = enc_int(x);
    let xy = enc_int(y);
    reveal_strlit("{\n  \"run\": ");
    reveal_strlit(",\n  \"x\": ");
    reveal_strlit(",\n  \"y\": ");
    reveal_strlit("\n}");
    let a1 = "{\n  \"run\": "@ + xb;
    let a2 = a1 + ",\n  \"x\": "@;
    let a3 = a2 + xx;
    let a4 = a3 + ",\n  \"y\": "@;
    let a5 = a4 + xy;
    assert(s == a5 + "\n}"@);
    assert(s.subrange(0, s.len() as int) =~= s);
    lemma_peel(s, 0, a5, "\n}"@);
    lemma_peel(s, 0, a4, xy);
    lemma_peel(s, 0, a3, ",\n  \"y\": "@);
    lemma_peel(s, 0, a2, xx);
    lemma_peel(s, 0, a1, ",\n  \"x\": "@);
    lemma_peel(s, 0, "{\n  \"run\": "@, xb);
}

/// The canonical text of the settings record parses back to exactly that
/// record.
#[verifier::rlimit(100)]
pub proof fn lemma_rt_settings_doc(run: bool, x: int, y: int)
    requires
        i32::MIN <= x <= i32::MAX,
        i32::MIN <= y <= i32::MAX,
    ensures
        sp_settings_doc(enc_settings_doc(run, x, y)) == Some((run, x, y)),
{
    reveal_strlit("{\n  \"run\": ");
    reveal_strlit(",\n  \"x\": ");
    reveal_strlit(",\n  \"y\": ");
    reveal_strlit("\n}");
    reveal_strlit("\"run\"");
    reveal_strlit("\"x\"");
    reveal_strlit("\"y\"");
    reveal_strlit("true");
    reveal_strlit("false");
    lemma_settings_skeleton(run, x, y);
    let s = enc_settings_doc(run, x, y);
    let xb = enc_bool(run);
    let xx = enc_int(x);
    let xy = enc_int(y);
    let p1 = 11int;
    let p2: int = p1 + xb.len() as int;
    let p3: int = p2 + 9;
    let p4: int = p3 + xx.len() as int;
    let p5: int = p4 + 9;
    let p6: int = p5 + xy.len() as int;
    assert(s.subrange(0, 11)[0] == '{' && s.subrange(0, 11)[1] == '\n');
    assert(s.subrange(0, 11)[2] == ' ' && s.subrange(0, 11)[3] == ' ');
    assert(s.subrange(0, 11)[9] == ':' && s.subrange(0, 11)[10] == ' ');
    assert(s[0] == '{' && s[1] == '\n' && s[2] == ' ' && s[3] == ' ');
    assert(s[9] == ':' && s[10] == ' ');
    assert(s.subrange(4, 9) =~= "\"run\""@);
    assert(s.subrange(p1, p2)[0] == xb[0]);
    assert(!is_ws(s[p1]));
    assert(sp_ws(s, 0) == 0);
    lemma_ws_run(s, 1, 4);
    lemma_rt_key(s, 1, 4, "\"run\""@);
    lemma_rt_bool(s, p1, run);
    assert(s.subrange(p2, p3)[0] == ',' && s.subrange(p2, p3)[1] == '\n');
    assert(s.subrange(p2, p3)[2] == ' ' && s.subrange(p2, p3)[3] == ' ');
    assert(s.subrange(p2, p3)[7] == ':' && s.subrange(p2, p3)[8] == ' ');
    assert(s[p2] == ',' && s[p2 + 1] == '\n' && s[p2 + 2] == ' ' && s[p2 + 3] == ' ');
    assert(s[p2 + 7] == ':' && s[p2 + 8] == ' ');
    assert(s.subrange(p2 + 4, p2 + 7) =~= "\"x\""@);
    assert(s.subrange(p3, p4)[0] == xx[0]);
    if x < 0 {
        assert(xx[0] == '-');
    } else {
        lemma_enc_nat_shape(x);
    }
    assert(!is_ws(s[p3]));
    assert(sp_ws(s, p2) == p2);
    lemma_ws_run(s, p2 + 1, p2 + 4);
    lemma_rt_key(s, p2 + 1, p2 + 4, "\"x\""@);
    assert(s.subrange(p4, p5)[0] == ',');
    assert(s[p4] == ',');
    lemma_rt_num(s, p3, x);
    assert(sp_ws(s, p4) == p4);
    assert(s.subrange(p4, p5)[1] == '\n' && s.subrange(p4, p5)[2] == ' ');
    assert(s.subrange(p4, p5)[3] == ' ');
    assert(s.subrange(p4, p5)[7] == ':' && s.subrange(p4, p5)[8] == ' ');
    assert(s[p4 + 1] == '\n' && s[p4 + 2] == ' ' && s[p4 + 3] == ' ');
    assert(s[p4 + 7] == ':' && s[p4 + 8] == ' ');
    assert(s.subrange(p4 + 4, p4 + 7) =~= "\"y\""@);
    assert(s.subrange(p5, p6)[0] == xy[0]);
    if y < 0 {
        assert(xy[0] == '-');
    } else {
        lemma_enc_nat_shape(y);
    }
    assert(!is_ws(s[p5]));
    lemma_ws_run(s, p4 + 1, p4 + 4);
    lemma_rt_key(s, p4 + 1, p4 + 4, "\"y\""@);
    assert(s.subrange(p6, p6 + 2)[0] == '\n' && s.subrange(p6, p6 + 2)[1] == '}');
    assert(s[p6] == '\n' && s[p6 + 1] == '}');
    lemma_rt_num(s, p5, y);
    lemma_ws_run(s, p6, p6 + 1);
    assert(sp_ws(s, p6 + 2) == p6 + 2);
    assert(p6 + 2 == s.len());
}

} // verus!

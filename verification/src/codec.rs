//! The persisted representation of the task collection: one structured text
//! document, written and read by this module.
//!
//! The writer emits a canonical form: an array of objects with the fields
//! id, description, status, created_at and updated_at, no whitespace, string
//! values with `\"` and `\\` escapes, numbers in plain decimal. The parser
//! accepts exactly the canonical documents the writer emits — and only
//! documents whose tasks satisfy the task invariant — so a persisted
//! collection reads back unchanged, and anything else fails with
//! `FailedToAccessPersistedData`.

use vstd::prelude::*;
use crate::error::Error;
use crate::task::{
    status_chars, views_of, Task, TaskDescription, TaskId, TaskStatus, TaskView,
};
use crate::text::{
    all_digits, chars_into_string, dec_chars, dec_chars_signed, digit_char, digit_of, digit_val,
    digits_val, is_digit, lemma_digits_val_prefix_le, push_dec_i64, push_dec_u64, push_str_chars,
    str_to_chars,
};

verus! {

/// How one character is written inside a quoted string value.
pub open spec fn esc_char(c: char) -> Seq<char> {
    if c == '"' {
        seq!['\\', '"']
    } else if c == '\\' {
        seq!['\\', '\\']
    } else {
        seq![c]
    }
}

/// How a whole string value is written between its quotes.
pub open spec fn escape(s: Seq<char>) -> Seq<char>
    decreases s.len(),
{
    if s.len() == 0 {
        Seq::empty()
    } else {
        esc_char(s[0]) + escape(s.drop_first())
    }
}

/// The document text of one task.
pub open spec fn spec_encode_task(t: TaskView) -> Seq<char> {
    "{\"id\":"@ + dec_chars(t.id as nat) + ",\"description\":\""@ + escape(t.description)
        + "\",\"status\":\""@ + status_chars(t.status) + "\",\"created_at\":"@ + dec_chars_signed(
        t.created_at as int,
    ) + ",\"updated_at\":"@ + dec_chars_signed(t.updated_at as int) + "}"@
}

/// The document text of the tasks of a collection, comma separated.
pub open spec fn spec_encode_items(ts: Seq<TaskView>) -> Seq<char>
    decreases ts.len(),
{
    if ts.len() == 0 {
        Seq::empty()
    } else if ts.len() == 1 {
        spec_encode_task(ts[0])
    } else {
        spec_encode_task(ts[0]) + seq![','] + spec_encode_items(ts.drop_first())
    }
}

/// The whole document: the items between brackets.
pub open spec fn spec_encode_tasks(ts: Seq<TaskView>) -> Seq<char> {
    seq!['['] + spec_encode_items(ts) + seq![']']
}

/// Appending one element extends the items text by a separator and that
/// element's text.
proof fn lemma_encode_items_snoc(ts: Seq<TaskView>, t: TaskView)
    ensures
        spec_encode_items(ts.push(t)) == if ts.len() == 0 {
            spec_encode_task(t)
        } else {
            spec_encode_items(ts) + seq![','] + spec_encode_task(t)
        },
    decreases ts.len(),
{
    if ts.len() == 0 {
        assert(ts.push(t)[0] == t);
        assert(spec_encode_items(ts.push(t)) == spec_encode_task(t));
    } else {
        assert(ts.push(t).drop_first() =~= ts.drop_first().push(t));
        lemma_encode_items_snoc(ts.drop_first(), t);
        if ts.len() == 1 {
            assert(ts.drop_first().len() == 0);
            assert(spec_encode_items(ts.push(t)) == spec_encode_task(ts[0]) + seq![',']
                + spec_encode_task(t));
            assert(spec_encode_items(ts) == spec_encode_task(ts[0]));
        } else {
            assert(spec_encode_items(ts.push(t)) == spec_encode_task(ts[0]) + seq![','] + (
            spec_encode_items(ts.drop_first()) + seq![','] + spec_encode_task(t)));
            assert(spec_encode_items(ts) + seq![','] + spec_encode_task(t) =~= spec_encode_task(
                ts[0],
            ) + seq![','] + (spec_encode_items(ts.drop_first()) + seq![','] + spec_encode_task(
                t,
            )));
        }
    }
}

/// Escaping one more character appends its escape.
proof fn lemma_escape_snoc(s: Seq<char>, c: char)
    ensures
        escape(s.push(c)) == escape(s) + esc_char(c),
    decreases s.len(),
{
    if s.len() == 0 {
        assert(s.push(c)[0] == c);
        assert(s.push(c).drop_first() =~= Seq::<char>::empty());
        assert(escape(s.push(c)) == esc_char(c) + escape(Seq::<char>::empty()));
        assert(escape(s.push(c)) =~= esc_char(c));
        assert(escape(s) + esc_char(c) =~= esc_char(c));
    } else {
        assert(s.push(c).drop_first() =~= s.drop_first().push(c));
        lemma_escape_snoc(s.drop_first(), c);
        assert(escape(s.push(c)) == esc_char(s[0]) + (escape(s.drop_first()) + esc_char(c)));
        assert(escape(s) + esc_char(c) =~= esc_char(s[0]) + (escape(s.drop_first()) + esc_char(
            c,
        )));
    }
}

/// Appends the escaped form of `s` to `out`.
fn push_escaped(out: &mut Vec<char>, s: &str)
    ensures
        final(out)@ == old(out)@ + escape(s@),
{
    let chars = str_to_chars(s);
    let n = chars.len();
    let mut i: usize = 0;
    while i < n
        invariant
            n == chars.len(),
            chars@ == s@,
            i <= n,
            out@ == old(out)@ + escape(s@.take(i as int)),
        decreases n - i,
    {
        let c = chars[i];
        if c == '"' {
            out.push('\\');
            out.push('"');
        } else if c == '\\' {
            out.push('\\');
            out.push('\\');
        } else {
            out.push(c);
        }
        proof {
            assert(s@.take(i + 1).drop_last() =~= s@.take(i as int));
            lemma_escape_snoc(s@.take(i as int), s@[i as int]);
            assert(s@.take(i as int).push(s@[i as int]) =~= s@.take(i + 1));
            assert(out@ =~= old(out)@ + escape(s@.take(i + 1)));
        }
        i += 1;
    }
    proof {
        assert(s@.take(n as int) =~= s@);
    }
}

/// Appends the document text of one task to `out`.
fn push_task(out: &mut Vec<char>, t: &Task)
    ensures
        final(out)@ == old(out)@ + spec_encode_task(t@),
{
    push_str_chars(out, "{\"id\":");
    push_dec_u64(out, t.id.get() as u64);
    push_str_chars(out, ",\"description\":\"");
    push_escaped(out, t.description.as_str());
    push_str_chars(out, "\",\"status\":\"");
    let token = t.status.token();
    push_str_chars(out, token.as_str());
    push_str_chars(out, "\",\"created_at\":");
    push_dec_i64(out, t.created_at);
    push_str_chars(out, ",\"updated_at\":");
    push_dec_i64(out, t.updated_at);
    out.push('}');
    proof {
        reveal_strlit("}");
        assert("}"@ =~= seq!['}']);
        assert(out@ =~= old(out)@ + spec_encode_task(t@));
    }
}

/// Writes the whole collection as one document.
pub fn encode_tasks(tasks: &Vec<Task>) -> (s: String)
    ensures
        s@ == spec_encode_tasks(views_of(tasks@)),
{
    let mut out: Vec<char> = Vec::new();
    out.push('[');
    let n = tasks.len();
    let mut i: usize = 0;
    while i < n
        invariant
            n == tasks.len(),
            i <= n,
            out@ == seq!['['] + spec_encode_items(views_of(tasks@).take(i as int)),
        decreases n - i,
    {
        if i > 0 {
            out.push(',');
        }
        push_task(&mut out, &tasks[i]);
        proof {
            let vs = views_of(tasks@);
            assert(vs.take(i as int).push(vs[i as int]) =~= vs.take(i + 1));
            lemma_encode_items_snoc(vs.take(i as int), vs[i as int]);
            assert(out@ =~= seq!['['] + spec_encode_items(vs.take(i + 1)));
        }
        i += 1;
    }
    out.push(']');
    proof {
        assert(views_of(tasks@).take(n as int) =~= views_of(tasks@));
        assert(out@ =~= spec_encode_tasks(views_of(tasks@)));
    }
    chars_into_string(&out)
}


/// Consuming a known literal from the front of the document.
pub open spec fn sp_lit(s: Seq<char>, lit: Seq<char>) -> Option<Seq<char>> {
    if lit.is_prefix_of(s) {
        Some(s.skip(lit.len() as int))
    } else {
        None
    }
}

/// The length of the leading run of digit characters.
pub open spec fn digit_run(s: Seq<char>) -> nat
    decreases s.len(),
{
    if s.len() > 0 && is_digit(s[0]) {
        1 + digit_run(s.drop_first())
    } else {
        0
    }
}

/// The digit run is a well-placed boundary: digits before it, none at it.
proof fn lemma_digit_run_bounds(s: Seq<char>)
    ensures
        digit_run(s) <= s.len(),
        forall|j: int| 0 <= j < digit_run(s) ==> is_digit(#[trigger] s[j]),
        digit_run(s) < s.len() ==> !is_digit(s[digit_run(s) as int]),
    decreases s.len(),
{
    if s.len() > 0 && is_digit(s[0]) {
        lemma_digit_run_bounds(s.drop_first());
        assert forall|j: int| 1 <= j < digit_run(s) implies is_digit(s[j]) by {
            assert(is_digit(s.drop_first()[j - 1]));
        }
    }
}

/// A boundary with digits before it and none at it is the digit run.
proof fn lemma_digit_run_at(s: Seq<char>, k: int)
    requires
        0 <= k <= s.len(),
        forall|j: int| 0 <= j < k ==> is_digit(#[trigger] s[j]),
        k == s.len() || !is_digit(s[k]),
    ensures
        digit_run(s) == k,
    decreases k,
{
    if k == 0 {
    } else {
        assert(is_digit(s[0]));
        assert(forall|j: int| 0 <= j < k - 1 ==> s.drop_first()[j] == s[j + 1]);
        lemma_digit_run_at(s.drop_first(), k - 1);
    }
}

/// Consuming a canonical unsigned number no larger than `max`: one or more
/// digits, no leading zero.
pub open spec fn sp_u64(s: Seq<char>, max: nat) -> Option<(nat, Seq<char>)> {
    let k = digit_run(s) as int;
    if k == 0 {
        None
    } else if k > 1 && s[0] == '0' {
        None
    } else if digits_val(s.take(k)) > max {
        None
    } else {
        Some((digits_val(s.take(k)) as nat, s.skip(k)))
    }
}

/// Consuming a canonical signed number that fits in an `i64`: an optional
/// `-` sign (never on zero) before the magnitude.
pub open spec fn sp_i64(s: Seq<char>) -> Option<(int, Seq<char>)> {
    if s.len() > 0 && s[0] == '-' {
        match sp_u64(s.drop_first(), 0x8000000000000000) {
            Some(p) => if p.0 == 0 {
                None
            } else {
                Some((-(p.0 as int), p.1))
            },
            None => None,
        }
    } else {
        match sp_u64(s, 0x7fffffffffffffff) {
            Some(p) => Some((p.0 as int, p.1)),
            None => None,
        }
    }
}

/// Consuming a string body up to its closing quote, undoing the escapes.
pub open spec fn sp_string(s: Seq<char>) -> Option<(Seq<char>, Seq<char>)>
    decreases s.len(),
{
    if s.len() == 0 {
        None
    } else if s[0] == '"' {
        Some((Seq::empty(), s.drop_first()))
    } else if s[0] == '\\' {
        if s.len() >= 2 && (s[1] == '"' || s[1] == '\\') {
            match sp_string(s.skip(2)) {
                Some(p) => Some((seq![s[1]] + p.0, p.1)),
                None => None,
            }
        } else {
            None
        }
    } else {
        match sp_string(s.drop_first()) {
            Some(p) => Some((seq![s[0]] + p.0, p.1)),
            None => None,
        }
    }
}

/// Consuming a status token.
pub open spec fn sp_status(s: Seq<char>) -> Option<(TaskStatus, Seq<char>)> {
    match sp_lit(s, "todo"@) {
        Some(rest) => Some((TaskStatus::Todo, rest)),
        None => match sp_lit(s, "in_progress"@) {
            Some(rest) => Some((TaskStatus::InProgress, rest)),
            None => match sp_lit(s, "done"@) {
                Some(rest) => Some((TaskStatus::Done, rest)),
                None => None,
            },
        },
    }
}

/// Consuming one task object; only a task that satisfies the task invariant
/// is accepted.
pub open spec fn sp_task(s: Seq<char>) -> Option<(TaskView, Seq<char>)> {
    match sp_lit(s, "{\"id\":"@) {
        None => None,
        Some(s1) => match sp_u64(s1, u32::MAX as nat) {
            None => None,
            Some((id, s2)) => match sp_lit(s2, ",\"description\":\""@) {
                None => None,
                Some(s3) => match sp_string(s3) {
                    None => None,
                    Some((description, s4)) => match sp_lit(s4, ",\"status\":\""@) {
                        None => None,
                        Some(s5) => match sp_status(s5) {
                            None => None,
                            Some((status, s6)) => match sp_lit(s6, "\",\"created_at\":"@) {
                                None => None,
                                Some(s7) => match sp_i64(s7) {
                                    None => None,
                                    Some((created_at, s8)) => match sp_lit(
                                        s8,
                                        ",\"updated_at\":"@,
                                    ) {
                                        None => None,
                                        Some(s9) => match sp_i64(s9) {
                                            None => None,
                                            Some((updated_at, s10)) => match sp_lit(s10, "}"@) {
                                                None => None,
                                                Some(s11) => {
                                                    let t = TaskView {
                                                        id: id as u32,
                                                        description,
                                                        status,
                                                        created_at: created_at as i64,
                                                        updated_at: updated_at as i64,
                                                    };
                                                    if t.wf() {
                                                        Some((t, s11))
                                                    } else {
                                                        None
                                                    }
                                                },
                                            },
                                        },
                                    },
                                },
                            },
                        },
                    },
                },
            },
        },
    }
}

/// A consumed string body ends past its closing quote.
proof fn lemma_sp_string_consumes(s: Seq<char>)
    ensures
        sp_string(s) matches Some(p) ==> p.1.len() < s.len(),
    decreases s.len(),
{
    if s.len() > 0 {
        lemma_sp_string_consumes(s.drop_first());
        if s.len() >= 2 {
            lemma_sp_string_consumes(s.skip(2));
        }
    }
}

/// A consumed task object ends strictly inside the document.
proof fn lemma_sp_task_consumes(s: Seq<char>)
    ensures
        sp_task(s) matches Some(p) ==> p.1.len() < s.len(),
{
    if sp_task(s) is Some {
        proof_sp_task_stages(s);
    }
}

/// Each stage of `sp_task` consumes at least the characters of its
/// literals and digits.
proof fn proof_sp_task_stages(s: Seq<char>)
    requires
        sp_task(s) is Some,
    ensures
        sp_task(s) matches Some(p) ==> p.1.len() < s.len(),
{
    let s1 = sp_lit(s, "{\"id\":"@)->0;
    assert(s1.len() <= s.len() - 1) by {
        reveal_strlit("{\"id\":");
    }
    let p1 = sp_u64(s1, u32::MAX as nat)->0;
    let s2 = p1.1;
    assert(s2.len() <= s1.len()) by {
        lemma_digit_run_bounds(s1);
    }
    let s3 = sp_lit(s2, ",\"description\":\""@)->0;
    assert(s3.len() <= s2.len());
    let p2 = sp_string(s3)->0;
    let s4 = p2.1;
    assert(s4.len() <= s3.len()) by {
        lemma_sp_string_consumes(s3);
    }
    let s5 = sp_lit(s4, ",\"status\":\""@)->0;
    assert(s5.len() <= s4.len());
    let p3 = sp_status(s5)->0;
    let s6 = p3.1;
    assert(s6.len() <= s5.len()) by {
        reveal_strlit("todo");
        reveal_strlit("in_progress");
        reveal_strlit("done");
    }
    let s7 = sp_lit(s6, "\",\"created_at\":"@)->0;
    assert(s7.len() <= s6.len());
    let p4 = sp_i64(s7)->0;
    let s8 = p4.1;
    assert(s8.len() <= s7.len()) by {
        lemma_digit_run_bounds(s7);
        if s7.len() > 0 && s7[0] == '-' {
            lemma_digit_run_bounds(s7.drop_first());
        }
    }
    let s9 = sp_lit(s8, ",\"updated_at\":"@)->0;
    assert(s9.len() <= s8.len());
    let p5 = sp_i64(s9)->0;
    let s10 = p5.1;
    assert(s10.len() <= s9.len()) by {
        lemma_digit_run_bounds(s9);
        if s9.len() > 0 && s9[0] == '-' {
            lemma_digit_run_bounds(s9.drop_first());
        }
    }
    let s11 = sp_lit(s10, "}"@)->0;
    assert(s11.len() <= s10.len());
}

/// Consuming the comma-separated task objects and the closing bracket.
pub open spec fn sp_items(s: Seq<char>) -> Option<Seq<TaskView>>
    decreases s.len(),
    via sp_items_dec
{
    match sp_task(s) {
        None => None,
        Some((t, rest)) => if rest.len() >= 1 && rest[0] == ',' {
            match sp_items(rest.drop_first()) {
                Some(ts) => Some(seq![t] + ts),
                None => None,
            }
        } else if rest.len() == 1 && rest[0] == ']' {
            Some(seq![t])
        } else {
            None
        },
    }
}

#[via_fn]
proof fn sp_items_dec(s: Seq<char>) {
    lemma_sp_task_consumes(s);
}

/// What the whole document must parse to: brackets around the items, empty
/// brackets for the empty collection.
pub open spec fn spec_parse_tasks(s: Seq<char>) -> Option<Seq<TaskView>> {
    if s.len() >= 1 && s[0] == '[' {
        if s.len() == 2 && s[1] == ']' {
            Some(Seq::empty())
        } else {
            sp_items(s.drop_first())
        }
    } else {
        None
    }
}


/// Checks a literal at position `i`, returning the position after it.
fn eat_lit(v: &Vec<char>, i: usize, lit: &str) -> (r: Option<usize>)
    requires
        i <= v.len(),
    ensures
        match sp_lit(v@.skip(i as int), lit@) {
            Some(rest) => r matches Some(j) && i <= j <= v.len() && v@.skip(j as int) == rest,
            None => r is None,
        },
{
    let ghost s = v@.skip(i as int);
    let n = lit.unicode_len();
    if v.len() - i < n {
        assert(!lit@.is_prefix_of(s));
        return None;
    }
    let mut k: usize = 0;
    while k < n
        invariant
            s == v@.skip(i as int),
            n == lit@.len(),
            i + n <= v.len(),
            k <= n,
            forall|m: int| 0 <= m < k ==> s[m] == lit@[m],
        decreases n - k,
    {
        if v[i + k] != lit.get_char(k) {
            assert(s[k as int] != lit@[k as int]);
            assert(!lit@.is_prefix_of(s));
            return None;
        }
        assert(s[k as int] == lit@[k as int]);
        k += 1;
    }
    proof {
        assert(lit@ =~= s.take(n as int));
        assert(lit@.is_prefix_of(s));
        assert(v@.skip((i + n) as int) =~= s.skip(n as int));
    }
    Some(i + n)
}

/// Reads a canonical unsigned number at position `i`.
fn parse_u64(v: &Vec<char>, i: usize, max: u64) -> (r: Option<(u64, usize)>)
    requires
        i <= v.len(),
    ensures
        match sp_u64(v@.skip(i as int), max as nat) {
            Some(p) => r matches Some(q) && q.0 as nat == p.0 && q.0 <= max && i <= q.1 <= v.len()
                && v@.skip(q.1 as int) == p.1,
            None => r is None,
        },
{
    let ghost s = v@.skip(i as int);
    let n = v.len();
    let mut e: usize = i;
    while e < n && digit_of(v[e]) >= 0
        invariant
            s == v@.skip(i as int),
            n == v.len(),
            i <= e <= n,
            forall|j: int| 0 <= j < e - i ==> is_digit(#[trigger] s[j]),
        decreases n - e,
    {
        assert(is_digit(s[e - i]));
        e += 1;
    }
    proof {
        if e < n {
            assert(!is_digit(s[e - i]));
        }
        lemma_digit_run_at(s, e - i);
    }
    if e == i {
        return None;
    }
    if e - i > 1 && v[i] == '0' {
        assert(s[0] == '0');
        return None;
    }
    let ghost k = (e - i) as int;
    let mut value: u128 = 0;
    let mut c: usize = i;
    while c < e
        invariant
            s == v@.skip(i as int),
            n == v.len(),
            i <= c <= e <= n,
            k == e - i,
            digit_run(s) == k,
            forall|j: int| 0 <= j < k ==> is_digit(#[trigger] s[j]),
            value <= max,
            value as int == digits_val(s.take(c - i)),
            max <= u64::MAX,
        decreases e - c,
    {
        let d = digit_of(v[c]);
        assert(is_digit(s[c - i]) && d as int == digit_val(s[c - i]));
        proof {
            assert(s.take(c + 1 - i).drop_last() =~= s.take(c - i));
            assert(s.take(c + 1 - i).last() == s[c - i]);
        }
        value = value * 10 + (d as u128);
        assert(value as int == digits_val(s.take(c + 1 - i)));
        if value > max as u128 {
            proof {
                assert(all_digits(s.take(k)));
                assert(s.take(k).take(c + 1 - i) =~= s.take(c + 1 - i));
                lemma_digits_val_prefix_le(s.take(k), c + 1 - i);
                assert(digits_val(s.take(k)) > max);
            }
            return None;
        }
        c += 1;
    }
    proof {
        assert(s.take(e - i) =~= s.take(k));
        assert(v@.skip(e as int) =~= s.skip(k));
    }
    Some((value as u64, e))
}

/// Reads a canonical signed number at position `i`.
fn parse_i64(v: &Vec<char>, i: usize) -> (r: Option<(i64, usize)>)
    requires
        i <= v.len(),
    ensures
        match sp_i64(v@.skip(i as int)) {
            Some(p) => r matches Some(q) && q.0 as int == p.0 && i <= q.1 <= v.len() && v@.skip(
                q.1 as int,
            ) == p.1,
            None => r is None,
        },
{
    let ghost s = v@.skip(i as int);
    if i < v.len() && v[i] == '-' {
        assert(s[0] == '-');
        proof {
            assert(v@.skip((i + 1) as int) =~= s.drop_first());
        }
        match parse_u64(v, i + 1, 9223372036854775808u64) {
            Some((m, j)) => {
                assert(m <= 9223372036854775808u64);
                if m == 0 {
                    None
                } else if m == 9223372036854775808u64 {
                    Some((i64::MIN, j))
                } else {
                    Some((-(m as i64), j))
                }
            },
            None => None,
        }
    } else {
        match parse_u64(v, i, 9223372036854775807u64) {
            Some((m, j)) => {
                assert(m <= 9223372036854775807u64);
                Some((m as i64, j))
            },
            None => None,
        }
    }
}

/// Reads a string body at position `i`, up to and past its closing quote.
fn parse_string(v: &Vec<char>, i: usize) -> (r: Option<(String, usize)>)
    requires
        i <= v.len(),
    ensures
        match sp_string(v@.skip(i as int)) {
            Some(p) => r matches Some(q) && q.0@ == p.0 && i <= q.1 <= v.len() && v@.skip(
                q.1 as int,
            ) == p.1,
            None => r is None,
        },
{
    let ghost s = v@.skip(i as int);
    let mut acc: Vec<char> = Vec::new();
    let mut p: usize = i;
    while p < v.len()
        invariant
            s == v@.skip(i as int),
            i <= p <= v.len(),
            match sp_string(v@.skip(p as int)) {
                Some(q) => sp_string(s) == Some::<(Seq<char>, Seq<char>)>(
                    (acc@ + q.0, q.1),
                ),
                None => sp_string(s) is None,
            },
        decreases v.len() - p,
    {
        let ghost cur = v@.skip(p as int);
        assert(cur[0] == v@[p as int]);
        let c = v[p];
        if c == '"' {
            proof {
                assert(v@.skip((p + 1) as int) =~= cur.drop_first());
                assert(acc@ + Seq::<char>::empty() =~= acc@);
            }
            let out = chars_into_string(&acc);
            return Some((out, p + 1));
        } else if c == '\\' {
            if p + 1 >= v.len() {
                assert(cur.len() < 2);
                assert(sp_string(cur) is None);
                return None;
            }
            let c2 = v[p + 1];
            assert(cur[1] == v@[p + 1]);
            if c2 == '"' || c2 == '\\' {
                let ghost acc0 = acc@;
                acc.push(c2);
                proof {
                    assert(v@.skip((p + 2) as int) =~= cur.skip(2));
                    match sp_string(cur.skip(2)) {
                        Some(q) => {
                            assert(sp_string(cur) == Some::<(Seq<char>, Seq<char>)>(
                                (seq![cur[1]] + q.0, q.1),
                            ));
                            assert(acc@ + q.0 =~= acc0 + (seq![cur[1]] + q.0));
                        },
                        None => {},
                    }
                }
                p += 2;
            } else {
                assert(sp_string(cur) is None);
                return None;
            }
        } else {
            let ghost acc0 = acc@;
            acc.push(c);
            proof {
                assert(v@.skip((p + 1) as int) =~= cur.drop_first());
                match sp_string(cur.drop_first()) {
                    Some(q) => {
                        assert(acc@ + q.0 =~= acc0 + (seq![cur[0]] + q.0));
                    },
                    None => {},
                }
            }
            p += 1;
        }
    }
    assert(v@.skip(p as int).len() == 0);
    assert(sp_string(v@.skip(p as int)) is None);
    None
}

/// Reads a status token at position `i`.
fn parse_status(v: &Vec<char>, i: usize) -> (r: Option<(TaskStatus, usize)>)
    requires
        i <= v.len(),
    ensures
        match sp_status(v@.skip(i as int)) {
            Some(p) => r matches Some(q) && q.0 == p.0 && i <= q.1 <= v.len() && v@.skip(
                q.1 as int,
            ) == p.1,
            None => r is None,
        },
{
    match eat_lit(v, i, "todo") {
        Some(j) => Some((TaskStatus::Todo, j)),
        None => match eat_lit(v, i, "in_progress") {
            Some(j) => Some((TaskStatus::InProgress, j)),
            None => match eat_lit(v, i, "done") {
                Some(j) => Some((TaskStatus::Done, j)),
                None => None,
            },
        },
    }
}


/// Reads one task object at position `i`.
fn parse_task(v: &Vec<char>, i: usize) -> (r: Option<(Task, usize)>)
    requires
        i <= v.len(),
    ensures
        match sp_task(v@.skip(i as int)) {
            Some(p) => r matches Some(q) && q.0@ == p.0 && i <= q.1 <= v.len() && v@.skip(
                q.1 as int,
            ) == p.1,
            None => r is None,
        },
{
    let j1 = match eat_lit(v, i, "{\"id\":") {
        Some(j) => j,
        None => {
            return None;
        },
    };
    let (id_num, j2) = match parse_u64(v, j1, 4294967295u64) {
        Some(q) => q,
        None => {
            return None;
        },
    };
    let j3 = match eat_lit(v, j2, ",\"description\":\"") {
        Some(j) => j,
        None => {
            return None;
        },
    };
    let (description_text, j4) = match parse_string(v, j3) {
        Some(q) => q,
        None => {
            return None;
        },
    };
    let j5 = match eat_lit(v, j4, ",\"status\":\"") {
        Some(j) => j,
        None => {
            return None;
        },
    };
    let (status, j6) = match parse_status(v, j5) {
        Some(q) => q,
        None => {
            return None;
        },
    };
    let j7 = match eat_lit(v, j6, "\",\"created_at\":") {
        Some(j) => j,
        None => {
            return None;
        },
    };
    let (created_at, j8) = match parse_i64(v, j7) {
        Some(q) => q,
        None => {
            return None;
        },
    };
    let j9 = match eat_lit(v, j8, ",\"updated_at\":") {
        Some(j) => j,
        None => {
            return None;
        },
    };
    let (updated_at, j10) = match parse_i64(v, j9) {
        Some(q) => q,
        None => {
            return None;
        },
    };
    let j11 = match eat_lit(v, j10, "}") {
        Some(j) => j,
        None => {
            return None;
        },
    };
    if created_at > updated_at {
        return None;
    }
    let id = match TaskId::new(id_num as u32) {
        Ok(t) => t,
        Err(_) => {
            return None;
        },
    };
    let description = match TaskDescription::new(description_text) {
        Ok(d) => d,
        Err(_) => {
            return None;
        },
    };
    let task = Task { id, description, status, created_at, updated_at };
    Some((task, j11))
}

/// Reads a whole persisted document back into the collection it encodes.
///
/// Exactly the canonical documents of `spec_parse_tasks` are accepted;
/// anything else fails with `FailedToAccessPersistedData`.
pub fn parse_tasks(s: &str) -> (r: Result<Vec<Task>, Error>)
    ensures
        match spec_parse_tasks(s@) {
            Some(tvs) => r matches Ok(ts) && views_of(ts@) == tvs,
            None => r == Err::<Vec<Task>, Error>(Error::FailedToAccessPersistedData),
        },
{
    let v = str_to_chars(s);
    if v.len() == 0 {
        return Err(Error::FailedToAccessPersistedData);
    }
    if v[0] != '[' {
        return Err(Error::FailedToAccessPersistedData);
    }
    if v.len() == 2 && v[1] == ']' {
        let empty: Vec<Task> = Vec::new();
        proof {
            assert(views_of(empty@) =~= Seq::<TaskView>::empty());
        }
        return Ok(empty);
    }
    let ghost items = v@.skip(1);
    let mut acc: Vec<Task> = Vec::new();
    let mut pos: usize = 1;
    loop
        invariant
            items == v@.skip(1),
            v@ == s@,
            v.len() >= 1,
            v@[0] == '[',
            !(v@.len() == 2 && v@[1] == ']'),
            1 <= pos <= v.len(),
            pos > 1 ==> pos <= v.len(),
            match sp_items(v@.skip(pos as int)) {
                Some(ts) => sp_items(items) == Some::<Seq<TaskView>>(views_of(acc@) + ts),
                None => sp_items(items) is None,
            },
        decreases v.len() - pos,
    {
        let ghost cur = v@.skip(pos as int);
        let (task, j) = match parse_task(&v, pos) {
            Some(q) => q,
            None => {
                assert(sp_items(cur) is None);
                return Err(Error::FailedToAccessPersistedData);
            },
        };
        let ghost rest = v@.skip(j as int);
        proof {
            lemma_sp_task_consumes(cur);
        }
        let ghost acc0 = acc@;
        if j < v.len() && v[j] == ',' {
            assert(rest[0] == v@[j as int]);
            acc.push(task);
            proof {
                assert(v@.skip((j + 1) as int) =~= rest.drop_first());
                assert(views_of(acc@) =~= views_of(acc0).push(task@));
                match sp_items(rest.drop_first()) {
                    Some(ts2) => {
                        assert(sp_items(cur) == Some::<Seq<TaskView>>(seq![task@] + ts2));
                        assert(views_of(acc@) + ts2 =~= views_of(acc0) + (seq![task@] + ts2));
                    },
                    None => {},
                }
            }
            pos = j + 1;
            if pos > v.len() {
                assert(false);
            }
        } else if j == v.len() - 1 && v[j] == ']' {
            assert(rest.len() == 1 && rest[0] == ']');
            assert(sp_items(cur) == Some::<Seq<TaskView>>(seq![task@]));
            acc.push(task);
            proof {
                assert(views_of(acc@) =~= views_of(acc0).push(task@));
                match sp_items(items) {
                    Some(ts) => {
                        assert(views_of(acc0) + seq![task@] =~= views_of(acc@));
                    },
                    None => {},
                }
            }
            return Ok(acc);
        } else {
            assert(!(rest.len() >= 1 && rest[0] == ',') && !(rest.len() == 1 && rest[0] == ']'));
            assert(sp_items(cur) is None);
            return Err(Error::FailedToAccessPersistedData);
        }
    }
}


/// Facts about canonical decimal renderings: digits only, at least one,
/// no leading zero, and the value they denote.
proof fn lemma_dec_chars_props(n: nat)
    ensures
        all_digits(dec_chars(n)),
        dec_chars(n).len() >= 1,
        n >= 1 ==> digit_val(dec_chars(n)[0]) >= 1,
        digits_val(dec_chars(n)) == n,
    decreases n,
{
    if n < 10 {
        let c = digit_char(n as int);
        assert(dec_chars(n) == seq![c]);
        assert(seq![c].drop_last() =~= Seq::<char>::empty());
        assert(seq![c].last() == c);
        assert(digits_val(seq![c]) == digits_val(Seq::<char>::empty()) * 10 + digit_val(c));
        assert(digit_val(c) == n);
    } else {
        lemma_dec_chars_props(n / 10);
        let d = dec_chars(n);
        assert(d == dec_chars(n / 10) + seq![digit_char((n % 10) as int)]);
        assert(d.drop_last() =~= dec_chars(n / 10));
        assert(d.last() == digit_char((n % 10) as int));
        assert(d[0] == dec_chars(n / 10)[0]);
        assert forall|j: int| 0 <= j < d.len() implies is_digit(#[trigger] d[j]) by {
            if j < d.len() - 1 {
                assert(d[j] == dec_chars(n / 10)[j]);
            }
        }
        assert(digits_val(d) == digits_val(dec_chars(n / 10)) * 10 + digit_val(d.last()));
        assert(n / 10 * 10 + n % 10 == n);
    }
}

/// A literal at the front of the document is consumed exactly.
proof fn lemma_sp_lit_of(lit: Seq<char>, tail: Seq<char>)
    ensures
        sp_lit(lit + tail, lit) == Some(tail),
{
    let s = lit + tail;
    assert(lit =~= s.take(lit.len() as int));
    assert(lit.is_prefix_of(s));
    assert(s.skip(lit.len() as int) =~= tail);
}

/// A canonical decimal rendering followed by a non-digit is read back as
/// the number it denotes.
proof fn lemma_sp_u64_of_dec(n: nat, max: nat, rest: Seq<char>)
    requires
        n <= max,
        rest.len() == 0 || !is_digit(rest[0]),
    ensures
        sp_u64(dec_chars(n) + rest, max) == Some((n, rest)),
{
    let d = dec_chars(n);
    let s = d + rest;
    lemma_dec_chars_props(n);
    assert forall|j: int| 0 <= j < d.len() implies is_digit(#[trigger] s[j]) by {
        assert(s[j] == d[j]);
    }
    if d.len() < s.len() {
        assert(s[d.len() as int] == rest[0]);
    }
    lemma_digit_run_at(s, d.len() as int);
    assert(digit_run(s) == d.len());
    if d.len() > 1 {
        assert(n >= 10) by {
            if n < 10 {
                assert(d =~= seq![digit_char(n as int)]);
            }
        }
        assert(digit_val(s[0]) >= 1);
        assert(digit_val('0') == 0);
        assert(s[0] != '0');
    }
    assert(s.take(d.len() as int) =~= d);
    assert(s.skip(d.len() as int) =~= rest);
}

/// A canonical signed rendering followed by a non-digit is read back as
/// the integer it denotes.
proof fn lemma_sp_i64_of_dec(x: int, rest: Seq<char>)
    requires
        -0x8000000000000000 <= x <= 0x7fffffffffffffff,
        rest.len() == 0 || !is_digit(rest[0]),
    ensures
        sp_i64(dec_chars_signed(x) + rest) == Some((x, rest)),
{
    let s = dec_chars_signed(x) + rest;
    if x < 0 {
        assert(s[0] == '-');
        assert(s.drop_first() =~= dec_chars((-x) as nat) + rest);
        lemma_sp_u64_of_dec((-x) as nat, 0x8000000000000000, rest);
    } else {
        lemma_dec_chars_props(x as nat);
        assert(s[0] == dec_chars(x as nat)[0]);
        assert(is_digit(s[0]));
        assert(s[0] != '-') by {
            assert(digit_val('-') == -1);
        }
        assert(s =~= dec_chars(x as nat) + rest);
        lemma_sp_u64_of_dec(x as nat, 0x7fffffffffffffff, rest);
    }
}

/// An escaped string body followed by its closing quote is read back as
/// the text it encodes.
proof fn lemma_sp_string_of_escape(d: Seq<char>, rest: Seq<char>)
    ensures
        sp_string(escape(d) + seq!['"'] + rest) == Some((d, rest)),
    decreases d.len(),
{
    let s = escape(d) + seq!['"'] + rest;
    if d.len() == 0 {
        assert(escape(d) =~= Seq::<char>::empty());
        assert(s[0] == '"');
        assert(s.drop_first() =~= rest);
        assert(d =~= Seq::<char>::empty());
    } else {
        let dd = d.drop_first();
        lemma_sp_string_of_escape(dd, rest);
        let tail = escape(dd) + seq!['"'] + rest;
        assert(escape(d) == esc_char(d[0]) + escape(dd));
        if d[0] == '"' {
            assert(s[0] == '\\' && s[1] == '"');
            assert(s.skip(2) =~= tail);
            assert(seq![s[1]] + dd =~= d);
        } else if d[0] == '\\' {
            assert(s[0] == '\\' && s[1] == '\\');
            assert(s.skip(2) =~= tail);
            assert(seq![s[1]] + dd =~= d);
        } else {
            assert(s[0] == d[0]);
            assert(s[0] != '"' && s[0] != '\\');
            assert(s.drop_first() =~= tail);
            assert(seq![s[0]] + dd =~= d);
        }
    }
}

/// A status token is read back as its status.
proof fn lemma_sp_status_of(st: TaskStatus, rest: Seq<char>)
    ensures
        sp_status(status_chars(st) + rest) == Some((st, rest)),
{
    reveal_strlit("todo");
    reveal_strlit("in_progress");
    reveal_strlit("done");
    let s = status_chars(st) + rest;
    match st {
        TaskStatus::Todo => {
            lemma_sp_lit_of("todo"@, rest);
        },
        TaskStatus::InProgress => {
            assert(s[0] == 'i');
            assert(!"todo"@.is_prefix_of(s)) by {
                assert("todo"@[0] == 't');
            }
            lemma_sp_lit_of("in_progress"@, rest);
        },
        TaskStatus::Done => {
            assert(s[0] == 'd');
            assert(!"todo"@.is_prefix_of(s)) by {
                assert("todo"@[0] == 't');
            }
            assert(!"in_progress"@.is_prefix_of(s)) by {
                assert("in_progress"@[0] == 'i');
            }
            lemma_sp_lit_of("done"@, rest);
        },
    }
}

/// One encoded task followed by anything is read back as that task.
#[verifier::rlimit(100)]
proof fn lemma_sp_task_of_encode(t: TaskView, rest: Seq<char>)
    requires
        t.wf(),
    ensures
        sp_task(spec_encode_task(t) + rest) == Some((t, rest)),
{
    reveal_strlit("{\"id\":");
    reveal_strlit(",\"description\":\"");
    reveal_strlit(",\"status\":\"");
    reveal_strlit("\",\"status\":\"");
    reveal_strlit("\",\"created_at\":");
    reveal_strlit(",\"updated_at\":");
    reveal_strlit("}");
    let s = spec_encode_task(t) + rest;
    let t10 = "}"@ + rest;
    let t9 = dec_chars_signed(t.updated_at as int) + t10;
    let t8 = ",\"updated_at\":"@ + t9;
    let t7 = dec_chars_signed(t.created_at as int) + t8;
    let t6 = "\",\"created_at\":"@ + t7;
    let t5 = status_chars(t.status) + t6;
    let t4 = "\",\"status\":\""@ + t5;
    let qtail = ",\"status\":\""@ + t5;
    let t3 = escape(t.description) + t4;
    let t2 = ",\"description\":\""@ + t3;
    let t1 = dec_chars(t.id as nat) + t2;
    assert(s =~= "{\"id\":"@ + t1);
    lemma_sp_lit_of("{\"id\":"@, t1);
    assert(t2[0] == ',');
    assert(!is_digit(','));
    lemma_sp_u64_of_dec(t.id as nat, u32::MAX as nat, t2);
    lemma_sp_lit_of(",\"description\":\""@, t3);
    assert("\",\"status\":\""@ =~= seq!['"'] + ",\"status\":\""@);
    assert(t3 =~= escape(t.description) + seq!['"'] + qtail);
    lemma_sp_string_of_escape(t.description, qtail);
    lemma_sp_lit_of(",\"status\":\""@, t5);
    lemma_sp_status_of(t.status, t6);
    lemma_sp_lit_of("\",\"created_at\":"@, t7);
    assert(t8[0] == ',');
    lemma_sp_i64_of_dec(t.created_at as int, t8);
    lemma_sp_lit_of(",\"updated_at\":"@, t9);
    assert(t10[0] == '}');
    assert(!is_digit('}'));
    lemma_sp_i64_of_dec(t.updated_at as int, t10);
    lemma_sp_lit_of("}"@, rest);
}


/// Encoded items followed by the closing bracket are read back as the
/// collection.
#[verifier::rlimit(100)]
proof fn lemma_sp_items_of_encode(ts: Seq<TaskView>)
    requires
        ts.len() >= 1,
        forall|i: int| 0 <= i < ts.len() ==> (#[trigger] ts[i]).wf(),
    ensures
        sp_items(spec_encode_items(ts) + seq![']']) == Some(ts),
    decreases ts.len(),
{
    let s = spec_encode_items(ts) + seq![']'];
    if ts.len() == 1 {
        assert(s =~= spec_encode_task(ts[0]) + seq![']']);
        lemma_sp_task_of_encode(ts[0], seq![']']);
        assert(seq![ts[0]] =~= ts);
    } else {
        let tail = ts.drop_first();
        assert(forall|i: int| 0 <= i < tail.len() ==> (#[trigger] tail[i]).wf()) by {
            assert(forall|i: int| 0 <= i < tail.len() ==> tail[i] == ts[i + 1]);
        }
        lemma_sp_items_of_encode(tail);
        let rest0 = seq![','] + (spec_encode_items(tail) + seq![']']);
        assert(s =~= spec_encode_task(ts[0]) + rest0);
        lemma_sp_task_of_encode(ts[0], rest0);
        assert(rest0[0] == ',');
        assert(rest0.drop_first() =~= spec_encode_items(tail) + seq![']']);
        assert(seq![ts[0]] + tail =~= ts);
    }
}

/// Persisting a collection of well-formed tasks and reading the document
/// back yields the identical ordered collection: ids, descriptions,
/// statuses and timestamps all preserved.
pub proof fn lemma_persist_roundtrip(ts: Seq<TaskView>)
    requires
        forall|i: int| 0 <= i < ts.len() ==> (#[trigger] ts[i]).wf(),
    ensures
        spec_parse_tasks(spec_encode_tasks(ts)) == Some(ts),
{
    let s = spec_encode_tasks(ts);
    assert(s[0] == '[');
    if ts.len() == 0 {
        assert(spec_encode_items(ts) =~= Seq::<char>::empty());
        assert(s =~= seq!['[', ']']);
        assert(s.len() == 2 && s[1] == ']');
        assert(ts =~= Seq::<TaskView>::empty());
    } else {
        assert(spec_encode_task(ts[0]).len() >= 6) by {
            reveal_strlit("{\"id\":");
        }
        assert(spec_encode_items(ts).len() >= 6) by {
            if ts.len() >= 2 {
                assert(spec_encode_items(ts) == spec_encode_task(ts[0]) + seq![',']
                    + spec_encode_items(ts.drop_first()));
            }
        }
        assert(s.len() > 2);
        assert(s.drop_first() =~= spec_encode_items(ts) + seq![']']);
        lemma_sp_items_of_encode(ts);
    }
}

} // verus!

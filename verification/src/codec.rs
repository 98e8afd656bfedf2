//! The persisted file format: a JSON array of task objects, each written as
//! `{"id":N,"name":"...","created_at":"...","completed_at":null-or-"..."}`.
//!
//! The format is defined here twice over: `json_of_tasks` says which text a
//! task sequence is written as, and `scan_tasks` says which sequence (if any)
//! a text is read back as. The executable serializer and parser are proved
//! against these definitions, and the two definitions are proved inverse to
//! each other (`lemma_parse_of_serialized`, `lemma_serialized_of_parse`), so
//! writing what was read leaves the file unchanged, and reading what was
//! written yields an equal sequence.

use vstd::prelude::*;
use vstd::string::StrSliceExecFns;
use crate::task::{Task, TaskSpec, views};
use crate::Error;

verus! {

// ---------------------------------------------------------------------------
// Characters: digits and string escaping
// ---------------------------------------------------------------------------

/// Is `c` a decimal digit?
pub open spec fn is_digit(c: char) -> bool {
    c == '0' || c == '1' || c == '2' || c == '3' || c == '4' || c == '5' || c == '6'
        || c == '7' || c == '8' || c == '9'
}

/// The numeric value of a digit character.
pub open spec fn digit_val(c: char) -> nat {
    if c == '0' { 0 } else if c == '1' { 1 } else if c == '2' { 2 } else if c == '3' { 3 }
    else if c == '4' { 4 } else if c == '5' { 5 } else if c == '6' { 6 } else if c == '7' { 7 }
    else if c == '8' { 8 } else { 9 }
}

/// The digit character for a value below ten.
pub open spec fn digit_char(d: nat) -> char {
    if d == 0 { '0' } else if d == 1 { '1' } else if d == 2 { '2' } else if d == 3 { '3' }
    else if d == 4 { '4' } else if d == 5 { '5' } else if d == 6 { '6' } else if d == 7 { '7' }
    else if d == 8 { '8' } else { '9' }
}

/// How one character is written inside a JSON string: quotes and backslashes
/// get a backslash before them, everything else stands as itself.
pub open spec fn esc_char(c: char) -> Seq<char> {
    if c == '"' {
        seq!['\\', '"']
    } else if c == '\\' {
        seq!['\\', '\\']
    } else {
        seq![c]
    }
}

/// How a whole text is written inside a JSON string.
pub open spec fn esc(s: Seq<char>) -> Seq<char>
    decreases s.len(),
{
    if s.len() == 0 {
        Seq::empty()
    } else {
        esc_char(s[0]) + esc(s.skip(1))
    }
}

/// The decimal digits of `n`, most significant first, without leading zeros.
pub open spec fn dec(n: nat) -> Seq<char>
    decreases n,
{
    if n < 10 {
        seq![digit_char(n)]
    } else {
        dec(n / 10) + seq![digit_char(n % 10)]
    }
}

/// The value of a run of digit characters, most significant first.
pub open spec fn val_of(ds: Seq<char>) -> nat
    decreases ds.len(),
{
    if ds.len() == 0 {
        0
    } else {
        val_of(ds.drop_last()) * 10 + digit_val(ds.last())
    }
}

// ---------------------------------------------------------------------------
// The fixed pieces of a task object
// ---------------------------------------------------------------------------

/// `{"id":` — opens a task object and its first field.
pub open spec fn lit_obj_open() -> Seq<char> {
    seq!['{', '"', 'i', 'd', '"', ':']
}

/// `,"name":"` — separates the id from the name field and opens its string.
pub open spec fn lit_name() -> Seq<char> {
    seq![',', '"', 'n', 'a', 'm', 'e', '"', ':', '"']
}

/// `,"created_at":"` — opens the creation timestamp string.
pub open spec fn lit_created() -> Seq<char> {
    seq![',', '"', 'c', 'r', 'e', 'a', 't', 'e', 'd', '_', 'a', 't', '"', ':', '"']
}

/// `,"completed_at":` — opens the completion field, which is `null` or a string.
pub open spec fn lit_completed() -> Seq<char> {
    seq![',', '"', 'c', 'o', 'm', 'p', 'l', 'e', 't', 'e', 'd', '_', 'a', 't', '"', ':']
}

/// `null` — the completion field of a task not yet completed.
pub open spec fn lit_null() -> Seq<char> {
    seq!['n', 'u', 'l', 'l']
}

// ---------------------------------------------------------------------------
// What a task sequence is written as
// ---------------------------------------------------------------------------

/// The text of one task object.
pub open spec fn json_of_task(t: TaskSpec) -> Seq<char> {
    lit_obj_open() + dec(t.id) + lit_name() + esc(t.name) + seq!['"'] + lit_created()
        + esc(t.created_at) + seq!['"'] + lit_completed() + (match t.completed_at {
        Some(c) => seq!['"'] + esc(c) + seq!['"'],
        None => lit_null(),
    }) + seq!['}']
}

/// The comma-separated task objects, without the surrounding brackets.
pub open spec fn json_items(ts: Seq<TaskSpec>) -> Seq<char>
    decreases ts.len(),
{
    if ts.len() == 0 {
        Seq::empty()
    } else if ts.len() == 1 {
        json_of_task(ts[0])
    } else {
        json_of_task(ts[0]) + seq![','] + json_items(ts.skip(1))
    }
}

/// The full text a task sequence is persisted as.
pub open spec fn json_of_tasks(ts: Seq<TaskSpec>) -> Seq<char> {
    seq!['['] + json_items(ts) + seq![']']
}

// ---------------------------------------------------------------------------
// What a text is read back as
// ---------------------------------------------------------------------------

/// The first position at or after `i` holding no digit.
pub open spec fn digit_run_end(s: Seq<char>, i: int) -> int
    decreases s.len() - i,
        when 0 <= i <= s.len()
{
    if i < s.len() && is_digit(s[i]) {
        digit_run_end(s, i + 1)
    } else {
        i
    }
}

/// Reads a number at `i`: a non-empty digit run without leading zeros whose
/// value fits the id type. Yields the value and the position after it.
pub open spec fn scan_number(s: Seq<char>, i: int) -> Option<(nat, int)> {
    let e = digit_run_end(s, i);
    if e == i {
        None
    } else if s[i] == '0' && e > i + 1 {
        None
    } else {
        let n = val_of(s.subrange(i, e));
        if n > usize::MAX {
            None
        } else {
            Some((n, e))
        }
    }
}

/// Reads string contents at `i`, up to and over the closing quote: a
/// backslash takes the next character literally (quote or backslash only),
/// an unescaped quote ends the string. Yields the text and the position
/// after the closing quote.
pub open spec fn scan_string(s: Seq<char>, i: int) -> Option<(Seq<char>, int)>
    decreases s.len() - i,
        when 0 <= i <= s.len()
{
    if i >= s.len() {
        None
    } else if s[i] == '"' {
        Some((Seq::empty(), i + 1))
    } else if s[i] == '\\' {
        if i + 1 < s.len() && (s[i + 1] == '"' || s[i + 1] == '\\') {
            match scan_string(s, i + 2) {
                Some((t, j)) => Some((seq![s[i + 1]] + t, j)),
                None => None,
            }
        } else {
            None
        }
    } else {
        match scan_string(s, i + 1) {
            Some((t, j)) => Some((seq![s[i]] + t, j)),
            None => None,
        }
    }
}

/// Reads the fixed text `lit` at `i`. Yields the position after it.
pub open spec fn scan_lit(s: Seq<char>, i: int, lit: Seq<char>) -> Option<int> {
    if 0 <= i && i + lit.len() <= s.len() && s.subrange(i, i + lit.len()) == lit {
        Some(i + lit.len())
    } else {
        None
    }
}

/// Reads the completion field at `i`: `null`, or a quoted string.
pub open spec fn scan_completed(s: Seq<char>, i: int) -> Option<(Option<Seq<char>>, int)> {
    match scan_lit(s, i, lit_null()) {
        Some(j) => Some((None, j)),
        None => if 0 <= i < s.len() && s[i] == '"' {
            match scan_string(s, i + 1) {
                Some((t, j)) => Some((Some(t), j)),
                None => None,
            }
        } else {
            None
        },
    }
}

/// Reads one task object at `i`. Yields the task and the position after
/// its closing brace.
pub open spec fn scan_task(s: Seq<char>, i: int) -> Option<(TaskSpec, int)> {
    match scan_lit(s, i, lit_obj_open()) {
        None => None,
        Some(j1) => match scan_number(s, j1) {
            None => None,
            Some((id, j2)) => match scan_lit(s, j2, lit_name()) {
                None => None,
                Some(j3) => match scan_string(s, j3) {
                    None => None,
                    Some((name, j4)) => match scan_lit(s, j4, lit_created()) {
                        None => None,
                        Some(j5) => match scan_string(s, j5) {
                            None => None,
                            Some((created_at, j6)) => match scan_lit(s, j6, lit_completed()) {
                                None => None,
                                Some(j7) => match scan_completed(s, j7) {
                                    None => None,
                                    Some((completed_at, j8)) => match scan_lit(
                                        s,
                                        j8,
                                        seq!['}'],
                                    ) {
                                        None => None,
                                        Some(j9) => Some(
                                            (
                                                TaskSpec { id, name, created_at, completed_at },
                                                j9,
                                            ),
                                        ),
                                    },
                                },
                            },
                        },
                    },
                },
            },
        },
    }
}

/// Reads one or more comma-separated task objects at `i`, up to and over the
/// closing bracket. Yields the tasks and the position after the bracket.
pub open spec fn scan_items(s: Seq<char>, i: int) -> Option<(Seq<TaskSpec>, int)>
    decreases s.len() - i,
        when 0 <= i <= s.len()
{
    match scan_task(s, i) {
        None => None,
        Some((t, j)) => if !(i < j <= s.len()) {
            None
        } else if j < s.len() && s[j] == ',' {
            match scan_items(s, j + 1) {
                Some((ts, k)) => Some((seq![t] + ts, k)),
                None => None,
            }
        } else if j < s.len() && s[j] == ']' {
            Some((seq![t], j + 1))
        } else {
            None
        },
    }
}

/// The task sequence a whole text is read back as, if it is well-formed:
/// a bracketed, comma-separated list of task objects with nothing after it.
pub open spec fn scan_tasks(s: Seq<char>) -> Option<Seq<TaskSpec>> {
    if s.len() >= 1 && s[0] == '[' {
        if s.len() >= 2 && s[1] == ']' {
            if s.len() == 2 {
                Some(Seq::empty())
            } else {
                None
            }
        } else {
            match scan_items(s, 1) {
                Some((ts, j)) => if j == s.len() {
                    Some(ts)
                } else {
                    None
                },
                None => None,
            }
        }
    } else {
        None
    }
}

// ---------------------------------------------------------------------------
// Serialization
// ---------------------------------------------------------------------------

/// Escaping a text one character longer appends that character's escape.
proof fn lemma_esc_snoc(s: Seq<char>, c: char)
    ensures
        esc(s.push(c)) == esc(s) + esc_char(c),
    decreases s.len(),
{
    if s.len() == 0 {
        assert(s.push(c) =~= seq![c]);
        assert(seq![c].skip(1) =~= Seq::<char>::empty());
        assert(esc(Seq::<char>::empty()) == Seq::<char>::empty());
        assert(esc(s.push(c)) =~= esc(s) + esc_char(c));
    } else {
        assert(s.push(c).skip(1) =~= s.skip(1).push(c));
        lemma_esc_snoc(s.skip(1), c);
        assert(esc(s.push(c)) =~= esc(s) + esc_char(c));
    }
}

/// Appending a task to a sequence appends its object text, with a comma
/// before it unless the sequence was empty.
proof fn lemma_json_items_snoc(ts: Seq<TaskSpec>, t: TaskSpec)
    ensures
        json_items(ts.push(t)) == if ts.len() == 0 {
            json_of_task(t)
        } else {
            json_items(ts) + seq![','] + json_of_task(t)
        },
    decreases ts.len(),
{
    if ts.len() == 0 {
        assert(ts.push(t) =~= seq![t]);
        assert(json_items(ts.push(t)) =~= json_of_task(t));
    } else if ts.len() == 1 {
        assert(ts.push(t).skip(1) =~= seq![t]);
        assert(json_items(seq![t]) == json_of_task(t));
        assert(json_items(ts.push(t)) =~= json_items(ts) + seq![','] + json_of_task(t));
    } else {
        assert(ts.push(t).skip(1) =~= ts.skip(1).push(t));
        lemma_json_items_snoc(ts.skip(1), t);
        assert(json_items(ts.push(t)) =~= json_items(ts) + seq![','] + json_of_task(t));
    }
}

/// The digit character for a value below ten.
fn digit_to_char(d: usize) -> (c: char)
    requires
        d < 10,
    ensures
        c == digit_char(d as nat),
{
    if d == 0 { '0' } else if d == 1 { '1' } else if d == 2 { '2' } else if d == 3 { '3' }
    else if d == 4 { '4' } else if d == 5 { '5' } else if d == 6 { '6' } else if d == 7 { '7' }
    else if d == 8 { '8' } else { '9' }
}

/// Appends the decimal digits of `n`.
fn push_decimal(out: &mut Vec<char>, n: usize)
    ensures
        final(out)@ == old(out)@ + dec(n as nat),
    decreases n,
{
    if n < 10 {
        let c = digit_to_char(n);
        out.push(c);
        proof {
            assert(out@ =~= old(out)@ + dec(n as nat));
        }
    } else {
        push_decimal(out, n / 10);
        let c = digit_to_char(n % 10);
        out.push(c);
        proof {
            assert(out@ =~= old(out)@ + dec(n as nat));
        }
    }
}

/// Appends `{"id":`.
fn push_obj_open(out: &mut Vec<char>)
    ensures
        final(out)@ == old(out)@ + lit_obj_open(),
{
    out.push('{');
    out.push('"');
    out.push('i');
    out.push('d');
    out.push('"');
    out.push(':');
    proof {
        assert(out@ =~= old(out)@ + lit_obj_open());
    }
}

/// Appends `,"name":"`.
fn push_name_key(out: &mut Vec<char>)
    ensures
        final(out)@ == old(out)@ + lit_name(),
{
    out.push(',');
    out.push('"');
    out.push('n');
    out.push('a');
    out.push('m');
    out.push('e');
    out.push('"');
    out.push(':');
    out.push('"');
    proof {
        assert(out@ =~= old(out)@ + lit_name());
    }
}

/// Appends `,"created_at":"`.
fn push_created_key(out: &mut Vec<char>)
    ensures
        final(out)@ == old(out)@ + lit_created(),
{
    out.push(',');
    out.push('"');
    out.push('c');
    out.push('r');
    out.push('e');
    out.push('a');
    out.push('t');
    out.push('e');
    out.push('d');
    out.push('_');
    out.push('a');
    out.push('t');
    out.push('"');
    out.push(':');
    out.push('"');
    proof {
        assert(out@ =~= old(out)@ + lit_created());
    }
}

/// Appends `,"completed_at":`.
fn push_completed_key(out: &mut Vec<char>)
    ensures
        final(out)@ == old(out)@ + lit_completed(),
{
    out.push(',');
    out.push('"');
    out.push('c');
    out.push('o');
    out.push('m');
    out.push('p');
    out.push('l');
    out.push('e');
    out.push('t');
    out.push('e');
    out.push('d');
    out.push('_');
    out.push('a');
    out.push('t');
    out.push('"');
    out.push(':');
    proof {
        assert(out@ =~= old(out)@ + lit_completed());
    }
}

/// Appends `null`.
fn push_null(out: &mut Vec<char>)
    ensures
        final(out)@ == old(out)@ + lit_null(),
{
    out.push('n');
    out.push('u');
    out.push('l');
    out.push('l');
    proof {
        assert(out@ =~= old(out)@ + lit_null());
    }
}

/// Appends the text, escaped for the inside of a JSON string.
fn push_escaped(out: &mut Vec<char>, s: &str)
    ensures
        final(out)@ == old(out)@ + esc(s@),
{
    let n = s.unicode_len();
    let mut i: usize = 0;
    while i < n
        invariant
            n == s@.len(),
            i <= n,
            out@ == old(out)@ + esc(s@.take(i as int)),
        decreases n - i,
    {
        let c = s.get_char(i);
        if c == '"' {
            out.push('\\');
            out.push('"');
        } else if c == '\\' {
            out.push('\\');
            out.push('\\');
        } else {
            out.push(c);
        }
        proof {
            lemma_esc_snoc(s@.take(i as int), c);
            assert(s@.take(i as int).push(c) =~= s@.take(i + 1));
            assert(out@ =~= old(out)@ + esc(s@.take(i + 1)));
        }
        i = i + 1;
    }
    proof {
        assert(s@.take(n as int) =~= s@);
    }
}

/// Appends the object text of one task.
fn push_task(out: &mut Vec<char>, t: &Task)
    ensures
        final(out)@ == old(out)@ + json_of_task(t@),
{
    push_obj_open(out);
    push_decimal(out, t.id);
    push_name_key(out);
    push_escaped(out, t.name.as_str());
    out.push('"');
    push_created_key(out);
    push_escaped(out, t.created_at.as_str());
    out.push('"');
    push_completed_key(out);
    match t.completed_at {
        Some(ref c) => {
            out.push('"');
            push_escaped(out, c.as_str());
            out.push('"');
        },
        None => {
            push_null(out);
        },
    }
    out.push('}');
    proof {
        assert(out@ =~= old(out)@ + json_of_task(t@));
    }
}

// ---------------------------------------------------------------------------
// Reading back what was written: the two definitions are inverse
// ---------------------------------------------------------------------------

/// Splits a known tail: if the text from `i` on reads `a + b`, then `a`
/// stands at `i` and `b` starts right after it.
proof fn lemma_split_at(s: Seq<char>, i: int, a: Seq<char>, b: Seq<char>)
    requires
        0 <= i <= s.len(),
        s.skip(i) == a + b,
    ensures
        i + a.len() <= s.len(),
        s.subrange(i, i + a.len()) == a,
        s.skip(i + a.len()) == b,
{
    assert(s.skip(i).len() == s.len() - i);
    assert(s.subrange(i, i + a.len()) =~= a);
    assert forall|m: int| 0 <= m < b.len() implies s.skip(i + a.len())[m] == b[m] by {
        assert(s.skip(i + a.len())[m] == s[i + a.len() + m]);
        assert(s.skip(i)[a.len() + m] == s[i + a.len() + m]);
        assert((a + b)[a.len() + m] == b[m]);
    }
    assert(s.skip(i + a.len()) =~= b);
}

/// The scanner reads an escaped text back as the text it escapes.
proof fn lemma_scan_string_complete(s: Seq<char>, i: int, t: Seq<char>, rest: Seq<char>)
    requires
        0 <= i <= s.len(),
        s.skip(i) == esc(t) + seq!['"'] + rest,
    ensures
        scan_string(s, i) == Some((t, i + esc(t).len() + 1)),
    decreases t.len(),
{
    assert(s.skip(i).len() == s.len() - i);
    if t.len() == 0 {
        assert(esc(t) == Seq::<char>::empty());
        assert(s.skip(i)[0] == '"');
        assert(s[i] == '"');
    } else {
        let c = t[0];
        let t1 = t.skip(1);
        assert(esc(t) == esc_char(c) + esc(t1));
        let tail = esc(t1) + seq!['"'] + rest;
        assert(s.skip(i) =~= esc_char(c) + tail);
        lemma_split_at(s, i, esc_char(c), tail);
        if c == '"' || c == '\\' {
            assert(s.skip(i)[0] == '\\');
            assert(s.skip(i)[1] == c);
            assert(s[i] == '\\');
            assert(s[i + 1] == c);
            assert(i + 2 <= s.len());
            lemma_scan_string_complete(s, i + 2, t1, rest);
            assert(seq![s[i + 1]] + t1 =~= t);
            assert(esc(t).len() == 2 + esc(t1).len());
        } else {
            assert(s.skip(i)[0] == c);
            assert(s[i] == c);
            lemma_scan_string_complete(s, i + 1, t1, rest);
            assert(seq![s[i]] + t1 =~= t);
            assert(esc(t).len() == 1 + esc(t1).len());
        }
    }
}

/// The digits of a number: never empty, all digits, no leading zero unless
/// the number is zero itself, and worth the number they were taken from.
proof fn lemma_dec_props(n: nat)
    ensures
        dec(n).len() >= 1,
        forall|m: int| 0 <= m < dec(n).len() ==> is_digit(#[trigger] dec(n)[m]),
        n >= 1 ==> dec(n)[0] != '0',
        dec(n).len() == 1 <==> n < 10,
        val_of(dec(n)) == n,
    decreases n,
{
    if n < 10 {
        assert(seq![digit_char(n)].drop_last() =~= Seq::<char>::empty());
        assert(val_of(Seq::<char>::empty()) == 0);
        assert(digit_val(digit_char(n)) == n);
        assert(val_of(dec(n)) == n);
    } else {
        lemma_dec_props(n / 10);
        assert(dec(n) == dec(n / 10) + seq![digit_char(n % 10)]);
        assert(dec(n).drop_last() =~= dec(n / 10));
        assert(dec(n).last() == digit_char(n % 10));
        assert(digit_val(digit_char(n % 10)) == n % 10);
        assert(val_of(dec(n)) == val_of(dec(n / 10)) * 10 + digit_val(digit_char(n % 10)));
        assert(n == (n / 10) * 10 + n % 10);
        assert(dec(n)[0] == dec(n / 10)[0]);
    }
}

/// A block of digits followed by a non-digit is exactly one digit run.
proof fn lemma_digit_run_of_block(s: Seq<char>, i: int, e: int)
    requires
        0 <= i <= e <= s.len(),
        forall|m: int| i <= m < e ==> is_digit(#[trigger] s[m]),
        e == s.len() || !is_digit(s[e]),
    ensures
        digit_run_end(s, i) == e,
    decreases e - i,
{
    if i < e {
        lemma_digit_run_of_block(s, i + 1, e);
    }
}

/// The scanner reads a written number back as the number itself.
proof fn lemma_scan_number_complete(s: Seq<char>, i: int, n: nat, rest: Seq<char>)
    requires
        0 <= i <= s.len(),
        s.skip(i) == dec(n) + rest,
        rest.len() > 0,
        !is_digit(rest[0]),
        n <= usize::MAX,
    ensures
        scan_number(s, i) == Some((n, i + dec(n).len())),
{
    lemma_dec_props(n);
    lemma_split_at(s, i, dec(n), rest);
    let e = i + dec(n).len();
    assert(e < s.len()) by {
        assert(s.skip(e) == rest);
        assert(s.skip(e).len() == s.len() - e);
    }
    assert(forall|m: int| i <= m < e ==> is_digit(#[trigger] s[m])) by {
        assert(forall|m: int| i <= m < e ==> s[m] == s.subrange(i, e)[m - i]);
    }
    assert(s[e] == rest[0]) by {
        assert(s.skip(e)[0] == rest[0]);
    }
    lemma_digit_run_of_block(s, i, e);
    assert(s[i] == dec(n)[0]) by {
        assert(s.subrange(i, e)[0] == dec(n)[0]);
    }
    if e > i + 1 {
        assert(dec(n).len() > 1);
        assert(s[i] != '0');
    }
    assert(val_of(s.subrange(i, e)) == n);
}

/// The scanner reads a written task object back as the task itself.
#[verifier::rlimit(100)]
proof fn lemma_scan_task_complete(s: Seq<char>, i: int, t: TaskSpec, rest: Seq<char>)
    requires
        0 <= i <= s.len(),
        s.skip(i) == json_of_task(t) + rest,
        t.id <= usize::MAX,
    ensures
        scan_task(s, i) == Some((t, i + json_of_task(t).len())),
{
    let compl: Seq<char> = match t.completed_at {
        Some(c) => seq!['"'] + esc(c) + seq!['"'],
        None => lit_null(),
    };
    let t8 = seq!['}'] + rest;
    let t7 = compl + t8;
    let t6 = lit_completed() + t7;
    let t5 = esc(t.created_at) + (seq!['"'] + t6);
    let t4 = lit_created() + t5;
    let t3 = esc(t.name) + (seq!['"'] + t4);
    let t2 = lit_name() + t3;
    let t1 = dec(t.id) + t2;
    assert(json_of_task(t) + rest =~= lit_obj_open() + t1);
    lemma_split_at(s, i, lit_obj_open(), t1);
    let j1 = i + lit_obj_open().len();
    lemma_scan_number_complete(s, j1, t.id, t2);
    lemma_split_at(s, j1, dec(t.id), t2);
    let j2 = j1 + dec(t.id).len();
    lemma_split_at(s, j2, lit_name(), t3);
    let j3 = j2 + lit_name().len();
    assert(t3 =~= esc(t.name) + seq!['"'] + t4);
    lemma_scan_string_complete(s, j3, t.name, t4);
    lemma_split_at(s, j3, esc(t.name) + seq!['"'], t4);
    let j4 = j3 + esc(t.name).len() + 1;
    lemma_split_at(s, j4, lit_created(), t5);
    let j5 = j4 + lit_created().len();
    assert(t5 =~= esc(t.created_at) + seq!['"'] + t6);
    lemma_scan_string_complete(s, j5, t.created_at, t6);
    lemma_split_at(s, j5, esc(t.created_at) + seq!['"'], t6);
    let j6 = j5 + esc(t.created_at).len() + 1;
    lemma_split_at(s, j6, lit_completed(), t7);
    let j7 = j6 + lit_completed().len();
    let j8 = j7 + compl.len();
    match t.completed_at {
        None => {
            lemma_split_at(s, j7, lit_null(), t8);
            assert(scan_completed(s, j7) == Some((None::<Seq<char>>, j8)));
        },
        Some(c) => {
            lemma_split_at(s, j7, compl, t8);
            assert(s[j7] == '"') by {
                assert(s.skip(j7)[0] == compl[0]);
            }
            assert(scan_lit(s, j7, lit_null()) is None) by {
                if j7 + lit_null().len() <= s.len() {
                    assert(s.subrange(j7, j7 + lit_null().len())[0] == s[j7]);
                }
            }
            assert(t7 =~= seq!['"'] + (esc(c) + seq!['"'] + t8));
            lemma_split_at(s, j7, seq!['"'], esc(c) + seq!['"'] + t8);
            lemma_scan_string_complete(s, j7 + 1, c, t8);
            assert(scan_completed(s, j7) == Some((Some(c), j8)));
        },
    }
    lemma_split_at(s, j8, seq!['}'], rest);
    let j9 = j8 + 1;
    assert(scan_lit(s, j8, seq!['}']) == Some(j9));
    assert(scan_task(s, i) == Some(
        (TaskSpec { id: t.id, name: t.name, created_at: t.created_at, completed_at: t.completed_at }, j9),
    ));
    assert(TaskSpec {
        id: t.id,
        name: t.name,
        created_at: t.created_at,
        completed_at: t.completed_at,
    } == t);
    assert(j9 == i + json_of_task(t).len());
}

/// The scanner reads a written task list back as the list itself.
proof fn lemma_scan_items_complete(s: Seq<char>, i: int, ts: Seq<TaskSpec>, rest: Seq<char>)
    requires
        0 <= i <= s.len(),
        ts.len() >= 1,
        s.skip(i) == json_items(ts) + seq![']'] + rest,
        forall|k: int| 0 <= k < ts.len() ==> (#[trigger] ts[k]).id <= usize::MAX,
    ensures
        scan_items(s, i) == Some((ts, i + json_items(ts).len() + 1)),
    decreases ts.len(),
{
    let t0 = ts[0];
    if ts.len() == 1 {
        assert(s.skip(i) =~= json_of_task(t0) + (seq![']'] + rest));
        lemma_scan_task_complete(s, i, t0, seq![']'] + rest);
        lemma_split_at(s, i, json_of_task(t0), seq![']'] + rest);
        let j = i + json_of_task(t0).len();
        assert(s[j] == ']') by {
            assert(s.skip(j)[0] == ']');
        }
        assert(j < s.len()) by {
            assert(s.skip(j).len() == s.len() - j);
        }
        assert(seq![t0] =~= ts);
    } else {
        let ts1 = ts.skip(1);
        let tail = json_items(ts1) + seq![']'] + rest;
        assert(s.skip(i) =~= json_of_task(t0) + (seq![','] + tail));
        lemma_scan_task_complete(s, i, t0, seq![','] + tail);
        lemma_split_at(s, i, json_of_task(t0), seq![','] + tail);
        let j = i + json_of_task(t0).len();
        assert(s[j] == ',') by {
            assert(s.skip(j)[0] == ',');
        }
        assert(j < s.len()) by {
            assert(s.skip(j).len() == s.len() - j);
        }
        lemma_split_at(s, j, seq![','], tail);
        assert(forall|k: int| 0 <= k < ts1.len() ==> (#[trigger] ts1[k]).id <= usize::MAX) by {
            assert(forall|k: int| 0 <= k < ts1.len() ==> ts1[k] == ts[k + 1]);
        }
        lemma_scan_items_complete(s, j + 1, ts1, rest);
        assert(seq![t0] + ts1 =~= ts);
    }
}

/// Reading back a written task sequence yields that sequence: serializing
/// and then parsing is the identity, for every sequence whose ids fit the
/// id type.
pub proof fn lemma_parse_of_serialized(ts: Seq<TaskSpec>)
    requires
        forall|k: int| 0 <= k < ts.len() ==> (#[trigger] ts[k]).id <= usize::MAX,
    ensures
        scan_tasks(json_of_tasks(ts)) == Some(ts),
{
    let s = json_of_tasks(ts);
    assert(s[0] == '[');
    if ts.len() == 0 {
        assert(json_items(ts) == Seq::<char>::empty());
        assert(s =~= seq!['[', ']']);
        assert(scan_tasks(s) == Some(Seq::<TaskSpec>::empty()));
    } else {
        assert(json_items(ts)[0] == json_of_task(ts[0])[0]);
        assert(json_of_task(ts[0])[0] == '{');
        assert(s[1] == '{');
        assert(s.skip(1) =~= json_items(ts) + seq![']'] + Seq::<char>::empty());
        lemma_scan_items_complete(s, 1, ts, Seq::empty());
        assert(1 + json_items(ts).len() + 1 == s.len());
    }
}

/// Joins two adjacent known pieces of the text into one.
proof fn lemma_join_at(s: Seq<char>, i: int, j: int, k: int, a: Seq<char>, b: Seq<char>)
    requires
        0 <= i <= j <= k <= s.len(),
        s.subrange(i, j) == a,
        s.subrange(j, k) == b,
    ensures
        s.subrange(i, k) == a + b,
{
    assert forall|m: int| 0 <= m < k - i implies s.subrange(i, k)[m] == (a + b)[m] by {
        assert(s.subrange(i, k)[m] == s[i + m]);
        if m < j - i {
            assert(s.subrange(i, j)[m] == s[i + m]);
        } else {
            assert(s.subrange(j, k)[m - (j - i)] == s[i + m]);
        }
    }
    assert(s.subrange(i, k) =~= a + b);
}

/// Whatever string contents the scanner accepts, the consumed text is their
/// escape followed by the closing quote.
proof fn lemma_scan_string_sound(s: Seq<char>, i: int)
    requires
        0 <= i <= s.len(),
        scan_string(s, i) is Some,
    ensures
        i < (scan_string(s, i)->0).1 <= s.len(),
        s.subrange(i, (scan_string(s, i)->0).1) == esc((scan_string(s, i)->0).0) + seq!['"'],
    decreases s.len() - i,
{
    let t = (scan_string(s, i)->0).0;
    let j = (scan_string(s, i)->0).1;
    if s[i] == '"' {
        assert(esc(Seq::<char>::empty()) == Seq::<char>::empty());
        assert(s.subrange(i, i + 1) =~= esc(t) + seq!['"']);
    } else if s[i] == '\\' {
        lemma_scan_string_sound(s, i + 2);
        let t1 = (scan_string(s, i + 2)->0).0;
        assert(t == seq![s[i + 1]] + t1);
        assert(t[0] == s[i + 1]);
        assert(t.skip(1) =~= t1);
        assert(esc(t) == esc_char(s[i + 1]) + esc(t1));
        assert(esc_char(s[i + 1]) == seq!['\\', s[i + 1]]);
        assert(s.subrange(i, i + 2) =~= seq!['\\', s[i + 1]]);
        lemma_join_at(s, i, i + 2, j, seq!['\\', s[i + 1]], esc(t1) + seq!['"']);
        assert(seq!['\\', s[i + 1]] + (esc(t1) + seq!['"']) =~= esc(t) + seq!['"']);
    } else {
        lemma_scan_string_sound(s, i + 1);
        let t1 = (scan_string(s, i + 1)->0).0;
        assert(t == seq![s[i]] + t1);
        assert(t[0] == s[i]);
        assert(t.skip(1) =~= t1);
        assert(esc(t) == esc_char(s[i]) + esc(t1));
        assert(esc_char(s[i]) == seq![s[i]]);
        assert(s.subrange(i, i + 1) =~= seq![s[i]]);
        lemma_join_at(s, i, i + 1, j, seq![s[i]], esc(t1) + seq!['"']);
        assert(seq![s[i]] + (esc(t1) + seq!['"']) =~= esc(t) + seq!['"']);
    }
}

/// A run that does not start with a zero is worth at least one.
proof fn lemma_val_of_lower(ds: Seq<char>)
    requires
        ds.len() >= 1,
        ds[0] != '0',
    ensures
        val_of(ds) >= 1,
    decreases ds.len(),
{
    if ds.len() == 1 {
        assert(ds.drop_last() =~= Seq::<char>::empty());
        assert(val_of(Seq::<char>::empty()) == 0);
        assert(digit_val(ds[0]) >= 1);
    } else {
        lemma_val_of_lower(ds.drop_last());
    }
}

/// A non-empty digit run without leading zeros is the written form of its
/// own value.
proof fn lemma_dec_of_run(ds: Seq<char>)
    requires
        ds.len() >= 1,
        forall|m: int| 0 <= m < ds.len() ==> is_digit(#[trigger] ds[m]),
        ds.len() > 1 ==> ds[0] != '0',
    ensures
        dec(val_of(ds)) == ds,
    decreases ds.len(),
{
    if ds.len() == 1 {
        assert(ds.drop_last() =~= Seq::<char>::empty());
        assert(val_of(Seq::<char>::empty()) == 0);
        assert(is_digit(ds[0]));
        assert(digit_val(ds[0]) < 10);
        assert(digit_char(digit_val(ds[0])) == ds[0]);
        assert(dec(val_of(ds)) =~= ds);
    } else {
        let dsp = ds.drop_last();
        assert(forall|m: int| 0 <= m < dsp.len() ==> dsp[m] == ds[m]);
        lemma_dec_of_run(dsp);
        lemma_val_of_lower(dsp);
        let d = digit_val(ds.last());
        let v = val_of(ds);
        assert(is_digit(ds.last()));
        assert(d < 10);
        assert(v == val_of(dsp) * 10 + d);
        vstd::arithmetic::div_mod::lemma_fundamental_div_mod_converse(
            v as int,
            10,
            val_of(dsp) as int,
            d as int,
        );
        assert(v / 10 == val_of(dsp));
        assert(v % 10 == d);
        assert(v >= 10);
        assert(digit_char(d) == ds.last());
        assert(dec(v) == dec(val_of(dsp)) + seq![digit_char(d)]);
        assert(dec(v) =~= ds);
    }
}

/// Whatever number the scanner accepts, the consumed text is its decimal
/// digits.
proof fn lemma_scan_number_sound(s: Seq<char>, i: int)
    requires
        0 <= i <= s.len(),
        scan_number(s, i) is Some,
    ensures
        i < (scan_number(s, i)->0).1 <= s.len(),
        s.subrange(i, (scan_number(s, i)->0).1) == dec((scan_number(s, i)->0).0),
        (scan_number(s, i)->0).0 <= usize::MAX,
{
    let e = digit_run_end(s, i);
    lemma_digit_run_bounds(s, i);
    lemma_digit_run_digits(s, i);
    let run = s.subrange(i, e);
    assert(forall|m: int| 0 <= m < run.len() ==> is_digit(#[trigger] run[m])) by {
        assert(forall|m: int| 0 <= m < run.len() ==> run[m] == s[i + m]);
    }
    assert(run[0] == s[i]);
    lemma_dec_of_run(run);
}

/// Whatever completion field the scanner accepts, the consumed text is its
/// written form.
proof fn lemma_scan_completed_sound(s: Seq<char>, i: int)
    requires
        0 <= i <= s.len(),
        scan_completed(s, i) is Some,
    ensures
        i < (scan_completed(s, i)->0).1 <= s.len(),
        s.subrange(i, (scan_completed(s, i)->0).1) == (match (scan_completed(s, i)->0).0 {
            Some(c) => seq!['"'] + esc(c) + seq!['"'],
            None => lit_null(),
        }),
{
    let j = (scan_completed(s, i)->0).1;
    match scan_lit(s, i, lit_null()) {
        Some(_) => {},
        None => {
            lemma_scan_string_sound(s, i + 1);
            let c = (scan_string(s, i + 1)->0).0;
            assert(s.subrange(i, i + 1) =~= seq!['"']);
            lemma_join_at(s, i, i + 1, j, seq!['"'], esc(c) + seq!['"']);
            assert(seq!['"'] + (esc(c) + seq!['"']) =~= seq!['"'] + esc(c) + seq!['"']);
        },
    }
}

/// Whatever task the scanner accepts, the consumed text is that task's
/// object text.
#[verifier::rlimit(100)]
proof fn lemma_scan_task_sound(s: Seq<char>, i: int)
    requires
        0 <= i <= s.len(),
        scan_task(s, i) is Some,
    ensures
        i < (scan_task(s, i)->0).1 <= s.len(),
        s.subrange(i, (scan_task(s, i)->0).1) == json_of_task((scan_task(s, i)->0).0),
        (scan_task(s, i)->0).0.id <= usize::MAX,
{
    let t = (scan_task(s, i)->0).0;
    let j9 = (scan_task(s, i)->0).1;
    let j1 = scan_lit(s, i, lit_obj_open())->0;
    let j2 = (scan_number(s, j1)->0).1;
    let j3 = scan_lit(s, j2, lit_name())->0;
    let j4 = (scan_string(s, j3)->0).1;
    let j5 = scan_lit(s, j4, lit_created())->0;
    let j6 = (scan_string(s, j5)->0).1;
    let j7 = scan_lit(s, j6, lit_completed())->0;
    let j8 = (scan_completed(s, j7)->0).1;
    lemma_scan_number_sound(s, j1);
    lemma_scan_string_sound(s, j3);
    lemma_scan_string_sound(s, j5);
    lemma_scan_completed_sound(s, j7);
    let compl: Seq<char> = match t.completed_at {
        Some(c) => seq!['"'] + esc(c) + seq!['"'],
        None => lit_null(),
    };
    lemma_join_at(s, i, j1, j2, lit_obj_open(), dec(t.id));
    lemma_join_at(s, i, j2, j3, lit_obj_open() + dec(t.id), lit_name());
    lemma_join_at(
        s,
        i,
        j3,
        j4,
        lit_obj_open() + dec(t.id) + lit_name(),
        esc(t.name) + seq!['"'],
    );
    lemma_join_at(
        s,
        i,
        j4,
        j5,
        lit_obj_open() + dec(t.id) + lit_name() + (esc(t.name) + seq!['"']),
        lit_created(),
    );
    lemma_join_at(
        s,
        i,
        j5,
        j6,
        lit_obj_open() + dec(t.id) + lit_name() + (esc(t.name) + seq!['"']) + lit_created(),
        esc(t.created_at) + seq!['"'],
    );
    lemma_join_at(
        s,
        i,
        j6,
        j7,
        lit_obj_open() + dec(t.id) + lit_name() + (esc(t.name) + seq!['"']) + lit_created() + (
        esc(t.created_at) + seq!['"']),
        lit_completed(),
    );
    lemma_join_at(
        s,
        i,
        j7,
        j8,
        lit_obj_open() + dec(t.id) + lit_name() + (esc(t.name) + seq!['"']) + lit_created() + (
        esc(t.created_at) + seq!['"']) + lit_completed(),
        compl,
    );
    assert(s.subrange(j8, j9) =~= seq!['}']);
    lemma_join_at(
        s,
        i,
        j8,
        j9,
        lit_obj_open() + dec(t.id) + lit_name() + (esc(t.name) + seq!['"']) + lit_created() + (
        esc(t.created_at) + seq!['"']) + lit_completed() + compl,
        seq!['}'],
    );
    assert(lit_obj_open() + dec(t.id) + lit_name() + (esc(t.name) + seq!['"']) + lit_created() + (
    esc(t.created_at) + seq!['"']) + lit_completed() + compl + seq!['}'] =~= json_of_task(t));
}

/// Whatever task list the scanner accepts, the consumed text is the written
/// items followed by the closing bracket.
proof fn lemma_scan_items_sound(s: Seq<char>, i: int)
    requires
        0 <= i <= s.len(),
        scan_items(s, i) is Some,
    ensures
        i < (scan_items(s, i)->0).1 <= s.len(),
        s.subrange(i, (scan_items(s, i)->0).1) == json_items((scan_items(s, i)->0).0)
            + seq![']'],
        (scan_items(s, i)->0).0.len() >= 1,
        forall|k: int|
            0 <= k < (scan_items(s, i)->0).0.len() ==> (#[trigger] (scan_items(s, i)->0).0[k]).id
                <= usize::MAX,
    decreases s.len() - i,
{
    let ts = (scan_items(s, i)->0).0;
    let j = (scan_items(s, i)->0).1;
    let t0 = (scan_task(s, i)->0).0;
    let jt = (scan_task(s, i)->0).1;
    lemma_scan_task_sound(s, i);
    if jt < s.len() && s[jt] == ',' {
        lemma_scan_items_sound(s, jt + 1);
        let ts1 = (scan_items(s, jt + 1)->0).0;
        assert(ts == seq![t0] + ts1);
        assert(ts[0] == t0);
        assert(ts.skip(1) =~= ts1);
        assert(s.subrange(jt, jt + 1) =~= seq![',']);
        lemma_join_at(s, i, jt, jt + 1, json_of_task(t0), seq![',']);
        lemma_join_at(
            s,
            i,
            jt + 1,
            j,
            json_of_task(t0) + seq![','],
            json_items(ts1) + seq![']'],
        );
        assert(json_items(ts) == json_of_task(t0) + seq![','] + json_items(ts1));
        assert(json_of_task(t0) + seq![','] + (json_items(ts1) + seq![']']) =~= json_items(ts)
            + seq![']']);
    } else {
        assert(ts == seq![t0]);
        assert(s.subrange(jt, jt + 1) =~= seq![']']);
        lemma_join_at(s, i, jt, jt + 1, json_of_task(t0), seq![']']);
        assert(json_items(ts) == json_of_task(t0));
    }
}

/// Writing back what was read leaves the text unchanged: any text the
/// scanner accepts is exactly the written form of the sequence it yields.
pub proof fn lemma_serialized_of_parse(s: Seq<char>)
    requires
        scan_tasks(s) is Some,
    ensures
        json_of_tasks(scan_tasks(s)->0) == s,
{
    let ts = scan_tasks(s)->0;
    if s.len() >= 2 && s[1] == ']' {
        assert(s =~= seq!['[', ']']);
        assert(json_items(ts) == Seq::<char>::empty());
        assert(json_of_tasks(ts) =~= s);
    } else {
        lemma_scan_items_sound(s, 1);
        let j = (scan_items(s, 1)->0).1;
        assert(j == s.len());
        assert(s.subrange(0, 1) =~= seq!['[']);
        lemma_join_at(s, 0, 1, j, seq!['['], json_items(ts) + seq![']']);
        assert(s.subrange(0, s.len() as int) =~= s);
        assert(seq!['['] + (json_items(ts) + seq![']']) =~= json_of_tasks(ts));
    }
}

// ---------------------------------------------------------------------------
// Parsing
// ---------------------------------------------------------------------------

/// Relies on `Iterator::collect` building a `String` from `char`s: the
/// collected string holds exactly the iterated characters, in order.
#[verifier::external_body]
fn string_from_chars(cs: &Vec<char>) -> (r: String)
    ensures
        r@ == cs@,
{
    cs.iter().collect()
}

/// Every position of a digit run holds a digit.
proof fn lemma_digit_run_digits(s: Seq<char>, i: int)
    requires
        0 <= i <= s.len(),
    ensures
        forall|m: int| i <= m < digit_run_end(s, i) ==> is_digit(s[m]),
    decreases s.len() - i,
{
    if i < s.len() && is_digit(s[i]) {
        lemma_digit_run_digits(s, i + 1);
    }
}

/// A digit run ends within the text.
proof fn lemma_digit_run_bounds(s: Seq<char>, i: int)
    requires
        0 <= i <= s.len(),
    ensures
        i <= digit_run_end(s, i) <= s.len(),
    decreases s.len() - i,
{
    if i < s.len() && is_digit(s[i]) {
        lemma_digit_run_bounds(s, i + 1);
    }
}

/// A digit run is worth at least as much as any of its prefixes.
proof fn lemma_val_of_prefix(ds: Seq<char>, k: int)
    requires
        0 <= k <= ds.len(),
    ensures
        val_of(ds) >= val_of(ds.take(k)),
    decreases ds.len(),
{
    if k == ds.len() {
        assert(ds.take(k) =~= ds);
    } else {
        assert(ds.drop_last().take(k) =~= ds.take(k));
        lemma_val_of_prefix(ds.drop_last(), k);
        assert(val_of(ds.drop_last()) * 10 >= val_of(ds.drop_last()));
    }
}

/// Whether `c` is a decimal digit.
fn char_is_digit(c: char) -> (b: bool)
    ensures
        b == is_digit(c),
{
    c == '0' || c == '1' || c == '2' || c == '3' || c == '4' || c == '5' || c == '6' || c == '7'
        || c == '8' || c == '9'
}

/// The value of a digit character.
fn char_digit_val(c: char) -> (d: usize)
    requires
        is_digit(c),
    ensures
        d == digit_val(c),
        d < 10,
{
    if c == '0' { 0 } else if c == '1' { 1 } else if c == '2' { 2 } else if c == '3' { 3 }
    else if c == '4' { 4 } else if c == '5' { 5 } else if c == '6' { 6 } else if c == '7' { 7 }
    else if c == '8' { 8 } else { 9 }
}

/// Reads the fixed text `pat` at `i`, exactly as `scan_lit` does.
fn parse_lit(s: &Vec<char>, i: usize, pat: &Vec<char>) -> (r: Option<usize>)
    requires
        i <= s@.len(),
    ensures
        match r {
            Some(j) => scan_lit(s@, i as int, pat@) == Some(j as int) && j == i + pat@.len()
                && i <= j <= s@.len(),
            None => scan_lit(s@, i as int, pat@) is None,
        },
{
    if pat.len() > s.len() - i {
        return None;
    }
    let mut k: usize = 0;
    while k < pat.len()
        invariant
            s@.len() <= usize::MAX,
            i + pat@.len() <= s@.len(),
            k <= pat@.len(),
            s@.subrange(i as int, i + k) == pat@.take(k as int),
        decreases pat@.len() - k,
    {
        if s[i + k] != pat[k] {
            proof {
                assert(s@.subrange(i as int, i + pat@.len())[k as int] != pat@[k as int]);
            }
            return None;
        }
        proof {
            assert(s@.subrange(i as int, i + k + 1) =~= pat@.take(k as int + 1));
        }
        k = k + 1;
    }
    proof {
        assert(s@.subrange(i as int, i + pat@.len()) =~= pat@);
    }
    Some(i + pat.len())
}

/// Reads a number at `i`, exactly as `scan_number` does.
fn parse_number(s: &Vec<char>, i: usize) -> (r: Option<(usize, usize)>)
    requires
        i <= s@.len(),
    ensures
        match r {
            Some((n, j)) => scan_number(s@, i as int) == Some((n as nat, j as int)) && i < j
                <= s@.len(),
            None => scan_number(s@, i as int) is None,
        },
{
    let mut e: usize = i;
    while e < s.len() && char_is_digit(s[e])
        invariant
            i <= e <= s@.len(),
            digit_run_end(s@, i as int) == digit_run_end(s@, e as int),
        decreases s@.len() - e,
    {
        e = e + 1;
    }
    proof {
        assert(digit_run_end(s@, e as int) == e);
        lemma_digit_run_digits(s@, i as int);
    }
    if e == i {
        return None;
    }
    if s[i] == '0' && e > i + 1 {
        return None;
    }
    let ghost run = s@.subrange(i as int, e as int);
    let mut v: usize = 0;
    let mut k: usize = i;
    while k < e
        invariant
            i <= k <= e <= s@.len(),
            e as int == digit_run_end(s@, i as int),
            run == s@.subrange(i as int, e as int),
            forall|m: int| i <= m < e ==> is_digit(s@[m]),
            v == val_of(s@.subrange(i as int, k as int)),
        decreases e - k,
    {
        let d = char_digit_val(s[k]);
        proof {
            assert(s@.subrange(i as int, k + 1).drop_last() =~= s@.subrange(i as int, k as int));
            assert(s@.subrange(i as int, k + 1).last() == s@[k as int]);
            assert(val_of(s@.subrange(i as int, k + 1)) == v * 10 + digit_val(s@[k as int]));
        }
        if v > usize::MAX / 10 || (v == usize::MAX / 10 && d > usize::MAX % 10) {
            proof {
                assert(usize::MAX == (usize::MAX / 10) * 10 + usize::MAX % 10);
                assert(v * 10 + d > usize::MAX);
                assert(run.take(k + 1 - i) =~= s@.subrange(i as int, k + 1));
                lemma_val_of_prefix(run, k + 1 - i);
                assert(val_of(run) > usize::MAX);
            }
            return None;
        }
        proof {
            assert(usize::MAX == (usize::MAX / 10) * 10 + usize::MAX % 10);
            assert(v * 10 + d <= usize::MAX);
        }
        v = v * 10 + d;
        k = k + 1;
    }
    proof {
        assert(s@.subrange(i as int, k as int) =~= run);
    }
    Some((v, e))
}

/// How the scanner's result at `cur` completes a string begun at `i` with
/// the contents read so far.
spec fn string_cont(s: Seq<char>, i: int, acc: Seq<char>, cur: int) -> bool {
    scan_string(s, i) == (match scan_string(s, cur) {
        Some((t, j)) => Some((acc + t, j)),
        None => None,
    })
}

/// Reads string contents at `i`, exactly as `scan_string` does.
fn parse_string(s: &Vec<char>, i: usize) -> (r: Option<(Vec<char>, usize)>)
    requires
        i <= s@.len(),
    ensures
        match r {
            Some((t, j)) => scan_string(s@, i as int) == Some((t@, j as int)) && i < j
                <= s@.len(),
            None => scan_string(s@, i as int) is None,
        },
{
    let mut out: Vec<char> = Vec::new();
    let mut cur: usize = i;
    proof {
        assert(string_cont(s@, i as int, out@, cur as int)) by {
            match scan_string(s@, cur as int) {
                Some((t, j)) => {
                    assert(out@ + t =~= t);
                },
                None => {},
            }
        }
    }
    loop
        invariant
            i <= cur <= s@.len(),
            string_cont(s@, i as int, out@, cur as int),
        decreases s@.len() - cur,
    {
        if cur >= s.len() {
            return None;
        }
        let c = s[cur];
        if c == '"' {
            proof {
                assert(out@ + Seq::<char>::empty() =~= out@);
            }
            return Some((out, cur + 1));
        } else if c == '\\' {
            if cur + 1 < s.len() && (s[cur + 1] == '"' || s[cur + 1] == '\\') {
                let c2 = s[cur + 1];
                proof {
                    match scan_string(s@, cur + 2) {
                        Some((t, j)) => {
                            assert(out@ + (seq![c2] + t) =~= out@.push(c2) + t);
                        },
                        None => {},
                    }
                }
                out.push(c2);
                cur = cur + 2;
            } else {
                return None;
            }
        } else {
            proof {
                match scan_string(s@, cur + 1) {
                    Some((t, j)) => {
                        assert(out@ + (seq![c] + t) =~= out@.push(c) + t);
                    },
                    None => {},
                }
            }
            out.push(c);
            cur = cur + 1;
        }
    }
}

/// The fixed texts, as runtime values.
fn lit_obj_open_vec() -> (v: Vec<char>)
    ensures
        v@ == lit_obj_open(),
{
    let mut v: Vec<char> = Vec::new();
    v.push('{');
    v.push('"');
    v.push('i');
    v.push('d');
    v.push('"');
    v.push(':');
    proof {
        assert(v@ =~= lit_obj_open());
    }
    v
}

fn lit_name_vec() -> (v: Vec<char>)
    ensures
        v@ == lit_name(),
{
    let mut v: Vec<char> = Vec::new();
    v.push(',');
    v.push('"');
    v.push('n');
    v.push('a');
    v.push('m');
    v.push('e');
    v.push('"');
    v.push(':');
    v.push('"');
    proof {
        assert(v@ =~= lit_name());
    }
    v
}

fn lit_created_vec() -> (v: Vec<char>)
    ensures
        v@ == lit_created(),
{
    let mut v: Vec<char> = Vec::new();
    v.push(',');
    v.push('"');
    v.push('c');
    v.push('r');
    v.push('e');
    v.push('a');
    v.push('t');
    v.push('e');
    v.push('d');
    v.push('_');
    v.push('a');
    v.push('t');
    v.push('"');
    v.push(':');
    v.push('"');
    proof {
        assert(v@ =~= lit_created());
    }
    v
}

fn lit_completed_vec() -> (v: Vec<char>)
    ensures
        v@ == lit_completed(),
{
    let mut v: Vec<char> = Vec::new();
    v.push(',');
    v.push('"');
    v.push('c');
    v.push('o');
    v.push('m');
    v.push('p');
    v.push('l');
    v.push('e');
    v.push('t');
    v.push('e');
    v.push('d');
    v.push('_');
    v.push('a');
    v.push('t');
    v.push('"');
    v.push(':');
    proof {
        assert(v@ =~= lit_completed());
    }
    v
}

fn lit_null_vec() -> (v: Vec<char>)
    ensures
        v@ == lit_null(),
{
    let mut v: Vec<char> = Vec::new();
    v.push('n');
    v.push('u');
    v.push('l');
    v.push('l');
    proof {
        assert(v@ =~= lit_null());
    }
    v
}

fn lit_rbrace_vec() -> (v: Vec<char>)
    ensures
        v@ == seq!['}'],
{
    let mut v: Vec<char> = Vec::new();
    v.push('}');
    proof {
        assert(v@ =~= seq!['}']);
    }
    v
}

/// Reads the completion field at `i`, exactly as `scan_completed` does.
fn parse_completed(s: &Vec<char>, i: usize) -> (r: Option<(Option<String>, usize)>)
    requires
        i <= s@.len(),
    ensures
        match r {
            Some((c, j)) => scan_completed(s@, i as int) == Some(
                (
                    match c {
                        Some(t) => Some(t@),
                        None => None,
                    },
                    j as int,
                ),
            ) && i < j <= s@.len(),
            None => scan_completed(s@, i as int) is None,
        },
{
    let nullv = lit_null_vec();
    match parse_lit(s, i, &nullv) {
        Some(j) => Some((None, j)),
        None => {
            if i < s.len() && s[i] == '"' {
                match parse_string(s, i + 1) {
                    Some((t, j)) => {
                        let st = string_from_chars(&t);
                        Some((Some(st), j))
                    },
                    None => None,
                }
            } else {
                None
            }
        },
    }
}

/// Reads one task object at `i`, exactly as `scan_task` does.
fn parse_task(s: &Vec<char>, i: usize) -> (r: Option<(Task, usize)>)
    requires
        i <= s@.len(),
    ensures
        match r {
            Some((t, j)) => scan_task(s@, i as int) == Some((t@, j as int)) && i < j <= s@.len(),
            None => scan_task(s@, i as int) is None,
        },
{
    let lit1 = lit_obj_open_vec();
    let j1 = match parse_lit(s, i, &lit1) {
        Some(j) => j,
        None => {
            return None;
        },
    };
    let (id, j2) = match parse_number(s, j1) {
        Some(p) => p,
        None => {
            return None;
        },
    };
    let lit2 = lit_name_vec();
    let j3 = match parse_lit(s, j2, &lit2) {
        Some(j) => j,
        None => {
            return None;
        },
    };
    let (name_cs, j4) = match parse_string(s, j3) {
        Some(p) => p,
        None => {
            return None;
        },
    };
    let lit3 = lit_created_vec();
    let j5 = match parse_lit(s, j4, &lit3) {
        Some(j) => j,
        None => {
            return None;
        },
    };
    let (created_cs, j6) = match parse_string(s, j5) {
        Some(p) => p,
        None => {
            return None;
        },
    };
    let lit4 = lit_completed_vec();
    let j7 = match parse_lit(s, j6, &lit4) {
        Some(j) => j,
        None => {
            return None;
        },
    };
    let (completed, j8) = match parse_completed(s, j7) {
        Some(p) => p,
        None => {
            return None;
        },
    };
    let lit5 = lit_rbrace_vec();
    let j9 = match parse_lit(s, j8, &lit5) {
        Some(j) => j,
        None => {
            return None;
        },
    };
    let name = string_from_chars(&name_cs);
    let created_at = string_from_chars(&created_cs);
    let t = Task { id, name, created_at, completed_at: completed };
    Some((t, j9))
}

/// How the scanner's result at `cur` completes the whole text, given the
/// tasks read so far.
spec fn items_cont(s: Seq<char>, acc: Seq<TaskSpec>, cur: int) -> bool {
    scan_tasks(s) == (match scan_items(s, cur) {
        Some((ts, j)) => if j == s.len() {
            Some(acc + ts)
        } else {
            None
        },
        None => None,
    })
}

/// The values of a sequence one task longer.
proof fn lemma_views_push(ts: Seq<Task>, t: Task)
    ensures
        views(ts.push(t)) == views(ts).push(t@),
{
    assert(views(ts.push(t)) =~= views(ts).push(t@));
}

/// Reads a whole text back as a task sequence: `Ok` holds exactly the
/// sequence `scan_tasks` assigns to the text, and a text `scan_tasks`
/// rejects yields `ParseFailure`.
pub fn parse_tasks(s: &Vec<char>) -> (r: Result<Vec<Task>, Error>)
    ensures
        match r {
            Ok(v) => scan_tasks(s@) == Some(views(v@)),
            Err(e) => scan_tasks(s@) is None && e == Error::ParseFailure,
        },
{
    if s.len() == 0 || s[0] != '[' {
        return Err(Error::ParseFailure);
    }
    if s.len() >= 2 && s[1] == ']' {
        if s.len() == 2 {
            let v: Vec<Task> = Vec::new();
            proof {
                assert(views(v@) =~= Seq::<TaskSpec>::empty());
            }
            return Ok(v);
        } else {
            return Err(Error::ParseFailure);
        }
    }
    let mut acc: Vec<Task> = Vec::new();
    let mut cur: usize = 1;
    proof {
        assert(items_cont(s@, views(acc@), 1)) by {
            match scan_items(s@, 1) {
                Some((ts, j)) => {
                    assert(views(acc@) + ts =~= ts);
                },
                None => {},
            }
        }
    }
    loop
        invariant
            1 <= cur <= s@.len(),
            items_cont(s@, views(acc@), cur as int),
        decreases s@.len() - cur,
    {
        match parse_task(s, cur) {
            None => {
                return Err(Error::ParseFailure);
            },
            Some((t, j)) => {
                if j < s.len() && s[j] == ',' {
                    proof {
                        lemma_views_push(acc@, t);
                        match scan_items(s@, j + 1) {
                            Some((ts2, k)) => {
                                assert(views(acc@) + (seq![t@] + ts2) =~= views(acc@).push(t@)
                                    + ts2);
                            },
                            None => {},
                        }
                    }
                    acc.push(t);
                    cur = j + 1;
                } else if j < s.len() && s[j] == ']' {
                    if j + 1 == s.len() {
                        proof {
                            lemma_views_push(acc@, t);
                            assert(views(acc@) + seq![t@] =~= views(acc@).push(t@));
                        }
                        acc.push(t);
                        return Ok(acc);
                    } else {
                        return Err(Error::ParseFailure);
                    }
                } else {
                    return Err(Error::ParseFailure);
                }
            },
        }
    }
}

/// The decimal text of `n`.
pub fn decimal_string(n: usize) -> (r: String)
    ensures
        r@ == dec(n as nat),
{
    let mut out: Vec<char> = Vec::new();
    push_decimal(&mut out, n);
    proof {
        assert(out@ =~= dec(n as nat));
    }
    string_from_chars(&out)
}

/// Writes a task sequence as the persisted JSON text.
pub fn serialize_tasks(ts: &Vec<Task>) -> (r: Vec<char>)
    ensures
        r@ == json_of_tasks(views(ts@)),
{
    let mut out: Vec<char> = Vec::new();
    out.push('[');
    proof {
        assert(out@ =~= seq!['['] + json_items(views(ts@).take(0)));
    }
    let mut i: usize = 0;
    while i < ts.len()
        invariant
            i <= ts@.len(),
            out@ == seq!['['] + json_items(views(ts@).take(i as int)),
        decreases ts@.len() - i,
    {
        if i > 0 {
            out.push(',');
        }
        push_task(&mut out, &ts[i]);
        proof {
            lemma_json_items_snoc(views(ts@).take(i as int), ts@[i as int]@);
            assert(views(ts@).take(i + 1) =~= views(ts@).take(i as int).push(ts@[i as int]@));
            assert(out@ =~= seq!['['] + json_items(views(ts@).take(i + 1)));
        }
        i = i + 1;
    }
    out.push(']');
    proof {
        assert(views(ts@).take(ts@.len() as int) =~= views(ts@));
        assert(out@ =~= json_of_tasks(views(ts@)));
    }
    out
}

} // verus!

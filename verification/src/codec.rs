//! The persistence codec: the task list's durable textual form (a sequence
//! of records with stable field names and ISO-8601 dates), its serializer,
//! a strict parser, and the proof that parsing a saved snapshot gives the
//! snapshot back. Content the parser does not accept decodes to nothing,
//! which the loader turns into an empty collection.

use vstd::prelude::*;
use vstd::string::*;
use crate::date::{is_digit, digit_char, digit_val, ser_date, spec_parse_date,
    lemma_date_round_trip, lemma_digit_round_trip, digit_to_char, char_is_digit, char_digit_val,
    push_date, parse_date};
use crate::task::{Task, TaskView, views};

verus! {

/// A task the durable form can represent: valid dates and an id the
/// machine word holds.
pub open spec fn task_wf(t: TaskView) -> bool {
    t.dates_valid() && t.id <= usize::MAX as nat
}

// ---- quoted strings ----

/// A quote or backslash is preceded by a backslash; all else is verbatim.
pub open spec fn escape_char(c: char) -> Seq<char> {
    if c == '"' || c == '\\' {
        seq!['\\', c]
    } else {
        seq![c]
    }
}

pub open spec fn ser_string(s: Seq<char>) -> Seq<char>
    decreases s.len(),
{
    if s.len() == 0 {
        Seq::empty()
    } else {
        escape_char(s[0]) + ser_string(s.drop_first())
    }
}

/// The escaped body followed by the closing quote: self-delimiting.
pub open spec fn ser_qstring(s: Seq<char>) -> Seq<char> {
    ser_string(s) + seq!['"']
}

pub proof fn lemma_ser_string_snoc(s: Seq<char>, c: char)
    ensures
        ser_string(s.push(c)) == ser_string(s) + escape_char(c),
    decreases s.len(),
{
    if s.len() == 0 {
        let sp = s.push(c);
        assert(sp[0] == c);
        assert(sp.drop_first() =~= Seq::<char>::empty());
        assert(ser_string(sp) == escape_char(c) + ser_string(sp.drop_first()));
        assert(ser_string(sp.drop_first()) =~= Seq::<char>::empty());
        assert(ser_string(s) =~= Seq::<char>::empty());
        assert(ser_string(sp) =~= ser_string(s) + escape_char(c));
    } else {
        assert(s.push(c)[0] == s[0]);
        assert(s.push(c).drop_first() =~= s.drop_first().push(c));
        lemma_ser_string_snoc(s.drop_first(), c);
        assert(ser_string(s.push(c)) =~= ser_string(s) + escape_char(c));
    }
}

/// Scans a string body up to and through its closing quote, undoing the
/// escapes; fails on a bare backslash before anything else or on running
/// out of input.
pub open spec fn spec_parse_str_body(s: Seq<char>, i: int) -> Option<(Seq<char>, int)>
    decreases s.len() - i,
{
    if i < 0 || i >= s.len() {
        None
    } else if s[i] == '"' {
        Some((Seq::empty(), i + 1))
    } else if s[i] == '\\' {
        if i + 1 < s.len() && (s[i + 1] == '"' || s[i + 1] == '\\') {
            match spec_parse_str_body(s, i + 2) {
                Some((t, j)) => Some((seq![s[i + 1]] + t, j)),
                None => None,
            }
        } else {
            None
        }
    } else {
        match spec_parse_str_body(s, i + 1) {
            Some((t, j)) => Some((seq![s[i]] + t, j)),
            None => None,
        }
    }
}

pub proof fn lemma_parse_str_body_advances(s: Seq<char>, i: int)
    ensures
        spec_parse_str_body(s, i) matches Some((t, j)) ==> i < j <= s.len(),
    decreases s.len() - i,
{
    if 0 <= i < s.len() {
        if s[i] == '"' {
        } else if s[i] == '\\' {
            if i + 1 < s.len() {
                lemma_parse_str_body_advances(s, i + 2);
            }
        } else {
            lemma_parse_str_body_advances(s, i + 1);
        }
    }
}

/// Parsing the quoted form of `t` placed at `i` gives `t` back.
pub proof fn lemma_parse_ser_qstring(t: Seq<char>, s: Seq<char>, i: int)
    requires
        0 <= i,
        i + ser_qstring(t).len() <= s.len(),
        s.subrange(i, i + ser_qstring(t).len() as int) == ser_qstring(t),
    ensures
        spec_parse_str_body(s, i) == Some((t, i + ser_qstring(t).len())),
    decreases t.len(),
{
    let q = ser_qstring(t);
    let len = q.len() as int;
    if t.len() == 0 {
        assert(q =~= seq!['"']);
        assert(s.subrange(i, i + 1)[0] == '"');
        assert(s[i] == '"');
    } else {
        let c = t[0];
        let rest = t.drop_first();
        if c == '"' || c == '\\' {
            assert(q =~= seq!['\\', c] + ser_qstring(rest));
            lemma_concat_sub(s, i, seq!['\\', c], ser_qstring(rest));
            assert(s.subrange(i, i + 2)[0] == '\\');
            assert(s.subrange(i, i + 2)[1] == c);
            assert(s[i] == '\\');
            assert(s[i + 1] == c);
            lemma_parse_ser_qstring(rest, s, i + 2);
            assert(seq![c] + rest =~= t);
        } else {
            assert(q =~= seq![c] + ser_qstring(rest));
            lemma_concat_sub(s, i, seq![c], ser_qstring(rest));
            assert(s.subrange(i, i + 1)[0] == c);
            assert(s[i] == c);
            lemma_parse_ser_qstring(rest, s, i + 1);
            assert(seq![c] + rest =~= t);
        }
    }
}

// ---- decimal numbers ----

pub open spec fn ser_num(n: nat) -> Seq<char>
    decreases n,
{
    if n < 10 {
        seq![digit_char(n as int)]
    } else {
        ser_num(n / 10) + seq![digit_char((n % 10) as int)]
    }
}

pub open spec fn digit_run_end(s: Seq<char>, i: int) -> int
    decreases s.len() - i,
    when 0 <= i <= s.len()
{
    if i < s.len() && is_digit(s[i]) {
        digit_run_end(s, i + 1)
    } else {
        i
    }
}

/// The value of a digit run, most significant first.
pub open spec fn num_val(ds: Seq<char>) -> nat
    decreases ds.len(),
{
    if ds.len() == 0 {
        0
    } else {
        num_val(ds.drop_last()) * 10 + (digit_val(ds.last()) as nat)
    }
}

pub open spec fn pow10(k: nat) -> nat
    decreases k,
{
    if k == 0 {
        1nat
    } else {
        10 * pow10((k - 1) as nat)
    }
}

/// A run of at most twenty digits whose value a machine word holds.
pub open spec fn spec_parse_num(s: Seq<char>, i: int) -> Option<(nat, int)> {
    if 0 <= i <= s.len() {
        let j = digit_run_end(s, i);
        if i < j && j - i <= 20 && num_val(s.subrange(i, j)) <= usize::MAX as nat {
            Some((num_val(s.subrange(i, j)), j))
        } else {
            None
        }
    } else {
        None
    }
}

pub proof fn lemma_digit_run_end_bounds(s: Seq<char>, i: int)
    requires
        0 <= i <= s.len(),
    ensures
        i <= digit_run_end(s, i) <= s.len(),
        forall|k: int| i <= k < digit_run_end(s, i) ==> is_digit(#[trigger] s[k]),
        digit_run_end(s, i) < s.len() ==> !is_digit(s[digit_run_end(s, i)]),
    decreases s.len() - i,
{
    if i < s.len() && is_digit(s[i]) {
        lemma_digit_run_end_bounds(s, i + 1);
    }
}

pub proof fn lemma_digit_run_end_of(s: Seq<char>, i: int, j: int)
    requires
        0 <= i <= j <= s.len(),
        forall|k: int| i <= k < j ==> is_digit(#[trigger] s[k]),
        j < s.len() ==> !is_digit(s[j]),
    ensures
        digit_run_end(s, i) == j,
    decreases j - i,
{
    if i < j {
        assert(is_digit(s[i]));
        lemma_digit_run_end_of(s, i + 1, j);
    }
}

pub proof fn lemma_ser_num_digits(n: nat)
    ensures
        ser_num(n).len() >= 1,
        forall|k: int| 0 <= k < ser_num(n).len() ==> is_digit(#[trigger] ser_num(n)[k]),
    decreases n,
{
    if n < 10 {
        lemma_digit_round_trip(n as int);
    } else {
        lemma_ser_num_digits(n / 10);
        lemma_digit_round_trip((n % 10) as int);
        assert forall|k: int| 0 <= k < ser_num(n).len() implies is_digit(
            #[trigger] ser_num(n)[k],
        ) by {
            if k < ser_num(n / 10).len() {
                assert(ser_num(n)[k] == ser_num(n / 10)[k]);
            } else {
                assert(ser_num(n)[k] == digit_char((n % 10) as int));
            }
        }
    }
}

pub proof fn lemma_num_val_ser(n: nat)
    ensures
        num_val(ser_num(n)) == n,
    decreases n,
{
    if n < 10 {
        lemma_digit_round_trip(n as int);
        let d = ser_num(n);
        assert(d.drop_last() =~= Seq::<char>::empty());
        assert(num_val(d.drop_last()) == 0);
        assert(d.last() == digit_char(n as int));
        assert(num_val(d) == 0 * 10 + (digit_val(digit_char(n as int)) as nat));
    } else {
        lemma_num_val_ser(n / 10);
        lemma_digit_round_trip((n % 10) as int);
        let d = ser_num(n);
        assert(d.drop_last() =~= ser_num(n / 10));
        assert(d.last() == digit_char((n % 10) as int));
        assert(num_val(d) == num_val(ser_num(n / 10)) * 10 + (digit_val(
            digit_char((n % 10) as int),
        ) as nat));
        assert(num_val(d) == (n / 10) * 10 + n % 10);
        assert(n == (n / 10) * 10 + n % 10);
    }
}

pub proof fn lemma_pow10_mono(a: nat, b: nat)
    requires
        a <= b,
    ensures
        pow10(a) <= pow10(b),
        pow10(a) >= 1,
    decreases b,
{
    if a == b {
        if a == 0 {
        } else {
            lemma_pow10_mono((a - 1) as nat, (a - 1) as nat);
        }
    } else {
        lemma_pow10_mono(a, (b - 1) as nat);
    }
}

pub proof fn lemma_ser_num_len(n: nat, k: nat)
    requires
        n < pow10(k),
        k >= 1,
    ensures
        ser_num(n).len() <= k,
    decreases n,
{
    if n < 10 {
    } else {
        if k == 1 {
            assert(pow10(0nat) == 1);
            assert(pow10(1nat) == 10);
            assert(false);
        }
        assert(n == 10 * (n / 10) + n % 10);
        assert(pow10(k) == 10 * pow10((k - 1) as nat));
        assert(n / 10 < pow10((k - 1) as nat));
        lemma_ser_num_len(n / 10, (k - 1) as nat);
    }
}

pub proof fn lemma_pow10_20()
    ensures
        pow10(20nat) == 100000000000000000000nat,
{
    reveal_with_fuel(pow10, 21);
}

/// Parsing the decimal form of `n` placed at `i`, with no digit after it,
/// gives `n` back.
pub proof fn lemma_parse_ser_num(n: nat, s: Seq<char>, i: int)
    requires
        n <= usize::MAX as nat,
        0 <= i,
        i + ser_num(n).len() <= s.len(),
        s.subrange(i, i + ser_num(n).len() as int) == ser_num(n),
        i + ser_num(n).len() < s.len() ==> !is_digit(s[i + ser_num(n).len()]),
    ensures
        spec_parse_num(s, i) == Some((n, i + ser_num(n).len())),
{
    let d = ser_num(n);
    let len = d.len() as int;
    lemma_ser_num_digits(n);
    assert forall|k: int| i <= k < i + len implies is_digit(#[trigger] s[k]) by {
        assert(s.subrange(i, i + len)[k - i] == s[k]);
        assert(is_digit(d[k - i]));
    }
    lemma_digit_run_end_of(s, i, i + len);
    lemma_num_val_ser(n);
    lemma_pow10_20();
    assert(usize::MAX as nat <= 18446744073709551615nat);
    lemma_ser_num_len(n, 20nat);
}

// ---- booleans ----

pub open spec fn true_lit() -> Seq<char> {
    seq!['t', 'r', 'u', 'e']
}

pub open spec fn false_lit() -> Seq<char> {
    seq!['f', 'a', 'l', 's', 'e']
}

pub open spec fn ser_bool(b: bool) -> Seq<char> {
    if b {
        true_lit()
    } else {
        false_lit()
    }
}

pub open spec fn spec_parse_bool(s: Seq<char>, i: int) -> Option<(bool, int)> {
    if 0 <= i && i + 4 <= s.len() && s.subrange(i, i + 4) == true_lit() {
        Some((true, i + 4))
    } else if 0 <= i && i + 5 <= s.len() && s.subrange(i, i + 5) == false_lit() {
        Some((false, i + 5))
    } else {
        None
    }
}

// ---- literal chunks ----

pub open spec fn spec_parse_lit(s: Seq<char>, i: int, lit: Seq<char>) -> Option<int> {
    if 0 <= i && i + lit.len() <= s.len() && s.subrange(i, i + lit.len() as int) == lit {
        Some(i + lit.len() as int)
    } else {
        None
    }
}

/// Splits a known concatenation at `i` into its two parts.
pub proof fn lemma_concat_sub(s: Seq<char>, i: int, a: Seq<char>, b: Seq<char>)
    requires
        0 <= i,
        i + a.len() + b.len() <= s.len(),
        s.subrange(i, i + a.len() + b.len()) == a + b,
    ensures
        s.subrange(i, i + a.len() as int) == a,
        s.subrange(i + a.len() as int, i + a.len() + b.len()) == b,
{
    let w = s.subrange(i, i + a.len() + b.len());
    assert forall|k: int| 0 <= k < a.len() implies s.subrange(i, i + a.len() as int)[k] == a[k] by {
        assert(w[k] == (a + b)[k]);
    }
    assert(s.subrange(i, i + a.len() as int) =~= a);
    assert forall|k: int| 0 <= k < b.len() implies s.subrange(
        i + a.len() as int,
        i + a.len() + b.len(),
    )[k] == b[k] by {
        assert(w[a.len() + k] == (a + b)[a.len() + k]);
    }
    assert(s.subrange(i + a.len() as int, i + a.len() + b.len()) =~= b);
}

// ---- task records ----

pub open spec fn k_open() -> Seq<char> {
    seq!['{', '"', 'i', 'd', '"', ':']
}

pub open spec fn k_title() -> Seq<char> {
    seq![',', '"', 't', 'i', 't', 'l', 'e', '"', ':', '"']
}

pub open spec fn k_desc() -> Seq<char> {
    seq![',', '"', 'd', 'e', 's', 'c', 'r', 'i', 'p', 't', 'i', 'o', 'n', '"', ':', '"']
}

pub open spec fn k_target() -> Seq<char> {
    seq![',', '"', 't', 'a', 'r', 'g', 'e', 't', '_', 'd', 'a', 't', 'e', '"', ':', '"']
}

pub open spec fn k_created() -> Seq<char> {
    seq!['"', ',', '"', 'c', 'r', 'e', 'a', 't', 'e', 'd', '_', 'd', 'a', 't', 'e', '"', ':', '"']
}

pub open spec fn k_completed() -> Seq<char> {
    seq!['"', ',', '"', 'c', 'o', 'm', 'p', 'l', 'e', 't', 'e', 'd', '"', ':']
}

/// One record: every field under its stable name, dates in ISO-8601.
pub open spec fn ser_task(t: TaskView) -> Seq<char> {
    k_open() + (ser_num(t.id) + (k_title() + (ser_qstring(t.title) + (k_desc() + (ser_qstring(
        t.description,
    ) + (k_target() + (ser_date(t.target_date) + (k_created() + (ser_date(t.created_date) + (
    k_completed() + (ser_bool(t.completed) + seq!['}'])))))))))))
}

pub open spec fn spec_parse_task(s: Seq<char>, i: int) -> Option<(TaskView, int)> {
    match spec_parse_lit(s, i, k_open()) {
        Some(i1) => match spec_parse_num(s, i1) {
            Some((id, i2)) => match spec_parse_lit(s, i2, k_title()) {
                Some(i3) => match spec_parse_str_body(s, i3) {
                    Some((title, i4)) => match spec_parse_lit(s, i4, k_desc()) {
                        Some(i5) => match spec_parse_str_body(s, i5) {
                            Some((description, i6)) => match spec_parse_lit(s, i6, k_target()) {
                                Some(i7) => match spec_parse_date(s, i7) {
                                    Some((target_date, i8)) => match spec_parse_lit(
                                        s,
                                        i8,
                                        k_created(),
                                    ) {
                                        Some(i9) => match spec_parse_date(s, i9) {
                                            Some((created_date, i10)) => match spec_parse_lit(
                                                s,
                                                i10,
                                                k_completed(),
                                            ) {
                                                Some(i11) => match spec_parse_bool(s, i11) {
                                                    Some((completed, i12)) => match spec_parse_lit(
                                                        s,
                                                        i12,
                                                        seq!['}'],
                                                    ) {
                                                        Some(i13) => Some(
                                                            (
                                                                TaskView {
                                                                    id,
                                                                    title,
                                                                    description,
                                                                    target_date,
                                                                    created_date,
                                                                    completed,
                                                                },
                                                                i13,
                                                            ),
                                                        ),
                                                        None => None,
                                                    },
                                                    None => None,
                                                },
                                                None => None,
                                            },
                                            None => None,
                                        },
                                        None => None,
                                    },
                                    None => None,
                                },
                                None => None,
                            },
                            None => None,
                        },
                        None => None,
                    },
                    None => None,
                },
                None => None,
            },
            None => None,
        },
        None => None,
    }
}

pub proof fn lemma_parse_task_advances(s: Seq<char>, i: int)
    ensures
        spec_parse_task(s, i) matches Some((t, j)) ==> i < j <= s.len(),
{
    if spec_parse_task(s, i) is Some {
        let i1 = spec_parse_lit(s, i, k_open()).unwrap();
        let (id, i2) = spec_parse_num(s, i1).unwrap();
        let i3 = spec_parse_lit(s, i2, k_title()).unwrap();
        lemma_parse_str_body_advances(s, i3);
        let (title, i4) = spec_parse_str_body(s, i3).unwrap();
        let i5 = spec_parse_lit(s, i4, k_desc()).unwrap();
        lemma_parse_str_body_advances(s, i5);
        let (description, i6) = spec_parse_str_body(s, i5).unwrap();
        let i7 = spec_parse_lit(s, i6, k_target()).unwrap();
        lemma_digit_run_end_bounds(s, i1);
    }
}

/// Parsing the record of a well-formed task placed at `i` gives the task
/// back.
#[verifier::rlimit(100)]
pub proof fn lemma_parse_ser_task(t: TaskView, s: Seq<char>, i: int)
    requires
        task_wf(t),
        0 <= i,
        i + ser_task(t).len() <= s.len(),
        s.subrange(i, i + ser_task(t).len() as int) == ser_task(t),
    ensures
        spec_parse_task(s, i) == Some((t, i + ser_task(t).len())),
{
    let r12 = ser_bool(t.completed) + seq!['}'];
    let r11 = k_completed() + r12;
    let r10 = ser_date(t.created_date) + r11;
    let r9 = k_created() + r10;
    let r8 = ser_date(t.target_date) + r9;
    let r7 = k_target() + r8;
    let r6 = ser_qstring(t.description) + r7;
    let r5 = k_desc() + r6;
    let r4 = ser_qstring(t.title) + r5;
    let r3 = k_title() + r4;
    let r2 = ser_num(t.id) + r3;
    assert(ser_task(t) == k_open() + r2);
    let a1 = i + k_open().len() as int;
    lemma_concat_sub(s, i, k_open(), r2);
    let a2 = a1 + ser_num(t.id).len() as int;
    lemma_concat_sub(s, a1, ser_num(t.id), r3);
    let a3 = a2 + k_title().len() as int;
    lemma_concat_sub(s, a2, k_title(), r4);
    let a4 = a3 + ser_qstring(t.title).len() as int;
    lemma_concat_sub(s, a3, ser_qstring(t.title), r5);
    let a5 = a4 + k_desc().len() as int;
    lemma_concat_sub(s, a4, k_desc(), r6);
    let a6 = a5 + ser_qstring(t.description).len() as int;
    lemma_concat_sub(s, a5, ser_qstring(t.description), r7);
    let a7 = a6 + k_target().len() as int;
    lemma_concat_sub(s, a6, k_target(), r8);
    let a8 = a7 + ser_date(t.target_date).len() as int;
    lemma_concat_sub(s, a7, ser_date(t.target_date), r9);
    let a9 = a8 + k_created().len() as int;
    lemma_concat_sub(s, a8, k_created(), r10);
    let a10 = a9 + ser_date(t.created_date).len() as int;
    lemma_concat_sub(s, a9, ser_date(t.created_date), r11);
    let a11 = a10 + k_completed().len() as int;
    lemma_concat_sub(s, a10, k_completed(), r12);
    let a12 = a11 + ser_bool(t.completed).len() as int;
    lemma_concat_sub(s, a11, ser_bool(t.completed), seq!['}']);

    assert(spec_parse_lit(s, i, k_open()) == Some(a1));
    assert(s.subrange(a2, a2 + 1)[0] == k_title()[0]);
    assert(!is_digit(s[a2]));
    lemma_parse_ser_num(t.id, s, a1);
    assert(spec_parse_lit(s, a2, k_title()) == Some(a3));
    lemma_parse_ser_qstring(t.title, s, a3);
    assert(spec_parse_lit(s, a4, k_desc()) == Some(a5));
    lemma_parse_ser_qstring(t.description, s, a5);
    assert(spec_parse_lit(s, a6, k_target()) == Some(a7));
    lemma_date_round_trip(t.target_date, s, a7);
    assert(spec_parse_lit(s, a8, k_created()) == Some(a9));
    lemma_date_round_trip(t.created_date, s, a9);
    assert(spec_parse_lit(s, a10, k_completed()) == Some(a11));
    if t.completed {
        assert(s.subrange(a11, a11 + 4) == true_lit());
        assert(spec_parse_bool(s, a11) == Some((true, a12)));
    } else {
        assert(s.subrange(a11, a11 + 5) == false_lit());
        assert(s.subrange(a11, a11 + 5)[0] == 'f');
        if 0 <= a11 && a11 + 4 <= s.len() && s.subrange(a11, a11 + 4) == true_lit() {
            assert(s.subrange(a11, a11 + 4)[0] == 't');
            assert(s[a11] == 't');
            assert(s[a11] == 'f');
            assert(false);
        }
        assert(spec_parse_bool(s, a11) == Some((false, a12)));
    }
    assert(spec_parse_lit(s, a12, seq!['}']) == Some(a12 + 1));
    assert(a12 + 1 == i + ser_task(t).len());
}

// ---- the list ----

pub open spec fn ser_list_rest(ts: Seq<TaskView>) -> Seq<char>
    decreases ts.len(),
{
    if ts.len() == 0 {
        seq![']']
    } else {
        seq![','] + (ser_task(ts[0]) + ser_list_rest(ts.drop_first()))
    }
}

/// The whole snapshot: the records, comma-separated, in brackets.
pub open spec fn ser_list(ts: Seq<TaskView>) -> Seq<char> {
    if ts.len() == 0 {
        seq!['[', ']']
    } else {
        seq!['['] + (ser_task(ts[0]) + ser_list_rest(ts.drop_first()))
    }
}

pub open spec fn spec_parse_list_rest(s: Seq<char>, i: int) -> Option<(Seq<TaskView>, int)>
    decreases s.len() - i,
    when 0 <= i <= s.len()
    via spec_parse_list_rest_dec
{
    match spec_parse_lit(s, i, seq![']']) {
        Some(j) => Some((Seq::empty(), j)),
        None => match spec_parse_lit(s, i, seq![',']) {
            Some(i1) => match spec_parse_task(s, i1) {
                Some((t, j)) => match spec_parse_list_rest(s, j) {
                    Some((ts, k)) => Some((seq![t] + ts, k)),
                    None => None,
                },
                None => None,
            },
            None => None,
        },
    }
}

#[via_fn]
proof fn spec_parse_list_rest_dec(s: Seq<char>, i: int) {
    lemma_parse_task_advances(s, i + 1);
}

pub open spec fn spec_parse_list(s: Seq<char>, i: int) -> Option<(Seq<TaskView>, int)> {
    match spec_parse_lit(s, i, seq!['[']) {
        Some(i1) => match spec_parse_lit(s, i1, seq![']']) {
            Some(j) => Some((Seq::empty(), j)),
            None => match spec_parse_task(s, i1) {
                Some((t, j)) => match spec_parse_list_rest(s, j) {
                    Some((ts, k)) => Some((seq![t] + ts, k)),
                    None => None,
                },
                None => None,
            },
        },
        None => None,
    }
}

/// What a whole file decodes to: the task list, if the content is exactly
/// one well-formed snapshot.
pub open spec fn spec_decode(s: Seq<char>) -> Option<Seq<TaskView>> {
    match spec_parse_list(s, 0) {
        Some((ts, j)) => if j == s.len() {
            Some(ts)
        } else {
            None
        },
        None => None,
    }
}

#[verifier::rlimit(100)]
pub proof fn lemma_parse_ser_list_rest(ts: Seq<TaskView>, s: Seq<char>, i: int)
    requires
        forall|k: int| 0 <= k < ts.len() ==> task_wf(#[trigger] ts[k]),
        0 <= i,
        i + ser_list_rest(ts).len() <= s.len(),
        s.subrange(i, i + ser_list_rest(ts).len() as int) == ser_list_rest(ts),
    ensures
        spec_parse_list_rest(s, i) == Some((ts, i + ser_list_rest(ts).len())),
    decreases ts.len(),
{
    if ts.len() == 0 {
        assert(s.subrange(i, i + 1)[0] == ']');
        assert(spec_parse_lit(s, i, seq![']']) == Some(i + 1));
    } else {
        let body = ser_task(ts[0]) + ser_list_rest(ts.drop_first());
        assert(ser_list_rest(ts) == seq![','] + body);
        lemma_concat_sub(s, i, seq![','], body);
        let i1 = i + 1;
        lemma_concat_sub(s, i1, ser_task(ts[0]), ser_list_rest(ts.drop_first()));
        assert(s.subrange(i, i1)[0] == ',');
        assert(s[i] == ',');
        if 0 <= i && i + 1 <= s.len() && s.subrange(i, i + 1) == seq![']'] {
            assert(s.subrange(i, i + 1)[0] == ']');
            assert(false);
        }
        assert(spec_parse_lit(s, i, seq![']']) is None);
        assert(spec_parse_lit(s, i, seq![',']) == Some(i1));
        lemma_parse_ser_task(ts[0], s, i1);
        let j = i1 + ser_task(ts[0]).len() as int;
        assert forall|k: int| 0 <= k < ts.drop_first().len() implies task_wf(
            #[trigger] ts.drop_first()[k],
        ) by {
            assert(ts.drop_first()[k] == ts[k + 1]);
        }
        lemma_parse_ser_list_rest(ts.drop_first(), s, j);
        assert(seq![ts[0]] + ts.drop_first() =~= ts);
    }
}

/// Parsing a serialized snapshot of well-formed tasks gives the tasks back.
#[verifier::rlimit(100)]
#[verifier::spinoff_prover]
pub proof fn lemma_parse_ser_list(ts: Seq<TaskView>, s: Seq<char>, i: int)
    requires
        forall|k: int| 0 <= k < ts.len() ==> task_wf(#[trigger] ts[k]),
        0 <= i,
        i + ser_list(ts).len() <= s.len(),
        s.subrange(i, i + ser_list(ts).len() as int) == ser_list(ts),
    ensures
        spec_parse_list(s, i) == Some((ts, i + ser_list(ts).len())),
{
    if ts.len() == 0 {
        assert(s.subrange(i, i + 2)[0] == '[');
        assert(s.subrange(i, i + 2)[1] == ']');
        assert(s.subrange(i, i + 1) =~= seq!['[']);
        assert(s.subrange(i + 1, i + 2) =~= seq![']']);
        assert(spec_parse_lit(s, i, seq!['[']) == Some(i + 1));
        assert(spec_parse_lit(s, i + 1, seq![']']) == Some(i + 2));
    } else {
        let body = ser_task(ts[0]) + ser_list_rest(ts.drop_first());
        assert(ser_list(ts) == seq!['['] + body);
        lemma_concat_sub(s, i, seq!['['], body);
        let i1 = i + 1;
        lemma_concat_sub(s, i1, ser_task(ts[0]), ser_list_rest(ts.drop_first()));
        assert(spec_parse_lit(s, i, seq!['[']) == Some(i1));
        assert(s.subrange(i1, i1 + ser_task(ts[0]).len() as int)[0] == ser_task(ts[0])[0]);
        assert(ser_task(ts[0])[0] == '{');
        assert(s[i1] == '{');
        if 0 <= i1 && i1 + 1 <= s.len() && s.subrange(i1, i1 + 1) == seq![']'] {
            assert(s.subrange(i1, i1 + 1)[0] == ']');
            assert(false);
        }
        assert(spec_parse_lit(s, i1, seq![']']) is None);
        lemma_parse_ser_task(ts[0], s, i1);
        let j = i1 + ser_task(ts[0]).len() as int;
        assert forall|k: int| 0 <= k < ts.drop_first().len() implies task_wf(
            #[trigger] ts.drop_first()[k],
        ) by {
            assert(ts.drop_first()[k] == ts[k + 1]);
        }
        lemma_parse_ser_list_rest(ts.drop_first(), s, j);
        assert(seq![ts[0]] + ts.drop_first() =~= ts);
    }
}

/// The round trip: a saved snapshot of well-formed tasks decodes to
/// exactly the tasks it was made from, field for field.
pub proof fn lemma_round_trip(ts: Seq<TaskView>)
    requires
        forall|k: int| 0 <= k < ts.len() ==> task_wf(#[trigger] ts[k]),
    ensures
        spec_decode(ser_list(ts)) == Some(ts),
{
    let s = ser_list(ts);
    assert(s.subrange(0, s.len() as int) =~= s);
    lemma_parse_ser_list(ts, s, 0);
}

// ---- executable serializer ----

/// Relies on `Iterator::collect` for `String`: the string made of exactly
/// the given characters, in order.
#[verifier::external_body]
pub(crate) fn chars_to_string(v: &Vec<char>) -> (r: String)
    ensures
        r@ == v@,
{
    v.iter().collect()
}

/// The characters of `s`, in order.
pub fn str_to_chars(s: &str) -> (r: Vec<char>)
    ensures
        r@ == s@,
{
    let n = s.unicode_len();
    let mut v: Vec<char> = Vec::new();
    let mut k: usize = 0;
    proof {
        assert(v@ =~= s@.take(0));
    }
    while k < n
        invariant
            k <= n,
            n == s@.len(),
            v@ == s@.take(k as int),
        decreases n - k,
    {
        v.push(s.get_char(k));
        proof {
            assert(s@.take(k as int).push(s@[k as int]) =~= s@.take(k as int + 1));
        }
        k += 1;
    }
    proof {
        assert(s@.take(n as int) =~= s@);
    }
    v
}

fn push_lit(out: &mut Vec<char>, lit: &str)
    ensures
        final(out)@ == old(out)@ + lit@,
{
    let n = lit.unicode_len();
    let mut k: usize = 0;
    proof {
        assert(out@ =~= old(out)@ + lit@.take(0));
    }
    while k < n
        invariant
            k <= n,
            n == lit@.len(),
            out@ == old(out)@ + lit@.take(k as int),
        decreases n - k,
    {
        out.push(lit.get_char(k));
        proof {
            assert(old(out)@ + lit@.take(k as int) + seq![lit@[k as int]] =~= old(out)@
                + lit@.take(k as int + 1));
        }
        k += 1;
    }
    proof {
        assert(lit@.take(n as int) =~= lit@);
    }
}

fn push_num(out: &mut Vec<char>, n: usize)
    ensures
        final(out)@ == old(out)@ + ser_num(n as nat),
    decreases n,
{
    if n < 10 {
        out.push(digit_to_char(n as u32));
        proof {
            assert(out@ =~= old(out)@ + ser_num(n as nat));
        }
    } else {
        push_num(out, n / 10);
        out.push(digit_to_char((n % 10) as u32));
        proof {
            assert(out@ =~= old(out)@ + ser_num(n as nat));
        }
    }
}

fn push_qstring(out: &mut Vec<char>, s: &str)
    ensures
        final(out)@ == old(out)@ + ser_qstring(s@),
{
    let n = s.unicode_len();
    let mut k: usize = 0;
    proof {
        assert(ser_string(s@.take(0)) =~= Seq::<char>::empty());
        assert(out@ =~= old(out)@ + ser_string(s@.take(0)));
    }
    while k < n
        invariant
            k <= n,
            n == s@.len(),
            out@ == old(out)@ + ser_string(s@.take(k as int)),
        decreases n - k,
    {
        let c = s.get_char(k);
        if c == '"' || c == '\\' {
            out.push('\\');
            out.push(c);
        } else {
            out.push(c);
        }
        proof {
            lemma_ser_string_snoc(s@.take(k as int), s@[k as int]);
            assert(s@.take(k as int).push(s@[k as int]) =~= s@.take(k as int + 1));
            assert(out@ =~= old(out)@ + ser_string(s@.take(k as int + 1)));
        }
        k += 1;
    }
    out.push('"');
    proof {
        assert(s@.take(n as int) =~= s@);
        assert(out@ =~= old(out)@ + ser_qstring(s@));
    }
}

#[verifier::rlimit(100)]
fn push_task(out: &mut Vec<char>, t: &Task)
    requires
        t@.dates_valid(),
    ensures
        final(out)@ == old(out)@ + ser_task(t@),
{
    proof {
        reveal_strlit("{\"id\":");
        reveal_strlit(",\"title\":\"");
        reveal_strlit(",\"description\":\"");
        reveal_strlit(",\"target_date\":\"");
        reveal_strlit("\",\"created_date\":\"");
        reveal_strlit("\",\"completed\":");
        reveal_strlit("true");
        reveal_strlit("false");
        assert("{\"id\":"@ =~= k_open());
        assert(",\"title\":\""@ =~= k_title());
        assert(",\"description\":\""@ =~= k_desc());
        assert(",\"target_date\":\""@ =~= k_target());
        assert("\",\"created_date\":\""@ =~= k_created());
        assert("\",\"completed\":"@ =~= k_completed());
        assert("true"@ =~= true_lit());
        assert("false"@ =~= false_lit());
    }
    push_lit(out, "{\"id\":");
    push_num(out, t.id);
    push_lit(out, ",\"title\":\"");
    push_qstring(out, t.title.as_str());
    push_lit(out, ",\"description\":\"");
    push_qstring(out, t.description.as_str());
    push_lit(out, ",\"target_date\":\"");
    push_date(out, &t.target_date);
    push_lit(out, "\",\"created_date\":\"");
    push_date(out, &t.created_date);
    push_lit(out, "\",\"completed\":");
    if t.completed {
        push_lit(out, "true");
    } else {
        push_lit(out, "false");
    }
    out.push('}');
    proof {
        assert(out@ =~= old(out)@ + ser_task(t@));
    }
}

fn push_list_rest(out: &mut Vec<char>, tasks: &Vec<Task>, from: usize)
    requires
        from <= tasks@.len(),
        forall|k: int| 0 <= k < tasks@.len() ==> (#[trigger] tasks@[k])@.dates_valid(),
    ensures
        final(out)@ == old(out)@ + ser_list_rest(views(tasks@).skip(from as int)),
    decreases tasks@.len() - from,
{
    if from == tasks.len() {
        out.push(']');
        proof {
            assert(views(tasks@).skip(from as int) =~= Seq::<TaskView>::empty());
            assert(out@ =~= old(out)@ + ser_list_rest(views(tasks@).skip(from as int)));
        }
    } else {
        out.push(',');
        push_task(out, &tasks[from]);
        push_list_rest(out, tasks, from + 1);
        proof {
            let sk = views(tasks@).skip(from as int);
            assert(sk[0] == tasks@[from as int]@);
            assert(sk.drop_first() =~= views(tasks@).skip(from as int + 1));
            assert(out@ =~= old(out)@ + ser_list_rest(sk));
        }
    }
}

/// The durable form of the whole task list.
pub fn encode_tasks(tasks: &Vec<Task>) -> (r: String)
    requires
        forall|k: int| 0 <= k < tasks@.len() ==> (#[trigger] tasks@[k])@.dates_valid(),
    ensures
        r@ == ser_list(views(tasks@)),
{
    let mut out: Vec<char> = Vec::new();
    out.push('[');
    if tasks.len() == 0 {
        out.push(']');
        proof {
            assert(views(tasks@).len() == 0);
            assert(out@ =~= ser_list(views(tasks@)));
        }
    } else {
        push_task(&mut out, &tasks[0]);
        push_list_rest(&mut out, tasks, 1);
        proof {
            let vs = views(tasks@);
            assert(vs[0] == tasks@[0]@);
            assert(vs.drop_first() =~= vs.skip(1));
            assert(out@ =~= ser_list(vs));
        }
    }
    chars_to_string(&out)
}

// ---- executable parser ----

fn exec_parse_lit(v: &Vec<char>, i: usize, lit: &str) -> (r: Option<usize>)
    ensures
        match r {
            Some(j) => spec_parse_lit(v@, i as int, lit@) == Some(j as int) && i <= j <= v@.len(),
            None => spec_parse_lit(v@, i as int, lit@) is None,
        },
{
    let n = lit.unicode_len();
    if i > v.len() || n > v.len() - i {
        return None;
    }
    let mut k: usize = 0;
    while k < n
        invariant
            k <= n,
            n == lit@.len(),
            i + n <= v@.len(),
            i + n <= usize::MAX,
            forall|m: int| 0 <= m < k ==> v@[i + m] == lit@[m],
        decreases n - k,
    {
        proof {
            assert(i + k < v@.len());
        }
        let c = v[i + k];
        if c != lit.get_char(k) {
            proof {
                let w = v@.subrange(i as int, i as int + lit@.len() as int);
                assert(w[k as int] == v@[i + k as int]);
            }
            return None;
        }
        k += 1;
    }
    proof {
        let w = v@.subrange(i as int, i as int + lit@.len() as int);
        assert forall|m: int| 0 <= m < n implies w[m] == lit@[m] by {
            assert(w[m] == v@[i + m]);
        }
        assert(w =~= lit@);
    }
    Some(i + n)
}

/// Composes an already-read prefix with the parse of the remainder.
pub open spec fn str_result(pre: Seq<char>, r: Option<(Seq<char>, int)>) -> Option<
    (Seq<char>, int),
> {
    match r {
        Some((t, j)) => Some((pre + t, j)),
        None => None,
    }
}

fn exec_parse_str_body(v: &Vec<char>, i: usize) -> (r: Option<(Vec<char>, usize)>)
    ensures
        match r {
            Some((t, j)) => spec_parse_str_body(v@, i as int) == Some((t@, j as int)) && i < j
                <= v@.len(),
            None => spec_parse_str_body(v@, i as int) is None,
        },
{
    let mut acc: Vec<char> = Vec::new();
    let mut cur: usize = i;
    proof {
        match spec_parse_str_body(v@, i as int) {
            Some((t, j)) => {
                assert(Seq::<char>::empty() + t =~= t);
            },
            None => {},
        }
    }
    loop
        invariant
            i <= cur,
            spec_parse_str_body(v@, i as int) == str_result(
                acc@,
                spec_parse_str_body(v@, cur as int),
            ),
        decreases v@.len() - cur,
    {
        if cur >= v.len() {
            return None;
        }
        let c = v[cur];
        if c == '"' {
            proof {
                assert(acc@ + Seq::<char>::empty() =~= acc@);
            }
            return Some((acc, cur + 1));
        } else if c == '\\' {
            if cur + 1 < v.len() && (v[cur + 1] == '"' || v[cur + 1] == '\\') {
                let ghost pre = acc@;
                acc.push(v[cur + 1]);
                proof {
                    match spec_parse_str_body(v@, cur as int + 2) {
                        Some((t, j)) => {
                            assert(pre + (seq![v@[cur + 1]] + t) =~= acc@ + t);
                        },
                        None => {},
                    }
                }
                cur += 2;
            } else {
                return None;
            }
        } else {
            let ghost pre = acc@;
            acc.push(c);
            proof {
                match spec_parse_str_body(v@, cur as int + 1) {
                    Some((t, j)) => {
                        assert(pre + (seq![v@[cur as int]] + t) =~= acc@ + t);
                    },
                    None => {},
                }
            }
            cur += 1;
        }
    }
}

fn exec_parse_num(v: &Vec<char>, i: usize) -> (r: Option<(usize, usize)>)
    ensures
        match r {
            Some((n, j)) => spec_parse_num(v@, i as int) == Some((n as nat, j as int)) && i < j
                <= v@.len(),
            None => spec_parse_num(v@, i as int) is None,
        },
{
    if i > v.len() {
        return None;
    }
    let mut j: usize = i;
    while j < v.len() && char_is_digit(v[j])
        invariant
            i <= j <= v@.len(),
            forall|m: int| i <= m < j ==> is_digit(#[trigger] v@[m]),
            digit_run_end(v@, i as int) == digit_run_end(v@, j as int),
        decreases v@.len() - j,
    {
        j += 1;
    }
    proof {
        assert(digit_run_end(v@, j as int) == j as int);
    }
    if j == i {
        return None;
    }
    if j - i > 20 {
        return None;
    }
    let mut acc: u128 = 0;
    let mut k: usize = i;
    proof {
        assert(v@.subrange(i as int, i as int) =~= Seq::<char>::empty());
        assert(pow10(0nat) == 1);
        lemma_pow10_20();
    }
    while k < j
        invariant
            i <= k <= j <= v@.len(),
            j - i <= 20,
            forall|m: int| i <= m < j ==> is_digit(#[trigger] v@[m]),
            acc == num_val(v@.subrange(i as int, k as int)),
            acc < pow10((k - i) as nat),
        decreases j - k,
    {
        proof {
            lemma_pow10_mono((k - i) as nat, 20nat);
            lemma_pow10_20();
        }
        let d = char_digit_val(v[k]);
        acc = acc * 10 + d as u128;
        proof {
            let sub1 = v@.subrange(i as int, k as int + 1);
            assert(sub1.drop_last() =~= v@.subrange(i as int, k as int));
            assert(sub1.last() == v@[k as int]);
            assert(pow10((k + 1 - i) as nat) == 10 * pow10((k - i) as nat));
        }
        k += 1;
    }
    if acc > usize::MAX as u128 {
        return None;
    }
    Some((acc as usize, j))
}

fn exec_parse_bool(v: &Vec<char>, i: usize) -> (r: Option<(bool, usize)>)
    ensures
        match r {
            Some((b, j)) => spec_parse_bool(v@, i as int) == Some((b, j as int)) && i < j
                <= v@.len(),
            None => spec_parse_bool(v@, i as int) is None,
        },
{
    proof {
        reveal_strlit("true");
        reveal_strlit("false");
        assert("true"@ =~= true_lit());
        assert("false"@ =~= false_lit());
    }
    match exec_parse_lit(v, i, "true") {
        Some(j) => Some((true, j)),
        None => match exec_parse_lit(v, i, "false") {
            Some(j) => Some((false, j)),
            None => None,
        },
    }
}

#[verifier::rlimit(100)]
fn exec_parse_task(v: &Vec<char>, i: usize) -> (r: Option<(Task, usize)>)
    ensures
        match r {
            Some((t, j)) => spec_parse_task(v@, i as int) == Some((t@, j as int)) && i < j
                <= v@.len() && t@.dates_valid(),
            None => spec_parse_task(v@, i as int) is None,
        },
{
    proof {
        reveal_strlit("{\"id\":");
        reveal_strlit(",\"title\":\"");
        reveal_strlit(",\"description\":\"");
        reveal_strlit(",\"target_date\":\"");
        reveal_strlit("\",\"created_date\":\"");
        reveal_strlit("\",\"completed\":");
        reveal_strlit("}");
        assert("{\"id\":"@ =~= k_open());
        assert(",\"title\":\""@ =~= k_title());
        assert(",\"description\":\""@ =~= k_desc());
        assert(",\"target_date\":\""@ =~= k_target());
        assert("\",\"created_date\":\""@ =~= k_created());
        assert("\",\"completed\":"@ =~= k_completed());
        assert("}"@ =~= seq!['}']);
    }
    let i1 = match exec_parse_lit(v, i, "{\"id\":") {
        Some(x) => x,
        None => {
            return None;
        },
    };
    let (id, i2) = match exec_parse_num(v, i1) {
        Some(x) => x,
        None => {
            return None;
        },
    };
    let i3 = match exec_parse_lit(v, i2, ",\"title\":\"") {
        Some(x) => x,
        None => {
            return None;
        },
    };
    let (title_chars, i4) = match exec_parse_str_body(v, i3) {
        Some(x) => x,
        None => {
            return None;
        },
    };
    let i5 = match exec_parse_lit(v, i4, ",\"description\":\"") {
        Some(x) => x,
        None => {
            return None;
        },
    };
    let (desc_chars, i6) = match exec_parse_str_body(v, i5) {
        Some(x) => x,
        None => {
            return None;
        },
    };
    let i7 = match exec_parse_lit(v, i6, ",\"target_date\":\"") {
        Some(x) => x,
        None => {
            return None;
        },
    };
    let (target_date, i8) = match parse_date(v, i7) {
        Some(x) => x,
        None => {
            return None;
        },
    };
    let i9 = match exec_parse_lit(v, i8, "\",\"created_date\":\"") {
        Some(x) => x,
        None => {
            return None;
        },
    };
    let (created_date, i10) = match parse_date(v, i9) {
        Some(x) => x,
        None => {
            return None;
        },
    };
    let i11 = match exec_parse_lit(v, i10, "\",\"completed\":") {
        Some(x) => x,
        None => {
            return None;
        },
    };
    let (completed, i12) = match exec_parse_bool(v, i11) {
        Some(x) => x,
        None => {
            return None;
        },
    };
    let i13 = match exec_parse_lit(v, i12, "}") {
        Some(x) => x,
        None => {
            return None;
        },
    };
    let t = Task {
        id,
        title: chars_to_string(&title_chars),
        description: chars_to_string(&desc_chars),
        target_date,
        created_date,
        completed,
    };
    Some((t, i13))
}

fn exec_parse_list_rest(v: &Vec<char>, i: usize) -> (r: Option<(Vec<Task>, usize)>)
    requires
        i <= v@.len(),
    ensures
        match r {
            Some((ts, j)) => spec_parse_list_rest(v@, i as int) == Some((views(ts@), j as int))
                && j <= v@.len() && forall|k: int|
                0 <= k < ts@.len() ==> (#[trigger] ts@[k])@.dates_valid(),
            None => spec_parse_list_rest(v@, i as int) is None,
        },
    decreases v@.len() - i,
{
    proof {
        reveal_strlit("]");
        reveal_strlit(",");
        assert("]"@ =~= seq![']']);
        assert(","@ =~= seq![',']);
    }
    match exec_parse_lit(v, i, "]") {
        Some(j) => {
            let ts: Vec<Task> = Vec::new();
            proof {
                assert(views(ts@) =~= Seq::<TaskView>::empty());
            }
            return Some((ts, j));
        },
        None => {},
    }
    let i1 = match exec_parse_lit(v, i, ",") {
        Some(x) => x,
        None => {
            return None;
        },
    };
    let (t, j) = match exec_parse_task(v, i1) {
        Some(x) => x,
        None => {
            return None;
        },
    };
    match exec_parse_list_rest(v, j) {
        Some((mut ts, k)) => {
            let ghost old_ts = ts@;
            ts.insert(0, t);
            proof {
                assert(views(ts@) =~= seq![t@] + views(old_ts));
            }
            Some((ts, k))
        },
        None => None,
    }
}

fn exec_parse_list(v: &Vec<char>, i: usize) -> (r: Option<(Vec<Task>, usize)>)
    ensures
        match r {
            Some((ts, j)) => spec_parse_list(v@, i as int) == Some((views(ts@), j as int)) && j
                <= v@.len() && forall|k: int|
                0 <= k < ts@.len() ==> (#[trigger] ts@[k])@.dates_valid(),
            None => spec_parse_list(v@, i as int) is None,
        },
{
    proof {
        reveal_strlit("[");
        reveal_strlit("]");
        assert("["@ =~= seq!['[']);
        assert("]"@ =~= seq![']']);
    }
    let i1 = match exec_parse_lit(v, i, "[") {
        Some(x) => x,
        None => {
            return None;
        },
    };
    match exec_parse_lit(v, i1, "]") {
        Some(j) => {
            let ts: Vec<Task> = Vec::new();
            proof {
                assert(views(ts@) =~= Seq::<TaskView>::empty());
            }
            return Some((ts, j));
        },
        None => {},
    }
    let (t, j) = match exec_parse_task(v, i1) {
        Some(x) => x,
        None => {
            return None;
        },
    };
    match exec_parse_list_rest(v, j) {
        Some((mut ts, k)) => {
            let ghost old_ts = ts@;
            ts.insert(0, t);
            proof {
                assert(views(ts@) =~= seq![t@] + views(old_ts));
            }
            Some((ts, k))
        },
        None => None,
    }
}

/// Decodes a whole file: the task list if the content is exactly one
/// well-formed snapshot, nothing otherwise.
pub fn decode_tasks(s: &str) -> (r: Option<Vec<Task>>)
    ensures
        match r {
            Some(ts) => spec_decode(s@) == Some(views(ts@)) && forall|k: int|
                0 <= k < ts@.len() ==> (#[trigger] ts@[k])@.dates_valid(),
            None => spec_decode(s@) is None,
        },
{
    let v = str_to_chars(s);
    match exec_parse_list(&v, 0) {
        Some((ts, j)) => {
            if j == v.len() {
                Some(ts)
            } else {
                None
            }
        },
        None => None,
    }
}

} // verus!

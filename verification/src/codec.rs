//! The snapshot format: a human-readable, labelled record text for the task
//! and account collections, with a verified printer and parser. The parser
//! returns exactly the sequences the printer was given (the round-trip
//! lemmas at the end), which is what makes a snapshot a faithful copy of the
//! store's state.
//!
//! A task is printed as
//! `task`, `id N`, `completed 0|1`, `created_at S` lines, then one line per
//! string field of the form `<label> <length> <contents>`; length-prefixing
//! lets a field hold any character, newlines included. An account is printed
//! as `account`, then its `username` and `password` fields.

use vstd::prelude::*;
use vstd::string::{StrSliceExecFns, StringExecFns};
use crate::store::{account_views, task_views, Account, AccountV, Task, TaskV};

verus! {

/// The numeric value of a decimal digit, or `-1` for any other character.
pub open spec fn digit_val(c: char) -> int {
    if c == '0' {
        0
    } else if c == '1' {
        1
    } else if c == '2' {
        2
    } else if c == '3' {
        3
    } else if c == '4' {
        4
    } else if c == '5' {
        5
    } else if c == '6' {
        6
    } else if c == '7' {
        7
    } else if c == '8' {
        8
    } else if c == '9' {
        9
    } else {
        -1
    }
}

pub open spec fn is_digit(c: char) -> bool {
    digit_val(c) >= 0
}

/// The decimal digit for a value in `0..10`.
pub open spec fn digit_char(d: int) -> char {
    if d == 0 {
        '0'
    } else if d == 1 {
        '1'
    } else if d == 2 {
        '2'
    } else if d == 3 {
        '3'
    } else if d == 4 {
        '4'
    } else if d == 5 {
        '5'
    } else if d == 6 {
        '6'
    } else if d == 7 {
        '7'
    } else if d == 8 {
        '8'
    } else {
        '9'
    }
}

pub open spec fn lbl_task() -> Seq<char> {
    seq!['t', 'a', 's', 'k', '\n']
}

pub open spec fn lbl_id() -> Seq<char> {
    seq!['i', 'd', ' ']
}

pub open spec fn lbl_completed() -> Seq<char> {
    seq!['c', 'o', 'm', 'p', 'l', 'e', 't', 'e', 'd', ' ']
}

pub open spec fn lbl_created() -> Seq<char> {
    seq!['c', 'r', 'e', 'a', 't', 'e', 'd', '_', 'a', 't', ' ']
}

pub open spec fn lbl_owner() -> Seq<char> {
    seq!['o', 'w', 'n', 'e', 'r', ' ']
}

pub open spec fn lbl_title() -> Seq<char> {
    seq!['t', 'i', 't', 'l', 'e', ' ']
}

pub open spec fn lbl_description() -> Seq<char> {
    seq!['d', 'e', 's', 'c', 'r', 'i', 'p', 't', 'i', 'o', 'n', ' ']
}

pub open spec fn lbl_account() -> Seq<char> {
    seq!['a', 'c', 'c', 'o', 'u', 'n', 't', '\n']
}

pub open spec fn lbl_username() -> Seq<char> {
    seq!['u', 's', 'e', 'r', 'n', 'a', 'm', 'e', ' ']
}

pub open spec fn lbl_password() -> Seq<char> {
    seq!['p', 'a', 's', 's', 'w', 'o', 'r', 'd', ' ']
}

pub open spec fn nl() -> Seq<char> {
    seq!['\n']
}

pub open spec fn sp() -> Seq<char> {
    seq![' ']
}

// ----------------------------------------------------------------------
// The printer, at the specification level.
// ----------------------------------------------------------------------

/// The decimal digits of a non-negative number, most significant first.
pub open spec fn u64_digits(n: int) -> Seq<char>
    decreases n,
{
    if n < 10 {
        seq![digit_char(n)]
    } else {
        u64_digits(n / 10).push(digit_char(n % 10))
    }
}

/// A signed number: a minus sign for negatives, then the decimal digits.
pub open spec fn int_digits(v: int) -> Seq<char> {
    if v < 0 {
        seq!['-'] + u64_digits(-v)
    } else {
        u64_digits(v)
    }
}

pub open spec fn bool_char(b: bool) -> Seq<char> {
    if b {
        seq!['1']
    } else {
        seq!['0']
    }
}

/// A labelled, length-prefixed string field, ended by a newline.
pub open spec fn pr_str_field(label: Seq<char>, f: Seq<char>) -> Seq<char> {
    label + u64_digits(f.len() as int) + sp() + f + nl()
}

/// One task record.
pub open spec fn pr_task_record(t: TaskV) -> Seq<char> {
    lbl_task() + lbl_id() + u64_digits(t.id as int) + nl() + lbl_completed() + bool_char(
        t.completed,
    ) + nl() + lbl_created() + int_digits(t.created_at as int) + nl() + pr_str_field(
        lbl_owner(),
        t.owner,
    ) + pr_str_field(lbl_title(), t.title) + pr_str_field(lbl_description(), t.description)
}

/// The whole task snapshot: the records in list order.
pub open spec fn pr_tasks_file(ts: Seq<TaskV>) -> Seq<char>
    decreases ts.len(),
{
    if ts.len() == 0 {
        Seq::empty()
    } else {
        pr_task_record(ts[0]) + pr_tasks_file(ts.skip(1))
    }
}

/// One account record.
pub open spec fn pr_account_record(a: AccountV) -> Seq<char> {
    lbl_account() + pr_str_field(lbl_username(), a.username) + pr_str_field(
        lbl_password(),
        a.password,
    )
}

/// The whole account snapshot: the records in list order.
pub open spec fn pr_accounts_file(accs: Seq<AccountV>) -> Seq<char>
    decreases accs.len(),
{
    if accs.len() == 0 {
        Seq::empty()
    } else {
        pr_account_record(accs[0]) + pr_accounts_file(accs.skip(1))
    }
}

// ----------------------------------------------------------------------
// The parser, at the specification level. Each function consumes a prefix
// and returns the value with the remainder, or nothing on a mismatch.
// ----------------------------------------------------------------------

/// Consume the longest run of digits, folding them onto `acc`; fails only
/// when the value would exceed `u64::MAX`.
pub open spec fn sp_digits(s: Seq<char>, acc: int) -> Option<(u64, Seq<char>)>
    decreases s.len(),
{
    if s.len() > 0 && is_digit(s[0]) {
        let acc2 = acc * 10 + digit_val(s[0]);
        if acc2 > u64::MAX {
            None
        } else {
            sp_digits(s.skip(1), acc2)
        }
    } else {
        Some((acc as u64, s))
    }
}

/// A decimal number: at least one digit.
pub open spec fn sp_u64(s: Seq<char>) -> Option<(u64, Seq<char>)> {
    if s.len() > 0 && is_digit(s[0]) {
        sp_digits(s, 0)
    } else {
        None
    }
}

/// A signed decimal number in the range of `i64`.
pub open spec fn sp_int(s: Seq<char>) -> Option<(i64, Seq<char>)> {
    if s.len() > 0 && s[0] == '-' {
        match sp_u64(s.skip(1)) {
            Some((m, r)) => if m > 9223372036854775808u64 {
                None
            } else {
                Some(((-(m as int)) as i64, r))
            },
            None => None,
        }
    } else {
        match sp_u64(s) {
            Some((m, r)) => if m > i64::MAX as u64 {
                None
            } else {
                Some((m as i64, r))
            },
            None => None,
        }
    }
}

/// An exact literal.
pub open spec fn sp_lit(s: Seq<char>, lit: Seq<char>) -> Option<Seq<char>> {
    if lit.len() <= s.len() && s.subrange(0, lit.len() as int) == lit {
        Some(s.skip(lit.len() as int))
    } else {
        None
    }
}

/// Exactly `k` characters.
pub open spec fn sp_take(s: Seq<char>, k: int) -> Option<(Seq<char>, Seq<char>)> {
    if 0 <= k <= s.len() {
        Some((s.take(k), s.skip(k)))
    } else {
        None
    }
}

/// The completion flag: `1` or `0`.
pub open spec fn sp_bool(s: Seq<char>) -> Option<(bool, Seq<char>)> {
    if s.len() > 0 && s[0] == '1' {
        Some((true, s.skip(1)))
    } else if s.len() > 0 && s[0] == '0' {
        Some((false, s.skip(1)))
    } else {
        None
    }
}

/// A labelled, length-prefixed string field.
pub open spec fn sp_str_field(s: Seq<char>, label: Seq<char>) -> Option<(Seq<char>, Seq<char>)> {
    match sp_lit(s, label) {
        None => None,
        Some(r1) => match sp_u64(r1) {
            None => None,
            Some((k, r2)) => match sp_lit(r2, sp()) {
                None => None,
                Some(r3) => match sp_take(r3, k as int) {
                    None => None,
                    Some((f, r4)) => match sp_lit(r4, nl()) {
                        None => None,
                        Some(r5) => Some((f, r5)),
                    },
                },
            },
        },
    }
}

/// One task record.
pub open spec fn sp_task_record(s: Seq<char>) -> Option<(TaskV, Seq<char>)> {
    match sp_lit(s, lbl_task()) {
        None => None,
        Some(r1) => match sp_lit(r1, lbl_id()) {
            None => None,
            Some(r2) => match sp_u64(r2) {
                None => None,
                Some((id, r3)) => match sp_lit(r3, nl()) {
                    None => None,
                    Some(r4) => match sp_lit(r4, lbl_completed()) {
                        None => None,
                        Some(r5) => match sp_bool(r5) {
                            None => None,
                            Some((completed, r6)) => match sp_lit(r6, nl()) {
                                None => None,
                                Some(r7) => match sp_lit(r7, lbl_created()) {
                                    None => None,
                                    Some(r8) => match sp_int(r8) {
                                        None => None,
                                        Some((created_at, r9)) => match sp_lit(r9, nl()) {
                                            None => None,
                                            Some(r10) => match sp_str_field(r10, lbl_owner()) {
                                                None => None,
                                                Some((owner, r11)) => match sp_str_field(
                                                    r11,
                                                    lbl_title(),
                                                ) {
                                                    None => None,
                                                    Some((title, r12)) => match sp_str_field(
                                                        r12,
                                                        lbl_description(),
                                                    ) {
                                                        None => None,
                                                        Some((description, rest)) => Some(
                                                            (
                                                                TaskV {
                                                                    id,
                                                                    title,
                                                                    description,
                                                                    completed,
                                                                    created_at,
                                                                    owner,
                                                                },
                                                                rest,
                                                            ),
                                                        ),
                                                    },
                                                },
                                            },
                                        },
                                    },
                                },
                            },
                        },
                    },
                },
            },
        },
    }
}

/// The whole task snapshot: records until the end of the text.
pub open spec fn sp_tasks_file(s: Seq<char>) -> Option<Seq<TaskV>>
    decreases s.len(),
{
    if s.len() == 0 {
        Some(Seq::empty())
    } else {
        match sp_task_record(s) {
            None => None,
            Some((t, r)) => if r.len() < s.len() {
                match sp_tasks_file(r) {
                    None => None,
                    Some(ts) => Some(seq![t] + ts),
                }
            } else {
                None
            },
        }
    }
}

/// One account record.
pub open spec fn sp_account_record(s: Seq<char>) -> Option<(AccountV, Seq<char>)> {
    match sp_lit(s, lbl_account()) {
        None => None,
        Some(r1) => match sp_str_field(r1, lbl_username()) {
            None => None,
            Some((username, r2)) => match sp_str_field(r2, lbl_password()) {
                None => None,
                Some((password, rest)) => Some((AccountV { username, password }, rest)),
            },
        },
    }
}

/// The whole account snapshot: records until the end of the text.
pub open spec fn sp_accounts_file(s: Seq<char>) -> Option<Seq<AccountV>>
    decreases s.len(),
{
    if s.len() == 0 {
        Some(Seq::empty())
    } else {
        match sp_account_record(s) {
            None => None,
            Some((a, r)) => if r.len() < s.len() {
                match sp_accounts_file(r) {
                    None => None,
                    Some(accs) => Some(seq![a] + accs),
                }
            } else {
                None
            },
        }
    }
}

// ----------------------------------------------------------------------
// Round trip: parsing what the printer produced gives back the value.
// ----------------------------------------------------------------------

pub open spec fn pow10(k: nat) -> int
    decreases k,
{
    if k == 0 {
        1
    } else {
        10 * pow10((k - 1) as nat)
    }
}

pub proof fn lemma_pow10_pos(k: nat)
    ensures
        pow10(k) >= 1,
    decreases k,
{
    if k > 0 {
        lemma_pow10_pos((k - 1) as nat);
    }
}

/// The digits of a number are at least one character, all decimal digits.
pub proof fn lemma_digits_shape(n: int)
    requires
        n >= 0,
    ensures
        u64_digits(n).len() >= 1,
        forall|i: int| 0 <= i < u64_digits(n).len() ==> is_digit(#[trigger] u64_digits(n)[i]),
    decreases n,
{
    if n < 10 {
        assert(is_digit(digit_char(n)));
    } else {
        lemma_digits_shape(n / 10);
        assert(is_digit(digit_char(n % 10)));
        assert(forall|i: int|
            0 <= i < u64_digits(n / 10).len() ==> u64_digits(n)[i] == #[trigger] u64_digits(
                n / 10,
            )[i]);
    }
}

/// Consuming a printed number folds it onto the accumulator.
proof fn lemma_digits_consume(n: int, acc: int, rest: Seq<char>)
    requires
        n >= 0,
        acc >= 0,
        acc * pow10(u64_digits(n).len() as nat) + n <= u64::MAX,
    ensures
        sp_digits(u64_digits(n) + rest, acc) == sp_digits(
            rest,
            acc * pow10(u64_digits(n).len() as nat) + n,
        ),
    decreases n,
{
    lemma_pow10_pos(u64_digits(n).len() as nat);
    if n < 10 {
        let s = u64_digits(n) + rest;
        assert(s[0] == digit_char(n));
        assert(is_digit(digit_char(n)) && digit_val(digit_char(n)) == n);
        assert(pow10(0) == 1);
        assert(pow10(1) == 10);
        assert(acc * 10 + n <= u64::MAX);
        assert(s.skip(1) =~= rest);
    } else {
        let c = digit_char(n % 10);
        let tail = seq![c] + rest;
        let l1 = u64_digits(n / 10).len() as nat;
        assert(u64_digits(n) + rest =~= u64_digits(n / 10) + tail);
        assert(u64_digits(n).len() == l1 + 1);
        assert(pow10((l1 + 1) as nat) == 10 * pow10(l1));
        lemma_pow10_pos(l1);
        assert(acc * pow10(l1) + n / 10 <= u64::MAX && acc * pow10(l1) >= 0) by (nonlinear_arith)
            requires
                acc >= 0,
                n >= 10,
                pow10(l1) >= 1,
                acc * (10 * pow10(l1)) + n <= u64::MAX,
                n / 10 >= 1,
                n / 10 <= n / 10,
                n % 10 >= 0,
                10 * (n / 10) + n % 10 == n,
        {}
        lemma_digits_consume(n / 10, acc, tail);
        let a1 = acc * pow10(l1) + n / 10;
        assert(sp_digits(u64_digits(n) + rest, acc) == sp_digits(tail, a1));
        assert(is_digit(c) && digit_val(c) == n % 10);
        assert(a1 * 10 + n % 10 == acc * (10 * pow10(l1)) + n) by (nonlinear_arith)
            requires
                a1 == acc * pow10(l1) + n / 10,
                10 * (n / 10) + n % 10 == n,
        {}
        assert(a1 * 10 + n % 10 <= u64::MAX);
        assert(tail.skip(1) =~= rest);
    }
}

/// A printed `u64` parses back to itself when what follows is not a digit.
pub proof fn lemma_parse_print_u64(n: u64, rest: Seq<char>)
    requires
        rest.len() == 0 || !is_digit(rest[0]),
    ensures
        sp_u64(u64_digits(n as int) + rest) == Some((n, rest)),
{
    lemma_digits_shape(n as int);
    let s = u64_digits(n as int) + rest;
    assert(s[0] == u64_digits(n as int)[0]);
    lemma_digits_consume(n as int, 0, rest);
    assert(0 * pow10(u64_digits(n as int).len() as nat) == 0) by (nonlinear_arith) {}
    assert(sp_digits(s, 0) == sp_digits(rest, n as int));
    if rest.len() > 0 {
        assert(!is_digit(rest[0]));
    }
    assert(sp_digits(rest, n as int) == Some((n, rest)));
}

/// A printed `i64` parses back to itself when what follows is not a digit.
pub proof fn lemma_parse_print_int(v: i64, rest: Seq<char>)
    requires
        rest.len() == 0 || !is_digit(rest[0]),
    ensures
        sp_int(int_digits(v as int) + rest) == Some((v, rest)),
{
    if v >= 0 {
        let s = int_digits(v as int) + rest;
        lemma_digits_shape(v as int);
        assert(s[0] == u64_digits(v as int)[0]);
        assert(is_digit(s[0]) && s[0] != '-');
        lemma_parse_print_u64(v as u64, rest);
        assert(s =~= u64_digits((v as u64) as int) + rest);
    } else {
        let mag = (-(v as int)) as u64;
        let s = int_digits(v as int) + rest;
        assert(s[0] == '-');
        assert(s.skip(1) =~= u64_digits(mag as int) + rest);
        lemma_parse_print_u64(mag, rest);
        assert(mag <= 9223372036854775808u64);
        assert((-(mag as int)) as i64 == v);
    }
}

/// A printed literal is consumed exactly.
pub proof fn lemma_parse_print_lit(lit: Seq<char>, rest: Seq<char>)
    ensures
        sp_lit(lit + rest, lit) == Some(rest),
{
    let s = lit + rest;
    assert(s.subrange(0, lit.len() as int) =~= lit);
    assert(s.skip(lit.len() as int) =~= rest);
}

/// A length-delimited run is taken exactly.
pub proof fn lemma_parse_print_take(f: Seq<char>, rest: Seq<char>)
    ensures
        sp_take(f + rest, f.len() as int) == Some((f, rest)),
{
    let s = f + rest;
    assert(s.take(f.len() as int) =~= f);
    assert(s.skip(f.len() as int) =~= rest);
}

/// A printed string field parses back to the field's contents.
pub proof fn lemma_parse_print_str_field(label: Seq<char>, f: Seq<char>, rest: Seq<char>)
    requires
        f.len() <= u64::MAX,
    ensures
        sp_str_field(pr_str_field(label, f) + rest, label) == Some((f, rest)),
{
    let x4 = nl() + rest;
    let x3 = f + x4;
    let x2 = sp() + x3;
    let x1 = u64_digits(f.len() as int) + x2;
    assert(pr_str_field(label, f) + rest =~= label + x1);
    lemma_parse_print_lit(label, x1);
    assert(!is_digit(' '));
    lemma_parse_print_u64(f.len() as u64, x2);
    assert(x1 =~= u64_digits((f.len() as u64) as int) + x2);
    lemma_parse_print_lit(sp(), x3);
    lemma_parse_print_take(f, x4);
    assert(sp_take(x3, (f.len() as u64) as int) == Some((f, x4)));
    lemma_parse_print_lit(nl(), rest);
}

/// A printed task record parses back to the task.
#[verifier::rlimit(100)]
pub proof fn lemma_parse_print_task(t: TaskV, rest: Seq<char>)
    requires
        t.title.len() <= u64::MAX,
        t.description.len() <= u64::MAX,
        t.owner.len() <= u64::MAX,
    ensures
        sp_task_record(pr_task_record(t) + rest) == Some((t, rest)),
{
    let x12 = pr_str_field(lbl_description(), t.description) + rest;
    let x11 = pr_str_field(lbl_title(), t.title) + x12;
    let x10 = pr_str_field(lbl_owner(), t.owner) + x11;
    let x9 = nl() + x10;
    let x8 = int_digits(t.created_at as int) + x9;
    let x7 = lbl_created() + x8;
    let x6 = nl() + x7;
    let x5 = bool_char(t.completed) + x6;
    let x4 = lbl_completed() + x5;
    let x3 = nl() + x4;
    let x2 = u64_digits(t.id as int) + x3;
    let x1 = lbl_id() + x2;
    assert(pr_task_record(t) + rest =~= lbl_task() + x1);
    lemma_parse_print_lit(lbl_task(), x1);
    lemma_parse_print_lit(lbl_id(), x2);
    assert(!is_digit('\n'));
    lemma_parse_print_u64(t.id, x3);
    assert(x2 =~= u64_digits((t.id) as int) + x3);
    lemma_parse_print_lit(nl(), x4);
    lemma_parse_print_lit(lbl_completed(), x5);
    assert(sp_bool(x5) == Some((t.completed, x6))) by {
        if t.completed {
            assert(x5[0] == '1');
        } else {
            assert(x5[0] == '0');
        }
        assert(x5.skip(1) =~= x6);
    }
    lemma_parse_print_lit(nl(), x7);
    lemma_parse_print_lit(lbl_created(), x8);
    lemma_parse_print_int(t.created_at, x9);
    lemma_parse_print_lit(nl(), x10);
    lemma_parse_print_str_field(lbl_owner(), t.owner, x11);
    lemma_parse_print_str_field(lbl_title(), t.title, x12);
    lemma_parse_print_str_field(lbl_description(), t.description, rest);
}

/// Every field of every task in the list fits the length prefix. True of
/// any list built from executable strings.
pub open spec fn tasks_fit(ts: Seq<TaskV>) -> bool {
    forall|i: int|
        0 <= i < ts.len() ==> {
            &&& (#[trigger] ts[i]).title.len() <= u64::MAX
            &&& ts[i].description.len() <= u64::MAX
            &&& ts[i].owner.len() <= u64::MAX
        }
}

/// Likewise for accounts.
pub open spec fn accounts_fit(accs: Seq<AccountV>) -> bool {
    forall|i: int|
        0 <= i < accs.len() ==> {
            &&& (#[trigger] accs[i]).username.len() <= u64::MAX
            &&& accs[i].password.len() <= u64::MAX
        }
}

/// The task snapshot round trip: parsing a printed task list yields the
/// same list, element for element.
pub proof fn lemma_roundtrip_tasks(ts: Seq<TaskV>)
    requires
        tasks_fit(ts),
    ensures
        sp_tasks_file(pr_tasks_file(ts)) == Some(ts),
    decreases ts.len(),
{
    if ts.len() > 0 {
        let r = pr_tasks_file(ts.skip(1));
        let s = pr_task_record(ts[0]) + r;
        assert(s == pr_tasks_file(ts));
        lemma_parse_print_task(ts[0], r);
        assert(s.len() == pr_task_record(ts[0]).len() + r.len());
        assert(pr_task_record(ts[0]).len() >= lbl_task().len());
        assert(forall|i: int|
            0 <= i < ts.skip(1).len() ==> ts.skip(1)[i] == #[trigger] ts[i + 1]);
        assert(tasks_fit(ts.skip(1)));
        lemma_roundtrip_tasks(ts.skip(1));
        assert(seq![ts[0]] + ts.skip(1) =~= ts);
    } else {
        assert(pr_tasks_file(ts).len() == 0);
    }
}

/// A printed account record parses back to the account.
pub proof fn lemma_parse_print_account(a: AccountV, rest: Seq<char>)
    requires
        a.username.len() <= u64::MAX,
        a.password.len() <= u64::MAX,
    ensures
        sp_account_record(pr_account_record(a) + rest) == Some((a, rest)),
{
    let x2 = pr_str_field(lbl_password(), a.password) + rest;
    let x1 = pr_str_field(lbl_username(), a.username) + x2;
    assert(pr_account_record(a) + rest =~= lbl_account() + x1);
    lemma_parse_print_lit(lbl_account(), x1);
    lemma_parse_print_str_field(lbl_username(), a.username, x2);
    lemma_parse_print_str_field(lbl_password(), a.password, rest);
}

/// The account snapshot round trip.
pub proof fn lemma_roundtrip_accounts(accs: Seq<AccountV>)
    requires
        accounts_fit(accs),
    ensures
        sp_accounts_file(pr_accounts_file(accs)) == Some(accs),
    decreases accs.len(),
{
    if accs.len() > 0 {
        let r = pr_accounts_file(accs.skip(1));
        let s = pr_account_record(accs[0]) + r;
        assert(s == pr_accounts_file(accs));
        lemma_parse_print_account(accs[0], r);
        assert(s.len() == pr_account_record(accs[0]).len() + r.len());
        assert(pr_account_record(accs[0]).len() >= lbl_account().len());
        assert(forall|i: int|
            0 <= i < accs.skip(1).len() ==> accs.skip(1)[i] == #[trigger] accs[i + 1]);
        assert(accounts_fit(accs.skip(1)));
        lemma_roundtrip_accounts(accs.skip(1));
        assert(seq![accs[0]] + accs.skip(1) =~= accs);
    } else {
        assert(pr_accounts_file(accs).len() == 0);
    }
}

// ----------------------------------------------------------------------
// The printer, executable.
// ----------------------------------------------------------------------

/// The one-character string for a decimal digit.
fn digit_str(d: u64) -> (r: &'static str)
    requires
        d < 10,
    ensures
        r@ == seq![digit_char(d as int)],
{
    proof {
        reveal_strlit("0");
        reveal_strlit("1");
        reveal_strlit("2");
        reveal_strlit("3");
        reveal_strlit("4");
        reveal_strlit("5");
        reveal_strlit("6");
        reveal_strlit("7");
        reveal_strlit("8");
        reveal_strlit("9");
    }
    if d == 0 {
        "0"
    } else if d == 1 {
        "1"
    } else if d == 2 {
        "2"
    } else if d == 3 {
        "3"
    } else if d == 4 {
        "4"
    } else if d == 5 {
        "5"
    } else if d == 6 {
        "6"
    } else if d == 7 {
        "7"
    } else if d == 8 {
        "8"
    } else {
        "9"
    }
}

/// Append the decimal digits of `n`.
fn push_digits(out: &mut String, n: u64)
    ensures
        final(out)@ == old(out)@ + u64_digits(n as int),
    decreases n,
{
    let ghost prior = out@;
    if n >= 10 {
        push_digits(out, n / 10);
    }
    out.append(digit_str(n % 10));
    proof {
        if n >= 10 {
            assert(prior + u64_digits((n / 10) as int) + seq![digit_char((n % 10) as int)]
                =~= prior + u64_digits(n as int));
        } else {
            assert(prior + seq![digit_char(n as int)] =~= prior + u64_digits(n as int));
        }
    }
}

/// Append a signed decimal number.
fn push_int(out: &mut String, v: i64)
    ensures
        final(out)@ == old(out)@ + int_digits(v as int),
{
    let ghost prior = out@;
    if v >= 0 {
        push_digits(out, v as u64);
    } else {
        proof {
            reveal_strlit("-");
        }
        out.append("-");
        let m: u64 = if v == i64::MIN {
            9223372036854775808u64
        } else {
            (-v) as u64
        };
        proof {
            assert(m as int == -(v as int));
        }
        push_digits(out, m);
        proof {
            assert(prior + seq!['-'] + u64_digits(m as int) =~= prior + int_digits(v as int));
        }
    }
}

/// Append a labelled, length-prefixed string field.
fn push_str_field(out: &mut String, label: &str, f: &str)
    ensures
        final(out)@ == old(out)@ + pr_str_field(label@, f@),
{
    let ghost prior = out@;
    out.append(label);
    let l = f.unicode_len();
    push_digits(out, l as u64);
    proof {
        reveal_strlit(" ");
        reveal_strlit("\n");
    }
    out.append(" ");
    out.append(f);
    out.append("\n");
    proof {
        assert(prior + label@ + u64_digits(l as int) + " "@ + f@ + "\n"@ =~= prior + pr_str_field(
            label@,
            f@,
        ));
    }
}

/// Append one task record.
fn push_task_record(out: &mut String, t: &Task)
    ensures
        final(out)@ == old(out)@ + pr_task_record(t@),
{
    let ghost prior = out@;
    proof {
        reveal_strlit("task\n");
        reveal_strlit("id ");
        reveal_strlit("completed ");
        reveal_strlit("created_at ");
        reveal_strlit("owner ");
        reveal_strlit("title ");
        reveal_strlit("description ");
        reveal_strlit("1");
        reveal_strlit("0");
        reveal_strlit("\n");
        assert("task\n"@ =~= lbl_task());
        assert("id "@ =~= lbl_id());
        assert("completed "@ =~= lbl_completed());
        assert("created_at "@ =~= lbl_created());
        assert("owner "@ =~= lbl_owner());
        assert("title "@ =~= lbl_title());
        assert("description "@ =~= lbl_description());
    }
    out.append("task\n");
    out.append("id ");
    push_digits(out, t.id);
    out.append("\n");
    out.append("completed ");
    out.append(if t.completed {
        "1"
    } else {
        "0"
    });
    out.append("\n");
    out.append("created_at ");
    push_int(out, t.created_at);
    out.append("\n");
    push_str_field(out, "owner ", t.owner.as_str());
    push_str_field(out, "title ", t.title.as_str());
    push_str_field(out, "description ", t.description.as_str());
    proof {
        assert(out@ =~= prior + pr_task_record(t@));
    }
}

/// Appending one more record extends the printed file at its end.
#[verifier::rlimit(100)]
proof fn lemma_pr_tasks_snoc(ts: Seq<TaskV>, t: TaskV)
    ensures
        pr_tasks_file(ts.push(t)) == pr_tasks_file(ts) + pr_task_record(t),
    decreases ts.len(),
{
    if ts.len() == 0 {
        assert(ts.push(t)[0] == t);
        assert(ts.push(t).skip(1) =~= Seq::<TaskV>::empty());
        assert(pr_tasks_file(ts) + pr_task_record(t) =~= pr_task_record(t) + pr_tasks_file(
            ts.push(t).skip(1),
        ));
    } else {
        assert(ts.push(t)[0] == ts[0]);
        assert(ts.push(t).skip(1) =~= ts.skip(1).push(t));
        lemma_pr_tasks_snoc(ts.skip(1), t);
        assert(pr_task_record(ts[0]) + (pr_tasks_file(ts.skip(1)) + pr_task_record(t))
            =~= (pr_task_record(ts[0]) + pr_tasks_file(ts.skip(1))) + pr_task_record(t));
    }
}

/// Likewise for accounts.
#[verifier::rlimit(100)]
proof fn lemma_pr_accounts_snoc(accs: Seq<AccountV>, a: AccountV)
    ensures
        pr_accounts_file(accs.push(a)) == pr_accounts_file(accs) + pr_account_record(a),
    decreases accs.len(),
{
    if accs.len() == 0 {
        assert(accs.push(a)[0] == a);
        assert(accs.push(a).skip(1) =~= Seq::<AccountV>::empty());
        assert(pr_accounts_file(accs) + pr_account_record(a) =~= pr_account_record(a)
            + pr_accounts_file(accs.push(a).skip(1)));
    } else {
        assert(accs.push(a)[0] == accs[0]);
        assert(accs.push(a).skip(1) =~= accs.skip(1).push(a));
        lemma_pr_accounts_snoc(accs.skip(1), a);
        assert(pr_account_record(accs[0]) + (pr_accounts_file(accs.skip(1)) + pr_account_record(a))
            =~= (pr_account_record(accs[0]) + pr_accounts_file(accs.skip(1))) + pr_account_record(
            a,
        ));
    }
}

/// Print the whole task snapshot.
pub fn encode_tasks(v: &Vec<Task>) -> (r: String)
    ensures
        r@ == pr_tasks_file(task_views(v@)),
{
    let ghost lv = task_views(v@);
    let mut out = String::new();
    let n = v.len();
    let mut i: usize = 0;
    proof {
        assert(lv.take(0) =~= Seq::<TaskV>::empty());
    }
    while i < n
        invariant
            n == v@.len(),
            lv == task_views(v@),
            0 <= i <= n,
            out@ == pr_tasks_file(lv.take(i as int)),
        decreases n - i,
    {
        push_task_record(&mut out, &v[i]);
        proof {
            assert(lv.take(i + 1) =~= lv.take(i as int).push(lv[i as int]));
            lemma_pr_tasks_snoc(lv.take(i as int), lv[i as int]);
            assert(lv[i as int] == v@[i as int]@);
        }
        i += 1;
    }
    proof {
        assert(lv.take(n as int) =~= lv);
    }
    out
}

/// Print one account record.
fn push_account_record(out: &mut String, a: &Account)
    ensures
        final(out)@ == old(out)@ + pr_account_record(a@),
{
    let ghost prior = out@;
    proof {
        reveal_strlit("account\n");
        reveal_strlit("username ");
        reveal_strlit("password ");
        assert("account\n"@ =~= lbl_account());
        assert("username "@ =~= lbl_username());
        assert("password "@ =~= lbl_password());
    }
    out.append("account\n");
    push_str_field(out, "username ", a.username.as_str());
    push_str_field(out, "password ", a.password.as_str());
    proof {
        assert(out@ =~= prior + pr_account_record(a@));
    }
}

/// Print the whole account snapshot.
pub fn encode_accounts(v: &Vec<Account>) -> (r: String)
    ensures
        r@ == pr_accounts_file(account_views(v@)),
{
    let ghost lv = account_views(v@);
    let mut out = String::new();
    let n = v.len();
    let mut i: usize = 0;
    proof {
        assert(lv.take(0) =~= Seq::<AccountV>::empty());
    }
    while i < n
        invariant
            n == v@.len(),
            lv == account_views(v@),
            0 <= i <= n,
            out@ == pr_accounts_file(lv.take(i as int)),
        decreases n - i,
    {
        push_account_record(&mut out, &v[i]);
        proof {
            assert(lv.take(i + 1) =~= lv.take(i as int).push(lv[i as int]));
            lemma_pr_accounts_snoc(lv.take(i as int), lv[i as int]);
            assert(lv[i as int] == v@[i as int]@);
        }
        i += 1;
    }
    proof {
        assert(lv.take(n as int) =~= lv);
    }
    out
}

// ----------------------------------------------------------------------
// The parser, executable. Each function mirrors its specification twin.
// ----------------------------------------------------------------------

/// The numeric value of a decimal digit.
fn digit_of(c: char) -> (r: Option<u64>)
    ensures
        match r {
            Some(d) => is_digit(c) && d < 10 && d as int == digit_val(c),
            None => !is_digit(c),
        },
{
    match c {
        '0' => Some(0),
        '1' => Some(1),
        '2' => Some(2),
        '3' => Some(3),
        '4' => Some(4),
        '5' => Some(5),
        '6' => Some(6),
        '7' => Some(7),
        '8' => Some(8),
        '9' => Some(9),
        _ => None,
    }
}

fn p_digits<'a>(s: &'a str, acc: u64) -> (r: Option<(u64, &'a str)>)
    ensures
        match r {
            Some(p) => sp_digits(s@, acc as int) == Some((p.0, p.1@)),
            None => sp_digits(s@, acc as int) is None,
        },
    decreases s@.len(),
{
    let n = s.unicode_len();
    if n == 0 {
        return Some((acc, s));
    }
    let c = s.get_char(0);
    match digit_of(c) {
        None => Some((acc, s)),
        Some(d) => {
            if acc > (u64::MAX - d) / 10 {
                proof {
                    assert(acc * 10 + d > u64::MAX) by (nonlinear_arith)
                        requires
                            d < 10,
                            acc > (u64::MAX - d) / 10,
                            10 * ((u64::MAX - d) / 10) + (u64::MAX - d) % 10 == u64::MAX - d,
                            0 <= (u64::MAX - d) % 10 < 10,
                    {}
                }
                None
            } else {
                proof {
                    assert(acc * 10 + d <= u64::MAX) by (nonlinear_arith)
                        requires
                            d < 10,
                            acc <= (u64::MAX - d) / 10,
                            10 * ((u64::MAX - d) / 10) + (u64::MAX - d) % 10 == u64::MAX - d,
                            0 <= (u64::MAX - d) % 10 < 10,
                    {}
                }
                let acc2 = acc * 10 + d;
                let rest = s.substring_char(1, n);
                proof {
                    assert(rest@ =~= s@.skip(1));
                }
                p_digits(rest, acc2)
            }
        },
    }
}

fn p_u64<'a>(s: &'a str) -> (r: Option<(u64, &'a str)>)
    ensures
        match r {
            Some(p) => sp_u64(s@) == Some((p.0, p.1@)),
            None => sp_u64(s@) is None,
        },
{
    let n = s.unicode_len();
    if n == 0 {
        return None;
    }
    if digit_of(s.get_char(0)).is_some() {
        p_digits(s, 0)
    } else {
        None
    }
}

fn p_int<'a>(s: &'a str) -> (r: Option<(i64, &'a str)>)
    ensures
        match r {
            Some(p) => sp_int(s@) == Some((p.0, p.1@)),
            None => sp_int(s@) is None,
        },
{
    let n = s.unicode_len();
    if n > 0 && s.get_char(0) == '-' {
        let tail = s.substring_char(1, n);
        proof {
            assert(tail@ =~= s@.skip(1));
        }
        match p_u64(tail) {
            None => None,
            Some((m, rest)) => {
                if m > 9223372036854775808u64 {
                    None
                } else {
                    let v: i64 = if m == 9223372036854775808u64 {
                        i64::MIN
                    } else {
                        -(m as i64)
                    };
                    proof {
                        assert(v as int == -(m as int));
                    }
                    Some((v, rest))
                }
            },
        }
    } else {
        match p_u64(s) {
            None => None,
            Some((m, rest)) => {
                if m > i64::MAX as u64 {
                    None
                } else {
                    Some((m as i64, rest))
                }
            },
        }
    }
}

fn p_lit<'a>(s: &'a str, lit: &str) -> (r: Option<&'a str>)
    ensures
        match r {
            Some(rest) => sp_lit(s@, lit@) == Some(rest@),
            None => sp_lit(s@, lit@) is None,
        },
{
    let ln = lit.unicode_len();
    let n = s.unicode_len();
    if ln > n {
        return None;
    }
    let mut i: usize = 0;
    while i < ln
        invariant
            0 <= i <= ln,
            ln == lit@.len(),
            n == s@.len(),
            ln <= n,
            forall|j: int| 0 <= j < i ==> s@[j] == lit@[j],
        decreases ln - i,
    {
        if s.get_char(i) != lit.get_char(i) {
            proof {
                assert(s@.subrange(0, lit@.len() as int)[i as int] != lit@[i as int]);
            }
            return None;
        }
        i += 1;
    }
    proof {
        assert(s@.subrange(0, ln as int) =~= lit@);
    }
    let rest = s.substring_char(ln, n);
    proof {
        assert(rest@ =~= s@.skip(ln as int));
    }
    Some(rest)
}

fn p_take<'a>(s: &'a str, k: u64) -> (r: Option<(String, &'a str)>)
    ensures
        match r {
            Some(p) => sp_take(s@, k as int) == Some((p.0@, p.1@)),
            None => sp_take(s@, k as int) is None,
        },
{
    let n = s.unicode_len();
    if k > n as u64 {
        return None;
    }
    let kk = k as usize;
    let f = s.substring_char(0, kk).to_owned();
    let rest = s.substring_char(kk, n);
    proof {
        assert(f@ =~= s@.take(k as int));
        assert(rest@ =~= s@.skip(k as int));
    }
    Some((f, rest))
}

fn p_bool<'a>(s: &'a str) -> (r: Option<(bool, &'a str)>)
    ensures
        match r {
            Some(p) => sp_bool(s@) == Some((p.0, p.1@)),
            None => sp_bool(s@) is None,
        },
{
    let n = s.unicode_len();
    if n == 0 {
        return None;
    }
    let c = s.get_char(0);
    if c == '1' || c == '0' {
        let rest = s.substring_char(1, n);
        proof {
            assert(rest@ =~= s@.skip(1));
        }
        Some((c == '1', rest))
    } else {
        None
    }
}

fn p_str_field<'a>(s: &'a str, label: &str) -> (r: Option<(String, &'a str)>)
    ensures
        match r {
            Some(p) => sp_str_field(s@, label@) == Some((p.0@, p.1@)),
            None => sp_str_field(s@, label@) is None,
        },
{
    proof {
        reveal_strlit(" ");
        reveal_strlit("\n");
        assert(" "@ =~= sp());
        assert("\n"@ =~= nl());
    }
    let r1 = match p_lit(s, label) {
        None => {
            return None;
        },
        Some(x) => x,
    };
    let (k, r2) = match p_u64(r1) {
        None => {
            return None;
        },
        Some(x) => x,
    };
    let r3 = match p_lit(r2, " ") {
        None => {
            return None;
        },
        Some(x) => x,
    };
    let (f, r4) = match p_take(r3, k) {
        None => {
            return None;
        },
        Some(x) => x,
    };
    let r5 = match p_lit(r4, "\n") {
        None => {
            return None;
        },
        Some(x) => x,
    };
    Some((f, r5))
}

#[verifier::rlimit(100)]
fn p_task_record<'a>(s: &'a str) -> (r: Option<(Task, &'a str)>)
    ensures
        match r {
            Some(p) => sp_task_record(s@) == Some((p.0@, p.1@)),
            None => sp_task_record(s@) is None,
        },
{
    proof {
        reveal_strlit("task\n");
        reveal_strlit("id ");
        reveal_strlit("completed ");
        reveal_strlit("created_at ");
        reveal_strlit("owner ");
        reveal_strlit("title ");
        reveal_strlit("description ");
        reveal_strlit("\n");
        assert("task\n"@ =~= lbl_task());
        assert("id "@ =~= lbl_id());
        assert("completed "@ =~= lbl_completed());
        assert("created_at "@ =~= lbl_created());
        assert("owner "@ =~= lbl_owner());
        assert("title "@ =~= lbl_title());
        assert("description "@ =~= lbl_description());
        assert("\n"@ =~= nl());
    }
    let r1 = match p_lit(s, "task\n") {
        None => {
            return None;
        },
        Some(x) => x,
    };
    let r2 = match p_lit(r1, "id ") {
        None => {
            return None;
        },
        Some(x) => x,
    };
    let (id, r3) = match p_u64(r2) {
        None => {
            return None;
        },
        Some(x) => x,
    };
    let r4 = match p_lit(r3, "\n") {
        None => {
            return None;
        },
        Some(x) => x,
    };
    let r5 = match p_lit(r4, "completed ") {
        None => {
            return None;
        },
        Some(x) => x,
    };
    let (completed, r6) = match p_bool(r5) {
        None => {
            return None;
        },
        Some(x) => x,
    };
    let r7 = match p_lit(r6, "\n") {
        None => {
            return None;
        },
        Some(x) => x,
    };
    let r8 = match p_lit(r7, "created_at ") {
        None => {
            return None;
        },
        Some(x) => x,
    };
    let (created_at, r9) = match p_int(r8) {
        None => {
            return None;
        },
        Some(x) => x,
    };
    let r10 = match p_lit(r9, "\n") {
        None => {
            return None;
        },
        Some(x) => x,
    };
    let (owner, r11) = match p_str_field(r10, "owner ") {
        None => {
            return None;
        },
        Some(x) => x,
    };
    let (title, r12) = match p_str_field(r11, "title ") {
        None => {
            return None;
        },
        Some(x) => x,
    };
    let (description, rest) = match p_str_field(r12, "description ") {
        None => {
            return None;
        },
        Some(x) => x,
    };
    Some((Task { id, title, description, completed, created_at, owner }, rest))
}

/// Parse the whole task snapshot; `None` on any malformed text.
pub fn decode_tasks(s: &str) -> (r: Option<Vec<Task>>)
    ensures
        match r {
            Some(v) => sp_tasks_file(s@) == Some(task_views(v@)),
            None => sp_tasks_file(s@) is None,
        },
    decreases s@.len(),
{
    if s.unicode_len() == 0 {
        let v: Vec<Task> = Vec::new();
        proof {
            assert(task_views(v@) =~= Seq::<TaskV>::empty());
        }
        return Some(v);
    }
    match p_task_record(s) {
        None => None,
        Some((t, rest)) => {
            if rest.unicode_len() < s.unicode_len() {
                match decode_tasks(rest) {
                    None => None,
                    Some(mut v) => {
                        let ghost prior = v@;
                        v.insert(0, t);
                        proof {
                            assert(task_views(v@) =~= seq![t@] + task_views(prior));
                        }
                        Some(v)
                    },
                }
            } else {
                None
            }
        },
    }
}

fn p_account_record<'a>(s: &'a str) -> (r: Option<(Account, &'a str)>)
    ensures
        match r {
            Some(p) => sp_account_record(s@) == Some((p.0@, p.1@)),
            None => sp_account_record(s@) is None,
        },
{
    proof {
        reveal_strlit("account\n");
        reveal_strlit("username ");
        reveal_strlit("password ");
        assert("account\n"@ =~= lbl_account());
        assert("username "@ =~= lbl_username());
        assert("password "@ =~= lbl_password());
    }
    let r1 = match p_lit(s, "account\n") {
        None => {
            return None;
        },
        Some(x) => x,
    };
    let (username, r2) = match p_str_field(r1, "username ") {
        None => {
            return None;
        },
        Some(x) => x,
    };
    let (password, rest) = match p_str_field(r2, "password ") {
        None => {
            return None;
        },
        Some(x) => x,
    };
    Some((Account { username, password }, rest))
}

/// Parse the whole account snapshot; `None` on any malformed text.
pub fn decode_accounts(s: &str) -> (r: Option<Vec<Account>>)
    ensures
        match r {
            Some(v) => sp_accounts_file(s@) == Some(account_views(v@)),
            None => sp_accounts_file(s@) is None,
        },
    decreases s@.len(),
{
    if s.unicode_len() == 0 {
        let v: Vec<Account> = Vec::new();
        proof {
            assert(account_views(v@) =~= Seq::<AccountV>::empty());
        }
        return Some(v);
    }
    match p_account_record(s) {
        None => None,
        Some((a, rest)) => {
            if rest.unicode_len() < s.unicode_len() {
                match decode_accounts(rest) {
                    None => None,
                    Some(mut v) => {
                        let ghost prior = v@;
                        v.insert(0, a);
                        proof {
                            assert(account_views(v@) =~= seq![a@] + account_views(prior));
                        }
                        Some(v)
                    },
                }
            } else {
                None
            }
        },
    }
}

} // verus!

//! Ordering of process rows: one comparator per sort key, `None` always
//! lowest, and a direction flag that reverses the whole ordering.

use vstd::prelude::*;
use vstd::relations::sorted_by;
use crate::process::ProcessInfo;
use crate::types::ProcessName;
use vstd::string::StrSliceExecFns;

verus! {

/// `None` sorts below every present value; present values sort by value.
pub open spec fn opt_u64_le(a: Option<u64>, b: Option<u64>) -> bool {
    match (a, b) {
        (Option::None, _) => true,
        (Option::Some(_), Option::None) => false,
        (Option::Some(x), Option::Some(y)) => x <= y,
    }
}

/// Lexicographic order on character sequences (code-point order).
pub open spec fn seq_char_le(a: Seq<char>, b: Seq<char>) -> bool
    decreases a.len(),
{
    if a.len() == 0 {
        true
    } else if b.len() == 0 {
        false
    } else if a[0] != b[0] {
        (a[0] as int) < (b[0] as int)
    } else {
        seq_char_le(a.drop_first(), b.drop_first())
    }
}

/// `None` sorts below every present string; present strings lexicographically.
pub open spec fn opt_text_le(a: Option<Seq<char>>, b: Option<Seq<char>>) -> bool {
    match (a, b) {
        (Option::None, _) => true,
        (Option::Some(_), Option::None) => false,
        (Option::Some(x), Option::Some(y)) => seq_char_le(x, y),
    }
}

/// The contents of an optional string.
pub open spec fn opt_view(o: Option<String>) -> Option<Seq<char>> {
    match o {
        Option::Some(s) => Option::Some(s@),
        Option::None => Option::None,
    }
}

/// The base comparator for one sort key.
pub open spec fn row_le(a: ProcessInfo, b: ProcessInfo, key: ProcessName) -> bool {
    match key {
        ProcessName::PID => a.pid <= b.pid,
        ProcessName::NAME => seq_char_le(a.name@, b.name@),
        ProcessName::CPU => opt_u64_le(a.cpu, b.cpu),
        ProcessName::MEM => opt_u64_le(a.mem_mb, b.mem_mb),
        ProcessName::READ => opt_u64_le(a.read_bytes, b.read_bytes),
        ProcessName::WRITE => opt_u64_le(a.write_bytes, b.write_bytes),
        ProcessName::TOTAL_READ => opt_u64_le(a.total_read, b.total_read),
        ProcessName::TOTAL_WRITTEN => opt_u64_le(a.total_written, b.total_written),
        ProcessName::USER => opt_text_le(opt_view(a.user), opt_view(b.user)),
    }
}

/// The comparator actually sorted by: the base comparator, or the whole
/// ordering turned around when `reverse` is set.
pub open spec fn sort_le(a: ProcessInfo, b: ProcessInfo, key: ProcessName, reverse: bool) -> bool {
    if reverse {
        row_le(b, a, key)
    } else {
        row_le(a, b, key)
    }
}

/// The comparator as a relation, for use with `sorted_by`.
pub open spec fn sort_leq(key: ProcessName, reverse: bool) -> spec_fn(ProcessInfo, ProcessInfo) -> bool {
    |a: ProcessInfo, b: ProcessInfo| sort_le(a, b, key, reverse)
}

/// Two rows tie on the sort key: neither sorts strictly below the other.
/// The direction flag cannot part them either, since it only turns the
/// whole ordering around.
pub open spec fn key_tie(a: ProcessInfo, b: ProcessInfo, key: ProcessName) -> bool {
    row_le(a, b, key) && row_le(b, a, key)
}

/// The rows that tie with `x` on the key, as a predicate for `filter`.
pub open spec fn tie_pred(x: ProcessInfo, key: ProcessName) -> spec_fn(ProcessInfo) -> bool {
    |r: ProcessInfo| key_tie(r, x, key)
}

/// Whether the field selected by `key` is absent in this row.
pub open spec fn key_absent(r: ProcessInfo, key: ProcessName) -> bool {
    match key {
        ProcessName::PID => false,
        ProcessName::NAME => false,
        ProcessName::CPU => r.cpu is None,
        ProcessName::MEM => r.mem_mb is None,
        ProcessName::READ => r.read_bytes is None,
        ProcessName::WRITE => r.write_bytes is None,
        ProcessName::TOTAL_READ => r.total_read is None,
        ProcessName::TOTAL_WRITTEN => r.total_written is None,
        ProcessName::USER => r.user is None,
    }
}

proof fn lemma_seq_char_le_total(a: Seq<char>, b: Seq<char>)
    ensures
        seq_char_le(a, b) || seq_char_le(b, a),
    decreases a.len(),
{
    if a.len() > 0 && b.len() > 0 && a[0] == b[0] {
        lemma_seq_char_le_total(a.drop_first(), b.drop_first());
    }
}

proof fn lemma_seq_char_le_trans(a: Seq<char>, b: Seq<char>, c: Seq<char>)
    requires
        seq_char_le(a, b),
        seq_char_le(b, c),
    ensures
        seq_char_le(a, c),
    decreases a.len(),
{
    if a.len() > 0 && b.len() > 0 && c.len() > 0 && a[0] == b[0] && b[0] == c[0] {
        lemma_seq_char_le_trans(a.drop_first(), b.drop_first(), c.drop_first());
    }
}

/// Any two rows are comparable: the comparator is total.
pub proof fn lemma_sort_le_total(a: ProcessInfo, b: ProcessInfo, key: ProcessName, reverse: bool)
    ensures
        sort_le(a, b, key, reverse) || sort_le(b, a, key, reverse),
{
    match key {
        ProcessName::NAME => lemma_seq_char_le_total(a.name@, b.name@),
        ProcessName::USER => {
            if a.user is Some && b.user is Some {
                lemma_seq_char_le_total(a.user->0@, b.user->0@);
            }
        },
        _ => {},
    }
}

/// The comparator is transitive.
pub proof fn lemma_sort_le_trans(
    a: ProcessInfo,
    b: ProcessInfo,
    c: ProcessInfo,
    key: ProcessName,
    reverse: bool,
)
    requires
        sort_le(a, b, key, reverse),
        sort_le(b, c, key, reverse),
    ensures
        sort_le(a, c, key, reverse),
{
    match key {
        ProcessName::NAME => {
            if reverse {
                lemma_seq_char_le_trans(c.name@, b.name@, a.name@);
            } else {
                lemma_seq_char_le_trans(a.name@, b.name@, c.name@);
            }
        },
        ProcessName::USER => {
            if a.user is Some && b.user is Some && c.user is Some {
                if reverse {
                    lemma_seq_char_le_trans(c.user->0@, b.user->0@, a.user->0@);
                } else {
                    lemma_seq_char_le_trans(a.user->0@, b.user->0@, c.user->0@);
                }
            }
        },
        _ => {},
    }
}

fn opt_u64_le_exec(a: &Option<u64>, b: &Option<u64>) -> (r: bool)
    ensures
        r == opt_u64_le(*a, *b),
{
    match (a, b) {
        (Option::None, _) => true,
        (Option::Some(_), Option::None) => false,
        (Option::Some(x), Option::Some(y)) => *x <= *y,
    }
}

fn str_le(a: &str, b: &str) -> (r: bool)
    ensures
        r == seq_char_le(a@, b@),
{
    let alen = a.unicode_len();
    let blen = b.unicode_len();
    let mut i: usize = 0;
    proof {
        assert(a@.skip(0) =~= a@);
        assert(b@.skip(0) =~= b@);
    }
    while i < alen && i < blen
        invariant
            i <= alen,
            i <= blen,
            alen == a@.len(),
            blen == b@.len(),
            seq_char_le(a@, b@) == seq_char_le(a@.skip(i as int), b@.skip(i as int)),
        decreases alen - i,
    {
        let ca = a.get_char(i);
        let cb = b.get_char(i);
        proof {
            assert(a@.skip(i as int)[0] == a@[i as int]);
            assert(b@.skip(i as int)[0] == b@[i as int]);
        }
        if ca != cb {
            return (ca as u32) < (cb as u32);
        }
        proof {
            assert(a@.skip(i as int).drop_first() =~= a@.skip(i + 1));
            assert(b@.skip(i as int).drop_first() =~= b@.skip(i + 1));
        }
        i = i + 1;
    }
    proof {
        assert(a@.skip(i as int).len() == alen - i);
        assert(b@.skip(i as int).len() == blen - i);
    }
    i == alen
}

fn opt_str_le_exec(a: &Option<String>, b: &Option<String>) -> (r: bool)
    ensures
        r == opt_text_le(opt_view(*a), opt_view(*b)),
{
    match (a, b) {
        (Option::None, _) => true,
        (Option::Some(_), Option::None) => false,
        (Option::Some(x), Option::Some(y)) => str_le(x.as_str(), y.as_str()),
    }
}

fn row_le_exec(a: &ProcessInfo, b: &ProcessInfo, key: ProcessName) -> (r: bool)
    ensures
        r == row_le(*a, *b, key),
{
    match key {
        ProcessName::PID => a.pid <= b.pid,
        ProcessName::NAME => str_le(a.name.as_str(), b.name.as_str()),
        ProcessName::CPU => opt_u64_le_exec(&a.cpu, &b.cpu),
        ProcessName::MEM => opt_u64_le_exec(&a.mem_mb, &b.mem_mb),
        ProcessName::READ => opt_u64_le_exec(&a.read_bytes, &b.read_bytes),
        ProcessName::WRITE => opt_u64_le_exec(&a.write_bytes, &b.write_bytes),
        ProcessName::TOTAL_READ => opt_u64_le_exec(&a.total_read, &b.total_read),
        ProcessName::TOTAL_WRITTEN => opt_u64_le_exec(&a.total_written, &b.total_written),
        ProcessName::USER => opt_str_le_exec(&a.user, &b.user),
    }
}

fn sort_le_exec(a: &ProcessInfo, b: &ProcessInfo, key: ProcessName, reverse: bool) -> (r: bool)
    ensures
        r == sort_le(*a, *b, key, reverse),
{
    if reverse {
        row_le_exec(b, a, key)
    } else {
        row_le_exec(a, b, key)
    }
}

proof fn lemma_insert_step_keeps_ties(
    s: Seq<ProcessInfo>,
    p: int,
    i: int,
    key: ProcessName,
    reverse: bool,
)
    requires
        0 <= p <= i < s.len(),
        forall|k: int| p <= k < i ==> !sort_le(s[k], s[i], key, reverse),
    ensures
        forall|x: ProcessInfo| #[trigger] s.remove(i).insert(p, s[i]).filter(tie_pred(x, key))
            == s.filter(tie_pred(x, key)),
{
    broadcast use vstd::seq_lib::group_seq_lib_default;

    let x0 = s[i];
    let a = s.subrange(0, p);
    let mid = s.subrange(p, i);
    let c = s.subrange(i + 1, s.len() as int);
    let s2 = s.remove(i).insert(p, x0);
    assert(s =~= a + (mid + (seq![x0] + c)));
    assert(s2 =~= a + (seq![x0] + (mid + c)));
    assert forall|x: ProcessInfo| #[trigger] s2.filter(tie_pred(x, key)) == s.filter(
        tie_pred(x, key),
    ) by {
        let q = tie_pred(x, key);
        reveal_with_fuel(Seq::<_>::filter, 2);
        assert(seq![x0].filter(q) =~= (if q(x0) {
            seq![x0]
        } else {
            Seq::<ProcessInfo>::empty()
        }));
        if q(x0) {
            // nothing the moved row passed over ties with the class
            assert forall|k: int| 0 <= k < mid.len() implies !q(mid[k]) by {
                assert(mid[k] == s[p + k]);
                if q(mid[k]) {
                    lemma_sort_le_trans(mid[k], x, x0, key, false);
                    lemma_sort_le_trans(x0, x, mid[k], key, false);
                    assert(sort_le(s[p + k], s[i], key, reverse));
                    assert(false);
                }
            }
            assert(mid.all(|r: ProcessInfo| !q(r)));
            mid.lemma_all_neg_filter_empty(q);
            assert(mid.filter(q) =~= Seq::<ProcessInfo>::empty());
        }
        assert(s.filter(q) == a.filter(q) + (mid.filter(q) + (seq![x0].filter(q) + c.filter(q))));
        assert(s2.filter(q) == a.filter(q) + (seq![x0].filter(q) + (mid.filter(q) + c.filter(q))));
        assert(s2.filter(q) =~= s.filter(q));
    }
}

/// Sort the rows by the chosen key and direction: the result is ordered by
/// the comparator, holds exactly the rows that went in, and is stable —
/// rows that tie on the key keep their prior relative order, stated here
/// as every tie class filtering out unchanged.
pub fn sort_rows(rows: &mut Vec<ProcessInfo>, key: ProcessName, reverse: bool)
    ensures
        sorted_by(final(rows)@, sort_leq(key, reverse)),
        final(rows)@.to_multiset() == old(rows)@.to_multiset(),
        final(rows)@.len() == old(rows)@.len(),
        forall|x: ProcessInfo| #[trigger] final(rows)@.filter(tie_pred(x, key)) == old(
            rows,
        )@.filter(tie_pred(x, key)),
{
    broadcast use vstd::seq_lib::group_to_multiset_ensures;

    let ghost leq = sort_leq(key, reverse);
    let ghost orig = rows@;
    if rows.len() < 2 {
        assert(rows@ =~= orig);
        return;
    }
    let mut i: usize = 1;
    while i < rows.len()
        invariant
            1 <= i <= rows@.len(),
            rows@.len() == orig.len(),
            rows@.to_multiset() == orig.to_multiset(),
            leq == sort_leq(key, reverse),
            sorted_by(rows@.subrange(0, i as int), leq),
            forall|x: ProcessInfo| #[trigger] rows@.filter(tie_pred(x, key)) == orig.filter(
                tie_pred(x, key),
            ),
        decreases rows@.len() - i,
    {
        broadcast use vstd::seq_lib::group_to_multiset_ensures;

        let ghost before = rows@;
        let mut p: usize = i;
        while p > 0 && !sort_le_exec(&rows[p - 1], &rows[i], key, reverse)
            invariant
                0 <= p <= i < rows@.len(),
                rows@ == before,
                leq == sort_leq(key, reverse),
                forall|k: int| p <= k < i ==> !leq(before[k], before[i as int]),
            decreases p,
        {
            p = p - 1;
        }
        let x = rows.remove(i);
        rows.insert(p, x);
        proof {
            let s2 = rows@;
            let ip = i as int;
            let pp = p as int;
            assert(forall|m: int| 0 <= m < pp ==> s2[m] == before[m]);
            assert(s2[pp] == before[ip]);
            assert(forall|m: int| pp < m <= ip ==> s2[m] == before[m - 1]);
            // the prefix that was already sorted, spelled out pairwise
            let sub = before.subrange(0, ip);
            assert forall|k1: int, k2: int| 0 <= k1 < k2 < ip implies leq(before[k1], before[k2]) by {
                assert(sub[k1] == before[k1]);
                assert(sub[k2] == before[k2]);
                assert(leq(sub[k1], sub[k2]));
            }
            // everything before the insertion point sorts at or below the
            // inserted row
            assert forall|k: int| 0 <= k < pp implies leq(s2[k], before[ip]) by {
                assert(leq(before[pp - 1], before[ip]));
                if k < pp - 1 {
                    assert(leq(before[k], before[pp - 1]));
                    lemma_sort_le_trans(before[k], before[pp - 1], before[ip], key, reverse);
                }
            }
            // every row the inserted one moved past sorts at or above it
            assert forall|k: int| pp <= k < ip implies leq(before[ip], before[k]) by {
                lemma_sort_le_total(before[ip], before[k], key, reverse);
            }
            assert forall|m1: int, m2: int| 0 <= m1 < m2 <= ip implies leq(s2[m1], s2[m2]) by {
                if m1 < pp && m2 < pp {
                    assert(leq(before[m1], before[m2]));
                } else if m2 == pp {
                    assert(leq(s2[m1], before[ip]));
                } else if m1 == pp {
                    assert(leq(before[ip], before[m2 - 1]));
                } else if m1 < pp {
                    assert(leq(before[m1], before[m2 - 1]));
                } else {
                    assert(leq(before[m1 - 1], before[m2 - 1]));
                }
            }
            assert(sorted_by(s2.subrange(0, ip + 1), leq));
            // the multiset is untouched: one row came out and went back in
            assert(before.remove(ip).insert(pp, before[ip]) == s2);
            assert(s2.to_multiset() == orig.to_multiset());
            // and no tie class changed its order
            lemma_insert_step_keeps_ties(before, pp, ip, key, reverse);
            assert forall|x: ProcessInfo| #[trigger] s2.filter(tie_pred(x, key)) == orig.filter(
                tie_pred(x, key),
            ) by {
                assert(s2.filter(tie_pred(x, key)) == before.filter(tie_pred(x, key)));
            }
        }
        i = i + 1;
    }
    proof {
        assert(rows@.subrange(0, rows@.len() as int) =~= rows@);
    }
}

/// Rows whose field for the sort key is absent sort as lowest for that key,
/// whatever the direction: in ascending order every such row stands before
/// every row whose field is present, and in descending order after it.
pub proof fn lemma_absent_sorts_lowest(
    s: Seq<ProcessInfo>,
    key: ProcessName,
    reverse: bool,
    i: int,
    j: int,
)
    requires
        sorted_by(s, sort_leq(key, reverse)),
        0 <= i < j < s.len(),
    ensures
        !reverse && key_absent(s[j], key) ==> key_absent(s[i], key),
        reverse && key_absent(s[i], key) ==> key_absent(s[j], key),
{
    assert(sort_leq(key, reverse)(s[i], s[j]));
}

/// No two rows of the sequence tie on the sort key.
pub open spec fn no_key_ties(s: Seq<ProcessInfo>, key: ProcessName) -> bool {
    forall|i: int, j: int|
        0 <= i < j < s.len() ==> !(row_le(s[i], s[j], key) && row_le(s[j], s[i], key))
}

proof fn lemma_reverse_sorted(s: Seq<ProcessInfo>, key: ProcessName, reverse: bool)
    requires
        sorted_by(s, sort_leq(key, reverse)),
    ensures
        sorted_by(s.reverse(), sort_leq(key, !reverse)),
{
    let r = s.reverse();
    assert forall|i: int, j: int| 0 <= i < j < r.len() implies sort_leq(key, !reverse)(
        r[i],
        r[j],
    ) by {
        let i2 = s.len() - 1 - j;
        let j2 = s.len() - 1 - i;
        assert(sort_leq(key, reverse)(s[i2], s[j2]));
    }
}

pub(crate) proof fn lemma_count_two_indices(s: Seq<ProcessInfo>, x: ProcessInfo)
    requires
        s.to_multiset().count(x) >= 2,
    ensures
        exists|i: int, j: int| 0 <= i < j < s.len() && s[i] == x && s[j] == x,
{
    broadcast use vstd::seq_lib::group_to_multiset_ensures;
    broadcast use vstd::multiset::group_multiset_axioms;

    assert(s.contains(x));
    let i = choose|i: int| 0 <= i < s.len() && s[i] == x;
    let s1 = s.remove(i);
    assert(s1.to_multiset() == s.to_multiset().remove(x));
    assert(s1.to_multiset().count(x) >= 1);
    assert(s1.contains(x));
    let j0 = choose|j: int| 0 <= j < s1.len() && s1[j] == x;
    if j0 < i {
        assert(s[j0] == x && s[i] == x);
    } else {
        assert(s[j0 + 1] == x && s[i] == x);
    }
}

proof fn lemma_no_key_ties_permutation(a: Seq<ProcessInfo>, b: Seq<ProcessInfo>, key: ProcessName)
    requires
        a.to_multiset() == b.to_multiset(),
        no_key_ties(a, key),
    ensures
        no_key_ties(b, key),
{
    broadcast use vstd::seq_lib::group_to_multiset_ensures;
    broadcast use vstd::multiset::group_multiset_axioms;

    assert forall|i: int, j: int| 0 <= i < j < b.len() implies !(row_le(b[i], b[j], key)
        && row_le(b[j], b[i], key)) by {
        if row_le(b[i], b[j], key) && row_le(b[j], b[i], key) {
            if b[i] == b[j] {
                let b1 = b.remove(j);
                assert(b1[i] == b[i]);
                assert(b1.contains(b[i]));
                assert(b1.to_multiset() == b.to_multiset().remove(b[j]));
                assert(b1.to_multiset().count(b[i]) > 0);
                assert(b.to_multiset().remove(b[j]).count(b[i]) == b.to_multiset().count(b[i])
                    - 1);
                assert(b.to_multiset().count(b[i]) >= 2);
                assert(a.to_multiset().count(b[i]) >= 2);
                lemma_count_two_indices(a, b[i]);
                let (m, n): (int, int) = choose|m: int, n: int|
                    0 <= m < n < a.len() && a[m] == b[i] && a[n] == b[i];
                assert(!(row_le(a[m], a[n], key) && row_le(a[n], a[m], key)));
            } else {
                assert(b.contains(b[i]));
                assert(b.contains(b[j]));
                assert(b.to_multiset().count(b[i]) > 0);
                assert(b.to_multiset().count(b[j]) > 0);
                assert(a.to_multiset().count(b[i]) > 0);
                assert(a.to_multiset().count(b[j]) > 0);
                assert(a.contains(b[i]));
                assert(a.contains(b[j]));
                let m = choose|m: int| 0 <= m < a.len() && a[m] == b[i];
                let n = choose|n: int| 0 <= n < a.len() && a[n] == b[j];
                if m < n {
                    assert(!(row_le(a[m], a[n], key) && row_le(a[n], a[m], key)));
                } else {
                    assert(!(row_le(a[n], a[m], key) && row_le(a[m], a[n], key)));
                }
            }
        }
    }
}

proof fn lemma_sorted_no_ties_unique(
    a: Seq<ProcessInfo>,
    b: Seq<ProcessInfo>,
    key: ProcessName,
    reverse: bool,
)
    requires
        sorted_by(a, sort_leq(key, reverse)),
        sorted_by(b, sort_leq(key, reverse)),
        a.to_multiset() == b.to_multiset(),
        no_key_ties(a, key),
    ensures
        a == b,
    decreases a.len(),
{
    broadcast use vstd::seq_lib::group_to_multiset_ensures;
    broadcast use vstd::multiset::group_multiset_axioms;

    assert(a.to_multiset().len() == a.len());
    assert(b.to_multiset().len() == b.len());
    if a.len() == 0 {
        assert(a =~= b);
    } else {
        assert(b.contains(b[0]));
        assert(b.to_multiset().count(b[0]) > 0);
        assert(a.to_multiset().count(b[0]) > 0);
        assert(a.contains(b[0]));
        let m = choose|m: int| 0 <= m < a.len() && a[m] == b[0];
        assert(a.contains(a[0]));
        assert(a.to_multiset().count(a[0]) > 0);
        assert(b.to_multiset().count(a[0]) > 0);
        assert(b.contains(a[0]));
        let k = choose|k: int| 0 <= k < b.len() && b[k] == a[0];
        if a[0] != b[0] {
            assert(m != 0 && k != 0);
            assert(sort_leq(key, reverse)(a[0], a[m]));
            assert(sort_leq(key, reverse)(b[0], b[k]));
            assert(row_le(a[0], a[m], key) && row_le(a[m], a[0], key));
            assert(false);
        }
        let a1 = a.drop_first();
        let b1 = b.drop_first();
        assert(a1 =~= a.remove(0));
        assert(b1 =~= b.remove(0));
        assert(a1.to_multiset() == a.to_multiset().remove(a[0]));
        assert(b1.to_multiset() == b.to_multiset().remove(b[0]));
        assert forall|i: int, j: int| 0 <= i < j < a1.len() implies sort_leq(key, reverse)(
            a1[i],
            a1[j],
        ) by {
            assert(sort_leq(key, reverse)(a[i + 1], a[j + 1]));
        }
        assert forall|i: int, j: int| 0 <= i < j < b1.len() implies sort_leq(key, reverse)(
            b1[i],
            b1[j],
        ) by {
            assert(sort_leq(key, reverse)(b[i + 1], b[j + 1]));
        }
        assert forall|i: int, j: int| 0 <= i < j < a1.len() implies !(row_le(a1[i], a1[j], key)
            && row_le(a1[j], a1[i], key)) by {
            assert(!(row_le(a[i + 1], a[j + 1], key) && row_le(a[j + 1], a[i + 1], key)));
        }
        lemma_sorted_no_ties_unique(a1, b1, key, reverse);
        assert forall|i: int| 0 <= i < a.len() implies a[i] == b[i] by {
            if i > 0 {
                assert(a1[i - 1] == a[i]);
                assert(b1[i - 1] == b[i]);
            }
        }
        assert(a =~= b);
    }
}

/// Sorting ascending and then reversing the result gives exactly the rows
/// in descending order, provided no two rows tie on the sort key: `asc` and
/// `desc` are any orderings of the same rows that are sorted ascending and
/// descending by the key respectively.
pub proof fn lemma_reverse_of_ascending_is_descending(
    rows: Seq<ProcessInfo>,
    asc: Seq<ProcessInfo>,
    desc: Seq<ProcessInfo>,
    key: ProcessName,
)
    requires
        sorted_by(asc, sort_leq(key, false)),
        asc.to_multiset() == rows.to_multiset(),
        sorted_by(desc, sort_leq(key, true)),
        desc.to_multiset() == rows.to_multiset(),
        no_key_ties(rows, key),
    ensures
        asc.reverse() == desc,
{
    lemma_reverse_sorted(asc, key, false);
    asc.lemma_reverse_to_multiset();
    lemma_no_key_ties_permutation(rows, asc, key);
    lemma_no_key_ties_permutation(asc, asc.reverse(), key);
    lemma_sorted_no_ties_unique(asc.reverse(), desc, key, true);
}

} // verus!

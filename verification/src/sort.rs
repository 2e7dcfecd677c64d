//! Stable sorting of the job list by the selected column.
//!
//! The sort is specified as a recursive insertion sort, `sort_stable`, and
//! the executable sort is proved to return exactly that sequence.  Stability
//! is stated through `Seq::filter`: restricting input and output to any
//! equivalence class of the key yields the same sequence, so jobs with equal
//! keys keep their relative order.

use vstd::prelude::*;
use vstd::seq_lib::group_to_multiset_ensures;

use crate::app::{ColumnField, Torrent};
use crate::conversion::{
    lemma_str_le_total, lemma_str_le_trans, str_le,
};

verus! {

// ---------------------------------------------------------------------------
// The sort, as a specification
// ---------------------------------------------------------------------------

/// `x` inserted into `s` after every element that sorts no later than `x`.
pub open spec fn insert_sorted<A>(s: Seq<A>, x: A, leq: spec_fn(A, A) -> bool) -> Seq<A>
    decreases s.len(),
{
    if s.len() == 0 {
        seq![x]
    } else if leq(s.last(), x) {
        s.push(x)
    } else {
        insert_sorted(s.drop_last(), x, leq).push(s.last())
    }
}

/// Insertion sort: stable, since each element is inserted after its equals.
pub open spec fn sort_stable<A>(s: Seq<A>, leq: spec_fn(A, A) -> bool) -> Seq<A>
    decreases s.len(),
{
    if s.len() == 0 {
        Seq::empty()
    } else {
        insert_sorted(sort_stable(s.drop_last(), leq), s.last(), leq)
    }
}

/// Every element sorts no later than every element after it.
pub open spec fn sorted_by_le<A>(s: Seq<A>, leq: spec_fn(A, A) -> bool) -> bool {
    forall|i: int, j: int| 0 <= i < j < s.len() ==> #[trigger] leq(s[i], s[j])
}

/// `leq` relates any two values, one way or the other.
pub open spec fn total_le<A>(leq: spec_fn(A, A) -> bool) -> bool {
    forall|a: A, b: A| #[trigger] leq(a, b) || #[trigger] leq(b, a)
}

/// `leq` is transitive.
pub open spec fn trans_le<A>(leq: spec_fn(A, A) -> bool) -> bool {
    forall|a: A, b: A, c: A| #[trigger] leq(a, b) && #[trigger] leq(b, c) ==> leq(a, c)
}

// ---------------------------------------------------------------------------
// Permutation and sortedness
// ---------------------------------------------------------------------------

pub proof fn lemma_insert_sorted_multiset<A>(s: Seq<A>, x: A, leq: spec_fn(A, A) -> bool)
    ensures
        insert_sorted(s, x, leq).to_multiset() == s.to_multiset().insert(x),
        insert_sorted(s, x, leq).len() == s.len() + 1,
    decreases s.len(),
{
    broadcast use group_to_multiset_ensures;

    if s.len() == 0 {
        assert(seq![x] =~= Seq::<A>::empty().push(x));
        assert(Seq::<A>::empty().push(x).to_multiset() =~= s.to_multiset().insert(x));
    } else if leq(s.last(), x) {
    } else {
        lemma_insert_sorted_multiset(s.drop_last(), x, leq);
        assert(s.drop_last().push(s.last()) =~= s);
        assert(insert_sorted(s.drop_last(), x, leq).push(s.last()).to_multiset()
            =~= insert_sorted(s.drop_last(), x, leq).to_multiset().insert(s.last()));
        assert(insert_sorted(s, x, leq).to_multiset()
            =~= s.drop_last().to_multiset().insert(x).insert(s.last()));
        assert(s.drop_last().to_multiset().insert(s.last()) =~= s.to_multiset());
        assert(s.drop_last().to_multiset().insert(x).insert(s.last())
            =~= s.to_multiset().insert(x));
    }
}

/// Sorting permutes: the output holds exactly the input's elements.
pub proof fn lemma_sort_stable_multiset<A>(s: Seq<A>, leq: spec_fn(A, A) -> bool)
    ensures
        sort_stable(s, leq).to_multiset() == s.to_multiset(),
        sort_stable(s, leq).len() == s.len(),
    decreases s.len(),
{
    broadcast use group_to_multiset_ensures;

    if s.len() > 0 {
        lemma_sort_stable_multiset(s.drop_last(), leq);
        lemma_insert_sorted_multiset(sort_stable(s.drop_last(), leq), s.last(), leq);
        assert(s.drop_last().push(s.last()) =~= s);
        assert(s.drop_last().push(s.last()).to_multiset()
            =~= s.drop_last().to_multiset().insert(s.last()));
    }
}

pub proof fn lemma_insert_sorted_sorted<A>(s: Seq<A>, x: A, leq: spec_fn(A, A) -> bool)
    requires
        sorted_by_le(s, leq),
        total_le(leq),
        trans_le(leq),
    ensures
        sorted_by_le(insert_sorted(s, x, leq), leq),
    decreases s.len(),
{
    let out = insert_sorted(s, x, leq);
    if s.len() == 0 {
    } else if leq(s.last(), x) {
        // Every element of s sorts no later than s.last(), hence than x.
        assert forall|i: int, j: int| 0 <= i < j < out.len() implies #[trigger] leq(out[i], out[j]) by {
            if j == out.len() - 1 && i < s.len() {
                if i < s.len() - 1 {
                    assert(leq(s[i], s.last()));
                }
            }
        }
    } else {
        lemma_insert_sorted_sorted(s.drop_last(), x, leq);
        let inner = insert_sorted(s.drop_last(), x, leq);
        lemma_insert_sorted_multiset(s.drop_last(), x, leq);
        // Every element of inner is either x or an element of s.drop_last();
        // both sort no later than s.last().
        assert(leq(x, s.last()));
        assert forall|i: int, j: int| 0 <= i < j < out.len() implies #[trigger] leq(out[i], out[j]) by {
            if j == out.len() - 1 {
                broadcast use group_to_multiset_ensures;

                assert(inner.to_multiset().count(inner[i]) > 0);
                if inner[i] == x {
                    assert(leq(out[i], s.last()));
                } else {
                    assert(s.drop_last().to_multiset().count(inner[i]) > 0);
                    let k = choose|k: int| 0 <= k < s.drop_last().len()
                        && s.drop_last()[k] == inner[i];
                    assert(s[k] == inner[i]);
                    assert(leq(s[k], s.last()));
                }
            }
        }
    }
}

/// Sorting sorts: the output is ordered by `leq`.
pub proof fn lemma_sort_stable_sorted<A>(s: Seq<A>, leq: spec_fn(A, A) -> bool)
    requires
        total_le(leq),
        trans_le(leq),
    ensures
        sorted_by_le(sort_stable(s, leq), leq),
    decreases s.len(),
{
    if s.len() > 0 {
        lemma_sort_stable_sorted(s.drop_last(), leq);
        lemma_insert_sorted_sorted(sort_stable(s.drop_last(), leq), s.last(), leq);
    }
}

// ---------------------------------------------------------------------------
// Stability
// ---------------------------------------------------------------------------

/// `filter` over a push appends the element when it satisfies the predicate.
pub proof fn lemma_filter_push<A>(s: Seq<A>, x: A, pred: spec_fn(A) -> bool)
    ensures
        s.push(x).filter(pred) == if pred(x) {
            s.filter(pred).push(x)
        } else {
            s.filter(pred)
        },
{
    reveal(Seq::filter);
    assert(s.push(x).drop_last() =~= s);
    assert(s.push(x).last() == x);
}

/// All members of a key-equivalence class sort no later than one another.
pub open spec fn class_of<A>(pred: spec_fn(A) -> bool, leq: spec_fn(A, A) -> bool) -> bool {
    forall|a: A, b: A| #[trigger] pred(a) && #[trigger] pred(b) ==> leq(a, b)
}

proof fn lemma_insert_sorted_filter<A>(
    s: Seq<A>,
    x: A,
    leq: spec_fn(A, A) -> bool,
    pred: spec_fn(A) -> bool,
)
    requires
        class_of(pred, leq),
    ensures
        insert_sorted(s, x, leq).filter(pred) == if pred(x) {
            s.filter(pred).push(x)
        } else {
            s.filter(pred)
        },
    decreases s.len(),
{
    reveal(Seq::filter);
    if s.len() == 0 {
        assert(seq![x] =~= Seq::<A>::empty().push(x));
        lemma_filter_push(Seq::<A>::empty(), x, pred);
        assert(Seq::<A>::empty().filter(pred) =~= Seq::<A>::empty());
    } else if leq(s.last(), x) {
        lemma_filter_push(s, x, pred);
    } else {
        let inner = insert_sorted(s.drop_last(), x, leq);
        lemma_insert_sorted_filter(s.drop_last(), x, leq, pred);
        lemma_filter_push(inner, s.last(), pred);
        // pred cannot hold of both x and s.last(): that would force
        // leq(s.last(), x), against this branch.
        if pred(x) && pred(s.last()) {
            assert(leq(s.last(), x));
        }
        assert(s.filter(pred) == if pred(s.last()) {
            s.drop_last().filter(pred).push(s.last())
        } else {
            s.drop_last().filter(pred)
        });
    }
}

/// Stability: restricted to any equivalence class of the key, the sorted
/// sequence is the input sequence.  Two jobs with equal keys therefore keep
/// their relative order.
pub proof fn lemma_sort_stable_stability<A>(
    s: Seq<A>,
    leq: spec_fn(A, A) -> bool,
    pred: spec_fn(A) -> bool,
)
    requires
        class_of(pred, leq),
    ensures
        sort_stable(s, leq).filter(pred) == s.filter(pred),
    decreases s.len(),
{
    reveal(Seq::filter);
    if s.len() > 0 {
        lemma_sort_stable_stability(s.drop_last(), leq, pred);
        lemma_insert_sorted_filter(sort_stable(s.drop_last(), leq), s.last(), leq, pred);
    }
}

/// `filter` commutes with `reverse`: reversing the output reverses the
/// order of every equivalence class but changes no class's membership.
pub proof fn lemma_filter_reverse<A>(s: Seq<A>, pred: spec_fn(A) -> bool)
    ensures
        s.reverse().filter(pred) == s.filter(pred).reverse(),
    decreases s.len(),
{
    reveal(Seq::filter);
    broadcast use Seq::filter_distributes_over_add;

    if s.len() == 0 {
        assert(s.reverse() =~= s);
        assert(s.filter(pred) =~= Seq::<A>::empty());
        assert(Seq::<A>::empty().reverse() =~= Seq::<A>::empty());
    } else {
        let t = s.drop_last();
        let x = s.last();
        lemma_filter_reverse(t, pred);
        assert(s.reverse() =~= seq![x] + t.reverse());
        assert((seq![x] + t.reverse()).filter(pred)
            == seq![x].filter(pred) + t.reverse().filter(pred));
        assert(seq![x] =~= Seq::<A>::empty().push(x));
        lemma_filter_push(Seq::<A>::empty(), x, pred);
        assert(Seq::<A>::empty().filter(pred) =~= Seq::<A>::empty());
        lemma_filter_push(t, x, pred);
        assert(s.filter(pred) == t.filter(pred).push(x) || s.filter(pred) == t.filter(pred));
        if pred(x) {
            assert(seq![x].filter(pred) =~= seq![x]);
            assert(t.filter(pred).push(x).reverse() =~= seq![x] + t.filter(pred).reverse());
        } else {
            assert(seq![x].filter(pred) =~= Seq::<A>::empty());
            assert(Seq::<A>::empty() + t.reverse().filter(pred) =~= t.reverse().filter(pred));
        }
    }
}

// ---------------------------------------------------------------------------
// The job key order
// ---------------------------------------------------------------------------

/// `a` sorts no later than `b` under the given sort key.  Numeric fields
/// compare numerically, the name by code point.
pub open spec fn key_le(key: ColumnField, a: Torrent, b: Torrent) -> bool {
    match key {
        ColumnField::Name => str_le(a.name@, b.name@),
        ColumnField::Status => a.status <= b.status,
        ColumnField::Id => a.id <= b.id,
        ColumnField::Progress => a.percent_done <= b.percent_done,
        ColumnField::Eta => a.eta <= b.eta,
        ColumnField::DownloadRate => a.rate_download <= b.rate_download,
        ColumnField::UploadRate => a.rate_upload <= b.rate_upload,
        ColumnField::UploadRatio => a.upload_ratio <= b.upload_ratio,
        ColumnField::DoneDate => a.done_date <= b.done_date,
        ColumnField::AddedDate => a.added_date <= b.added_date,
    }
}

/// The key order as a binary relation value, for `sort_stable`.
pub open spec fn job_leq(key: ColumnField) -> spec_fn(Torrent, Torrent) -> bool {
    |a: Torrent, b: Torrent| key_le(key, a, b)
}

/// The key order is a total preorder, for every key.
pub proof fn lemma_job_leq_total_preorder(key: ColumnField)
    ensures
        total_le(job_leq(key)),
        trans_le(job_leq(key)),
{
    let leq = job_leq(key);
    assert forall|a: Torrent, b: Torrent| #[trigger] leq(a, b) || #[trigger] leq(b, a) by {
        if key is Name {
            lemma_str_le_total(a.name@, b.name@);
        }
    }
    assert forall|a: Torrent, b: Torrent, c: Torrent|
        #[trigger] leq(a, b) && #[trigger] leq(b, c) implies leq(a, c) by {
        if key is Name {
            lemma_str_le_trans(a.name@, b.name@, c.name@);
        }
    }
}

/// Two jobs agree on the sort key.
pub open spec fn key_eq(key: ColumnField, a: Torrent, b: Torrent) -> bool {
    key_le(key, a, b) && key_le(key, b, a)
}

/// Stability for the job sort: the jobs whose key equals any pivot's key
/// come out in exactly their input order.
pub proof fn lemma_sort_jobs_stable(key: ColumnField, jobs: Seq<Torrent>, pivot: Torrent)
    ensures
        sort_stable(jobs, job_leq(key)).filter(|t: Torrent| key_eq(key, t, pivot))
            == jobs.filter(|t: Torrent| key_eq(key, t, pivot)),
{
    let leq = job_leq(key);
    let pred = |t: Torrent| key_eq(key, t, pivot);
    lemma_job_leq_total_preorder(key);
    assert forall|a: Torrent, b: Torrent| #[trigger] pred(a) && #[trigger] pred(b)
        implies leq(a, b) by {
        assert(leq(a, pivot) && leq(pivot, b));
    }
    lemma_sort_stable_stability(jobs, leq, pred);
}

/// The sorted job list is ordered by the chosen key: every job sorts no
/// later than every job after it.
pub proof fn lemma_sort_jobs_sorted(key: ColumnField, jobs: Seq<Torrent>)
    ensures
        sorted_by_le(sort_stable(jobs, job_leq(key)), job_leq(key)),
{
    lemma_job_leq_total_preorder(key);
    lemma_sort_stable_sorted(jobs, job_leq(key));
}

/// Reversing the direction reverses the whole sorted sequence, and no
/// key-equivalence class gains or loses a member: each class comes out as
/// exactly its input sequence, reversed.
pub proof fn lemma_sort_jobs_reversed(key: ColumnField, jobs: Seq<Torrent>, pivot: Torrent)
    ensures
        sort_stable(jobs, job_leq(key)).reverse().filter(|t: Torrent| key_eq(key, t, pivot))
            == jobs.filter(|t: Torrent| key_eq(key, t, pivot)).reverse(),
{
    let pred = |t: Torrent| key_eq(key, t, pivot);
    lemma_sort_jobs_stable(key, jobs, pivot);
    lemma_filter_reverse(sort_stable(jobs, job_leq(key)), pred);
}

// ---------------------------------------------------------------------------
// The executable sort
// ---------------------------------------------------------------------------

/// `a` sorts no later than `b` under `key`.
pub fn job_le(key: ColumnField, a: &Torrent, b: &Torrent) -> (r: bool)
    ensures
        r == key_le(key, *a, *b),
{
    match key {
        ColumnField::Name => {
            let c = crate::conversion::compare_string(&a.name, &b.name);
            !matches!(c, core::cmp::Ordering::Greater)
        },
        ColumnField::Status => a.status <= b.status,
        ColumnField::Id => a.id <= b.id,
        ColumnField::Progress => a.percent_done <= b.percent_done,
        ColumnField::Eta => a.eta <= b.eta,
        ColumnField::DownloadRate => a.rate_download <= b.rate_download,
        ColumnField::UploadRate => a.rate_upload <= b.rate_upload,
        ColumnField::UploadRatio => a.upload_ratio <= b.upload_ratio,
        ColumnField::DoneDate => a.done_date <= b.done_date,
        ColumnField::AddedDate => a.added_date <= b.added_date,
    }
}

/// Where `insert_sorted` puts the element, given a position `j` with only
/// later-sorting elements to its right and none to its left boundary.
pub proof fn lemma_insert_sorted_at<A>(s: Seq<A>, x: A, leq: spec_fn(A, A) -> bool, j: int)
    requires
        0 <= j <= s.len(),
        forall|k: int| j <= k < s.len() ==> !#[trigger] leq(s[k], x),
        j > 0 ==> leq(s[j - 1], x),
    ensures
        insert_sorted(s, x, leq) == s.subrange(0, j).push(x) + s.subrange(j, s.len() as int),
    decreases s.len(),
{
    if j == s.len() {
        if s.len() == 0 {
            assert(insert_sorted(s, x, leq) =~= s.subrange(0, j).push(x)
                + s.subrange(j, s.len() as int));
        } else {
            assert(leq(s.last(), x));
            assert(insert_sorted(s, x, leq) == s.push(x));
            assert(s.push(x) =~= s.subrange(0, j).push(x) + s.subrange(j, s.len() as int));
        }
    } else {
        assert(!leq(s.last(), x));
        lemma_insert_sorted_at(s.drop_last(), x, leq, j);
        assert(s.drop_last().subrange(0, j) =~= s.subrange(0, j));
        assert(s.drop_last().subrange(j, s.len() - 1) =~= s.subrange(j, s.len() - 1));
        assert((s.subrange(0, j).push(x) + s.subrange(j, s.len() - 1)).push(s.last())
            =~= s.subrange(0, j).push(x) + s.subrange(j, s.len() as int));
    }
}

/// Sort the jobs by `key`, ascending, stably; a cleared direction flag
/// reverses the whole sorted sequence afterwards.
pub fn sort_torrents(torrents: Vec<Torrent>, key: ColumnField, descending: bool) -> (r: Vec<
    Torrent,
>)
    ensures
        descending ==> r@ == sort_stable(torrents@, job_leq(key)),
        !descending ==> r@ == sort_stable(torrents@, job_leq(key)).reverse(),
{
    let ghost orig = torrents@;
    let ghost leq = job_leq(key);
    let mut v = torrents;
    let mut i: usize = 1;
    proof {
        assert(forall|a: Torrent, b: Torrent| #[trigger] leq(a, b) == key_le(key, a, b));
        if orig.len() > 0 {
            let s1 = orig.subrange(0, 1);
            assert(s1.drop_last() =~= Seq::<Torrent>::empty());
            assert(sort_stable(Seq::<Torrent>::empty(), leq) == Seq::<Torrent>::empty());
            assert(insert_sorted(Seq::<Torrent>::empty(), s1.last(), leq) == seq![s1.last()]);
            assert(s1 =~= seq![s1.last()]);
            assert(s1 == sort_stable(s1, leq));
        }
    }
    while i < v.len()
        invariant
            1 <= i,
            v.len() == 0 || i <= v.len(),
            v.len() == orig.len(),
            leq == job_leq(key),
            v@.subrange(i as int, orig.len() as int)
                == orig.subrange(i as int, orig.len() as int),
            v.len() > 0 ==> v@.subrange(0, i as int)
                == sort_stable(orig.subrange(0, i as int), leq),
        decreases v.len() - i,
    {
        let ghost before = v@;
        let ghost prefix = v@.subrange(0, i as int);
        let ghost tail = orig.subrange(i + 1, orig.len() as int);
        proof {
            assert(before[i as int] == before.subrange(i as int, orig.len() as int)[0]);
        }
        let x = v.remove(i);
        proof {
            assert(x == orig[i as int]);
            assert forall|m: int| 0 <= m < v@.len() implies v@[m] == (prefix + tail)[m] by {
                if m < i {
                    assert(before[m] == before.subrange(0, i as int)[m]);
                } else {
                    assert(before[m + 1]
                        == before.subrange(i as int, orig.len() as int)[m + 1 - i]);
                }
            }
            assert(v@ =~= prefix + tail);
        }
        let mut j: usize = i;
        while j > 0 && !job_le(key, &v[j - 1], &x)
            invariant
                j <= i,
                i <= v.len(),
                leq == job_leq(key),
                v@ == prefix + tail,
                prefix.len() == i,
                forall|k: int| j <= k < i ==> !#[trigger] leq(prefix[k], x),
            decreases j,
        {
            proof {
                assert(v@[j - 1] == prefix[j - 1]);
                assert(leq(prefix[j - 1], x) == key_le(key, prefix[j - 1], x));
            }
            j = j - 1;
        }
        proof {
            if j > 0 {
                assert(v@[j - 1] == prefix[j - 1]);
                assert(leq(prefix[j - 1], x) == key_le(key, prefix[j - 1], x));
                assert(leq(prefix[j - 1], x));
            }
            lemma_insert_sorted_at(prefix, x, leq, j as int);
        }
        v.insert(j, x);
        proof {
            let mid = prefix + tail;
            assert(v@ == mid.insert(j as int, x));
            let inserted = prefix.subrange(0, j as int).push(x)
                + prefix.subrange(j as int, prefix.len() as int);
            assert(v@ =~= inserted + tail);
            let newprefix = v@.subrange(0, i + 1);
            assert(newprefix =~= inserted);
            assert(newprefix == insert_sorted(prefix, x, leq));
            assert(orig.subrange(0, i + 1).drop_last() =~= orig.subrange(0, i as int));
            assert(orig.subrange(0, i + 1).last() == x);
            assert(newprefix == sort_stable(orig.subrange(0, i + 1), leq));
            assert(v@.subrange(i + 1, orig.len() as int) =~= tail);
        }
        i = i + 1;
    }
    proof {
        if v.len() == 0 {
            assert(orig =~= Seq::<Torrent>::empty());
            assert(sort_stable(orig, leq) == Seq::<Torrent>::empty());
            assert(v@ =~= Seq::<Torrent>::empty());
        } else {
            assert(v@ =~= v@.subrange(0, orig.len() as int));
            assert(orig.subrange(0, orig.len() as int) =~= orig);
        }
    }
    if descending {
        return v;
    }
    let ghost sorted = v@;
    let mut rev: Vec<Torrent> = Vec::new();
    while v.len() > 0
        invariant
            v@ == sorted.subrange(0, v@.len() as int),
            rev@.len() + v@.len() == sorted.len(),
            forall|m: int| 0 <= m < rev@.len()
                ==> rev@[m] == sorted[sorted.len() - 1 - m],
        decreases v.len(),
    {
        let x = v.pop().unwrap();
        proof {
            assert(x == sorted[v@.len() as int]);
            assert(v@ =~= sorted.subrange(0, v@.len() as int));
        }
        rev.push(x);
    }
    proof {
        assert(rev@ =~= sorted.reverse());
    }
    rev
}

} // verus!

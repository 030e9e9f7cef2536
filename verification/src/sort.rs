//! Stable, deterministic ordering by transliteration key.
//!
//! Listings are sorted by the key of [`crate::utils::get_pin_yin`],
//! in code-point lexicographic order. The sort is given a full
//! functional specification — a stable insertion sort at the spec
//! level — so its output is pinned down exactly: sorted, a
//! permutation of the input, and the same on every run.

use vstd::prelude::*;
use vstd::multiset::Multiset;
use crate::strings::{
    spec_lex_le, spec_lex_lt, str_lex_lt, lemma_lex_le_total, lemma_lex_le_reflexive,
    lemma_lex_le_transitive, lemma_lex_le_antisymmetric,
};
use crate::utils::{get_pin_yin, spec_pin_yin};

verus! {

/// A value that is ordered by a transliteration key.
pub trait SortKeyed: Sized {
    /// The key the order goes by.
    spec fn key_view(&self) -> Seq<char>;

    /// Compute the key.
    fn sort_key(&self) -> (r: String)
        ensures
            r@ == self.key_view(),
    ;
}

impl SortKeyed for String {
    open spec fn key_view(&self) -> Seq<char> {
        spec_pin_yin(self@)
    }

    fn sort_key(&self) -> (r: String)
        ensures
            r@ == self.key_view(),
    {
        get_pin_yin(self.as_str())
    }
}

/// Insert `x` into the sorted `s`, after every element whose key is
/// at or below the key of `x`: the placement that keeps a sort
/// stable.
pub open spec fn spec_insert_sorted<T: SortKeyed>(x: T, s: Seq<T>) -> Seq<T>
    decreases s.len(),
{
    if s.len() == 0 {
        seq![x]
    } else if spec_lex_lt(x.key_view(), s[0].key_view()) {
        seq![x] + s
    } else {
        seq![s[0]] + spec_insert_sorted(x, s.drop_first())
    }
}

/// The stable sort of `s` by key: each element inserted, in input
/// order, after its equals.
pub open spec fn spec_stable_sort<T: SortKeyed>(s: Seq<T>) -> Seq<T>
    decreases s.len(),
{
    if s.len() == 0 {
        s
    } else {
        spec_insert_sorted(s.last(), spec_stable_sort(s.drop_last()))
    }
}

/// The keys of `s` never descend.
pub open spec fn spec_sorted_by_key<T: SortKeyed>(s: Seq<T>) -> bool {
    forall|i: int, j: int|
        0 <= i < j < s.len() ==> spec_lex_le(#[trigger] s[i].key_view(), #[trigger] s[j].key_view())
}

/// A key not strictly above another is at or below it the other way.
pub proof fn lemma_not_lt_implies_ge(a: Seq<char>, b: Seq<char>)
    requires
        !spec_lex_lt(a, b),
    ensures
        spec_lex_le(b, a),
{
    if spec_lex_le(a, b) {
        assert(a == b);
        lemma_lex_le_reflexive(b);
    } else {
        lemma_lex_le_total(a, b);
    }
}

/// Where the insertion lands: at the first index whose key lies
/// strictly above the key of `x`.
pub proof fn lemma_insert_sorted_at<T: SortKeyed>(x: T, s: Seq<T>, p: int)
    requires
        0 <= p <= s.len(),
        forall|i: int| 0 <= i < p ==> !spec_lex_lt(x.key_view(), #[trigger] s[i].key_view()),
        p < s.len() ==> spec_lex_lt(x.key_view(), s[p].key_view()),
    ensures
        spec_insert_sorted(x, s) == s.take(p) + seq![x] + s.skip(p),
    decreases s.len(),
{
    if s.len() == 0 {
        assert(spec_insert_sorted(x, s) =~= s.take(p) + seq![x] + s.skip(p));
    } else if spec_lex_lt(x.key_view(), s[0].key_view()) {
        assert(p == 0);
        assert(spec_insert_sorted(x, s) =~= s.take(0) + seq![x] + s.skip(0));
    } else {
        assert(p >= 1);
        let t = s.drop_first();
        assert forall|i: int| 0 <= i < p - 1 implies !spec_lex_lt(
            x.key_view(),
            #[trigger] t[i].key_view(),
        ) by {
            assert(t[i] == s[i + 1]);
        }
        assert(p - 1 < t.len() ==> spec_lex_lt(x.key_view(), t[p - 1].key_view()));
        lemma_insert_sorted_at(x, t, p - 1);
        assert(seq![s[0]] + (t.take(p - 1) + seq![x] + t.skip(p - 1)) =~= s.take(p) + seq![x]
            + s.skip(p));
    }
}

/// Inserting into a sorted sequence keeps it sorted.
pub proof fn lemma_insert_sorted_keeps_sorted<T: SortKeyed>(x: T, s: Seq<T>, p: int)
    requires
        spec_sorted_by_key(s),
        0 <= p <= s.len(),
        forall|i: int| 0 <= i < p ==> !spec_lex_lt(x.key_view(), #[trigger] s[i].key_view()),
        p < s.len() ==> spec_lex_lt(x.key_view(), s[p].key_view()),
    ensures
        spec_sorted_by_key(s.take(p) + seq![x] + s.skip(p)),
{
    let r = s.take(p) + seq![x] + s.skip(p);
    assert forall|i: int, j: int| 0 <= i < j < r.len() implies spec_lex_le(
        #[trigger] r[i].key_view(),
        #[trigger] r[j].key_view(),
    ) by {
        if i < p && j < p {
            assert(r[i] == s[i] && r[j] == s[j]);
        } else if i < p && j == p {
            assert(r[i] == s[i] && r[j] == x);
            lemma_not_lt_implies_ge(x.key_view(), s[i].key_view());
        } else if i < p && j > p {
            assert(r[i] == s[i] && r[j] == s[j - 1]);
        } else if i == p && j > p {
            assert(r[i] == x && r[j] == s[j - 1]);
            if p < s.len() {
                assert(spec_lex_le(x.key_view(), s[p].key_view()));
                if j - 1 > p {
                    assert(spec_lex_le(s[p].key_view(), s[j - 1].key_view()));
                    lemma_lex_le_transitive(x.key_view(), s[p].key_view(), s[j - 1].key_view());
                }
            }
        } else {
            assert(r[i] == s[i - 1] && r[j] == s[j - 1]);
        }
    }
}

/// Sort `v` by transliteration key: the output is exactly the stable
/// sort of the input.
pub fn stable_sort_by_key<T: SortKeyed>(v: Vec<T>) -> (r: Vec<T>)
    ensures
        r@ == spec_stable_sort(v@),
        spec_sorted_by_key(r@),
{
    let ghost orig = v@;
    let mut rem = v;
    let mut out: Vec<T> = Vec::new();
    let mut keys: Vec<String> = Vec::new();
    proof {
        assert(orig.take(0) =~= Seq::<T>::empty());
        assert(out@ =~= spec_stable_sort(orig.take(0)));
    }
    while rem.len() > 0
        invariant
            rem@ == orig.skip(orig.len() - rem@.len()),
            rem@.len() <= orig.len(),
            out@ == spec_stable_sort(orig.take(orig.len() - rem@.len())),
            spec_sorted_by_key(out@),
            keys@.len() == out@.len(),
            forall|i: int| 0 <= i < keys@.len() ==> #[trigger] keys@[i]@ == out@[i].key_view(),
        decreases rem@.len(),
    {
        let ghost k: int = orig.len() - rem@.len();
        let x = rem.remove(0);
        proof {
            assert(x == orig.skip(k)[0]);
            assert(x == orig[k]);
            assert(rem@ =~= orig.skip(k + 1));
        }
        let xk = x.sort_key();
        let p = find_insert_pos(xk.as_str(), &keys);
        proof {
            assert forall|i: int| 0 <= i < p implies !spec_lex_lt(
                x.key_view(),
                #[trigger] out@[i].key_view(),
            ) by {
                assert(keys@[i]@ == out@[i].key_view());
            }
            assert(p < out@.len() ==> spec_lex_lt(x.key_view(), out@[p as int].key_view()));
            lemma_insert_sorted_at(x, out@, p as int);
            lemma_insert_sorted_keeps_sorted(x, out@, p as int);
        }
        let ghost out_before = out@;
        let ghost keys_before = keys@;
        out.insert(p, x);
        keys.insert(p, xk);
        proof {
            assert(out@ =~= out_before.take(p as int) + seq![x] + out_before.skip(p as int));
            assert(out@ =~= spec_insert_sorted(x, out_before));
            assert(orig.take(k + 1).drop_last() =~= orig.take(k));
            assert(orig.take(k + 1).last() == orig[k]);
            assert(out@ =~= spec_stable_sort(orig.take(k + 1)));
            assert(keys@ =~= keys_before.take(p as int) + seq![xk] + keys_before.skip(p as int));
            assert forall|i: int| 0 <= i < keys@.len() implies #[trigger] keys@[i]@
                == out@[i].key_view() by {
                if i < p {
                    assert(keys@[i] == keys_before[i]);
                    assert(out@[i] == out_before[i]);
                } else if i == p {
                    assert(keys@[i] == xk);
                    assert(out@[i] == x);
                } else {
                    assert(keys@[i] == keys_before[i - 1]);
                    assert(out@[i] == out_before[i - 1]);
                }
            }
        }
    }
    proof {
        assert(orig.take(orig.len() - 0) =~= orig);
    }
    out
}

/// The first index of `keys` whose key lies strictly above `xk`; the
/// length when none does.
fn find_insert_pos(xk: &str, keys: &Vec<String>) -> (p: usize)
    ensures
        0 <= p <= keys@.len(),
        forall|i: int| 0 <= i < p ==> !spec_lex_lt(xk@, #[trigger] keys@[i]@),
        p < keys@.len() ==> spec_lex_lt(xk@, keys@[p as int]@),
{
    let mut p: usize = 0;
    while p < keys.len()
        invariant
            0 <= p <= keys@.len(),
            forall|i: int| 0 <= i < p ==> !spec_lex_lt(xk@, #[trigger] keys@[i]@),
        decreases keys@.len() - p,
    {
        if str_lex_lt(xk, keys[p].as_str()) {
            return p;
        }
        p += 1;
    }
    p
}

/// The sorted output is a permutation of the input: inserting adds
/// exactly the inserted element.
pub proof fn lemma_insert_sorted_multiset<T: SortKeyed>(x: T, s: Seq<T>)
    ensures
        spec_insert_sorted(x, s).to_multiset() =~= s.to_multiset().insert(x),
    decreases s.len(),
{
    broadcast use vstd::seq_lib::group_to_multiset_ensures;

    if s.len() == 0 {
        assert(spec_insert_sorted(x, s) =~= Seq::<T>::empty().push(x));
        assert(Seq::<T>::empty().push(x).to_multiset() =~= Seq::<T>::empty().to_multiset().insert(
            x,
        ));
    } else if spec_lex_lt(x.key_view(), s[0].key_view()) {
        assert(spec_insert_sorted(x, s) =~= seq![x] + s);
        vstd::seq_lib::lemma_multiset_commutative(seq![x], s);
        assert(seq![x].to_multiset() =~= Multiset::<T>::empty().insert(x));
        assert((seq![x] + s).to_multiset() =~= s.to_multiset().insert(x));
    } else {
        let t = s.drop_first();
        lemma_insert_sorted_multiset(x, t);
        assert(spec_insert_sorted(x, s) =~= seq![s[0]] + spec_insert_sorted(x, t));
        vstd::seq_lib::lemma_multiset_commutative(seq![s[0]], spec_insert_sorted(x, t));
        vstd::seq_lib::lemma_multiset_commutative(seq![s[0]], t);
        assert(s =~= seq![s[0]] + t);
        assert(seq![s[0]].to_multiset() =~= Multiset::<T>::empty().insert(s[0]));
        assert((seq![s[0]] + spec_insert_sorted(x, t)).to_multiset() =~= s.to_multiset().insert(x));
    }
}

/// The stable sort is a permutation: it keeps exactly the input's
/// elements, with their multiplicities.
pub proof fn lemma_stable_sort_permutes<T: SortKeyed>(s: Seq<T>)
    ensures
        spec_stable_sort(s).to_multiset() =~= s.to_multiset(),
    decreases s.len(),
{
    broadcast use vstd::seq_lib::group_to_multiset_ensures;

    if s.len() > 0 {
        lemma_stable_sort_permutes(s.drop_last());
        lemma_insert_sorted_multiset(s.last(), spec_stable_sort(s.drop_last()));
        assert(s =~= s.drop_last().push(s.last()));
        assert(s.drop_last().push(s.last()).to_multiset() =~= s.drop_last().to_multiset().insert(
            s.last(),
        ));
    }
}

/// The stable sort sorts: its output's keys never descend.
pub proof fn lemma_stable_sort_sorted<T: SortKeyed>(s: Seq<T>)
    ensures
        spec_sorted_by_key(spec_stable_sort(s)),
    decreases s.len(),
{
    if s.len() > 0 {
        let t = spec_stable_sort(s.drop_last());
        lemma_stable_sort_sorted(s.drop_last());
        let x = s.last();
        let p = choose|p: int| is_insert_point(x, t, p);
        lemma_insert_point_exists(x, t);
        assert(is_insert_point(x, t, p));
        lemma_insert_sorted_at(x, t, p);
        lemma_insert_sorted_keeps_sorted(x, t, p);
    }
}

/// The elements whose key is `k`.
pub open spec fn spec_key_pred<T: SortKeyed>(k: Seq<char>) -> spec_fn(T) -> bool {
    |t: T| t.key_view() == k
}

/// A sequence none of whose elements match filters to nothing.
pub proof fn lemma_filter_empty_of_none<T>(s: Seq<T>, pred: spec_fn(T) -> bool)
    requires
        forall|i: int| 0 <= i < s.len() ==> !pred(#[trigger] s[i]),
    ensures
        s.filter(pred) =~= Seq::<T>::empty(),
    decreases s.len(),
{
    reveal(Seq::filter);
    if s.len() > 0 {
        assert forall|i: int| 0 <= i < s.drop_last().len() implies !pred(
            #[trigger] s.drop_last()[i],
        ) by {
            assert(s.drop_last()[i] == s[i]);
        }
        lemma_filter_empty_of_none(s.drop_last(), pred);
        assert(!pred(s[s.len() - 1]));
    }
}

/// In a sorted sequence that starts strictly above the key of `x`,
/// no element carries that key.
pub proof fn lemma_sorted_above_has_no_key<T: SortKeyed>(x: T, t: Seq<T>)
    requires
        spec_sorted_by_key(t),
        t.len() > 0,
        spec_lex_lt(x.key_view(), t[0].key_view()),
    ensures
        forall|i: int| 0 <= i < t.len() ==> (#[trigger] t[i].key_view()) != x.key_view(),
{
    assert forall|i: int| 0 <= i < t.len() implies (#[trigger] t[i].key_view())
        != x.key_view() by {
        if t[i].key_view() == x.key_view() {
            if i > 0 {
                assert(spec_lex_le(t[0].key_view(), t[i].key_view()));
                lemma_lex_le_antisymmetric(x.key_view(), t[0].key_view());
            }
        }
    }
}

/// Inserting `x` adds it at the end of its key's run and leaves every
/// other run alone.
pub proof fn lemma_insert_sorted_filter<T: SortKeyed>(x: T, t: Seq<T>, k: Seq<char>)
    requires
        spec_sorted_by_key(t),
    ensures
        spec_insert_sorted(x, t).filter(spec_key_pred(k)) == (if x.key_view() == k {
            t.filter(spec_key_pred(k)).push(x)
        } else {
            t.filter(spec_key_pred(k))
        }),
    decreases t.len(),
{
    reveal(Seq::filter);
    broadcast use vstd::seq_lib::group_filter_ensures;

    let pred = spec_key_pred::<T>(k);
    if t.len() == 0 {
        let one = seq![x];
        assert(spec_insert_sorted(x, t) =~= one);
        assert(one.drop_last() =~= Seq::<T>::empty());
        assert(one.last() == x);
        assert(one.drop_last().filter(pred) =~= Seq::<T>::empty());
        if x.key_view() == k {
            assert(one.filter(pred) =~= Seq::<T>::empty().push(x));
            assert(t.filter(pred) =~= Seq::<T>::empty());
        } else {
            assert(!pred(x));
            assert(one.filter(pred) == one.drop_last().filter(pred));
            assert(one.filter(pred) =~= Seq::<T>::empty());
        }
    } else if spec_lex_lt(x.key_view(), t[0].key_view()) {
        assert(spec_insert_sorted(x, t) =~= seq![x] + t);
        Seq::filter_distributes_over_add(seq![x], t, pred);
        assert(seq![x].drop_last() =~= Seq::<T>::empty());
        assert(seq![x].last() == x);
        if x.key_view() == k {
            lemma_sorted_above_has_no_key(x, t);
            lemma_filter_empty_of_none(t, pred);
            assert(seq![x].filter(pred) =~= Seq::<T>::empty().push(x));
            assert((seq![x] + t).filter(pred) =~= t.filter(pred).push(x));
        } else {
            assert(!pred(x));
            assert(seq![x].drop_last().filter(pred) =~= Seq::<T>::empty());
            assert(seq![x].filter(pred) == seq![x].drop_last().filter(pred));
            assert(seq![x].filter(pred) =~= Seq::<T>::empty());
            assert((seq![x] + t).filter(pred) =~= t.filter(pred));
        }
    } else {
        let t2 = t.drop_first();
        assert forall|i: int, j: int| 0 <= i < j < t2.len() implies spec_lex_le(
            #[trigger] t2[i].key_view(),
            #[trigger] t2[j].key_view(),
        ) by {
            assert(t2[i] == t[i + 1]);
            assert(t2[j] == t[j + 1]);
        }
        lemma_insert_sorted_filter(x, t2, k);
        assert(spec_insert_sorted(x, t) =~= seq![t[0]] + spec_insert_sorted(x, t2));
        assert(t =~= seq![t[0]] + t2);
        Seq::filter_distributes_over_add(seq![t[0]], spec_insert_sorted(x, t2), pred);
        Seq::filter_distributes_over_add(seq![t[0]], t2, pred);
        if x.key_view() == k {
            assert((seq![t[0]] + spec_insert_sorted(x, t2)).filter(pred) =~= seq![t[0]].filter(
                pred,
            ) + t2.filter(pred).push(x));
            assert(seq![t[0]].filter(pred) + t2.filter(pred).push(x) =~= (seq![t[0]].filter(pred)
                + t2.filter(pred)).push(x));
        }
    }
}

/// The sort is stable: the run of any key in the sorted output is
/// exactly, in order, its run in the input.
pub proof fn lemma_stable_sort_stable<T: SortKeyed>(s: Seq<T>, k: Seq<char>)
    ensures
        spec_stable_sort(s).filter(spec_key_pred(k)) == s.filter(spec_key_pred(k)),
    decreases s.len(),
{
    reveal(Seq::filter);
    let pred = spec_key_pred::<T>(k);
    if s.len() > 0 {
        let rest = s.drop_last();
        let x = s.last();
        lemma_stable_sort_stable(rest, k);
        lemma_stable_sort_sorted(rest);
        lemma_insert_sorted_filter(x, spec_stable_sort(rest), k);
        if pred(x) {
            assert(s.filter(pred) == rest.filter(pred).push(x));
        } else {
            assert(s.filter(pred) == rest.filter(pred));
        }
    }
}

/// `p` is where an insertion of `x` into `t` lands.
pub open spec fn is_insert_point<T: SortKeyed>(x: T, t: Seq<T>, p: int) -> bool {
    &&& 0 <= p <= t.len()
    &&& forall|i: int| 0 <= i < p ==> !spec_lex_lt(x.key_view(), #[trigger] t[i].key_view())
    &&& (p < t.len() ==> spec_lex_lt(x.key_view(), t[p].key_view()))
}

/// Some insertion point always exists.
pub proof fn lemma_insert_point_exists<T: SortKeyed>(x: T, t: Seq<T>)
    ensures
        exists|p: int| is_insert_point(x, t, p),
    decreases t.len(),
{
    if t.len() == 0 {
        assert(is_insert_point(x, t, 0));
    } else if spec_lex_lt(x.key_view(), t[0].key_view()) {
        assert(is_insert_point(x, t, 0));
    } else {
        let s = t.drop_first();
        lemma_insert_point_exists(x, s);
        let q = choose|q: int| is_insert_point(x, s, q);
        assert forall|i: int| 0 <= i < q + 1 implies !spec_lex_lt(
            x.key_view(),
            #[trigger] t[i].key_view(),
        ) by {
            if i > 0 {
                assert(t[i] == s[i - 1]);
            }
        }
        assert(q + 1 < t.len() ==> spec_lex_lt(x.key_view(), t[q + 1].key_view()));
        assert(is_insert_point(x, t, q + 1));
    }
}

} // verus!

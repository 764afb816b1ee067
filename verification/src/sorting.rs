//! Deterministic insertion sort used by the candidate listing and the
//! status listing. The spec-level `sort_spec` is a total function, so the
//! callers' contracts pin their output order exactly.

use vstd::prelude::*;

verus! {

use vstd::multiset::Multiset;

/// A total preorder on rows, with matching executable comparison.
pub trait RowOrd: Sized {
    /// The order relation.
    spec fn leq(self, other: Self) -> bool;

    /// The relation is total.
    proof fn leq_total(a: Self, b: Self)
        ensures
            a.leq(b) || b.leq(a),
    ;

    /// The relation is transitive.
    proof fn leq_trans(a: Self, b: Self, c: Self)
        requires
            a.leq(b),
            b.leq(c),
        ensures
            a.leq(c),
    ;

    /// Decide the relation.
    fn le(&self, other: &Self) -> (r: bool)
        ensures
            r == self.leq(*other),
    ;
}

/// Strings sort by the lexicographic order of their characters.
impl RowOrd for String {
    open spec fn leq(self, other: Self) -> bool {
        crate::text::lex_le(self@, other@)
    }

    proof fn leq_total(a: Self, b: Self) {
        crate::text::lemma_lex_le_total(a@, b@);
    }

    proof fn leq_trans(a: Self, b: Self, c: Self) {
        crate::text::lemma_lex_le_trans(a@, b@, c@);
    }

    fn le(&self, other: &Self) -> (r: bool) {
        crate::text::lex_le_str(self, other)
    }
}

/// Insert an element before the first element it precedes.
pub open spec fn insert_sorted<T: RowOrd>(x: T, s: Seq<T>) -> Seq<T>
    decreases s.len(),
{
    if s.len() == 0 {
        seq![x]
    } else if x.leq(s[0]) {
        seq![x] + s
    } else {
        seq![s[0]] + insert_sorted(x, s.drop_first())
    }
}

/// Insertion sort, folding the input left to right.
pub open spec fn sort_spec<T: RowOrd>(s: Seq<T>) -> Seq<T>
    decreases s.len(),
{
    if s.len() == 0 {
        Seq::empty()
    } else {
        insert_sorted(s.last(), sort_spec(s.drop_last()))
    }
}

/// Rows in weakly ascending order.
pub open spec fn sorted<T: RowOrd>(s: Seq<T>) -> bool {
    forall|i: int, j: int| 0 <= i < j < s.len() ==> s[i].leq(s[j])
}

pub proof fn lemma_insert_sorted_len<T: RowOrd>(x: T, s: Seq<T>)
    ensures
        insert_sorted(x, s).len() == s.len() + 1,
    decreases s.len(),
{
    if s.len() != 0 && !x.leq(s[0]) {
        lemma_insert_sorted_len(x, s.drop_first());
    }
}

/// Sorting does not change the number of rows.
pub proof fn lemma_sort_spec_len<T: RowOrd>(s: Seq<T>)
    ensures
        sort_spec(s).len() == s.len(),
    decreases s.len(),
{
    if s.len() != 0 {
        lemma_sort_spec_len(s.drop_last());
        lemma_insert_sorted_len(s.last(), sort_spec(s.drop_last()));
    }
}

pub proof fn lemma_insert_sorted_multiset<T: RowOrd>(x: T, s: Seq<T>)
    ensures
        insert_sorted(x, s).to_multiset() == s.to_multiset().insert(x),
    decreases s.len(),
{
    broadcast use vstd::seq_lib::group_to_multiset_ensures;

    if s.len() == 0 {
        assert(seq![x] =~= Seq::<T>::empty().push(x));
        assert(insert_sorted(x, s).to_multiset() =~= s.to_multiset().insert(x));
    } else if x.leq(s[0]) {
        assert(seq![x] + s =~= (seq![x]).add(s));
        vstd::seq_lib::lemma_multiset_commutative(seq![x], s);
        assert(seq![x].to_multiset() =~= Multiset::<T>::empty().insert(x));
        assert((seq![x] + s).to_multiset() =~= s.to_multiset().insert(x));
    } else {
        let rest = insert_sorted(x, s.drop_first());
        lemma_insert_sorted_multiset(x, s.drop_first());
        vstd::seq_lib::lemma_multiset_commutative(seq![s[0]], rest);
        vstd::seq_lib::lemma_multiset_commutative(seq![s[0]], s.drop_first());
        assert(seq![s[0]] + s.drop_first() =~= s);
        assert(seq![s[0]].to_multiset() =~= Multiset::<T>::empty().insert(s[0]));
        assert((seq![s[0]] + rest).to_multiset() =~= s.to_multiset().insert(x));
    }
}

/// Sorting permutes the rows: none is lost, none is invented.
pub proof fn lemma_sort_spec_multiset<T: RowOrd>(s: Seq<T>)
    ensures
        sort_spec(s).to_multiset() == s.to_multiset(),
    decreases s.len(),
{
    broadcast use vstd::seq_lib::group_to_multiset_ensures;

    if s.len() != 0 {
        lemma_sort_spec_multiset(s.drop_last());
        lemma_insert_sorted_multiset(s.last(), sort_spec(s.drop_last()));
        assert(s.drop_last().push(s.last()) =~= s);
        assert(s.drop_last().push(s.last()).to_multiset() == s.drop_last().to_multiset().insert(
            s.last(),
        ));
    }
}

pub proof fn lemma_insert_sorted_sorted<T: RowOrd>(x: T, s: Seq<T>)
    requires
        sorted(s),
    ensures
        sorted(insert_sorted(x, s)),
    decreases s.len(),
{
    if s.len() == 0 {
    } else if x.leq(s[0]) {
        let out = seq![x] + s;
        assert forall|i: int, j: int| 0 <= i < j < out.len() implies out[i].leq(out[j]) by {
            if i == 0 {
                if j == 1 {
                    assert(out[j] == s[0]);
                } else {
                    T::leq_trans(x, s[0], s[j - 1]);
                }
            }
        }
    } else {
        let t = s.drop_first();
        assert(sorted(t)) by {
            assert(forall|i: int, j: int|
                0 <= i < j < t.len() ==> t[i] == s[i + 1] && t[j] == s[j + 1]);
        }
        lemma_insert_sorted_sorted(x, t);
        let rest = insert_sorted(x, t);
        let out = seq![s[0]] + rest;
        lemma_insert_sorted_len(x, t);
        T::leq_total(x, s[0]);
        // s[0] precedes x and every element of t, hence every element of rest
        lemma_insert_sorted_multiset(x, t);
        broadcast use vstd::seq_lib::group_to_multiset_ensures;

        assert forall|i: int, j: int| 0 <= i < j < out.len() implies out[i].leq(out[j]) by {
            if i == 0 {
                let y = rest[j - 1];
                assert(rest.to_multiset().contains(y));
                assert(rest.to_multiset() == t.to_multiset().insert(x));
                if y == x {
                    assert(s[0].leq(x));
                } else {
                    assert(t.to_multiset().contains(y));
                    assert(t.contains(y));
                    let w = choose|w: int| 0 <= w < t.len() && t[w] == y;
                    assert(s[0] == s[0]);
                    assert(s[0].leq(s[w + 1]));
                }
            }
        }
    }
}

/// The sorted image is in weakly ascending order.
pub proof fn lemma_sort_spec_sorted<T: RowOrd>(s: Seq<T>)
    ensures
        sorted(sort_spec(s)),
    decreases s.len(),
{
    if s.len() != 0 {
        lemma_sort_spec_sorted(s.drop_last());
        lemma_insert_sorted_sorted(s.last(), sort_spec(s.drop_last()));
    }
}

proof fn lemma_insert_sorted_at<T: RowOrd>(x: T, s: Seq<T>, i: int)
    requires
        0 <= i <= s.len(),
        forall|j: int| 0 <= j < i ==> !x.leq(#[trigger] s[j]),
        i < s.len() ==> x.leq(s[i]),
    ensures
        insert_sorted(x, s) == s.insert(i, x),
    decreases i,
{
    if i == 0 {
        if s.len() == 0 {
            assert(insert_sorted(x, s) =~= s.insert(0, x));
        } else {
            assert(seq![x] + s =~= s.insert(0, x));
        }
    } else {
        let t = s.drop_first();
        assert(!x.leq(s[0]));
        assert(forall|j: int| 0 <= j < i - 1 ==> !x.leq(#[trigger] t[j]));
        lemma_insert_sorted_at(x, t, i - 1);
        assert(seq![s[0]] + t.insert(i - 1, x) =~= s.insert(i, x));
    }
}

/// Insert one row into an already built output.
fn insert_row<T: RowOrd>(out: &mut Vec<T>, x: T)
    ensures
        final(out)@ == insert_sorted(x, old(out)@),
{
    let ghost orig = out@;
    let mut i: usize = 0;
    while i < out.len() && !x.le(&out[i])
        invariant
            out@ == orig,
            0 <= i <= out@.len(),
            forall|j: int| 0 <= j < i ==> !x.leq(#[trigger] out@[j]),
        decreases out@.len() - i,
    {
        i = i + 1;
    }
    proof {
        lemma_insert_sorted_at(x, out@, i as int);
    }
    out.insert(i, x);
}

/// Sort the rows into the order `sort_spec` describes.
pub fn sort_rows<T: RowOrd>(input: Vec<T>) -> (r: Vec<T>)
    ensures
        r@ == sort_spec(input@),
{
    let ghost orig = input@;
    let mut input = input;
    let mut out: Vec<T> = Vec::new();
    let ghost mut k: int = 0;
    proof {
        assert(input@ =~= orig.subrange(0, orig.len() as int));
    }
    while input.len() > 0
        invariant
            0 <= k <= orig.len(),
            input@ == orig.subrange(k, orig.len() as int),
            out@ == sort_spec(orig.subrange(0, k)),
        decreases input@.len(),
    {
        let x = input.remove(0);
        proof {
            assert(x == orig[k]);
            assert(input@ =~= orig.subrange(k + 1, orig.len() as int));
        }
        insert_row(&mut out, x);
        proof {
            assert(orig.subrange(0, k + 1).drop_last() =~= orig.subrange(0, k));
            assert(orig.subrange(0, k + 1).last() == orig[k]);
            k = k + 1;
        }
    }
    proof {
        assert(orig.subrange(0, orig.len() as int) =~= orig);
    }
    out
}

} // verus!

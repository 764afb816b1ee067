//! Keyed in-memory tables: rows held in a vector, addressed by a unique
//! string key. The spec-level lookup `find_row` is what the store's
//! contracts are written over.

use vstd::prelude::*;

verus! {

/// A row stored under a string key.
pub trait KeyedRow: Sized {
    /// The key, as a character sequence.
    spec fn skey(self) -> Seq<char>;

    /// The key of this row.
    fn key(&self) -> (r: &String)
        ensures
            r@ == self.skey(),
    ;
}

/// The first row carrying the given key, searching front to back.
pub open spec fn find_row<T: KeyedRow>(rows: Seq<T>, id: Seq<char>) -> Option<T>
    decreases rows.len(),
{
    if rows.len() == 0 {
        None
    } else if rows[0].skey() == id {
        Some(rows[0])
    } else {
        find_row(rows.drop_first(), id)
    }
}

/// Whether some row carries the key.
pub open spec fn has_row<T: KeyedRow>(rows: Seq<T>, id: Seq<char>) -> bool {
    find_row(rows, id) is Some
}

/// Keys are pairwise distinct.
pub open spec fn unique_keys<T: KeyedRow>(rows: Seq<T>) -> bool {
    forall|i: int, j: int| 0 <= i < j < rows.len() ==> rows[i].skey() != rows[j].skey()
}

/// `find_row` returns the row at the first index whose key matches.
pub proof fn lemma_find_row_at<T: KeyedRow>(rows: Seq<T>, id: Seq<char>, k: int)
    requires
        0 <= k < rows.len(),
        rows[k].skey() == id,
        forall|j: int| 0 <= j < k ==> rows[j].skey() != id,
    ensures
        find_row(rows, id) == Some(rows[k]),
    decreases k,
{
    if k > 0 {
        let t = rows.drop_first();
        assert(forall|j: int| 0 <= j < k - 1 ==> #[trigger] t[j].skey() != id);
        lemma_find_row_at(t, id, k - 1);
    }
}

/// When no row carries the key, `find_row` finds nothing.
pub proof fn lemma_find_row_absent<T: KeyedRow>(rows: Seq<T>, id: Seq<char>)
    requires
        forall|j: int| 0 <= j < rows.len() ==> rows[j].skey() != id,
    ensures
        find_row(rows, id) is None,
    decreases rows.len(),
{
    if rows.len() > 0 {
        let t = rows.drop_first();
        assert(forall|j: int| 0 <= j < t.len() ==> #[trigger] t[j].skey() != id);
        lemma_find_row_absent(t, id);
    }
}

/// When nothing is found, no row carries the key.
pub proof fn lemma_find_row_none<T: KeyedRow>(rows: Seq<T>, id: Seq<char>)
    requires
        find_row(rows, id) is None,
    ensures
        forall|j: int| 0 <= j < rows.len() ==> (#[trigger] rows[j]).skey() != id,
    decreases rows.len(),
{
    if rows.len() > 0 {
        lemma_find_row_none(rows.drop_first(), id);
        assert(forall|j: int|
            1 <= j < rows.len() ==> (#[trigger] rows[j]).skey() == rows.drop_first()[j - 1].skey());
    }
}

/// A key present at some index is found.
pub proof fn lemma_find_row_at_key<T: KeyedRow>(rows: Seq<T>, id: Seq<char>, w: int)
    requires
        0 <= w < rows.len(),
        rows[w].skey() == id,
    ensures
        find_row(rows, id) is Some,
{
    if find_row(rows, id) is None {
        lemma_find_row_none(rows, id);
    }
}

/// A found row sits at some index, before which no key matches.
pub proof fn lemma_find_row_witness<T: KeyedRow>(rows: Seq<T>, id: Seq<char>) -> (k: int)
    requires
        find_row(rows, id) is Some,
    ensures
        0 <= k < rows.len(),
        rows[k] == find_row(rows, id)->Some_0,
        rows[k].skey() == id,
        forall|j: int| 0 <= j < k ==> rows[j].skey() != id,
    decreases rows.len(),
{
    if rows[0].skey() == id {
        0
    } else {
        let t = rows.drop_first();
        let k0 = lemma_find_row_witness(t, id);
        assert(forall|j: int| 0 <= j < k0 + 1 ==> #[trigger] rows[j].skey() != id) by {
            assert(forall|j: int| 1 <= j < k0 + 1 ==> #[trigger] rows[j].skey() == t[j - 1].skey());
        }
        k0 + 1
    }
}

/// Appending a row leaves every other key's lookup unchanged; the new row is
/// found under its own key when that key was absent.
pub proof fn lemma_find_row_push<T: KeyedRow>(rows: Seq<T>, x: T, id: Seq<char>)
    ensures
        find_row(rows, id) is Some ==> find_row(rows.push(x), id) == find_row(rows, id),
        find_row(rows, id) is None && x.skey() == id ==> find_row(rows.push(x), id) == Some(x),
        find_row(rows, id) is None && x.skey() != id ==> find_row(rows.push(x), id) is None,
    decreases rows.len(),
{
    if rows.len() == 0 {
        assert(rows.push(x)[0] == x);
        if x.skey() != id {
            assert(rows.push(x).drop_first() =~= Seq::<T>::empty());
            assert(find_row(rows.push(x).drop_first(), id) is None);
        }
    } else {
        assert(rows.push(x).drop_first() =~= rows.drop_first().push(x));
        lemma_find_row_push(rows.drop_first(), x, id);
    }
}

/// Replacing the row at an index by one with the same key rewrites that
/// key's lookup and no other, provided keys are unique.
pub proof fn lemma_find_row_update<T: KeyedRow>(rows: Seq<T>, k: int, x: T, id: Seq<char>)
    requires
        0 <= k < rows.len(),
        unique_keys(rows),
        x.skey() == rows[k].skey(),
    ensures
        id == x.skey() ==> find_row(rows.update(k, x), id) == Some(x),
        id != x.skey() ==> find_row(rows.update(k, x), id) == find_row(rows, id),
    decreases rows.len(),
{
    let upd = rows.update(k, x);
    if k == 0 {
        if id != x.skey() {
            assert(upd.drop_first() =~= rows.drop_first());
        }
    } else {
        assert(upd[0] == rows[0]);
        assert(upd.drop_first() =~= rows.drop_first().update(k - 1, x));
        let t = rows.drop_first();
        assert(unique_keys(t)) by {
            assert(forall|i: int, j: int|
                0 <= i < j < t.len() ==> t[i].skey() == rows[i + 1].skey() && t[j].skey() == rows[j
                    + 1].skey());
        }
        lemma_find_row_update(t, k - 1, x, id);
        assert(rows[0].skey() != rows[k].skey());
    }
}

/// Removing the row at an index erases its key's lookup and no other,
/// provided keys are unique.
pub proof fn lemma_find_row_remove<T: KeyedRow>(rows: Seq<T>, k: int, id: Seq<char>)
    requires
        0 <= k < rows.len(),
        unique_keys(rows),
    ensures
        id == rows[k].skey() ==> find_row(rows.remove(k), id) is None,
        id != rows[k].skey() ==> find_row(rows.remove(k), id) == find_row(rows, id),
    decreases rows.len(),
{
    let rem = rows.remove(k);
    if k == 0 {
        assert(rem =~= rows.drop_first());
        if id == rows[0].skey() {
            assert(forall|j: int| 0 <= j < rem.len() ==> #[trigger] rem[j].skey() != id);
            lemma_find_row_absent(rem, id);
        }
    } else {
        assert(rem[0] == rows[0]);
        assert(rem.drop_first() =~= rows.drop_first().remove(k - 1));
        let t = rows.drop_first();
        assert(unique_keys(t)) by {
            assert(forall|i: int, j: int|
                0 <= i < j < t.len() ==> t[i].skey() == rows[i + 1].skey() && t[j].skey() == rows[j
                    + 1].skey());
        }
        lemma_find_row_remove(t, k - 1, id);
    }
}

/// `lemma_find_row_push`, quantified over every key.
pub proof fn lemma_find_row_push_all<T: KeyedRow>(rows: Seq<T>, x: T)
    ensures
        forall|id: Seq<char>|
            #![trigger find_row(rows.push(x), id)]
            find_row(rows.push(x), id) == (if find_row(rows, id) is Some {
                find_row(rows, id)
            } else if x.skey() == id {
                Some(x)
            } else {
                None::<T>
            }),
{
    assert forall|id: Seq<char>|
        find_row(rows.push(x), id) == (if find_row(rows, id) is Some {
            find_row(rows, id)
        } else if x.skey() == id {
            Some(x)
        } else {
            None::<T>
        }) by {
        lemma_find_row_push(rows, x, id);
    }
}

/// `lemma_find_row_update`, quantified over every key.
pub proof fn lemma_find_row_update_all<T: KeyedRow>(rows: Seq<T>, k: int, x: T)
    requires
        0 <= k < rows.len(),
        unique_keys(rows),
        x.skey() == rows[k].skey(),
    ensures
        forall|id: Seq<char>|
            #![trigger find_row(rows.update(k, x), id)]
            find_row(rows.update(k, x), id) == (if id == x.skey() {
                Some(x)
            } else {
                find_row(rows, id)
            }),
{
    assert forall|id: Seq<char>|
        find_row(rows.update(k, x), id) == (if id == x.skey() {
            Some(x)
        } else {
            find_row(rows, id)
        }) by {
        lemma_find_row_update(rows, k, x, id);
    }
}

/// `lemma_find_row_remove`, quantified over every key.
pub proof fn lemma_find_row_remove_all<T: KeyedRow>(rows: Seq<T>, k: int)
    requires
        0 <= k < rows.len(),
        unique_keys(rows),
    ensures
        forall|id: Seq<char>|
            #![trigger find_row(rows.remove(k), id)]
            find_row(rows.remove(k), id) == (if id == rows[k].skey() {
                None::<T>
            } else {
                find_row(rows, id)
            }),
{
    assert forall|id: Seq<char>|
        find_row(rows.remove(k), id) == (if id == rows[k].skey() {
            None::<T>
        } else {
            find_row(rows, id)
        }) by {
        lemma_find_row_remove(rows, k, id);
    }
}

/// The rows whose key is not the given one, in order.
pub open spec fn rows_without<T: KeyedRow>(rows: Seq<T>, id: Seq<char>) -> Seq<T>
    decreases rows.len(),
{
    if rows.len() == 0 {
        Seq::empty()
    } else {
        let rest = rows_without(rows.drop_last(), id);
        if rows.last().skey() == id {
            rest
        } else {
            rest.push(rows.last())
        }
    }
}

/// The rows carrying the given key, in order.
pub open spec fn rows_with<T: KeyedRow>(rows: Seq<T>, id: Seq<char>) -> Seq<T>
    decreases rows.len(),
{
    if rows.len() == 0 {
        Seq::empty()
    } else {
        let rest = rows_with(rows.drop_last(), id);
        if rows.last().skey() == id {
            rest.push(rows.last())
        } else {
            rest
        }
    }
}

/// Every row kept by `rows_without` misses the key and came from the input.
pub proof fn lemma_rows_without_members<T: KeyedRow>(rows: Seq<T>, id: Seq<char>)
    ensures
        forall|k: int|
            0 <= k < rows_without(rows, id).len() ==> (#[trigger] rows_without(rows, id)[k]).skey()
                != id,
        forall|k: int|
            0 <= k < rows_without(rows, id).len() ==> rows.contains(
                #[trigger] rows_without(rows, id)[k],
            ),
    decreases rows.len(),
{
    if rows.len() > 0 {
        lemma_rows_without_members(rows.drop_last(), id);
        let out = rows_without(rows, id);
        let rest = rows_without(rows.drop_last(), id);
        assert forall|k: int| 0 <= k < out.len() implies (#[trigger] out[k]).skey() != id
            && rows.contains(out[k]) by {
            if rows.last().skey() == id || k < rest.len() {
                assert(out[k] == rest[k]);
                assert(rows.drop_last().contains(rest[k]));
                let j = choose|j: int|
                    0 <= j < rows.drop_last().len() && rows.drop_last()[j] == rest[k];
                assert(rows[j] == rest[k]);
            } else {
                assert(out[k] == rows.last());
                assert(rows[rows.len() - 1] == rows.last());
            }
        }
    }
}

/// Every row kept by `rows_with` carries the key and came from the input.
pub proof fn lemma_rows_with_members<T: KeyedRow>(rows: Seq<T>, id: Seq<char>)
    ensures
        forall|k: int|
            0 <= k < rows_with(rows, id).len() ==> (#[trigger] rows_with(rows, id)[k]).skey()
                == id,
        forall|k: int|
            0 <= k < rows_with(rows, id).len() ==> rows.contains(
                #[trigger] rows_with(rows, id)[k],
            ),
    decreases rows.len(),
{
    if rows.len() > 0 {
        lemma_rows_with_members(rows.drop_last(), id);
        let out = rows_with(rows, id);
        let rest = rows_with(rows.drop_last(), id);
        assert forall|k: int| 0 <= k < out.len() implies (#[trigger] out[k]).skey() == id
            && rows.contains(out[k]) by {
            if rows.last().skey() != id || k < rest.len() {
                assert(out[k] == rest[k]);
                assert(rows.drop_last().contains(rest[k]));
                let j = choose|j: int|
                    0 <= j < rows.drop_last().len() && rows.drop_last()[j] == rest[k];
                assert(rows[j] == rest[k]);
            } else {
                assert(out[k] == rows.last());
                assert(rows[rows.len() - 1] == rows.last());
            }
        }
    }
}

/// Selection distributes over concatenation.
pub proof fn lemma_rows_with_append<T: KeyedRow>(a: Seq<T>, b: Seq<T>, id: Seq<char>)
    ensures
        rows_with(a + b, id) == rows_with(a, id) + rows_with(b, id),
    decreases b.len(),
{
    if b.len() == 0 {
        assert(a + b =~= a);
        assert(rows_with(a, id) + Seq::<T>::empty() =~= rows_with(a, id));
    } else {
        assert((a + b).drop_last() =~= a + b.drop_last());
        assert((a + b).last() == b.last());
        lemma_rows_with_append(a, b.drop_last(), id);
    }
}

/// After dropping a key, selecting it yields nothing and selecting any other
/// key is unchanged.
pub proof fn lemma_rows_with_without<T: KeyedRow>(rows: Seq<T>, id: Seq<char>, id2: Seq<char>)
    ensures
        rows_with(rows_without(rows, id), id) == Seq::<T>::empty(),
        id2 != id ==> rows_with(rows_without(rows, id), id2) == rows_with(rows, id2),
    decreases rows.len(),
{
    if rows.len() > 0 {
        lemma_rows_with_without(rows.drop_last(), id, id2);
        if rows.last().skey() != id {
            let rest = rows_without(rows.drop_last(), id);
            assert(rows_without(rows, id) == rest.push(rows.last()));
            assert(rest.push(rows.last()).drop_last() =~= rest);
        }
    }
}

/// Selecting a key from rows that all carry it is the identity.
pub proof fn lemma_rows_with_all<T: KeyedRow>(rows: Seq<T>, id: Seq<char>)
    requires
        forall|k: int| 0 <= k < rows.len() ==> (#[trigger] rows[k]).skey() == id,
    ensures
        rows_with(rows, id) == rows,
    decreases rows.len(),
{
    if rows.len() > 0 {
        assert(forall|j: int|
            0 <= j < rows.len() - 1 ==> (#[trigger] rows.drop_last()[j]).skey() == rows[j].skey());
        lemma_rows_with_all(rows.drop_last(), id);
        assert(rows_with(rows, id) =~= rows);
    }
}

/// Selecting a key that no row carries yields nothing.
pub proof fn lemma_rows_with_none<T: KeyedRow>(rows: Seq<T>, id: Seq<char>)
    requires
        forall|k: int| 0 <= k < rows.len() ==> (#[trigger] rows[k]).skey() != id,
    ensures
        rows_with(rows, id) == Seq::<T>::empty(),
    decreases rows.len(),
{
    if rows.len() > 0 {
        assert(forall|j: int|
            0 <= j < rows.len() - 1 ==> (#[trigger] rows.drop_last()[j]).skey() == rows[j].skey());
        lemma_rows_with_none(rows.drop_last(), id);
    }
}

/// Remove every row carrying the given key, keeping the others in order.
pub fn retain_without<T: KeyedRow>(rows: &mut Vec<T>, id: &String)
    ensures
        final(rows)@ == rows_without(old(rows)@, id@),
{
    let ghost orig = old(rows)@;
    let mut kept: Vec<T> = Vec::new();
    let ghost mut k: int = 0;
    proof {
        assert(rows@ =~= orig.subrange(0, orig.len() as int));
    }
    while rows.len() > 0
        invariant
            0 <= k <= orig.len(),
            rows@ == orig.subrange(k, orig.len() as int),
            kept@ == rows_without(orig.subrange(0, k), id@),
        decreases rows@.len(),
    {
        let x = rows.remove(0);
        proof {
            assert(x == orig[k]);
            assert(rows@ =~= orig.subrange(k + 1, orig.len() as int));
            assert(orig.subrange(0, k + 1).drop_last() =~= orig.subrange(0, k));
            assert(orig.subrange(0, k + 1).last() == orig[k]);
        }
        if !x.key().eq(id) {
            kept.push(x);
        }
        proof {
            k = k + 1;
        }
    }
    proof {
        assert(orig.subrange(0, orig.len() as int) =~= orig);
    }
    *rows = kept;
}

/// Insert or replace the row carrying the key of `x`.
pub fn upsert_row<T: KeyedRow>(rows: &mut Vec<T>, x: T)
    requires
        unique_keys(old(rows)@),
    ensures
        unique_keys(final(rows)@),
        forall|id: Seq<char>|
            #![trigger find_row(final(rows)@, id)]
            find_row(final(rows)@, id) == (if id == x.skey() {
                Some(x)
            } else {
                find_row(old(rows)@, id)
            }),
        forall|k: int|
            0 <= k < final(rows)@.len() ==> final(rows)@[k] == x || old(rows)@.contains(
                #[trigger] final(rows)@[k],
            ),
        final(rows)@.len() == old(rows)@.len() + (if has_row(old(rows)@, x.skey()) {
            0int
        } else {
            1int
        }),
{
    let ghost orig = old(rows)@;
    let idx = find_index(rows, x.key());
    match idx {
        Some(j) => {
            proof {
                lemma_find_row_remove_all(rows@, j as int);
            }
            rows.remove(j);
            proof {
                let mid = orig.remove(j as int);
                assert forall|a: int, b: int| 0 <= a < b < mid.len() implies mid[a].skey()
                    != mid[b].skey() by {
                    if b < j {
                    } else if a < j {
                        assert(mid[a] == orig[a] && mid[b] == orig[b + 1]);
                    } else {
                        assert(mid[a] == orig[a + 1] && mid[b] == orig[b + 1]);
                    }
                }
                assert forall|k: int| 0 <= k < mid.len() implies orig.contains(
                    #[trigger] mid[k],
                ) by {
                    if k < j {
                        assert(mid[k] == orig[k]);
                    } else {
                        assert(mid[k] == orig[k + 1]);
                    }
                }
            }
        },
        None => {},
    }
    proof {
        lemma_find_row_none(rows@, x.skey());
        lemma_find_row_push_all(rows@, x);
        let pre = rows@;
        assert(forall|k: int| 0 <= k < pre.len() ==> pre.push(x)[k] == pre[k]);
        assert(pre.push(x)[pre.len() as int] == x);
    }
    rows.push(x);
}

/// Remove the row carrying the key, if any.
pub fn remove_by_key<T: KeyedRow>(rows: &mut Vec<T>, id: &String)
    requires
        unique_keys(old(rows)@),
    ensures
        unique_keys(final(rows)@),
        forall|id2: Seq<char>|
            #![trigger find_row(final(rows)@, id2)]
            find_row(final(rows)@, id2) == (if id2 == id@ {
                None::<T>
            } else {
                find_row(old(rows)@, id2)
            }),
        forall|k: int|
            0 <= k < final(rows)@.len() ==> old(rows)@.contains(#[trigger] final(rows)@[k])
                && (final(rows)@[k]).skey() != id@,
{
    let ghost orig = old(rows)@;
    let idx = find_index(rows, id);
    match idx {
        Some(j) => {
            proof {
                lemma_find_row_remove_all(rows@, j as int);
            }
            rows.remove(j);
            proof {
                let mid = orig.remove(j as int);
                assert forall|a: int, b: int| 0 <= a < b < mid.len() implies mid[a].skey()
                    != mid[b].skey() by {
                    if b < j {
                    } else if a < j {
                        assert(mid[a] == orig[a] && mid[b] == orig[b + 1]);
                    } else {
                        assert(mid[a] == orig[a + 1] && mid[b] == orig[b + 1]);
                    }
                }
                assert forall|k: int| 0 <= k < mid.len() implies orig.contains(#[trigger] mid[k])
                    && mid[k].skey() != id@ by {
                    if k < j {
                        assert(mid[k] == orig[k]);
                    } else {
                        assert(mid[k] == orig[k + 1]);
                    }
                }
            }
        },
        None => {
            proof {
                lemma_find_row_none(rows@, id@);
                assert forall|k: int| 0 <= k < rows@.len() implies orig.contains(
                    #[trigger] rows@[k],
                ) by {
                    assert(rows@[k] == orig[k]);
                }
            }
        },
    }
}

/// Decide key uniqueness.
pub fn check_unique<T: KeyedRow>(rows: &Vec<T>) -> (r: bool)
    ensures
        r == unique_keys(rows@),
{
    let mut i: usize = 0;
    while i < rows.len()
        invariant
            0 <= i <= rows@.len(),
            forall|a: int, b: int|
                0 <= a < b < rows@.len() && a < i ==> rows@[a].skey() != rows@[b].skey(),
        decreases rows@.len() - i,
    {
        let mut j: usize = i + 1;
        while j < rows.len()
            invariant
                0 <= i < j <= rows@.len(),
                forall|a: int, b: int|
                    0 <= a < b < rows@.len() && a < i ==> rows@[a].skey() != rows@[b].skey(),
                forall|b: int| i < b < j ==> rows@[i as int].skey() != (#[trigger] rows@[b]).skey(),
            decreases rows@.len() - j,
        {
            if rows[i].key().eq(rows[j].key()) {
                return false;
            }
            j = j + 1;
        }
        i = i + 1;
    }
    true
}

/// Decide that every row's key names a row of the parent table.
pub fn check_refs<T: KeyedRow, U: KeyedRow>(rows: &Vec<T>, parents: &Vec<U>) -> (r: bool)
    ensures
        r == (forall|k: int|
            0 <= k < rows@.len() ==> has_row(parents@, (#[trigger] rows@[k]).skey())),
{
    let mut k: usize = 0;
    while k < rows.len()
        invariant
            0 <= k <= rows@.len(),
            forall|w: int| 0 <= w < k ==> has_row(parents@, (#[trigger] rows@[w]).skey()),
        decreases rows@.len() - k,
    {
        match find_index(parents, rows[k].key()) {
            Some(_) => {},
            None => {
                return false;
            },
        }
        k = k + 1;
    }
    true
}

/// Linear scan for the index of the row with the given key.
pub fn find_index<T: KeyedRow>(rows: &Vec<T>, id: &String) -> (r: Option<usize>)
    ensures
        match r {
            Some(k) => k < rows@.len() && rows@[k as int].skey() == id@ && find_row(rows@, id@)
                == Some(rows@[k as int]),
            None => find_row(rows@, id@) is None,
        },
{
    let mut i: usize = 0;
    while i < rows.len()
        invariant
            0 <= i <= rows@.len(),
            forall|j: int| 0 <= j < i ==> rows@[j].skey() != id@,
        decreases rows@.len() - i,
    {
        if rows[i].key().eq(id) {
            proof {
                lemma_find_row_at(rows@, id@, i as int);
            }
            return Some(i);
        }
        i = i + 1;
    }
    proof {
        lemma_find_row_absent(rows@, id@);
    }
    None
}

} // verus!

//! Row ordering. Every `ORDER BY` of the ledger is expressed as a sort key, a
//! sequence of integers compared lexicographically; text sorts by code point
//! (SQLite's `BINARY` collation) through `text_key`. Sorting is stable: rows
//! with equal keys keep their table order.

use vstd::prelude::*;

verus! {

/// Lexicographic order on keys; a proper prefix comes first.
pub open spec fn key_le(a: Seq<i128>, b: Seq<i128>) -> bool
    decreases a.len(),
{
    if a.len() == 0 {
        true
    } else if b.len() == 0 {
        false
    } else if a[0] < b[0] {
        true
    } else if a[0] > b[0] {
        false
    } else {
        key_le(a.drop_first(), b.drop_first())
    }
}

pub proof fn lemma_key_le_total(a: Seq<i128>, b: Seq<i128>)
    ensures
        key_le(a, b) || key_le(b, a),
    decreases a.len(),
{
    if a.len() > 0 && b.len() > 0 && a[0] == b[0] {
        lemma_key_le_total(a.drop_first(), b.drop_first());
    }
}

pub proof fn lemma_key_le_trans(a: Seq<i128>, b: Seq<i128>, c: Seq<i128>)
    requires
        key_le(a, b),
        key_le(b, c),
    ensures
        key_le(a, c),
    decreases a.len(),
{
    if a.len() > 0 && b.len() > 0 && c.len() > 0 && a[0] == b[0] && b[0] == c[0] {
        lemma_key_le_trans(a.drop_first(), b.drop_first(), c.drop_first());
    }
}

pub proof fn lemma_key_le_antisym(a: Seq<i128>, b: Seq<i128>)
    requires
        key_le(a, b),
        key_le(b, a),
    ensures
        a == b,
    decreases a.len(),
{
    if a.len() > 0 && b.len() > 0 {
        lemma_key_le_antisym(a.drop_first(), b.drop_first());
        assert(a =~= seq![a[0]] + a.drop_first());
        assert(b =~= seq![b[0]] + b.drop_first());
    }
}

/// Decides `key_le`.
pub fn key_le_exec(a: &Vec<i128>, b: &Vec<i128>) -> (r: bool)
    ensures
        r == key_le(a@, b@),
{
    let mut i: usize = 0;
    assert(a@.skip(0) =~= a@);
    assert(b@.skip(0) =~= b@);
    while i < a.len() && i < b.len()
        invariant
            i <= a.len(),
            i <= b.len(),
            key_le(a@, b@) == key_le(a@.skip(i as int), b@.skip(i as int)),
        decreases a.len() - i,
    {
        if a[i] < b[i] {
            return true;
        }
        if a[i] > b[i] {
            return false;
        }
        assert(a@.skip(i as int).drop_first() =~= a@.skip(i + 1));
        assert(b@.skip(i as int).drop_first() =~= b@.skip(i + 1));
        i += 1;
    }
    assert(a@.skip(i as int).len() == a.len() - i);
    assert(b@.skip(i as int).len() == b.len() - i);
    i == a.len()
}

/// The key of a text: each character's code plus one, then a terminating zero,
/// so that comparing keys compares texts by code point, shorter prefix first.
pub open spec fn text_key(s: Seq<char>) -> Seq<i128> {
    Seq::new(s.len(), |i: int| ((s[i] as u32) + 1) as i128).push(0)
}

/// Appends `text_key(s)` to `key`.
pub fn push_text_key(key: &mut Vec<i128>, s: &Vec<char>)
    ensures
        final(key)@ == old(key)@ + text_key(s@),
{
    let mut i: usize = 0;
    while i < s.len()
        invariant
            i <= s.len(),
            key@ == old(key)@ + Seq::new(i as nat, |k: int| ((s@[k] as u32) + 1) as i128),
        decreases s.len() - i,
    {
        let c = s[i] as u32;
        key.push(c as i128 + 1);
        assert(Seq::new((i + 1) as nat, |k: int| ((s@[k] as u32) + 1) as i128) =~= Seq::new(
            i as nat,
            |k: int| ((s@[k] as u32) + 1) as i128,
        ).push(((s@[i as int] as u32) + 1) as i128));
        i += 1;
    }
    key.push(0);
    assert(key@ =~= old(key)@ + text_key(s@));
}

/// `idx` lists each of `0..n` exactly once.
pub open spec fn is_permutation(idx: Seq<usize>, n: nat) -> bool {
    &&& idx.len() == n
    &&& forall|i: int| 0 <= i < n ==> #[trigger] idx[i] < n
    &&& forall|i: int, j: int| 0 <= i < j < n ==> idx[i] != idx[j]
}

/// `idx` orders `keys` ascending, and rows with equal keys keep their order.
pub open spec fn is_stable_order(keys: Seq<Seq<i128>>, idx: Seq<usize>) -> bool {
    &&& is_permutation(idx, keys.len())
    &&& forall|i: int, j: int|
        #![trigger idx[i], idx[j]]
        0 <= i < j < idx.len() ==> key_le(keys[idx[i] as int], keys[idx[j] as int]) && (key_le(
            keys[idx[j] as int],
            keys[idx[i] as int],
        ) ==> idx[i] < idx[j])
}

/// The stable ascending order of `keys`, as positions into `keys`.
pub fn stable_order(keys: &Vec<Vec<i128>>) -> (idx: Vec<usize>)
    ensures
        is_stable_order(keys@.map_values(|k: Vec<i128>| k@), idx@),
{
    let ghost ks = keys@.map_values(|k: Vec<i128>| k@);
    let mut idx: Vec<usize> = Vec::new();
    let mut n: usize = 0;
    while n < keys.len()
        invariant
            n <= keys.len(),
            ks == keys@.map_values(|k: Vec<i128>| k@),
            idx.len() == n,
            forall|i: int| 0 <= i < n ==> #[trigger] idx@[i] < n,
            forall|i: int, j: int| 0 <= i < j < n ==> idx@[i] != idx@[j],
            forall|i: int, j: int|
                #![trigger idx@[i], idx@[j]]
                0 <= i < j < n ==> key_le(ks[idx@[i] as int], ks[idx@[j] as int]) && (key_le(
                    ks[idx@[j] as int],
                    ks[idx@[i] as int],
                ) ==> idx@[i] < idx@[j]),
        decreases keys.len() - n,
    {
        // Find the insertion point: after every row whose key is <= the new key.
        let mut pos: usize = n;
        while pos > 0 && !key_le_exec(&keys[idx[pos - 1]], &keys[n])
            invariant
                pos <= n,
                idx.len() == n,
                n < keys.len(),
                ks == keys@.map_values(|k: Vec<i128>| k@),
                forall|i: int| 0 <= i < n ==> #[trigger] idx@[i] < n,
                forall|q: int| pos <= q < n ==> !key_le(#[trigger] ks[idx@[q] as int], ks[n as int]),
            decreases pos,
        {
            pos -= 1;
        }
        let ghost old_idx = idx@;
        proof {
            // Everything before `pos` is <= the new key.
            if pos > 0 {
                assert(key_le(ks[idx@[pos - 1] as int], ks[n as int]));
                assert forall|q: int| 0 <= q < pos implies key_le(
                    #[trigger] ks[idx@[q] as int],
                    ks[n as int],
                ) by {
                    if q < pos - 1 {
                        assert(key_le(ks[idx@[q] as int], ks[idx@[pos - 1] as int]));
                        lemma_key_le_trans(
                            ks[idx@[q] as int],
                            ks[idx@[pos - 1] as int],
                            ks[n as int],
                        );
                    }
                }
            }
            assert forall|q: int| pos <= q < n implies key_le(
                ks[n as int],
                #[trigger] ks[idx@[q] as int],
            ) by {
                lemma_key_le_total(ks[n as int], ks[idx@[q] as int]);
            }
        }
        idx.insert(pos, n);
        proof {
            assert(idx@ == old_idx.insert(pos as int, n));
            assert forall|i: int, j: int|
                #![trigger idx@[i], idx@[j]]
                0 <= i < j < n + 1 implies key_le(ks[idx@[i] as int], ks[idx@[j] as int]) && (
                key_le(ks[idx@[j] as int], ks[idx@[i] as int]) ==> idx@[i] < idx@[j]) by {
                let a = if i < pos {
                    i
                } else if i == pos {
                    -1
                } else {
                    i - 1
                };
                let b = if j < pos {
                    j
                } else if j == pos {
                    -1
                } else {
                    j - 1
                };
                if a >= 0 && b >= 0 {
                    assert(old_idx[a] == idx@[i]);
                    assert(old_idx[b] == idx@[j]);
                    assert(key_le(ks[old_idx[a] as int], ks[old_idx[b] as int]));
                } else if a < 0 {
                    // i == pos, the new row comes before an older row.
                    assert(idx@[j] == old_idx[j - 1]);
                    assert(!key_le(ks[old_idx[j - 1] as int], ks[n as int]));
                } else {
                    assert(idx@[i] == old_idx[i]);
                    assert(key_le(ks[old_idx[i] as int], ks[n as int]));
                    assert(old_idx[i] < n);
                }
            }
            assert forall|i: int| 0 <= i < n + 1 implies #[trigger] idx@[i] < n + 1 by {
                if i < pos {
                    assert(idx@[i] == old_idx[i]);
                } else if i > pos {
                    assert(idx@[i] == old_idx[i - 1]);
                }
            }
            assert forall|i: int, j: int| 0 <= i < j < n + 1 implies idx@[i] != idx@[j] by {
                if i < pos && j < pos {
                    assert(idx@[i] == old_idx[i] && idx@[j] == old_idx[j]);
                } else if i < pos && j > pos {
                    assert(idx@[i] == old_idx[i] && idx@[j] == old_idx[j - 1]);
                } else if i > pos {
                    assert(idx@[i] == old_idx[i - 1] && idx@[j] == old_idx[j - 1]);
                } else if i == pos {
                    assert(idx@[j] == old_idx[j - 1]);
                    assert(old_idx[j - 1] < n);
                } else {
                    assert(idx@[i] == old_idx[i]);
                    assert(old_idx[i] < n);
                }
            }
        }
        n += 1;
    }
    idx
}

/// `out` lists the rows `rows[idx[0]], rows[idx[1]], ...`.
pub open spec fn arranged<T>(rows: Seq<T>, idx: Seq<usize>, out: Seq<T>) -> bool {
    &&& out.len() == idx.len()
    &&& forall|i: int| 0 <= i < idx.len() ==> out[i] == rows[#[trigger] idx[i] as int]
}

/// `out` is `rows` put in stable ascending order of `key`.
pub open spec fn sorted_rows<T>(rows: Seq<T>, key: spec_fn(T) -> Seq<i128>, out: Seq<T>) -> bool {
    exists|idx: Seq<usize>|
        is_stable_order(rows.map_values(key), idx) && #[trigger] arranged(rows, idx, out)
}


/// Extending the keys of the first `i` rows by the key of row `i`.
pub proof fn lemma_keys_push<T>(keys: Seq<Vec<i128>>, rows: Seq<T>, kf: spec_fn(T) -> Seq<i128>, i: int, key: Vec<i128>)
    requires
        0 <= i < rows.len(),
        keys.map_values(|k: Vec<i128>| k@) == rows.take(i).map_values(kf),
        key@ == kf(rows[i]),
    ensures
        keys.push(key).map_values(|k: Vec<i128>| k@) == rows.take(i + 1).map_values(kf),
{
    let a = keys.push(key).map_values(|k: Vec<i128>| k@);
    let b = rows.take(i + 1).map_values(kf);
    assert(keys.map_values(|k: Vec<i128>| k@).len() == keys.len());
    assert(rows.take(i).map_values(kf).len() == i);
    assert(keys.len() == i);
    assert(a.len() == i + 1);
    assert(b.len() == i + 1);
    assert forall|q: int| 0 <= q < i + 1 implies a[q] == b[q] by {
        assert(rows.take(i + 1)[q] == rows[q]);
        if q < i {
            assert(keys.map_values(|k: Vec<i128>| k@)[q] == rows.take(i).map_values(kf)[q]);
            assert(rows.take(i)[q] == rows[q]);
            assert(keys.push(key)[q] == keys[q]);
        } else {
            assert(keys.push(key)[q] == key);
        }
        assert(a[q] == keys.push(key)[q]@);
        assert(b[q] == kf(rows.take(i + 1)[q]));
    }
    assert(a =~= b);
}

} // verus!

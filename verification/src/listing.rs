//! Listings of the tables in their display order.

use vstd::prelude::*;
use crate::db::Store;
use crate::models::{Account, Category, Obligation, PortfolioSnapshot, SavingsPocket, Transaction};
use crate::order::{arranged, is_stable_order, push_text_key, sorted_rows, stable_order, text_key};
use crate::text::{chars_of, like, like_match, str_eq};

verus! {

broadcast use vstd::string::group_string_axioms;

/// Accounts: newest creation first.
pub open spec fn account_order_key(a: Account) -> Seq<i128> {
    seq![(-(a.created_at as int)) as i128]
}

/// Categories and pockets: by name.
pub open spec fn category_order_key(c: Category) -> Seq<i128> {
    text_key(c.name@)
}

pub open spec fn pocket_order_key(p: SavingsPocket) -> Seq<i128> {
    text_key(p.name@)
}

/// Obligations: by status text, then by due date with undated ones first.
pub open spec fn obligation_order_key(o: Obligation) -> Seq<i128> {
    text_key(o.status@) + match o.due_date {
        None => seq![0i128],
        Some(d) => seq![1i128, d as i128],
    }
}

/// Snapshots: newest day first.
pub open spec fn snapshot_order_key(p: PortfolioSnapshot) -> Seq<i128> {
    seq![(-(p.day as int)) as i128]
}

pub fn text_key_of(s: &str) -> (k: Vec<i128>)
    ensures
        k@ == text_key(s@),
{
    let mut k: Vec<i128> = Vec::new();
    let cs = chars_of(s);
    push_text_key(&mut k, &cs);
    assert(k@ =~= text_key(s@));
    k
}

/// Every account, newest first (ties in table order).
pub fn accounts_all(store: &Store) -> (r: Result<Vec<Account>, String>)
    ensures
        r matches Ok(v) && sorted_rows(store@.accounts, |a: Account| account_order_key(a), v@),
{
    let n = store.accounts_len();
    let ghost rows = store@.accounts;
    let ghost kf = |a: Account| account_order_key(a);
    let mut keys: Vec<Vec<i128>> = Vec::new();
    let mut i: usize = 0;
    while i < n
        invariant
            n == rows.len(),
            rows == store@.accounts,
            i <= n,
            kf == (|a: Account| account_order_key(a)),
            keys@.map_values(|k: Vec<i128>| k@) == rows.take(i as int).map_values(kf),
        decreases n - i,
    {
        let a = store.find_account_row(i);
        let neg: i128 = -(a.created_at as i128);
        let key: Vec<i128> = vec![neg];
        assert(key@ =~= kf(rows[i as int]));
        proof { crate::order::lemma_keys_push(keys@, rows, kf, i as int, key); }
        keys.push(key);
        i += 1;
    }
    assert(rows.take(n as int) =~= rows);
    let idx = stable_order(&keys);
    let mut out: Vec<Account> = Vec::new();
    let mut j: usize = 0;
    while j < idx.len()
        invariant
            n == rows.len(),
            rows == store@.accounts,
            is_stable_order(rows.map_values(kf), idx@),
            j <= idx.len(),
            out@.len() == j,
            forall|q: int| 0 <= q < j ==> out@[q] == rows[#[trigger] idx@[q] as int],
        decreases idx.len() - j,
    {
        out.push(store.find_account_row(idx[j]));
        j += 1;
    }
    assert(arranged(rows, idx@, out@));
    Ok(out)
}

/// Every category by name.
pub fn categories_all(store: &Store) -> (r: Result<Vec<Category>, String>)
    ensures
        r matches Ok(v) && sorted_rows(store@.categories, |c: Category| category_order_key(c), v@),
{
    let n = store.categories_len();
    let ghost rows = store@.categories;
    let ghost kf = |c: Category| category_order_key(c);
    let mut keys: Vec<Vec<i128>> = Vec::new();
    let mut i: usize = 0;
    while i < n
        invariant
            n == rows.len(),
            rows == store@.categories,
            i <= n,
            kf == (|c: Category| category_order_key(c)),
            keys@.map_values(|k: Vec<i128>| k@) == rows.take(i as int).map_values(kf),
        decreases n - i,
    {
        let c = store.category_row(i);
        let key = text_key_of(c.name.as_str());
        proof { crate::order::lemma_keys_push(keys@, rows, kf, i as int, key); }
        keys.push(key);
        i += 1;
    }
    assert(rows.take(n as int) =~= rows);
    let idx = stable_order(&keys);
    let mut out: Vec<Category> = Vec::new();
    let mut j: usize = 0;
    while j < idx.len()
        invariant
            n == rows.len(),
            rows == store@.categories,
            is_stable_order(rows.map_values(kf), idx@),
            j <= idx.len(),
            out@.len() == j,
            forall|q: int| 0 <= q < j ==> out@[q] == rows[#[trigger] idx@[q] as int],
        decreases idx.len() - j,
    {
        out.push(store.category_row(idx[j]));
        j += 1;
    }
    assert(arranged(rows, idx@, out@));
    Ok(out)
}

/// Every pocket by name.
pub fn pockets_all(store: &Store) -> (r: Result<Vec<SavingsPocket>, String>)
    ensures
        r matches Ok(v) && sorted_rows(store@.pockets, |p: SavingsPocket| pocket_order_key(p), v@),
{
    let n = store.pockets_len();
    let ghost rows = store@.pockets;
    let ghost kf = |p: SavingsPocket| pocket_order_key(p);
    let mut keys: Vec<Vec<i128>> = Vec::new();
    let mut i: usize = 0;
    while i < n
        invariant
            n == rows.len(),
            rows == store@.pockets,
            i <= n,
            kf == (|p: SavingsPocket| pocket_order_key(p)),
            keys@.map_values(|k: Vec<i128>| k@) == rows.take(i as int).map_values(kf),
        decreases n - i,
    {
        let p = store.find_pocket_row(i);
        let key = text_key_of(p.name.as_str());
        proof { crate::order::lemma_keys_push(keys@, rows, kf, i as int, key); }
        keys.push(key);
        i += 1;
    }
    assert(rows.take(n as int) =~= rows);
    let idx = stable_order(&keys);
    let mut out: Vec<SavingsPocket> = Vec::new();
    let mut j: usize = 0;
    while j < idx.len()
        invariant
            n == rows.len(),
            rows == store@.pockets,
            is_stable_order(rows.map_values(kf), idx@),
            j <= idx.len(),
            out@.len() == j,
            forall|q: int| 0 <= q < j ==> out@[q] == rows[#[trigger] idx@[q] as int],
        decreases idx.len() - j,
    {
        out.push(store.find_pocket_row(idx[j]));
        j += 1;
    }
    assert(arranged(rows, idx@, out@));
    Ok(out)
}

/// Every obligation: by status ("DONE" before "OPEN"), then by due date with
/// undated ones first.
pub fn obligations_all(store: &Store) -> (r: Result<Vec<Obligation>, String>)
    ensures
        r matches Ok(v) && sorted_rows(store@.obligations, |o: Obligation| obligation_order_key(o), v@),
{
    let n = store.obligations_len();
    let ghost rows = store@.obligations;
    let ghost kf = |o: Obligation| obligation_order_key(o);
    let mut keys: Vec<Vec<i128>> = Vec::new();
    let mut i: usize = 0;
    while i < n
        invariant
            n == rows.len(),
            rows == store@.obligations,
            i <= n,
            kf == (|o: Obligation| obligation_order_key(o)),
            keys@.map_values(|k: Vec<i128>| k@) == rows.take(i as int).map_values(kf),
        decreases n - i,
    {
        let o = store.find_obligation_row(i);
        let mut key = text_key_of(o.status.as_str());
        match o.due_date {
            None => { key.push(0); },
            Some(d) => { key.push(1); key.push(d as i128); },
        }
        assert(key@ =~= obligation_order_key(o));
        proof { crate::order::lemma_keys_push(keys@, rows, kf, i as int, key); }
        keys.push(key);
        i += 1;
    }
    assert(rows.take(n as int) =~= rows);
    let idx = stable_order(&keys);
    let mut out: Vec<Obligation> = Vec::new();
    let mut j: usize = 0;
    while j < idx.len()
        invariant
            n == rows.len(),
            rows == store@.obligations,
            is_stable_order(rows.map_values(kf), idx@),
            j <= idx.len(),
            out@.len() == j,
            forall|q: int| 0 <= q < j ==> out@[q] == rows[#[trigger] idx@[q] as int],
        decreases idx.len() - j,
    {
        out.push(store.find_obligation_row(idx[j]));
        j += 1;
    }
    assert(arranged(rows, idx@, out@));
    Ok(out)
}

/// The first `limit` rows of `s`; all of them when `limit` is negative
/// (SQLite's `LIMIT`).
pub open spec fn limited<T>(s: Seq<T>, limit: i64) -> Seq<T> {
    if limit < 0 || limit >= s.len() { s } else { s.take(limit as int) }
}

/// `out` holds the `days` most recent of `rows`, newest first (all of them when
/// `days` is negative).
pub open spec fn newest_snapshots(rows: Seq<PortfolioSnapshot>, days: i64, out: Seq<PortfolioSnapshot>) -> bool {
    exists|all: Seq<PortfolioSnapshot>|
        sorted_rows(rows, |p: PortfolioSnapshot| snapshot_order_key(p), all) && out == #[trigger] limited(all, days)
}

/// The `days` most recent snapshots, newest first (all of them when `days` is negative).
pub fn snapshots_last(store: &Store, days: i64) -> (r: Result<Vec<PortfolioSnapshot>, String>)
    ensures
        r matches Ok(v) && newest_snapshots(store@.snapshots, days, v@),
{
    let n = store.snapshots_len();
    let ghost rows = store@.snapshots;
    let ghost kf = |p: PortfolioSnapshot| snapshot_order_key(p);
    let mut keys: Vec<Vec<i128>> = Vec::new();
    let mut i: usize = 0;
    while i < n
        invariant
            n == rows.len(),
            rows == store@.snapshots,
            i <= n,
            kf == (|p: PortfolioSnapshot| snapshot_order_key(p)),
            keys@.map_values(|k: Vec<i128>| k@) == rows.take(i as int).map_values(kf),
        decreases n - i,
    {
        let p = store.snapshot_row(i);
        let neg: i128 = -(p.day as i128);
        let key: Vec<i128> = vec![neg];
        assert(key@ =~= kf(rows[i as int]));
        proof { crate::order::lemma_keys_push(keys@, rows, kf, i as int, key); }
        keys.push(key);
        i += 1;
    }
    assert(rows.take(n as int) =~= rows);
    let idx = stable_order(&keys);
    let mut out: Vec<PortfolioSnapshot> = Vec::new();
    let mut j: usize = 0;
    while j < idx.len()
        invariant
            n == rows.len(),
            rows == store@.snapshots,
            is_stable_order(rows.map_values(kf), idx@),
            j <= idx.len(),
            out@.len() == j,
            forall|q: int| 0 <= q < j ==> out@[q] == rows[#[trigger] idx@[q] as int],
        decreases idx.len() - j,
    {
        out.push(store.snapshot_row(idx[j]));
        j += 1;
    }
    assert(arranged(rows, idx@, out@));
    let ghost all = out@;
    if days >= 0 && (days as u64) < (out.len() as u64) {
        out.truncate(days as usize);
    }
    assert(out@ =~= limited(all, days));
    Ok(out)
}


/// An optional filter text that is present and not empty.
pub open spec fn given(o: Option<String>) -> bool {
    o is Some && o->0@.len() > 0
}

/// Whether transaction `t` passes the filters of a listing: its note contains
/// the search text (`LIKE '%text%'`, so `%` and `_` in the text are wildcards),
/// it has the given account, category and type, and its date lies in `[from, to]`.
pub open spec fn tx_selected(
    t: Transaction,
    search: Option<String>,
    account: Option<String>,
    category: Option<String>,
    tx_type: Option<String>,
    from: Option<i64>,
    to: Option<i64>,
) -> bool {
    &&& given(search) ==> like(t.note@, seq!['%'] + search->0@ + seq!['%'], None)
    &&& given(account) ==> t.account_id@ == account->0@
    &&& given(category) ==> t.category_id@ == category->0@
    &&& given(tx_type) ==> t.transaction_type.name_text() == tx_type->0@
    &&& from is Some ==> t.date >= from->0
    &&& to is Some ==> t.date <= to->0
}

/// The transactions that pass the filters, in table order.
pub open spec fn select_txs(
    s: Seq<Transaction>,
    search: Option<String>,
    account: Option<String>,
    category: Option<String>,
    tx_type: Option<String>,
    from: Option<i64>,
    to: Option<i64>,
) -> Seq<Transaction>
    decreases s.len(),
{
    if s.len() == 0 {
        seq![]
    } else {
        let rest = select_txs(s.drop_last(), search, account, category, tx_type, from, to);
        if tx_selected(s.last(), search, account, category, tx_type, from, to) { rest.push(s.last()) } else { rest }
    }
}

/// Listing order of transactions: newest date first, then the later-written first.
pub open spec fn newest_keys(s: Seq<Transaction>) -> Seq<Seq<i128>> {
    Seq::new(s.len(), |k: int| seq![(-(s[k].date as int)) as i128, (-k) as i128])
}

/// The rows kept by `LIMIT limit OFFSET offset`: a negative offset counts as 0
/// and a negative limit keeps everything.
pub open spec fn window<T>(s: Seq<T>, limit: Option<i64>, offset: Option<i64>) -> Seq<T> {
    let start: int = match offset {
        Some(o) => if o < 0 { 0 } else if o > s.len() { s.len() as int } else { o as int },
        None => 0,
    };
    let rest = s.skip(start);
    match limit {
        Some(l) => if l >= 0 && l < rest.len() { rest.take(l as int) } else { rest },
        None => rest,
    }
}

/// `out` is what the transaction listing gives for these parameters.
pub open spec fn is_tx_listing(
    txs: Seq<Transaction>,
    limit: Option<i64>,
    offset: Option<i64>,
    search: Option<String>,
    account: Option<String>,
    category: Option<String>,
    tx_type: Option<String>,
    from: Option<i64>,
    to: Option<i64>,
    out: Seq<Transaction>,
) -> bool {
    let sel = select_txs(txs, search, account, category, tx_type, from, to);
    exists|idx: Seq<usize>| is_stable_order(newest_keys(sel), idx) && #[trigger] arranged(sel, window(idx, limit, offset), out)
}

fn opt_chars(o: &Option<String>) -> (r: Option<Vec<char>>)
    ensures
        match r {
            Some(v) => given(*o) && v@ == o->0@,
            None => !given(*o),
        },
{
    match o {
        Some(s) => {
            let v = chars_of(s.as_str());
            if v.len() > 0 { Some(v) } else { None }
        },
        None => None,
    }
}

fn tx_selected_exec(
    t: &Transaction,
    pattern: &Option<Vec<char>>,
    account: &Option<String>,
    category: &Option<String>,
    tx_type: &Option<String>,
    from: Option<i64>,
    to: Option<i64>,
    Ghost(search): Ghost<Option<String>>,
) -> (r: bool)
    requires
        match pattern {
            Some(p) => given(search) && p@ == seq!['%'] + search->0@ + seq!['%'],
            None => !given(search),
        },
    ensures
        r == tx_selected(*t, search, *account, *category, *tx_type, from, to),
{
    match pattern {
        Some(p) => {
            let note = chars_of(t.note.as_str());
            if !like_match(&note, p, None) {
                return false;
            }
        },
        None => {},
    }
    match account {
        Some(a) => {
            if opt_chars(account).is_some() && !str_eq(t.account_id.as_str(), a.as_str()) {
                return false;
            }
        },
        None => {},
    }
    match category {
        Some(c) => {
            if opt_chars(category).is_some() && !str_eq(t.category_id.as_str(), c.as_str()) {
                return false;
            }
        },
        None => {},
    }
    match tx_type {
        Some(x) => {
            if opt_chars(tx_type).is_some() && !str_eq(t.transaction_type.as_str(), x.as_str()) {
                return false;
            }
        },
        None => {},
    }
    match from {
        Some(f) => { if t.date < f { return false; } },
        None => {},
    }
    match to {
        Some(x) => { if t.date > x { return false; } },
        None => {},
    }
    true
}

/// Transactions passing the filters, newest first, then cut by `limit`/`offset`.
/// An offset without a limit is a syntax error of the query.
pub fn transactions_all(
    store: &Store,
    limit: Option<i64>,
    offset: Option<i64>,
    search: Option<String>,
    account: Option<String>,
    category: Option<String>,
    tx_type: Option<String>,
    from: Option<i64>,
    to: Option<i64>,
) -> (r: Result<Vec<Transaction>, String>)
    ensures
        offset is Some && limit is None ==> (r matches Err(e) && e@ == "near \"OFFSET\": syntax error"@),
        !(offset is Some && limit is None) ==> (r matches Ok(v) && is_tx_listing(
            store@.transactions, limit, offset, search, account, category, tx_type, from, to, v@)),
{
    if offset.is_some() && limit.is_none() {
        return Err(crate::text::copy_str("near \"OFFSET\": syntax error"));
    }
    let pattern: Option<Vec<char>> = match opt_chars(&search) {
        Some(sc) => {
            let mut p: Vec<char> = Vec::new();
            p.push('%');
            let mut q: usize = 0;
            while q < sc.len()
                invariant
                    q <= sc.len(),
                    p@ == seq!['%'] + sc@.take(q as int),
                decreases sc.len() - q,
            {
                p.push(sc[q]);
                assert(sc@.take(q + 1) =~= sc@.take(q as int).push(sc@[q as int]));
                q += 1;
            }
            p.push('%');
            assert(sc@.take(sc.len() as int) =~= sc@);
            assert(p@ =~= seq!['%'] + sc@ + seq!['%']);
            Some(p)
        },
        None => None,
    };
    let n = store.transactions_len();
    let ghost rows = store@.transactions;
    let mut sel: Vec<Transaction> = Vec::new();
    let mut i: usize = 0;
    while i < n
        invariant
            n == rows.len(),
            rows == store@.transactions,
            i <= n,
            sel@ == select_txs(rows.take(i as int), search, account, category, tx_type, from, to),
            match pattern {
                Some(p) => given(search) && p@ == seq!['%'] + search->0@ + seq!['%'],
                None => !given(search),
            },
        decreases n - i,
    {
        let t = store.find_transaction_row(i);
        assert(rows.take(i + 1).drop_last() =~= rows.take(i as int));
        assert(rows.take(i + 1).last() == rows[i as int]);
        if tx_selected_exec(&t, &pattern, &account, &category, &tx_type, from, to, Ghost(search)) {
            sel.push(t);
        }
        i += 1;
    }
    assert(rows.take(n as int) =~= rows);
    let ghost sv = sel@;
    let mut keys: Vec<Vec<i128>> = Vec::new();
    let mut k: usize = 0;
    while k < sel.len()
        invariant
            sv == sel@,
            k <= sel.len(),
            keys@.map_values(|x: Vec<i128>| x@) == newest_keys(sv).take(k as int),
        decreases sel.len() - k,
    {
        let d: i128 = -(sel[k].date as i128);
        let pos: i128 = -(k as i128);
        let key: Vec<i128> = vec![d, pos];
        assert(key@ =~= newest_keys(sv)[k as int]);
        proof {
            let nk = newest_keys(sv);
            let a = keys@.push(key).map_values(|x: Vec<i128>| x@);
            let b = nk.take(k + 1);
            assert(keys@.map_values(|x: Vec<i128>| x@).len() == keys@.len());
            assert(a.len() == k + 1 && b.len() == k + 1);
            assert forall|q: int| 0 <= q < k + 1 implies a[q] == b[q] by {
                if q < k {
                    assert(keys@.map_values(|x: Vec<i128>| x@)[q] == nk.take(k as int)[q]);
                    assert(keys@.push(key)[q] == keys@[q]);
                } else {
                    assert(keys@.push(key)[q] == key);
                }
            }
            assert(a =~= b);
        }
        keys.push(key);
        k += 1;
    }
    assert(newest_keys(sv).take(sel.len() as int) =~= newest_keys(sv));
    let idx = stable_order(&keys);
    let start: usize = match offset {
        Some(o) => if o < 0 { 0 } else if (o as u64) > (idx.len() as u64) { idx.len() } else { o as usize },
        None => 0,
    };
    let end: usize = match limit {
        Some(l) => if l >= 0 && (l as u64) < ((idx.len() - start) as u64) { start + l as usize } else { idx.len() },
        None => idx.len(),
    };
    let ghost w = window(idx@, limit, offset);
    assert(w =~= idx@.subrange(start as int, end as int));
    let mut out: Vec<Transaction> = Vec::new();
    let mut j: usize = start;
    while j < end
        invariant
            sv == sel@,
            start <= j <= end <= idx.len(),
            w == idx@.subrange(start as int, end as int),
            is_stable_order(newest_keys(sv), idx@),
            out@.len() == j - start,
            forall|q: int| 0 <= q < j - start ==> out@[q] == sv[#[trigger] w[q] as int],
        decreases end - j,
    {
        let t = sel[idx[j]].duplicate();
        out.push(t);
        j += 1;
    }
    assert(arranged(sv, w, out@));
    Ok(out)
}

} // verus!

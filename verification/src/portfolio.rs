//! Investment bookkeeping: recording a fund transaction against its cash
//! account, refreshing NAVs, and the portfolio's daily totals.

use vstd::prelude::*;
use crate::db::{
    LedgerView, Store, account_ids, all_fit, apply_all, deltas_view, find_index, foreign_key_error,
    investment_ids, overflow_error, product_ids, unique_error,
};
use crate::models::{
    InvestmentTransaction, MutualFundProduct, PortfolioHolding, PortfolioSnapshot,
    PortfolioSummary,
};
use crate::commands::checked_sum;

verus! {

broadcast use vstd::string::group_string_axioms;

/// The kinds of investment transaction.
pub open spec fn is_investment_type(t: Seq<char>) -> bool {
    t == "BUY"@ || t == "SELL"@ || t == "DIVIDEND"@
}

/// The first reason an investment transaction is refused before the ledger is
/// looked at. `units_ok` and `nav_ok` say whether the units and the NAV are
/// finite, not negative, and above zero unless the transaction is a dividend.
pub open spec fn investment_input_error(p: InvestmentTransaction, units_ok: bool, nav_ok: bool) -> Option<Seq<char>> {
    let dividend = p.tx_type@ == "DIVIDEND"@;
    if !is_investment_type(p.tx_type@) {
        Some("Tipe transaksi investasi tidak valid"@)
    } else if !units_ok {
        Some(if dividend { "Units dividen tidak boleh negatif"@ } else { "Units harus > 0"@ })
    } else if !nav_ok {
        Some(if dividend { "NAV dividen tidak boleh negatif"@ } else { "NAV harus > 0"@ })
    } else if p.fee < 0 {
        Some("Fee tidak boleh negatif"@)
    } else {
        None
    }
}

/// `x` saturated to the 64-bit range.
pub open spec fn saturate(x: int) -> int {
    if x > i64::MAX { i64::MAX as int } else if x < i64::MIN { i64::MIN as int } else { x }
}

/// What a transaction does to its cash account: a purchase pays the total and
/// the fee, a sale receives the total less the fee (never below zero), a
/// dividend receives the total. `None` when the purchase's total and fee
/// together leave the 64-bit range.
pub open spec fn cash_delta(tx_type: Seq<char>, total: i64, fee: i64) -> Option<int> {
    if tx_type == "BUY"@ {
        if total + fee <= i64::MAX && total + fee >= i64::MIN { Some(-(total + fee)) } else { None }
    } else if tx_type == "SELL"@ {
        let s = saturate(total - fee);
        Some(if s < 0 { 0 } else { s })
    } else {
        Some(total as int)
    }
}

/// Decides `cash_delta`.
fn cash_delta_exec(tx_type: &str, total: i64, fee: i64) -> (r: Option<i64>)
    requires
        !(tx_type@ == "BUY"@ && total + fee == i64::MIN),
    ensures
        match (r, cash_delta(tx_type@, total, fee)) {
            (Some(a), Some(b)) => a == b,
            (None, None) => true,
            _ => false,
        },
{
    if crate::text::str_eq(tx_type, "BUY") {
        match total.checked_add(fee) {
            Some(v) => Some(-v),
            None => None,
        }
    } else if crate::text::str_eq(tx_type, "SELL") {
        let d: i128 = total as i128 - fee as i128;
        let s: i64 = if d > i64::MAX as i128 { i64::MAX } else if d < i64::MIN as i128 { i64::MIN } else { d as i64 };
        Some(if s < 0 { 0 } else { s })
    } else {
        Some(total)
    }
}

fn investment_input_error_exec(p: &InvestmentTransaction, units_ok: bool, nav_ok: bool) -> (r: Option<String>)
    ensures
        match (r, investment_input_error(*p, units_ok, nav_ok)) {
            (Some(e), Some(m)) => e@ == m,
            (None, None) => true,
            _ => false,
        },
{
    let t = p.tx_type.as_str();
    let dividend = crate::text::str_eq(t, "DIVIDEND");
    if !(crate::text::str_eq(t, "BUY") || crate::text::str_eq(t, "SELL") || dividend) {
        return Some(crate::text::copy_str("Tipe transaksi investasi tidak valid"));
    }
    if !units_ok {
        return Some(crate::text::copy_str(if dividend { "Units dividen tidak boleh negatif" } else { "Units harus > 0" }));
    }
    if !nav_ok {
        return Some(crate::text::copy_str(if dividend { "NAV dividen tidak boleh negatif" } else { "NAV harus > 0" }));
    }
    if p.fee < 0 {
        return Some(crate::text::copy_str("Fee tidak boleh negatif"));
    }
    None
}

/// The contract of `record_investment_tx_at`: the stored state `w` and the
/// result `r` after recording `p` on state `v`. `sell_refusal` is the complaint
/// about a sale of more units than are held, if there is one; it counts only
/// for a sale.
pub open spec fn record_investment_post(
    v: LedgerView,
    w: LedgerView,
    p: InvestmentTransaction,
    units_ok: bool,
    nav_ok: bool,
    sell_refusal: Option<String>,
    now: i64,
    r: Result<InvestmentTransaction, String>,
) -> bool {
    match investment_input_error(p, units_ok, nav_ok) {
        Some(m) => (r matches Err(e) && e@ == m) && w == v,
        None => if p.tx_type@ == "SELL"@ && sell_refusal is Some {
            r == Err::<InvestmentTransaction, String>(sell_refusal->0) && w == v
        } else if investment_ids(v.investments).contains(p.id@) {
            (r matches Err(e) && e@ == unique_error("investment_transactions"@)) && w == v
        } else if !account_ids(v.accounts).contains(p.account_id@) || !product_ids(v.products).contains(p.product_id@) {
            (r matches Err(e) && e@ == foreign_key_error()) && w == v
        } else {
            match cash_delta(p.tx_type@, p.total_amount, p.fee) {
                None => (r matches Err(e) && e@ == "Nominal total + fee overflow"@) && w == v,
                Some(d) => if !all_fit(v.accounts, seq![(p.account_id@, d)]) {
                    (r matches Err(e) && e@ == overflow_error()) && w == v
                } else {
                    &&& r == Ok::<InvestmentTransaction, String>(p)
                    &&& w == (LedgerView {
                        investments: v.investments.push(p),
                        accounts: apply_all(v.accounts, seq![(p.account_id@, d)], now),
                        ..v
                    })
                },
            }
        }
    }
}

/// A purchase that passes every check before its cash is moved but whose
/// total and fee add up to `i64::MIN`, which cannot be negated.
pub open spec fn buy_total_unpayable(v: LedgerView, p: InvestmentTransaction, units_ok: bool, nav_ok: bool) -> bool {
    &&& p.tx_type@ == "BUY"@
    &&& p.total_amount + p.fee == i64::MIN
    &&& investment_input_error(p, units_ok, nav_ok) is None
    &&& !investment_ids(v.investments).contains(p.id@)
    &&& account_ids(v.accounts).contains(p.account_id@)
    &&& product_ids(v.products).contains(p.product_id@)
}

/// Records one investment transaction at time `now` and moves its cash
/// account, all or nothing.
pub fn record_investment_tx_at(
    store: &mut Store,
    payload: InvestmentTransaction,
    units_ok: bool,
    nav_ok: bool,
    sell_refusal: Option<String>,
    now: i64,
) -> (r: Result<InvestmentTransaction, String>)
    requires
        old(store)@.wf(),
        !buy_total_unpayable(old(store)@, payload, units_ok, nav_ok),
    ensures
        final(store)@.wf(),
        record_investment_post(old(store)@, final(store)@, payload, units_ok, nav_ok, sell_refusal, now, r),
{
    match investment_input_error_exec(&payload, units_ok, nav_ok) {
        Some(e) => {
            return Err(e);
        },
        None => {},
    }
    if crate::text::str_eq(payload.tx_type.as_str(), "SELL") {
        match sell_refusal {
            Some(e) => {
                return Err(e);
            },
            None => {},
        }
    }
    if let Some(i) = store.find_investment(payload.id.as_str()) {
        assert(investment_ids(store@.investments)[i as int] == payload.id@);
        return crate::db::unique_err("investment_transactions");
    }
    let a = store.find_account(payload.account_id.as_str());
    let b = store.find_product(payload.product_id.as_str());
    match (a, b) {
        (Some(i), Some(j)) => {
            assert(account_ids(store@.accounts)[i as int] == payload.account_id@);
            assert(product_ids(store@.products)[j as int] == payload.product_id@);
        },
        _ => {
            return Err(crate::text::copy_str("FOREIGN KEY constraint failed"));
        },
    }
    let delta = match cash_delta_exec(payload.tx_type.as_str(), payload.total_amount, payload.fee) {
        Some(d) => d,
        None => {
            return Err(crate::text::copy_str("Nominal total + fee overflow"));
        },
    };
    let ds = crate::db::one_delta(payload.account_id.as_str(), delta as i128);
    if !store.apply_balance_changes(&ds, now) {
        return Err(crate::text::copy_str("integer overflow"));
    }
    proof { crate::db::lemma_apply_all_ids(old(store)@.accounts, deltas_view(ds@), now); }
    let ins = crate::db::investment_tx_insert(store, &payload);
    assert(ins is Ok);
    Ok(payload)
}

/// Records one investment transaction now; see `record_investment_tx_at`.
pub fn record_investment_tx(
    store: &mut Store,
    payload: InvestmentTransaction,
    units_ok: bool,
    nav_ok: bool,
    sell_refusal: Option<String>,
) -> (r: Result<InvestmentTransaction, String>)
    requires
        old(store)@.wf(),
        !buy_total_unpayable(old(store)@, payload, units_ok, nav_ok),
    ensures
        final(store)@.wf(),
        exists|now: i64| record_investment_post(old(store)@, final(store)@, payload, units_ok, nav_ok, sell_refusal, now, r),
{
    let now = crate::outside::now_ts();
    record_investment_tx_at(store, payload, units_ok, nav_ok, sell_refusal, now)
}

/// Whether some investment transaction of `invs` is for the product `id`.
pub open spec fn is_held(invs: Seq<InvestmentTransaction>, id: Seq<char>) -> bool {
    exists|j: int| 0 <= j < invs.len() && #[trigger] invs[j].product_id@ == id
}

/// The `(id, name)` of each cached product that some investment transaction
/// is for, in cache order: the products whose NAV a refresh looks up.
pub open spec fn held_names(ps: Seq<MutualFundProduct>, invs: Seq<InvestmentTransaction>) -> Seq<(String, String)>
    decreases ps.len(),
{
    if ps.len() == 0 {
        seq![]
    } else {
        let rest = held_names(ps.drop_last(), invs);
        if is_held(invs, ps.last().id@) { rest.push((ps.last().id, ps.last().name)) } else { rest }
    }
}

/// Decides `is_held` on the store's investment transactions.
fn product_is_held(store: &Store, id: &str) -> (r: bool)
    ensures
        r == is_held(store@.investments, id@),
{
    let n = store.investments_len();
    let mut j: usize = 0;
    while j < n
        invariant
            j <= n,
            n == store@.investments.len(),
            forall|i: int| 0 <= i < j ==> #[trigger] store@.investments[i].product_id@ != id@,
        decreases n - j,
    {
        let t = store.investment_row(j);
        if crate::text::str_eq(t.product_id.as_str(), id) {
            return true;
        }
        j += 1;
    }
    false
}

/// The `(id, name)` of every cached product that is held (see `held_names`).
pub fn held_product_names(store: &Store) -> (r: Vec<(String, String)>)
    ensures
        r@ == held_names(store@.products, store@.investments),
{
    let mut out: Vec<(String, String)> = Vec::new();
    let n = store.products_len();
    let mut k: usize = 0;
    while k < n
        invariant
            k <= n,
            n == store@.products.len(),
            out@ == held_names(store@.products.take(k as int), store@.investments),
        decreases n - k,
    {
        let p = store.product_row(k);
        let held = product_is_held(store, p.id.as_str());
        proof {
            assert(store@.products.take(k + 1).drop_last() =~= store@.products.take(k as int));
            assert(store@.products.take(k + 1).last() == p);
        }
        if held {
            out.push((p.id, p.name));
        }
        k += 1;
    }
    assert(store@.products.take(n as int) =~= store@.products);
    out
}

/// The products after setting the NAV of each `(id, nav)` in turn, stamped `now`.
pub open spec fn navs_applied(products: Seq<MutualFundProduct>, navs: Seq<(String, u64)>, now: i64) -> Seq<MutualFundProduct>
    decreases navs.len(),
{
    if navs.len() == 0 {
        products
    } else {
        let prev = navs_applied(products, navs.drop_last(), now);
        let (id, nav) = navs.last();
        match find_index(product_ids(prev), id@) {
            Some(k) => prev.update(k, MutualFundProduct { current_nav: nav, last_fetched_at: now, ..prev[k] }),
            None => prev,
        }
    }
}

/// Stores freshly fetched NAVs at time `now`; an id missing from the cache is
/// passed over. Gives back how many NAVs were handed in.
pub fn apply_navs(store: &mut Store, navs: &Vec<(String, u64)>, now: i64) -> (n: u32)
    requires
        old(store)@.wf(),
        navs.len() <= u32::MAX,
    ensures
        final(store)@.wf(),
        n == navs.len(),
        final(store)@ == (LedgerView { products: navs_applied(old(store)@.products, navs@, now), ..old(store)@ }),
{
    let mut i: usize = 0;
    while i < navs.len()
        invariant
            i <= navs.len(),
            store@.wf(),
            store@ == (LedgerView { products: navs_applied(old(store)@.products, navs@.take(i as int), now), ..old(store)@ }),
        decreases navs.len() - i,
    {
        assert(navs@.take(i + 1).drop_last() =~= navs@.take(i as int));
        assert(navs@.take(i + 1).last() == navs@[i as int]);
        let r = crate::db::product_nav_update(store, navs[i].0.as_str(), navs[i].1, now);
        i += 1;
    }
    assert(navs@.take(navs.len() as int) =~= navs@);
    navs.len() as u32
}

/// The current values of the holdings, in order.
pub open spec fn holding_values(hs: Seq<PortfolioHolding>) -> Seq<int> {
    hs.map_values(|h: PortfolioHolding| h.current_value as int)
}

/// The invested amounts of the holdings, in order.
pub open spec fn holding_invested(hs: Seq<PortfolioHolding>) -> Seq<int> {
    hs.map_values(|h: PortfolioHolding| h.total_invested as int)
}

/// The unrealised gains of the holdings, in order.
pub open spec fn holding_pnl(hs: Seq<PortfolioHolding>) -> Seq<int> {
    hs.map_values(|h: PortfolioHolding| h.unrealized_pnl as int)
}

/// The three sums of a portfolio stay in the 64-bit range at every step.
pub open spec fn totals_fit(hs: Seq<PortfolioHolding>) -> bool {
    checked_sum(holding_values(hs)) is Some && checked_sum(holding_invested(hs)) is Some
        && checked_sum(holding_pnl(hs)) is Some
}

/// Sums one column of the holdings.
fn sum_column(hs: &Vec<PortfolioHolding>, which: u8) -> (s: i64)
    requires
        which == 0 ==> checked_sum(holding_values(hs@)) is Some,
        which == 1 ==> checked_sum(holding_invested(hs@)) is Some,
        which >= 2 ==> checked_sum(holding_pnl(hs@)) is Some,
    ensures
        which == 0 ==> checked_sum(holding_values(hs@)) == Some(s as int),
        which == 1 ==> checked_sum(holding_invested(hs@)) == Some(s as int),
        which >= 2 ==> checked_sum(holding_pnl(hs@)) == Some(s as int),
{
    let ghost col = if which == 0 { holding_values(hs@) } else if which == 1 { holding_invested(hs@) } else { holding_pnl(hs@) };
    let mut acc: i64 = 0;
    let mut i: usize = 0;
    while i < hs.len()
        invariant
            i <= hs.len(),
            col.len() == hs.len(),
            col == if which == 0 { holding_values(hs@) } else if which == 1 { holding_invested(hs@) } else { holding_pnl(hs@) },
            checked_sum(col) is Some,
            checked_sum(col.take(i as int)) == Some(acc as int),
        decreases hs.len() - i,
    {
        proof { lemma_checked_sum_prefix(col, i + 1); }
        assert(col.take(i + 1).drop_last() =~= col.take(i as int));
        let x = if which == 0 { hs[i].current_value } else if which == 1 { hs[i].total_invested } else { hs[i].unrealized_pnl };
        assert(col[i as int] == x);
        assert(col.take(i + 1).last() == x);
        acc = acc + x;
        i += 1;
    }
    assert(col.take(hs.len() as int) =~= col);
    acc
}

/// A running sum that stays in range stays in range on every prefix.
proof fn lemma_checked_sum_prefix(xs: Seq<int>, k: int)
    requires
        0 <= k <= xs.len(),
        checked_sum(xs) is Some,
    ensures
        checked_sum(xs.take(k)) is Some,
    decreases xs.len() - k,
{
    if k < xs.len() {
        let t = xs.take(k + 1);
        lemma_checked_sum_prefix(xs, k + 1);
        assert(t.drop_last() =~= xs.take(k));
    } else {
        assert(xs.take(k) =~= xs);
    }
}

/// The portfolio's totals: the sums of the holdings' values, invested amounts
/// and unrealised gains.
pub fn portfolio_summary(holdings: &Vec<PortfolioHolding>) -> (r: Result<PortfolioSummary, String>)
    requires
        totals_fit(holdings@),
    ensures
        r matches Ok(s) && {
            &&& checked_sum(holding_values(holdings@)) == Some(s.total_value as int)
            &&& checked_sum(holding_invested(holdings@)) == Some(s.total_invested as int)
            &&& checked_sum(holding_pnl(holdings@)) == Some(s.unrealized_pnl as int)
        },
{
    Ok(PortfolioSummary {
        total_value: sum_column(holdings, 0),
        total_invested: sum_column(holdings, 1),
        unrealized_pnl: sum_column(holdings, 2),
    })
}

/// Whether the totals of `holdings` can be taken (see `totals_fit`).
pub fn holdings_fit(holdings: &Vec<PortfolioHolding>) -> (r: bool)
    ensures
        r == totals_fit(holdings@),
{
    column_fits(holdings, 0) && column_fits(holdings, 1) && column_fits(holdings, 2)
}

fn column_fits(hs: &Vec<PortfolioHolding>, which: u8) -> (r: bool)
    ensures
        which == 0 ==> r == (checked_sum(holding_values(hs@)) is Some),
        which == 1 ==> r == (checked_sum(holding_invested(hs@)) is Some),
        which >= 2 ==> r == (checked_sum(holding_pnl(hs@)) is Some),
{
    let ghost col = if which == 0 { holding_values(hs@) } else if which == 1 { holding_invested(hs@) } else { holding_pnl(hs@) };
    let mut acc: i64 = 0;
    let mut i: usize = 0;
    while i < hs.len()
        invariant
            i <= hs.len(),
            col.len() == hs.len(),
            col == if which == 0 { holding_values(hs@) } else if which == 1 { holding_invested(hs@) } else { holding_pnl(hs@) },
            checked_sum(col.take(i as int)) == Some(acc as int),
        decreases hs.len() - i,
    {
        assert(col.take(i + 1).drop_last() =~= col.take(i as int));
        let x = if which == 0 { hs[i].current_value } else if which == 1 { hs[i].total_invested } else { hs[i].unrealized_pnl };
        assert(col.take(i + 1).last() == x);
        match acc.checked_add(x) {
            Some(s) => {
                acc = s;
            },
            None => {
                proof { lemma_checked_sum_none_extends(col, i + 1); }
                return false;
            },
        }
        i += 1;
    }
    assert(col.take(hs.len() as int) =~= col);
    true
}

/// Once a running sum leaves the range, the whole sum does.
proof fn lemma_checked_sum_none_extends(xs: Seq<int>, k: int)
    requires
        0 <= k <= xs.len(),
        checked_sum(xs.take(k)) is None,
    ensures
        checked_sum(xs) is None,
{
    if checked_sum(xs) is Some {
        lemma_checked_sum_prefix(xs, k);
    }
}

/// Stores the day's totals of `holdings` as the snapshot of local midnight `day`
/// (replacing one already kept for that day) and gives it back.
pub fn record_daily_snapshot_at(store: &mut Store, holdings: &Vec<PortfolioHolding>, day: i64) -> (r: Result<PortfolioSnapshot, String>)
    requires
        old(store)@.wf(),
        totals_fit(holdings@),
    ensures
        final(store)@.wf(),
        r matches Ok(p) && {
            &&& p.day == day
            &&& checked_sum(holding_values(holdings@)) == Some(p.total_value as int)
            &&& checked_sum(holding_invested(holdings@)) == Some(p.total_invested as int)
            &&& checked_sum(holding_pnl(holdings@)) == Some(p.unrealized_pnl as int)
            &&& match find_index(crate::db::snapshot_days(old(store)@.snapshots), day) {
                Some(k) => final(store)@ == (LedgerView { snapshots: old(store)@.snapshots.update(k, p), ..old(store)@ }),
                None => final(store)@ == (LedgerView { snapshots: old(store)@.snapshots.push(p), ..old(store)@ }),
            }
        },
{
    let total_value = sum_column(holdings, 0);
    let total_invested = sum_column(holdings, 1);
    let unrealized_pnl = sum_column(holdings, 2);
    let r = crate::db::snapshot_upsert(store, day, total_value, total_invested, unrealized_pnl);
    Ok(PortfolioSnapshot { day, total_value, total_invested, unrealized_pnl })
}

/// The complaint when today's local midnight does not exist on the machine's
/// clock (a clock change skips it).
pub open spec fn no_midnight_error() -> Seq<char> {
    "Tengah malam lokal hari ini tidak ada (pergantian jam)"@
}

/// Stores today's totals of `holdings` as the snapshot of today's local
/// midnight; refused, with the ledger unchanged, when the machine's clock skips
/// that midnight.
pub fn record_daily_snapshot(store: &mut Store, holdings: &Vec<PortfolioHolding>) -> (r: Result<PortfolioSnapshot, String>)
    requires
        old(store)@.wf(),
        totals_fit(holdings@),
    ensures
        final(store)@.wf(),
        match r {
            Ok(p) => {
                &&& checked_sum(holding_values(holdings@)) == Some(p.total_value as int)
                &&& checked_sum(holding_invested(holdings@)) == Some(p.total_invested as int)
                &&& checked_sum(holding_pnl(holdings@)) == Some(p.unrealized_pnl as int)
                &&& match find_index(crate::db::snapshot_days(old(store)@.snapshots), p.day) {
                    Some(k) => final(store)@ == (LedgerView { snapshots: old(store)@.snapshots.update(k, p), ..old(store)@ }),
                    None => final(store)@ == (LedgerView { snapshots: old(store)@.snapshots.push(p), ..old(store)@ }),
                }
            },
            Err(e) => e@ == no_midnight_error() && final(store)@ == old(store)@,
        },
{
    match crate::outside::local_midnight_ts() {
        Some(day) => record_daily_snapshot_at(store, holdings, day),
        None => Err(crate::text::copy_str("Tengah malam lokal hari ini tidak ada (pergantian jam)")),
    }
}

} // verus!

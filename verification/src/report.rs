//! Summaries for the dashboard and the CSV export.

use vstd::prelude::*;
use crate::commands::checked_sum;
use crate::db::{account_ids, category_ids, find_index, overflow_error, LedgerView, Store};
use crate::listing::{is_tx_listing, transactions_all};
use crate::models::{Account, Category, CategorySpend, DashboardSummary, SavingsPocket, Transaction, TxType};
use crate::order::{arranged, is_stable_order, sorted_rows, text_key};
use crate::outside::csv_date;
use crate::text::{int_text, push_all, push_int_text, str_eq};

verus! {

broadcast use vstd::string::group_string_axioms;

/// Balances of the active accounts, in table order.
pub open spec fn active_balances(accs: Seq<Account>) -> Seq<int>
    decreases accs.len(),
{
    if accs.len() == 0 {
        seq![]
    } else {
        let rest = active_balances(accs.drop_last());
        if accs.last().is_active { rest.push(accs.last().current_balance as int) } else { rest }
    }
}

/// Amounts held in pockets, in table order.
pub open spec fn pocket_amounts(ps: Seq<SavingsPocket>) -> Seq<int>
    decreases ps.len(),
{
    if ps.len() == 0 {
        seq![]
    } else {
        pocket_amounts(ps.drop_last()).push(ps.last().current_amount as int)
    }
}

/// Amounts of the transactions of type `tt` dated in `[from, to]`, in table order.
pub open spec fn typed_amounts(txs: Seq<Transaction>, tt: TxType, from: i64, to: i64) -> Seq<int>
    decreases txs.len(),
{
    if txs.len() == 0 {
        seq![]
    } else {
        let rest = typed_amounts(txs.drop_last(), tt, from, to);
        let t = txs.last();
        if t.transaction_type == tt && from <= t.date <= to { rest.push(t.amount as int) } else { rest }
    }
}

/// A sum, or 0 when it overflowed (the dashboard reads a failed sum as 0).
pub open spec fn or_zero(o: Option<int>) -> int {
    match o {
        Some(x) => x,
        None => 0,
    }
}

/// Net worth: active account balances plus pocket amounts; 0 when a sum, or
/// their total, leaves the 64-bit range.
pub open spec fn net_worth(v: LedgerView) -> int {
    match (checked_sum(active_balances(v.accounts)), checked_sum(pocket_amounts(v.pockets))) {
        (Some(a), Some(b)) => if i64::MIN <= a + b <= i64::MAX { a + b } else { 0 },
        _ => 0,
    }
}

pub open spec fn period_income(v: LedgerView, from: i64, to: i64) -> int {
    or_zero(checked_sum(typed_amounts(v.transactions, TxType::Income, from, to)))
}

pub open spec fn period_expense(v: LedgerView, from: i64, to: i64) -> int {
    or_zero(checked_sum(typed_amounts(v.transactions, TxType::Expense, from, to)))
}

/// The net cash flow of the period fits in 64 bits (else the subtraction overflows).
pub open spec fn cashflow_fits(v: LedgerView, from: i64, to: i64) -> bool {
    i64::MIN <= period_income(v, from, to) - period_expense(v, from, to) <= i64::MAX
}

fn sum_active(store: &Store) -> (r: Option<i64>)
    ensures
        match checked_sum(active_balances(store@.accounts)) {
            Some(x) => r == Some(x as i64),
            None => r is None,
        },
{
    let n = store.accounts_len();
    let ghost rows = store@.accounts;
    let mut acc: i64 = 0;
    let mut ok = true;
    let mut i: usize = 0;
    while i < n
        invariant
            n == rows.len(),
            rows == store@.accounts,
            i <= n,
            ok == (checked_sum(active_balances(rows.take(i as int))) is Some),
            ok ==> checked_sum(active_balances(rows.take(i as int))) == Some(acc as int),
        decreases n - i,
    {
        let a = store.find_account_row(i);
        assert(rows.take(i + 1).drop_last() =~= rows.take(i as int));
        assert(rows.take(i + 1).last() == rows[i as int]);
        if a.is_active {
            assert(active_balances(rows.take(i + 1)).drop_last() =~= active_balances(rows.take(i as int)));
            if ok {
                match acc.checked_add(a.current_balance) {
                    Some(x) => { acc = x; },
                    None => { ok = false; },
                }
            }
        }
        i += 1;
    }
    assert(rows.take(n as int) =~= rows);
    if ok { Some(acc) } else { None }
}

fn sum_pockets(store: &Store) -> (r: Option<i64>)
    ensures
        match checked_sum(pocket_amounts(store@.pockets)) {
            Some(x) => r == Some(x as i64),
            None => r is None,
        },
{
    let n = store.pockets_len();
    let ghost rows = store@.pockets;
    let mut acc: i64 = 0;
    let mut ok = true;
    let mut i: usize = 0;
    while i < n
        invariant
            n == rows.len(),
            rows == store@.pockets,
            i <= n,
            ok == (checked_sum(pocket_amounts(rows.take(i as int))) is Some),
            ok ==> checked_sum(pocket_amounts(rows.take(i as int))) == Some(acc as int),
        decreases n - i,
    {
        let p = store.find_pocket_row(i);
        assert(rows.take(i + 1).drop_last() =~= rows.take(i as int));
        assert(rows.take(i + 1).last() == rows[i as int]);
        assert(pocket_amounts(rows.take(i + 1)).drop_last() =~= pocket_amounts(rows.take(i as int)));
        if ok {
            match acc.checked_add(p.current_amount) {
                Some(x) => { acc = x; },
                None => { ok = false; },
            }
        }
        i += 1;
    }
    assert(rows.take(n as int) =~= rows);
    if ok { Some(acc) } else { None }
}

fn sum_typed(store: &Store, tt: TxType, from: i64, to: i64) -> (r: Option<i64>)
    ensures
        match checked_sum(typed_amounts(store@.transactions, tt, from, to)) {
            Some(x) => r == Some(x as i64),
            None => r is None,
        },
{
    let n = store.transactions_len();
    let ghost rows = store@.transactions;
    let mut acc: i64 = 0;
    let mut ok = true;
    let mut i: usize = 0;
    while i < n
        invariant
            n == rows.len(),
            rows == store@.transactions,
            i <= n,
            ok == (checked_sum(typed_amounts(rows.take(i as int), tt, from, to)) is Some),
            ok ==> checked_sum(typed_amounts(rows.take(i as int), tt, from, to)) == Some(acc as int),
        decreases n - i,
    {
        let t = store.find_transaction_row(i);
        assert(rows.take(i + 1).drop_last() =~= rows.take(i as int));
        assert(rows.take(i + 1).last() == rows[i as int]);
        if t.transaction_type == tt && from <= t.date && t.date <= to {
            assert(typed_amounts(rows.take(i + 1), tt, from, to).drop_last() =~= typed_amounts(rows.take(i as int), tt, from, to));
            if ok {
                match acc.checked_add(t.amount) {
                    Some(x) => { acc = x; },
                    None => { ok = false; },
                }
            }
        }
        i += 1;
    }
    assert(rows.take(n as int) =~= rows);
    if ok { Some(acc) } else { None }
}

/// Whether the net cash flow of `[from, to]` fits in 64 bits.
pub fn dashboard_cashflow_fits(store: &Store, from: i64, to: i64) -> (r: bool)
    ensures
        r == cashflow_fits(store@, from, to),
{
    let inc = match sum_typed(store, TxType::Income, from, to) { Some(x) => x, None => 0 };
    let exp = match sum_typed(store, TxType::Expense, from, to) { Some(x) => x, None => 0 };
    inc.checked_sub(exp).is_some()
}

/// Dashboard totals for the period `[month_start, month_end]`.
pub fn dashboard(store: &Store, month_start: i64, month_end: i64) -> (r: Result<DashboardSummary, String>)
    requires
        cashflow_fits(store@, month_start, month_end),
    ensures
        r matches Ok(d) && {
            &&& d.net_worth == net_worth(store@)
            &&& d.total_income == period_income(store@, month_start, month_end)
            &&& d.total_expense == period_expense(store@, month_start, month_end)
            &&& d.net_cashflow == d.total_income - d.total_expense
            &&& d.total_savings == or_zero(checked_sum(pocket_amounts(store@.pockets)))
        },
{
    let a = sum_active(store);
    let b = sum_pockets(store);
    let net_worth: i64 = match (a, b) {
        (Some(x), Some(y)) => match x.checked_add(y) {
            Some(z) => z,
            None => 0,
        },
        _ => 0,
    };
    let savings = match b { Some(y) => y, None => 0 };
    let inc = match sum_typed(store, TxType::Income, month_start, month_end) { Some(x) => x, None => 0 };
    let exp = match sum_typed(store, TxType::Expense, month_start, month_end) { Some(x) => x, None => 0 };
    Ok(DashboardSummary {
        net_worth,
        total_income: inc,
        total_expense: exp,
        net_cashflow: inc - exp,
        total_savings: savings,
    })
}


/// Amounts of the expenses of category `cid` dated in `[from, to]`, in table order.
pub open spec fn category_expenses(txs: Seq<Transaction>, cid: Seq<char>, from: i64, to: i64) -> Seq<int>
    decreases txs.len(),
{
    if txs.len() == 0 {
        seq![]
    } else {
        let rest = category_expenses(txs.drop_last(), cid, from, to);
        let t = txs.last();
        if t.transaction_type == TxType::Expense && from <= t.date <= to && t.category_id@ == cid {
            rest.push(t.amount as int)
        } else {
            rest
        }
    }
}

/// One entry per category that has expenses in the period, in category table
/// order, with the category's name, colour, icon and total.
pub open spec fn spend_rows(cats: Seq<Category>, txs: Seq<Transaction>, from: i64, to: i64) -> Seq<CategorySpend>
    decreases cats.len(),
{
    if cats.len() == 0 {
        seq![]
    } else {
        let rest = spend_rows(cats.drop_last(), txs, from, to);
        let c = cats.last();
        let xs = category_expenses(txs, c.id@, from, to);
        if xs.len() > 0 {
            rest.push(CategorySpend {
                category_id: c.id,
                category_name: c.name,
                color_hex: c.color_hex,
                icon: c.icon,
                amount: or_zero(checked_sum(xs)) as i64,
            })
        } else {
            rest
        }
    }
}

/// Some category's total in the period leaves the 64-bit range.
pub open spec fn spend_overflows(cats: Seq<Category>, txs: Seq<Transaction>, from: i64, to: i64) -> bool {
    exists|k: int|
        0 <= k < cats.len() && #[trigger] category_expenses(txs, cats[k].id@, from, to).len() > 0
            && checked_sum(category_expenses(txs, cats[k].id@, from, to)) is None
}

/// Spending order: largest total first, then by category id.
pub open spec fn spend_order_key(s: CategorySpend) -> Seq<i128> {
    seq![(-(s.amount as int)) as i128] + text_key(s.category_id@)
}

/// Total of category `cid`'s expenses in the period, with their count.
fn category_total(store: &Store, cid: &str, from: i64, to: i64) -> (r: (usize, Option<i64>))
    ensures
        r.0 == category_expenses(store@.transactions, cid@, from, to).len(),
        match checked_sum(category_expenses(store@.transactions, cid@, from, to)) {
            Some(x) => r.1 == Some(x as i64),
            None => r.1 is None,
        },
{
    let n = store.transactions_len();
    let ghost rows = store@.transactions;
    let mut acc: i64 = 0;
    let mut ok = true;
    let mut count: usize = 0;
    let mut i: usize = 0;
    while i < n
        invariant
            n == rows.len(),
            rows == store@.transactions,
            i <= n,
            count == category_expenses(rows.take(i as int), cid@, from, to).len(),
            count <= i,
            ok == (checked_sum(category_expenses(rows.take(i as int), cid@, from, to)) is Some),
            ok ==> checked_sum(category_expenses(rows.take(i as int), cid@, from, to)) == Some(acc as int),
        decreases n - i,
    {
        let t = store.find_transaction_row(i);
        assert(rows.take(i + 1).drop_last() =~= rows.take(i as int));
        assert(rows.take(i + 1).last() == rows[i as int]);
        if t.transaction_type == TxType::Expense && from <= t.date && t.date <= to && str_eq(t.category_id.as_str(), cid) {
            assert(category_expenses(rows.take(i + 1), cid@, from, to).drop_last() =~= category_expenses(rows.take(i as int), cid@, from, to));
            count = count + 1;
            if ok {
                match acc.checked_add(t.amount) {
                    Some(x) => { acc = x; },
                    None => { ok = false; },
                }
            }
        }
        i += 1;
    }
    assert(rows.take(n as int) =~= rows);
    (count, if ok { Some(acc) } else { None })
}

fn spend_key_exec(s: &CategorySpend) -> (k: Vec<i128>)
    ensures
        k@ == spend_order_key(*s),
{
    let neg: i128 = -(s.amount as i128);
    let mut k: Vec<i128> = vec![neg];
    let cs = crate::text::chars_of(s.category_id.as_str());
    crate::order::push_text_key(&mut k, &cs);
    assert(k@ =~= spend_order_key(*s));
    k
}

fn copy_spend(s: &CategorySpend) -> (r: CategorySpend)
    ensures
        r == *s,
{
    CategorySpend {
        category_id: s.category_id.clone(),
        category_name: s.category_name.clone(),
        color_hex: s.color_hex.clone(),
        icon: s.icon.clone(),
        amount: s.amount,
    }
}

/// Spending per category in `[from, to]`, largest first; refused when a
/// category's total leaves the 64-bit range.
pub fn expense_by_category(store: &Store, from: i64, to: i64) -> (r: Result<Vec<CategorySpend>, String>)
    ensures
        ({
            let cats = store@.categories;
            let txs = store@.transactions;
            if spend_overflows(cats, txs, from, to) {
                r matches Err(e) && e@ == overflow_error()
            } else {
                r matches Ok(v) && sorted_rows(spend_rows(cats, txs, from, to), |s: CategorySpend| spend_order_key(s), v@)
            }
        }),
{
    let n = store.categories_len();
    let ghost cats = store@.categories;
    let ghost txs = store@.transactions;
    let mut rows: Vec<CategorySpend> = Vec::new();
    let mut i: usize = 0;
    while i < n
        invariant
            n == cats.len(),
            cats == store@.categories,
            txs == store@.transactions,
            i <= n,
            rows@ == spend_rows(cats.take(i as int), txs, from, to),
            !spend_overflows(cats.take(i as int), txs, from, to),
        decreases n - i,
    {
        let c = store.category_row(i);
        assert(cats.take(i + 1).drop_last() =~= cats.take(i as int));
        assert(cats.take(i + 1).last() == cats[i as int]);
        let (count, total) = category_total(store, c.id.as_str(), from, to);
        if count > 0 {
            match total {
                Some(x) => {
                    rows.push(CategorySpend {
                        category_id: c.id,
                        category_name: c.name,
                        color_hex: c.color_hex,
                        icon: c.icon,
                        amount: x,
                    });
                },
                None => {
                    proof {
                        assert(cats.take(i + 1)[i as int] == cats[i as int]);
                        assert(category_expenses(txs, cats[i as int].id@, from, to).len() > 0);
                        assert forall|q: int| 0 <= q < n implies #[trigger] cats[q] == cats[q] by {}
                        assert(spend_overflows(cats, txs, from, to));
                    }
                    return Err(crate::text::copy_str("integer overflow"));
                },
            }
        }
        proof {
            if spend_overflows(cats.take(i + 1), txs, from, to) {
                let k = choose|k: int| 0 <= k < cats.take(i + 1).len() && #[trigger] category_expenses(txs, cats.take(i + 1)[k].id@, from, to).len() > 0
                    && checked_sum(category_expenses(txs, cats.take(i + 1)[k].id@, from, to)) is None;
                if k < i {
                    assert(cats.take(i + 1)[k] == cats.take(i as int)[k]);
                }
            }
        }
        i += 1;
    }
    assert(cats.take(n as int) =~= cats);
    let ghost sv = rows@;
    let ghost kf = |s: CategorySpend| spend_order_key(s);
    let mut keys: Vec<Vec<i128>> = Vec::new();
    let mut k: usize = 0;
    while k < rows.len()
        invariant
            sv == rows@,
            k <= rows.len(),
            kf == (|s: CategorySpend| spend_order_key(s)),
            keys@.map_values(|x: Vec<i128>| x@) == sv.take(k as int).map_values(kf),
        decreases rows.len() - k,
    {
        let key = spend_key_exec(&rows[k]);
        proof { crate::order::lemma_keys_push(keys@, sv, kf, k as int, key); }
        keys.push(key);
        k += 1;
    }
    assert(sv.take(rows.len() as int) =~= sv);
    let idx = crate::order::stable_order(&keys);
    let mut out: Vec<CategorySpend> = Vec::new();
    let mut j: usize = 0;
    while j < idx.len()
        invariant
            sv == rows@,
            is_stable_order(sv.map_values(kf), idx@),
            j <= idx.len(),
            out@.len() == j,
            forall|q: int| 0 <= q < j ==> out@[q] == sv[#[trigger] idx@[q] as int],
        decreases idx.len() - j,
    {
        out.push(copy_spend(&rows[idx[j]]));
        j += 1;
    }
    assert(arranged(sv, idx@, out@));
    Ok(out)
}


/// A note as it goes into the CSV: each `"` becomes `''` and each line break a space.
pub open spec fn csv_note(s: Seq<char>) -> Seq<char>
    decreases s.len(),
{
    if s.len() == 0 {
        seq![]
    } else {
        let c = s.last();
        csv_note(s.drop_last()) + if c == '"' { seq!['\'', '\''] } else if c == '\n' { seq![' '] } else { seq![c] }
    }
}

/// The name of the account `id`, or "-".
pub open spec fn account_name_or_dash(accs: Seq<Account>, id: Seq<char>) -> Seq<char> {
    match find_index(account_ids(accs), id) {
        Some(k) => accs[k].name@,
        None => "-"@,
    }
}

/// The name of the category `id`, or "-".
pub open spec fn category_name_or_dash(cats: Seq<Category>, id: Seq<char>) -> Seq<char> {
    match find_index(category_ids(cats), id) {
        Some(k) => cats[k].name@,
        None => "-"@,
    }
}

/// One CSV line: id, date, type, account, category, amount, quoted note.
pub open spec fn csv_line(v: LedgerView, t: Transaction) -> Seq<char> {
    t.id@ + ","@ + csv_date(t.date) + ","@ + t.transaction_type.name_text() + ","@
        + account_name_or_dash(v.accounts, t.account_id@) + ","@
        + category_name_or_dash(v.categories, t.category_id@) + ","@ + int_text(t.amount as int)
        + ",\""@ + csv_note(t.note@) + "\"\n"@
}

/// The lines of `ts`, one after the other.
pub open spec fn csv_lines(v: LedgerView, ts: Seq<Transaction>) -> Seq<char>
    decreases ts.len(),
{
    if ts.len() == 0 {
        seq![]
    } else {
        csv_lines(v, ts.drop_last()) + csv_line(v, ts.last())
    }
}

/// The CSV header line.
pub open spec fn csv_header() -> Seq<char> {
    "id,tanggal,tipe,akun,kategori,nominal,catatan\n"@
}

fn push_csv_note(out: &mut Vec<char>, note: &str)
    ensures
        final(out)@ == old(out)@ + csv_note(note@),
{
    let cs = crate::text::chars_of(note);
    let mut i: usize = 0;
    while i < cs.len()
        invariant
            i <= cs.len(),
            cs@ == note@,
            out@ == old(out)@ + csv_note(cs@.take(i as int)),
        decreases cs.len() - i,
    {
        let c = cs[i];
        assert(cs@.take(i + 1).drop_last() =~= cs@.take(i as int));
        assert(cs@.take(i + 1).last() == c);
        if c == '"' {
            out.push('\'');
            out.push('\'');
            assert(out@ =~= old(out)@ + csv_note(cs@.take(i + 1)));
        } else if c == '\n' {
            out.push(' ');
            assert(out@ =~= old(out)@ + csv_note(cs@.take(i + 1)));
        } else {
            out.push(c);
            assert(out@ =~= old(out)@ + csv_note(cs@.take(i + 1)));
        }
        i += 1;
    }
    assert(cs@.take(cs.len() as int) =~= cs@);
}

/// Appends the CSV line of `t`.
#[verifier::rlimit(40)]
fn push_csv_line(store: &Store, out: &mut Vec<char>, t: &Transaction)
    requires
        store@.wf(),
    ensures
        final(out)@ == old(out)@ + csv_line(store@, *t),
{
    let ghost o0 = out@;
    push_all(out, t.id.as_str());
    push_all(out, ",");
    let date = crate::outside::format_csv_date(t.date);
    push_all(out, date.as_str());
    push_all(out, ",");
    push_all(out, t.transaction_type.as_str());
    push_all(out, ",");
    let ghost p1 = t.id@ + ","@ + csv_date(t.date) + ","@ + t.transaction_type.name_text() + ","@;
    assert(out@ =~= o0 + p1);
    let ghost o1 = out@;
    match store.find_account(t.account_id.as_str()) {
        Some(k) => {
            proof { crate::db::lemma_find_index_at(account_ids(store@.accounts), k as int); }
            let a = store.find_account_row(k);
            push_all(out, a.name.as_str());
        },
        None => {
            proof { crate::db::lemma_find_index_absent(account_ids(store@.accounts), t.account_id@); }
            push_all(out, "-");
        },
    }
    push_all(out, ",");
    let ghost p2 = account_name_or_dash(store@.accounts, t.account_id@) + ","@;
    assert(out@ =~= o1 + p2);
    let ghost o2 = out@;
    match store.find_category(t.category_id.as_str()) {
        Some(k) => {
            proof { crate::db::lemma_find_index_at(category_ids(store@.categories), k as int); }
            let c = store.category_row(k);
            push_all(out, c.name.as_str());
        },
        None => {
            proof { crate::db::lemma_find_index_absent(category_ids(store@.categories), t.category_id@); }
            push_all(out, "-");
        },
    }
    push_all(out, ",");
    let ghost p3 = category_name_or_dash(store@.categories, t.category_id@) + ","@;
    assert(out@ =~= o2 + p3);
    let ghost o3 = out@;
    push_int_text(out, t.amount);
    push_all(out, ",\"");
    push_csv_note(out, t.note.as_str());
    push_all(out, "\"\n");
    let ghost p4 = int_text(t.amount as int) + ",\""@ + csv_note(t.note@) + "\"\n"@;
    assert(out@ =~= o3 + p4);
    assert(csv_line(store@, *t) =~= p1 + p2 + p3 + p4);
    assert(out@ =~= old(out)@ + csv_line(store@, *t));
}

/// The transactions dated in `[from, to]` as CSV, newest first, with a header line.
pub fn export_transactions_csv(store: &Store, from: Option<i64>, to: Option<i64>) -> (r: Result<String, String>)
    requires
        store@.wf(),
    ensures
        r matches Ok(text) && exists|ts: Seq<Transaction>|
            is_tx_listing(store@.transactions, None, None, None, None, None, None, from, to, ts)
                && text@ == csv_header() + #[trigger] csv_lines(store@, ts),
{
    let txs = match transactions_all(store, None, None, None, None, None, None, from, to) {
        Ok(v) => v,
        Err(e) => {
            return Err(e);
        },
    };
    let mut out: Vec<char> = Vec::new();
    push_all(&mut out, "id,tanggal,tipe,akun,kategori,nominal,catatan\n");
    let mut i: usize = 0;
    while i < txs.len()
        invariant
            i <= txs.len(),
            store@.wf(),
            out@ == csv_header() + csv_lines(store@, txs@.take(i as int)),
        decreases txs.len() - i,
    {
        assert(txs@.take(i + 1).drop_last() =~= txs@.take(i as int));
        assert(txs@.take(i + 1).last() == txs@[i as int]);
        push_csv_line(store, &mut out, &txs[i]);
        assert(out@ =~= csv_header() + csv_lines(store@, txs@.take(i + 1)));
        i += 1;
    }
    assert(txs@.take(txs.len() as int) =~= txs@);
    Ok(crate::text::string_from_chars(&out))
}

} // verus!

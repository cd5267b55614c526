//! The user-facing operations: validation of inputs, and the bookkeeping that
//! keeps account balances in step with transactions and savings pockets.
//!
//! Each operation that needs a fresh identifier or the current time comes in two
//! forms: `name_at`, which takes them as arguments and whose contract is exact,
//! and `name`, which draws them from `outside::new_id` and `outside::now_ts`.

use vstd::prelude::*;
use crate::db::{
    account_ids, all_fit, apply_all, deltas_view, find_index, foreign_key_error, overflow_error,
    transaction_ids, tx_refs_ok, unique_error, LedgerView, Store,
};
use crate::models::{
    Account, AccountInput, AccountType, Category, CategoryInput, Obligation, ObligationInput,
    ObligationPayment, ObligationSummary, SavingsPocket, SavingsPocketInput, SyncStatus,
    Transaction, TransactionInput, TxType,
};
use crate::db::{obligation_ids, pocket_ids};
use crate::text::{blank, is_blank, str_eq, trim_text, trimmed};

verus! {

broadcast use vstd::string::group_string_axioms;

/// `o` with a blank string dropped (`o.filter(|s| !s.trim().is_empty())`).
pub open spec fn filter_blank(o: Option<String>) -> Option<String> {
    match o {
        Some(s) => if is_blank(s@) { None } else { Some(s) },
        None => None,
    }
}

pub fn filter_blank_exec(o: Option<String>) -> (r: Option<String>)
    ensures
        r == filter_blank(o),
{
    match o {
        Some(s) => if blank(s.as_str()) { None } else { Some(s) },
        None => None,
    }
}

fn fail<T>(msg: &str) -> (r: Result<T, String>)
    ensures
        r matches Err(e) && e@ == msg@,
{
    Err(crate::text::copy_str(msg))
}

// ── Transactions ────────────────────────────────────────────────────────────

/// The first reason a transaction input is refused, if any.
pub open spec fn tx_input_error(input: TransactionInput) -> Option<Seq<char>> {
    let transfer = TxType::parse(input.transaction_type@) == TxType::Transfer;
    if input.amount <= 0 {
        Some("Nominal harus > 0"@)
    } else if is_blank(input.account_id@) {
        Some("Akun wajib dipilih"@)
    } else if is_blank(input.category_id@) {
        Some("Kategori wajib dipilih"@)
    } else if transfer && (input.destination_account_id is None || is_blank(
        input.destination_account_id->0@,
    )) {
        Some("Akun tujuan wajib untuk transfer"@)
    } else if transfer && input.destination_account_id is Some && input.destination_account_id->0@
        == input.account_id@ {
        Some("Akun tujuan tidak boleh sama dengan akun sumber"@)
    } else {
        None
    }
}

/// The date a transaction gets: the given one, or `now` when it is 0.
pub open spec fn tx_date(date: i64, now: i64) -> i64 {
    if date == 0 {
        now
    } else {
        date
    }
}

/// The transaction created from `input` with identifier `id` at time `now`.
pub open spec fn tx_from_input(input: TransactionInput, id: String, now: i64) -> Transaction {
    Transaction {
        id,
        account_id: input.account_id,
        destination_account_id: filter_blank(input.destination_account_id),
        category_id: input.category_id,
        amount: input.amount,
        transaction_type: TxType::parse(input.transaction_type@),
        date: tx_date(input.date, now),
        note: input.note,
        receipt_url: filter_blank(input.receipt_url),
        sync_status: SyncStatus::Pending,
        sheet_row_id: None,
    }
}

/// The balance changes a transaction makes: income adds to its account, an
/// expense takes from it, a transfer takes from its account and adds to its
/// destination.
pub open spec fn tx_effect(t: Transaction) -> Seq<(Seq<char>, int)> {
    let a = t.amount as int;
    match t.transaction_type {
        TxType::Income => seq![(t.account_id@, a)],
        TxType::Expense => seq![(t.account_id@, -a)],
        TxType::Transfer => match t.destination_account_id {
            Some(d) => seq![(t.account_id@, -a), (d@, a)],
            None => seq![(t.account_id@, -a)],
        },
    }
}

/// The changes with their amounts negated.
pub open spec fn negate(ds: Seq<(Seq<char>, int)>) -> Seq<(Seq<char>, int)> {
    ds.map_values(|p: (Seq<char>, int)| (p.0, -p.1))
}

/// The balance changes that undo a transaction.
pub open spec fn tx_reversal(t: Transaction) -> Seq<(Seq<char>, int)> {
    negate(tx_effect(t))
}

/// The balance changes of `t` (or their reversal) as a vector.
fn tx_deltas(t: &Transaction, reverse: bool) -> (r: Vec<(String, i128)>)
    ensures
        deltas_view(r@) == if reverse { tx_reversal(*t) } else { tx_effect(*t) },
        forall|k: int| 0 <= k < r@.len() ==> -0x1_0000_0000_0000_0000 <= #[trigger] r@[k].1 <= 0x1_0000_0000_0000_0000,
{
    let a = t.amount as i128;
    let s: i128 = if reverse { -1 } else { 1 };
    let src: i128 = match t.transaction_type {
        TxType::Income => a,
        _ => -a,
    };
    let mut v: Vec<(String, i128)> = Vec::new();
    v.push((t.account_id.clone(), if reverse { -src } else { src }));
    if t.transaction_type == TxType::Transfer {
        match &t.destination_account_id {
            Some(d) => {
                v.push((d.clone(), if reverse { -a } else { a }));
            },
            None => {},
        }
    }
    proof {
        let e = tx_effect(*t);
        let want = if reverse { tx_reversal(*t) } else { e };
        assert(deltas_view(v@) =~= want);
    }
    v
}

/// Stored state and result of creating a transaction from `input`.
pub open spec fn create_tx_outcome(v: LedgerView, input: TransactionInput, id: String, now: i64) -> (LedgerView, Result<Transaction, Seq<char>>) {
    match tx_input_error(input) {
        Some(m) => (v, Err(m)),
        None => {
            let t = tx_from_input(input, id, now);
            if transaction_ids(v.transactions).contains(t.id@) {
                (v, Err(unique_error("transactions"@)))
            } else if !tx_refs_ok(v, t) {
                (v, Err(foreign_key_error()))
            } else if !all_fit(v.accounts, tx_effect(t)) {
                (v, Err(overflow_error()))
            } else {
                (LedgerView {
                    transactions: v.transactions.push(t),
                    accounts: apply_all(v.accounts, tx_effect(t), now),
                    ..v
                }, Ok(t))
            }
        },
    }
}

/// Whether an executable result is the one a specification gives.
pub open spec fn same_result<T>(r: Result<T, String>, s: Result<T, Seq<char>>) -> bool {
    match (r, s) {
        (Ok(a), Ok(b)) => a == b,
        (Err(e), Err(m)) => e@ == m,
        _ => false,
    }
}

/// Checks `input` for the first reason to refuse it.
fn check_tx_input(input: &TransactionInput) -> (r: Option<String>)
    ensures
        match (r, tx_input_error(*input)) {
            (None, None) => true,
            (Some(e), Some(m)) => e@ == m,
            _ => false,
        },
{
    if input.amount <= 0 {
        return Some(crate::text::copy_str("Nominal harus > 0"));
    }
    if blank(input.account_id.as_str()) {
        return Some(crate::text::copy_str("Akun wajib dipilih"));
    }
    if blank(input.category_id.as_str()) {
        return Some(crate::text::copy_str("Kategori wajib dipilih"));
    }
    let tt = TxType::from_str(input.transaction_type.as_str());
    if tt == TxType::Transfer {
        match &input.destination_account_id {
            None => {
                return Some(crate::text::copy_str("Akun tujuan wajib untuk transfer"));
            },
            Some(d) => {
                if blank(d.as_str()) {
                    return Some(crate::text::copy_str("Akun tujuan wajib untuk transfer"));
                }
                if str_eq(d.as_str(), input.account_id.as_str()) {
                    return Some(crate::text::copy_str("Akun tujuan tidak boleh sama dengan akun sumber"));
                }
            },
        }
    }
    None
}

/// Creates a transaction with identifier `id` at time `now`, and moves its amount
/// between balances; nothing changes when it is refused.
pub fn transactions_create_at(store: &mut Store, input: TransactionInput, id: String, now: i64) -> (r: Result<Transaction, String>)
    requires
        old(store)@.wf(),
    ensures
        final(store)@.wf(),
        final(store)@ == create_tx_outcome(old(store)@, input, id, now).0,
        same_result(r, create_tx_outcome(old(store)@, input, id, now).1),
{
    match check_tx_input(&input) {
        Some(e) => {
            return Err(e);
        },
        None => {},
    }
    let tx = Transaction {
        id,
        account_id: input.account_id,
        destination_account_id: filter_blank_exec(input.destination_account_id),
        category_id: input.category_id,
        amount: input.amount,
        transaction_type: TxType::from_str(input.transaction_type.as_str()),
        date: if input.date == 0 { now } else { input.date },
        note: input.note,
        receipt_url: filter_blank_exec(input.receipt_url),
        sync_status: SyncStatus::Pending,
        sheet_row_id: None,
    };
    let ds = tx_deltas(&tx, false);
    if let Some(i) = store.find_transaction(tx.id.as_str()) {
        assert(transaction_ids(store@.transactions)[i as int] == tx.id@);
        return crate::db::unique_err("transactions");
    }
    if !store.tx_refs_exist(&tx) {
        return fail("FOREIGN KEY constraint failed");
    }
    if !store.balance_changes_fit(&ds) {
        return fail("integer overflow");
    }
    let r = crate::db::transactions_insert(store, &tx);
    assert(r is Ok);
    let ok = store.apply_balance_changes(&ds, now);
    assert(ok);
    Ok(tx)
}


/// The transaction `old` rewritten from `input` at time `now`: it keeps its id
/// and sheet row, and becomes pending again.
pub open spec fn tx_updated(old: Transaction, input: TransactionInput, now: i64) -> Transaction {
    Transaction {
        id: old.id,
        account_id: input.account_id,
        destination_account_id: filter_blank(input.destination_account_id),
        category_id: input.category_id,
        amount: input.amount,
        transaction_type: TxType::parse(input.transaction_type@),
        date: tx_date(input.date, now),
        note: input.note,
        receipt_url: filter_blank(input.receipt_url),
        sync_status: SyncStatus::Pending,
        sheet_row_id: old.sheet_row_id,
    }
}

/// Stored state and result of rewriting transaction `id` from `input`: the old
/// transaction's balance changes are undone, the row is rewritten, and the new
/// changes are made. When the new account or category does not exist the undo
/// has already happened and stays, while the row keeps its old content.
pub open spec fn update_tx_outcome(v: LedgerView, id: Seq<char>, input: TransactionInput, now: i64) -> (LedgerView, Result<Transaction, Seq<char>>) {
    match tx_input_error(input) {
        Some(m) => (v, Err(m)),
        None => match find_index(transaction_ids(v.transactions), id) {
            None => (v, Err("Transaksi tidak ditemukan"@)),
            Some(k) => {
                let old = v.transactions[k];
                let t = tx_updated(old, input, now);
                if !all_fit(v.accounts, tx_reversal(old) + tx_effect(t)) {
                    (v, Err(overflow_error()))
                } else {
                    let v1 = LedgerView { accounts: apply_all(v.accounts, tx_reversal(old), now), ..v };
                    if !tx_refs_ok(v1, t) {
                        (v1, Err(foreign_key_error()))
                    } else {
                        (LedgerView {
                            accounts: apply_all(v1.accounts, tx_effect(t), now),
                            transactions: v.transactions.update(k, t),
                            ..v
                        }, Ok(t))
                    }
                }
            },
        },
    }
}

/// Concatenates two lists of balance changes.
fn concat_deltas(x: &Vec<(String, i128)>, y: &Vec<(String, i128)>) -> (r: Vec<(String, i128)>)
    requires
        forall|k: int| 0 <= k < x.len() ==> -0x1_0000_0000_0000_0000 <= #[trigger] x@[k].1 <= 0x1_0000_0000_0000_0000,
        forall|k: int| 0 <= k < y.len() ==> -0x1_0000_0000_0000_0000 <= #[trigger] y@[k].1 <= 0x1_0000_0000_0000_0000,
    ensures
        deltas_view(r@) == deltas_view(x@) + deltas_view(y@),
        forall|k: int| 0 <= k < r.len() ==> -0x1_0000_0000_0000_0000 <= #[trigger] r@[k].1 <= 0x1_0000_0000_0000_0000,
{
    let mut r: Vec<(String, i128)> = Vec::new();
    let mut i: usize = 0;
    while i < x.len()
        invariant
            i <= x.len(),
            r@ == x@.take(i as int),
        decreases x.len() - i,
    {
        r.push((x[i].0.clone(), x[i].1));
        assert(x@.take(i + 1) =~= x@.take(i as int).push(x@[i as int]));
        i += 1;
    }
    let mut j: usize = 0;
    while j < y.len()
        invariant
            j <= y.len(),
            i == x.len(),
            r@ == x@ + y@.take(j as int),
        decreases y.len() - j,
    {
        r.push((y[j].0.clone(), y[j].1));
        assert(y@.take(j + 1) =~= y@.take(j as int).push(y@[j as int]));
        j += 1;
    }
    assert(y@.take(y.len() as int) =~= y@);
    assert(deltas_view(r@) =~= deltas_view(x@) + deltas_view(y@));
    r
}

/// Rewrites transaction `id` from `input` at time `now`, moving balances from the
/// old amounts to the new ones.
pub fn transactions_update_at(store: &mut Store, id: &str, input: TransactionInput, now: i64) -> (r: Result<Transaction, String>)
    requires
        old(store)@.wf(),
    ensures
        final(store)@.wf(),
        final(store)@ == update_tx_outcome(old(store)@, id@, input, now).0,
        same_result(r, update_tx_outcome(old(store)@, id@, input, now).1),
{
    match check_tx_input(&input) {
        Some(e) => {
            return Err(e);
        },
        None => {},
    }
    let k = match store.find_transaction(id) {
        Some(k) => k,
        None => {
            return fail("Transaksi tidak ditemukan");
        },
    };
    proof { crate::db::lemma_find_index_at(transaction_ids(store@.transactions), k as int); }
    let old_tx = store.find_transaction_row(k);
    let t = Transaction {
        id: old_tx.id.clone(),
        account_id: input.account_id,
        destination_account_id: filter_blank_exec(input.destination_account_id),
        category_id: input.category_id,
        amount: input.amount,
        transaction_type: TxType::from_str(input.transaction_type.as_str()),
        date: if input.date == 0 { now } else { input.date },
        note: input.note,
        receipt_url: filter_blank_exec(input.receipt_url),
        sync_status: SyncStatus::Pending,
        sheet_row_id: old_tx.sheet_row_id,
    };
    let rev = tx_deltas(&old_tx, true);
    let eff = tx_deltas(&t, false);
    let all = concat_deltas(&rev, &eff);
    if !store.balance_changes_fit(&all) {
        return fail("integer overflow");
    }
    let ghost v = store@;
    proof {
        crate::db::lemma_apply_concat(v.accounts, deltas_view(rev@), deltas_view(eff@), now);
    }
    let ok = store.apply_balance_changes(&rev, now);
    assert(ok);
    proof { crate::db::lemma_apply_all_ids(v.accounts, deltas_view(rev@), now); }
    match crate::db::transactions_update(store, &t) {
        Err(e) => {
            return Err(e);
        },
        Ok(()) => {},
    }
    let ok2 = store.apply_balance_changes(&eff, now);
    assert(ok2);
    Ok(t)
}

/// Stored state and result of deleting transaction `id`: its balance changes are
/// undone first. Deleting a missing transaction changes nothing.
pub open spec fn delete_tx_outcome(v: LedgerView, id: Seq<char>, now: i64) -> (LedgerView, Result<(), Seq<char>>) {
    match find_index(transaction_ids(v.transactions), id) {
        None => (v, Ok(())),
        Some(k) => {
            let t = v.transactions[k];
            if !all_fit(v.accounts, tx_reversal(t)) {
                (v, Err(overflow_error()))
            } else {
                (LedgerView {
                    accounts: apply_all(v.accounts, tx_reversal(t), now),
                    transactions: v.transactions.remove(k),
                    ..v
                }, Ok(()))
            }
        },
    }
}

/// Deletes transaction `id` at time `now`, undoing its balance changes.
pub fn transactions_delete_at(store: &mut Store, id: &str, now: i64) -> (r: Result<(), String>)
    requires
        old(store)@.wf(),
    ensures
        final(store)@.wf(),
        final(store)@ == delete_tx_outcome(old(store)@, id@, now).0,
        same_result(r, delete_tx_outcome(old(store)@, id@, now).1),
{
    let k = match store.find_transaction(id) {
        Some(k) => k,
        None => {
            proof { crate::db::lemma_find_index_absent(transaction_ids(store@.transactions), id@); }
            return Ok(());
        },
    };
    proof { crate::db::lemma_find_index_at(transaction_ids(store@.transactions), k as int); }
    let t = store.find_transaction_row(k);
    let rev = tx_deltas(&t, true);
    if !store.apply_balance_changes(&rev, now) {
        return fail("integer overflow");
    }
    proof { crate::db::lemma_apply_all_ids(old(store)@.accounts, deltas_view(rev@), now); }
    let r = crate::db::transactions_delete(store, id);
    assert(r is Ok);
    Ok(())
}

// ── Accounts and categories ─────────────────────────────────────────────────

/// The account created from `input` with identifier `id` at time `now`.
pub open spec fn account_from_input(input: AccountInput, id: String, now: i64) -> Account {
    Account {
        id,
        name: input.name,
        account_type: AccountType::parse(input.account_type@),
        account_number: filter_blank(input.account_number),
        current_balance: input.current_balance,
        is_active: match input.is_active { Some(b) => b, None => true },
        created_at: now,
        updated_at: now,
    }
}

/// The contract of `accounts_create_at`: the stored state `w` and the result `r` after the
/// call on state `v`.
pub open spec fn accounts_create_post(v: LedgerView, w: LedgerView, input: AccountInput, id: String, now: i64, r: Result<Account, String>) -> bool {
    &&& (is_blank(input.name@) ==> (r matches Err(e) && e@ == "Nama akun wajib diisi"@) && w == v)
    &&& (!is_blank(input.name@) ==> {
            let a = account_from_input(input, id, now);
            if account_ids(v.accounts).contains(id@) {
                &&& r matches Err(e) && e@ == unique_error("accounts"@)
                &&& w == v
            } else {
                &&& r matches Ok(x) && x == Account { name: x.name, ..a } && x.name@ == trimmed(input.name@)
                &&& w == (LedgerView { accounts: v.accounts.push(r->Ok_0), ..v })
            }
        })
}


/// Creates an account with identifier `id` at time `now`. Its name is trimmed and
/// must not be empty; the refusal of a taken id changes nothing.
pub fn accounts_create_at(store: &mut Store, input: AccountInput, id: String, now: i64) -> (r: Result<Account, String>)
    requires
        old(store)@.wf(),
    ensures
        final(store)@.wf(),
        accounts_create_post(old(store)@, final(store)@, input, id, now, r),
{
    if blank(input.name.as_str()) {
        return fail("Nama akun wajib diisi");
    }
    let a = Account {
        id,
        name: trim_text(input.name.as_str()),
        account_type: AccountType::from_str(input.account_type.as_str()),
        account_number: filter_blank_exec(input.account_number),
        current_balance: input.current_balance,
        is_active: match input.is_active { Some(b) => b, None => true },
        created_at: now,
        updated_at: now,
    };
    match crate::db::accounts_insert(store, &a) {
        Ok(()) => Ok(a),
        Err(e) => Err(e),
    }
}

/// The account `old` rewritten from `input` at time `now`; an absent activity
/// flag keeps the old one.
pub open spec fn account_rewritten(old: Account, input: AccountInput, name: String, now: i64) -> Account {
    Account {
        id: old.id,
        name,
        account_type: AccountType::parse(input.account_type@),
        account_number: filter_blank(input.account_number),
        current_balance: input.current_balance,
        is_active: match input.is_active { Some(b) => b, None => old.is_active },
        created_at: old.created_at,
        updated_at: now,
    }
}

/// The contract of `accounts_update_at`: the stored state `w` and the result `r` after the
/// call on state `v`.
pub open spec fn accounts_update_post(v: LedgerView, w: LedgerView, id: Seq<char>, input: AccountInput, now: i64, r: Result<Account, String>) -> bool {
    &&& (is_blank(input.name@) ==> (r matches Err(e) && e@ == "Nama akun wajib diisi"@) && w == v)
    &&& (!is_blank(input.name@) ==> match find_index(account_ids(v.accounts), id) {
            None => (r matches Err(e) && e@ == "Akun tidak ditemukan"@) && w == v,
            Some(k) => {
                &&& r matches Ok(x) && x == account_rewritten(v.accounts[k], input, x.name, now) && x.name@ == trimmed(input.name@)
                &&& w == (LedgerView { accounts: v.accounts.update(k, r->Ok_0), ..v })
            }
        })
}


/// Rewrites account `id` from `input` at time `now` (the balance is set, not
/// adjusted). Refused with a blank name, or when there is no such account.
pub fn accounts_update_at(store: &mut Store, id: &str, input: AccountInput, now: i64) -> (r: Result<Account, String>)
    requires
        old(store)@.wf(),
    ensures
        final(store)@.wf(),
        accounts_update_post(old(store)@, final(store)@, id@, input, now, r),
{
    if blank(input.name.as_str()) {
        return fail("Nama akun wajib diisi");
    }
    let k = match store.find_account(id) {
        Some(k) => k,
        None => {
            proof { crate::db::lemma_find_index_absent(account_ids(store@.accounts), id@); }
            return fail("Akun tidak ditemukan");
        },
    };
    proof { crate::db::lemma_find_index_at(account_ids(store@.accounts), k as int); }
    let old_a = store.find_account_row(k);
    let a = Account {
        id: old_a.id,
        name: trim_text(input.name.as_str()),
        account_type: AccountType::from_str(input.account_type.as_str()),
        account_number: filter_blank_exec(input.account_number),
        current_balance: input.current_balance,
        is_active: match input.is_active { Some(b) => b, None => old_a.is_active },
        created_at: old_a.created_at,
        updated_at: now,
    };
    let r = crate::db::accounts_update(store, &a);
    assert(r is Ok);
    Ok(a)
}

/// The contract of `categories_create_at`: the stored state `w` and the result `r` after the
/// call on state `v`.
pub open spec fn categories_create_post(v: LedgerView, w: LedgerView, input: CategoryInput, id: String, r: Result<Category, String>) -> bool {
    &&& (is_blank(input.name@) ==> (r matches Err(e) && e@ == "Nama kategori wajib diisi"@) && w == v)
    &&& (!is_blank(input.name@) && crate::db::category_ids(v.categories).contains(id@) ==>
            (r matches Err(e) && e@ == unique_error("categories"@)) && w == v)
    &&& (!is_blank(input.name@) && !crate::db::category_ids(v.categories).contains(id@) ==> {
            &&& r matches Ok(c)
            &&& c.id == id
            &&& c.name@ == trimmed(input.name@)
            &&& c.category_type == TxType::parse(input.category_type@)
            &&& c.icon@ == if is_blank(input.icon@) { "wallet"@ } else { input.icon@ }
            &&& c.color_hex@ == if is_blank(input.color_hex@) { "#6366f1"@ } else { input.color_hex@ }
            &&& w == (LedgerView { categories: v.categories.push(c), ..v })
        })
}


/// Creates a category with identifier `id`. Its name is trimmed and must not be
/// empty; a blank icon becomes "wallet", a blank colour "#6366f1".
pub fn categories_create_at(store: &mut Store, input: CategoryInput, id: String) -> (r: Result<Category, String>)
    requires
        old(store)@.wf(),
    ensures
        final(store)@.wf(),
        categories_create_post(old(store)@, final(store)@, input, id, r),
{
    if blank(input.name.as_str()) {
        return fail("Nama kategori wajib diisi");
    }
    let icon = if blank(input.icon.as_str()) { crate::text::copy_str("wallet") } else { input.icon };
    let color_hex = if blank(input.color_hex.as_str()) { crate::text::copy_str("#6366f1") } else { input.color_hex };
    let c = Category {
        id,
        name: trim_text(input.name.as_str()),
        category_type: TxType::from_str(input.category_type.as_str()),
        icon,
        color_hex,
    };
    match crate::db::categories_insert(store, &c) {
        Ok(()) => Ok(c),
        Err(e) => Err(e),
    }
}


// ── Savings pockets ─────────────────────────────────────────────────────────

/// The colour a pocket gets: the given one, or "#10b981" when it is blank.
pub open spec fn pocket_color(c: Seq<char>) -> Seq<char> {
    if is_blank(c) {
        "#10b981"@
    } else {
        c
    }
}

/// `p` is the pocket built from `input` with identifier `id`.
pub open spec fn pocket_built(p: SavingsPocket, input: SavingsPocketInput, id: String) -> bool {
    &&& p.id == id
    &&& p.name@ == trimmed(input.name@)
    &&& p.target_amount == input.target_amount
    &&& p.current_amount == match input.current_amount { Some(a) => a, None => 0 }
    &&& p.linked_account_id == input.linked_account_id
    &&& p.target_date == input.target_date
    &&& p.color_tag@ == pocket_color(input.color_tag@)
    &&& p.is_locked == match input.is_locked { Some(b) => b, None => false }
}

/// The money that moves from the linked account into a new pocket.
pub open spec fn pocket_funding(input: SavingsPocketInput) -> Seq<(Seq<char>, int)> {
    let amt = match input.current_amount { Some(a) => a as int, None => 0 };
    if amt != 0 {
        seq![(input.linked_account_id@, -amt)]
    } else {
        seq![]
    }
}

fn no_deltas() -> (r: Vec<(String, i128)>)
    ensures
        deltas_view(r@) == Seq::<(Seq<char>, int)>::empty(),
        r@.len() == 0,
{
    let v: Vec<(String, i128)> = Vec::new();
    assert(deltas_view(v@) =~= Seq::<(Seq<char>, int)>::empty());
    v
}

fn pocket_color_exec(c: String) -> (r: String)
    ensures
        r@ == pocket_color(c@),
{
    if blank(c.as_str()) {
        crate::text::copy_str("#10b981")
    } else {
        c
    }
}

/// The contract of `pockets_create_at`: the stored state `w` and the result `r` after the
/// call on state `v`.
pub open spec fn pockets_create_post(v: LedgerView, w: LedgerView, input: SavingsPocketInput, id: String, now: i64, r: Result<SavingsPocket, String>) -> bool {
    &&& (is_blank(input.name@) ==> (r matches Err(e) && e@ == "Nama kantong wajib diisi"@) && w == v)
    &&& (!is_blank(input.name@) && input.target_amount <= 0 ==> (r matches Err(e) && e@ == "Target nominal harus > 0"@) && w == v)
    &&& (!is_blank(input.name@) && input.target_amount > 0 ==> {
            let ds = pocket_funding(input);
            let v1 = LedgerView { accounts: apply_all(v.accounts, ds, now), ..v };
            if !all_fit(v.accounts, ds) {
                (r matches Err(e) && e@ == overflow_error()) && w == v
            } else if pocket_ids(v.pockets).contains(id@) {
                (r matches Err(e) && e@ == unique_error("savings_pockets"@)) && w == v1
            } else if !account_ids(v.accounts).contains(input.linked_account_id@) {
                (r matches Err(e) && e@ == foreign_key_error()) && w == v1
            } else {
                &&& r matches Ok(p)
                &&& pocket_built(p, input, id)
                &&& w == (LedgerView { pockets: v1.pockets.push(p), ..v1 })
            }
        })
}


/// Creates a pocket with identifier `id` at time `now`. Its starting amount leaves
/// the linked account first; when the pocket row is then refused, that move stays.
pub fn pockets_create_at(store: &mut Store, input: SavingsPocketInput, id: String, now: i64) -> (r: Result<SavingsPocket, String>)
    requires
        old(store)@.wf(),
    ensures
        final(store)@.wf(),
        pockets_create_post(old(store)@, final(store)@, input, id, now, r),
{
    if blank(input.name.as_str()) {
        return fail("Nama kantong wajib diisi");
    }
    if input.target_amount <= 0 {
        return fail("Target nominal harus > 0");
    }
    let p = SavingsPocket {
        id,
        name: trim_text(input.name.as_str()),
        target_amount: input.target_amount,
        current_amount: match input.current_amount { Some(a) => a, None => 0 },
        linked_account_id: input.linked_account_id,
        target_date: input.target_date,
        color_tag: pocket_color_exec(input.color_tag),
        is_locked: match input.is_locked { Some(b) => b, None => false },
    };
    let ds = if p.current_amount != 0 {
        crate::db::one_delta(p.linked_account_id.as_str(), -(p.current_amount as i128))
    } else {
        no_deltas()
    };
    if !store.apply_balance_changes(&ds, now) {
        return fail("integer overflow");
    }
    proof { crate::db::lemma_apply_all_ids(old(store)@.accounts, deltas_view(ds@), now); }
    match crate::db::pockets_insert(store, &p) {
        Ok(()) => Ok(p),
        Err(e) => Err(e),
    }
}

/// The amount a pocket holds after an update.
pub open spec fn new_pocket_amount(old: SavingsPocket, input: SavingsPocketInput) -> int {
    match input.current_amount { Some(a) => a as int, None => old.current_amount as int }
}

/// The balance changes of a pocket update: within one account only the
/// difference moves; a pocket that changes account gives its old amount back to
/// the old account and takes its new amount from the new one.
pub open spec fn pocket_update_moves(old: SavingsPocket, input: SavingsPocketInput) -> Seq<(Seq<char>, int)> {
    let new_amt = new_pocket_amount(old, input);
    let delta = new_amt - old.current_amount;
    if input.linked_account_id@ == old.linked_account_id@ {
        if delta != 0 { seq![(old.linked_account_id@, -delta)] } else { seq![] }
    } else {
        (if old.current_amount != 0 { seq![(old.linked_account_id@, old.current_amount as int)] } else { seq![] })
            + (if new_amt != 0 { seq![(input.linked_account_id@, -new_amt)] } else { seq![] })
    }
}

/// `p` is pocket `old` rewritten from `input`.
pub open spec fn pocket_rewritten(p: SavingsPocket, old: SavingsPocket, input: SavingsPocketInput) -> bool {
    &&& p.id == old.id
    &&& p.name@ == trimmed(input.name@)
    &&& p.target_amount == input.target_amount
    &&& p.current_amount == new_pocket_amount(old, input)
    &&& p.linked_account_id == input.linked_account_id
    &&& p.target_date == input.target_date
    &&& p.color_tag@ == pocket_color(input.color_tag@)
    &&& p.is_locked == match input.is_locked { Some(b) => b, None => old.is_locked }
}

/// When the update gets as far as computing it (the pocket exists and the new
/// name is not blank), the difference between the new and the old amount of
/// the pocket fits in 64 bits.
pub open spec fn pocket_update_ok(v: LedgerView, id: Seq<char>, input: SavingsPocketInput) -> bool {
    match find_index(pocket_ids(v.pockets), id) {
        Some(k) => is_blank(input.name@)
            || i64::MIN <= new_pocket_amount(v.pockets[k], input) - v.pockets[k].current_amount <= i64::MAX,
        None => true,
    }
}

/// The contract of `pockets_update_at`: the stored state `w` and the result `r` after the
/// call on state `v`.
pub open spec fn pockets_update_post(v: LedgerView, w: LedgerView, id: Seq<char>, input: SavingsPocketInput, now: i64, r: Result<SavingsPocket, String>) -> bool {
    &&& (match find_index(pocket_ids(v.pockets), id) {
            None => (r matches Err(e) && e@ == "Kantong tidak ditemukan"@) && w == v,
            Some(k) => if is_blank(input.name@) {
                (r matches Err(e) && e@ == "Nama kantong wajib diisi"@) && w == v
            } else {
                let old_p = v.pockets[k];
                let ds = pocket_update_moves(old_p, input);
                let v1 = LedgerView { accounts: apply_all(v.accounts, ds, now), ..v };
                if !all_fit(v.accounts, ds) {
                    (r matches Err(e) && e@ == overflow_error()) && w == v
                } else if !account_ids(v.accounts).contains(input.linked_account_id@) {
                    (r matches Err(e) && e@ == foreign_key_error()) && w == v1
                } else {
                    &&& r matches Ok(p)
                    &&& pocket_rewritten(p, old_p, input)
                    &&& w == (LedgerView { pockets: v1.pockets.update(k, p), ..v1 })
                }
            }
        })
}


/// Rewrites pocket `id` from `input` at time `now`, moving money between the
/// pocket's account(s) and the pocket. When the new linked account does not exist
/// the moves have already happened and stay, while the row keeps its content.
pub fn pockets_update_at(store: &mut Store, id: &str, input: SavingsPocketInput, now: i64) -> (r: Result<SavingsPocket, String>)
    requires
        old(store)@.wf(),
        pocket_update_ok(old(store)@, id@, input),
    ensures
        final(store)@.wf(),
        pockets_update_post(old(store)@, final(store)@, id@, input, now, r),
{
    let k = match store.find_pocket(id) {
        Some(k) => k,
        None => {
            proof { crate::db::lemma_find_index_absent(pocket_ids(store@.pockets), id@); }
            return fail("Kantong tidak ditemukan");
        },
    };
    proof { crate::db::lemma_find_index_at(pocket_ids(store@.pockets), k as int); }
    if blank(input.name.as_str()) {
        return fail("Nama kantong wajib diisi");
    }
    let old_p = store.find_pocket_row(k);
    let new_amt = match input.current_amount { Some(a) => a, None => old_p.current_amount };
    let delta: i64 = new_amt - old_p.current_amount;
    let same = str_eq(input.linked_account_id.as_str(), old_p.linked_account_id.as_str());
    let ds = if same {
        if delta != 0 {
            crate::db::one_delta(old_p.linked_account_id.as_str(), -(delta as i128))
        } else {
            no_deltas()
        }
    } else {
        let a = if old_p.current_amount != 0 {
            crate::db::one_delta(old_p.linked_account_id.as_str(), old_p.current_amount as i128)
        } else {
            no_deltas()
        };
        let b = if new_amt != 0 {
            crate::db::one_delta(input.linked_account_id.as_str(), -(new_amt as i128))
        } else {
            no_deltas()
        };
        concat_deltas(&a, &b)
    };
    proof {
        assert(deltas_view(ds@) =~= pocket_update_moves(old_p, input));
    }
    if !store.apply_balance_changes(&ds, now) {
        return fail("integer overflow");
    }
    proof { crate::db::lemma_apply_all_ids(old(store)@.accounts, deltas_view(ds@), now); }
    let p = SavingsPocket {
        id: old_p.id,
        name: trim_text(input.name.as_str()),
        target_amount: input.target_amount,
        current_amount: new_amt,
        linked_account_id: input.linked_account_id,
        target_date: input.target_date,
        color_tag: pocket_color_exec(input.color_tag),
        is_locked: match input.is_locked { Some(b) => b, None => old_p.is_locked },
    };
    match crate::db::pockets_update(store, &p) {
        Ok(()) => Ok(p),
        Err(e) => Err(e),
    }
}

/// The pocket's amount stays in 64 bits after a deposit of `amount`.
pub open spec fn deposit_ok(v: LedgerView, id: Seq<char>, amount: i64) -> bool {
    match find_index(pocket_ids(v.pockets), id) {
        Some(k) => amount <= 0 || v.pockets[k].is_locked || v.pockets[k].current_amount + amount <= i64::MAX,
        None => true,
    }
}

/// The contract of `pockets_deposit_at`: the stored state `w` and the result `r` after the
/// call on state `v`.
pub open spec fn pockets_deposit_post(v: LedgerView, w: LedgerView, id: Seq<char>, amount: i64, now: i64, r: Result<SavingsPocket, String>) -> bool {
    &&& (amount <= 0 ==> (r matches Err(e) && e@ == "Nominal setor harus > 0"@) && w == v)
    &&& (amount > 0 ==> match find_index(pocket_ids(v.pockets), id) {
            None => (r matches Err(e) && e@ == "Kantong tidak ditemukan"@) && w == v,
            Some(k) => {
                let p = v.pockets[k];
                let ds = seq![(p.linked_account_id@, -(amount as int))];
                if p.is_locked {
                    (r matches Err(e) && e@ == "Kantong terkunci"@) && w == v
                } else if !all_fit(v.accounts, ds) {
                    (r matches Err(e) && e@ == overflow_error()) && w == v
                } else {
                    let q = SavingsPocket { current_amount: (p.current_amount + amount) as i64, ..p };
                    &&& r == Ok::<SavingsPocket, String>(q)
                    &&& w == (LedgerView {
                        accounts: apply_all(v.accounts, ds, now),
                        pockets: v.pockets.update(k, q),
                        ..v
                    })
                }
            }
        })
}


/// Moves `amount` from the linked account into pocket `id` at time `now`.
pub fn pockets_deposit_at(store: &mut Store, id: &str, amount: i64, now: i64) -> (r: Result<SavingsPocket, String>)
    requires
        old(store)@.wf(),
        deposit_ok(old(store)@, id@, amount),
    ensures
        final(store)@.wf(),
        pockets_deposit_post(old(store)@, final(store)@, id@, amount, now, r),
{
    if amount <= 0 {
        return fail("Nominal setor harus > 0");
    }
    let k = match store.find_pocket(id) {
        Some(k) => k,
        None => {
            proof { crate::db::lemma_find_index_absent(pocket_ids(store@.pockets), id@); }
            return fail("Kantong tidak ditemukan");
        },
    };
    proof { crate::db::lemma_find_index_at(pocket_ids(store@.pockets), k as int); }
    let mut p = store.find_pocket_row(k);
    if p.is_locked {
        return fail("Kantong terkunci");
    }
    p.current_amount = p.current_amount + amount;
    let ds = crate::db::one_delta(p.linked_account_id.as_str(), -(amount as i128));
    if !store.apply_balance_changes(&ds, now) {
        return fail("integer overflow");
    }
    proof {
        crate::db::lemma_apply_all_ids(old(store)@.accounts, deltas_view(ds@), now);
        crate::db::lemma_refs_of_wf(old(store)@);
    }
    let r = crate::db::pockets_update(store, &p);
    assert(r is Ok);
    Ok(p)
}

/// The contract of `pockets_withdraw_at`: the stored state `w` and the result `r` after the
/// call on state `v`.
pub open spec fn pockets_withdraw_post(v: LedgerView, w: LedgerView, id: Seq<char>, amount: i64, now: i64, r: Result<SavingsPocket, String>) -> bool {
    &&& (amount <= 0 ==> (r matches Err(e) && e@ == "Nominal tarik harus > 0"@) && w == v)
    &&& (amount > 0 ==> match find_index(pocket_ids(v.pockets), id) {
            None => (r matches Err(e) && e@ == "Kantong tidak ditemukan"@) && w == v,
            Some(k) => {
                let p = v.pockets[k];
                let ds = seq![(p.linked_account_id@, amount as int)];
                if amount > p.current_amount {
                    (r matches Err(e) && e@ == "Saldo kantong tidak cukup"@) && w == v
                } else if p.is_locked {
                    (r matches Err(e) && e@ == "Kantong terkunci"@) && w == v
                } else if !all_fit(v.accounts, ds) {
                    (r matches Err(e) && e@ == overflow_error()) && w == v
                } else {
                    let q = SavingsPocket { current_amount: (p.current_amount - amount) as i64, ..p };
                    &&& r == Ok::<SavingsPocket, String>(q)
                    &&& w == (LedgerView {
                        accounts: apply_all(v.accounts, ds, now),
                        pockets: v.pockets.update(k, q),
                        ..v
                    })
                }
            }
        })
}


/// Moves `amount` from pocket `id` back to its linked account at time `now`.
pub fn pockets_withdraw_at(store: &mut Store, id: &str, amount: i64, now: i64) -> (r: Result<SavingsPocket, String>)
    requires
        old(store)@.wf(),
    ensures
        final(store)@.wf(),
        pockets_withdraw_post(old(store)@, final(store)@, id@, amount, now, r),
{
    if amount <= 0 {
        return fail("Nominal tarik harus > 0");
    }
    let k = match store.find_pocket(id) {
        Some(k) => k,
        None => {
            proof { crate::db::lemma_find_index_absent(pocket_ids(store@.pockets), id@); }
            return fail("Kantong tidak ditemukan");
        },
    };
    proof { crate::db::lemma_find_index_at(pocket_ids(store@.pockets), k as int); }
    let mut p = store.find_pocket_row(k);
    if amount > p.current_amount {
        return fail("Saldo kantong tidak cukup");
    }
    if p.is_locked {
        return fail("Kantong terkunci");
    }
    p.current_amount = p.current_amount - amount;
    let ds = crate::db::one_delta(p.linked_account_id.as_str(), amount as i128);
    if !store.apply_balance_changes(&ds, now) {
        return fail("integer overflow");
    }
    proof {
        crate::db::lemma_apply_all_ids(old(store)@.accounts, deltas_view(ds@), now);
        crate::db::lemma_refs_of_wf(old(store)@);
    }
    let r = crate::db::pockets_update(store, &p);
    assert(r is Ok);
    Ok(p)
}


// ── Debts and receivables ───────────────────────────────────────────────────

/// The first reason an obligation input is refused, if any.
pub open spec fn obligation_input_error(input: ObligationInput) -> Option<Seq<char>> {
    if is_blank(input.counterparty@) || is_blank(input.title@) {
        Some("Counterparty dan judul wajib diisi"@)
    } else if input.direction@ != "DEBT"@ && input.direction@ != "RECEIVABLE"@ {
        Some("Arah obligasi tidak valid"@)
    } else if input.original_amount <= 0 {
        Some("Nominal asli harus > 0"@)
    } else {
        None
    }
}

/// What remains to be paid: the given remainder (the original amount when
/// absent), clamped to `0..=original_amount`.
pub open spec fn obligation_remaining(input: ObligationInput) -> i64 {
    let r = match input.remaining_amount { Some(x) => x, None => input.original_amount };
    if r < 0 { 0 } else if r > input.original_amount { input.original_amount } else { r }
}

/// The status text for a remainder: "DONE" at zero, "OPEN" otherwise.
pub open spec fn status_for(remaining: i64) -> Seq<char> {
    if remaining == 0 { "DONE"@ } else { "OPEN"@ }
}

/// `o` is the obligation built from `input`: a new one with identifier `id`
/// created at `now`, or a rewrite of `existing` that keeps its id and creation time.
pub open spec fn obligation_built(o: Obligation, input: ObligationInput, existing: Option<Obligation>, id: String, now: i64) -> bool {
    &&& o.id == match existing { Some(e) => e.id, None => id }
    &&& o.direction == input.direction
    &&& o.counterparty@ == trimmed(input.counterparty@)
    &&& o.title@ == trimmed(input.title@)
    &&& o.original_amount == input.original_amount
    &&& o.remaining_amount == obligation_remaining(input)
    &&& o.due_date == input.due_date
    &&& o.note == filter_blank(input.note)
    &&& o.status@ == status_for(obligation_remaining(input))
    &&& o.created_at == match existing { Some(e) => e.created_at, None => now }
    &&& o.updated_at == now
}

fn status_text(remaining: i64) -> (s: String)
    ensures
        s@ == status_for(remaining),
{
    if remaining == 0 {
        crate::text::copy_str("DONE")
    } else {
        crate::text::copy_str("OPEN")
    }
}

/// Validates `input` and builds the obligation it describes.
pub fn obligation_from_input(input: ObligationInput, existing: Option<Obligation>, id: String, now: i64) -> (r: Result<Obligation, String>)
    ensures
        match obligation_input_error(input) {
            Some(m) => r matches Err(e) && e@ == m,
            None => r matches Ok(o) && obligation_built(o, input, existing, id, now),
        },
{
    if blank(input.counterparty.as_str()) || blank(input.title.as_str()) {
        return fail("Counterparty dan judul wajib diisi");
    }
    if !str_eq(input.direction.as_str(), "DEBT") && !str_eq(input.direction.as_str(), "RECEIVABLE") {
        return fail("Arah obligasi tidak valid");
    }
    if input.original_amount <= 0 {
        return fail("Nominal asli harus > 0");
    }
    let given = match input.remaining_amount { Some(x) => x, None => input.original_amount };
    let remaining = if given < 0 { 0 } else if given > input.original_amount { input.original_amount } else { given };
    let (oid, created_at) = match existing {
        Some(e) => (e.id, e.created_at),
        None => (id, now),
    };
    Ok(Obligation {
        id: oid,
        direction: input.direction,
        counterparty: trim_text(input.counterparty.as_str()),
        title: trim_text(input.title.as_str()),
        original_amount: input.original_amount,
        remaining_amount: remaining,
        due_date: input.due_date,
        note: filter_blank_exec(input.note),
        status: status_text(remaining),
        created_at,
        updated_at: now,
    })
}

/// The contract of `obligation_create_at`: the stored state `w` and the result `r` after the
/// call on state `v`.
pub open spec fn obligation_create_post(v: LedgerView, w: LedgerView, input: ObligationInput, id: String, now: i64, r: Result<Obligation, String>) -> bool {
    &&& (match obligation_input_error(input) {
            Some(m) => (r matches Err(e) && e@ == m) && w == v,
            None => if obligation_ids(v.obligations).contains(id@) {
                (r matches Err(e) && e@ == unique_error("obligations"@)) && w == v
            } else {
                &&& r matches Ok(o)
                &&& obligation_built(o, input, None, id, now)
                &&& w == (LedgerView { obligations: v.obligations.push(o), ..v })
            }
        })
}


/// Creates an obligation with identifier `id` at time `now`.
pub fn obligation_create_at(store: &mut Store, input: ObligationInput, id: String, now: i64) -> (r: Result<Obligation, String>)
    requires
        old(store)@.wf(),
    ensures
        final(store)@.wf(),
        obligation_create_post(old(store)@, final(store)@, input, id, now, r),
{
    let o = match obligation_from_input(input, None, id, now) {
        Ok(o) => o,
        Err(e) => {
            return Err(e);
        },
    };
    match crate::db::obligation_insert(store, &o) {
        Ok(()) => Ok(o),
        Err(e) => Err(e),
    }
}

/// The contract of `obligation_update_at`: the stored state `w` and the result `r` after the
/// call on state `v`.
pub open spec fn obligation_update_post(v: LedgerView, w: LedgerView, id: Seq<char>, input: ObligationInput, now: i64, r: Result<Obligation, String>) -> bool {
    &&& (match find_index(obligation_ids(v.obligations), id) {
            None => (r matches Err(e) && e@ == "Obligasi tidak ditemukan"@) && w == v,
            Some(k) => match obligation_input_error(input) {
                Some(m) => (r matches Err(e) && e@ == m) && w == v,
                None => {
                    &&& r matches Ok(o)
                    &&& obligation_built(o, input, Some(v.obligations[k]), o.id, now)
                    &&& w == (LedgerView { obligations: v.obligations.update(k, o), ..v })
                },
            }
        })
}


/// Rewrites obligation `id` from `input` at time `now`.
pub fn obligation_update_at(store: &mut Store, id: &str, input: ObligationInput, now: i64) -> (r: Result<Obligation, String>)
    requires
        old(store)@.wf(),
    ensures
        final(store)@.wf(),
        obligation_update_post(old(store)@, final(store)@, id@, input, now, r),
{
    let k = match store.find_obligation(id) {
        Some(k) => k,
        None => {
            proof { crate::db::lemma_find_index_absent(obligation_ids(store@.obligations), id@); }
            return fail("Obligasi tidak ditemukan");
        },
    };
    proof { crate::db::lemma_find_index_at(obligation_ids(store@.obligations), k as int); }
    let old_o = store.find_obligation_row(k);
    let placeholder = old_o.id.clone();
    let o = match obligation_from_input(input, Some(old_o), placeholder, now) {
        Ok(o) => o,
        Err(e) => {
            return Err(e);
        },
    };
    let r = crate::db::obligation_update(store, &o);
    assert(r is Ok);
    assert(crate::db::obligation_updated(old(store)@.obligations[k as int], o) == o);
    Ok(o)
}

/// Category `k` is the first one of type `tt` by name (code point order),
/// the earlier row first among equal names.
pub open spec fn is_first_of_type(cats: Seq<Category>, tt: TxType, k: int) -> bool {
    &&& 0 <= k < cats.len()
    &&& cats[k].category_type == tt
    &&& forall|j: int|
        0 <= j < cats.len() && #[trigger] cats[j].category_type == tt ==> crate::order::key_le(
            crate::order::text_key(cats[k].name@),
            crate::order::text_key(cats[j].name@),
        ) && (crate::order::key_le(
            crate::order::text_key(cats[j].name@),
            crate::order::text_key(cats[k].name@),
        ) ==> k <= j)
}

/// The first category of type `tt` by name, if there is one.
pub open spec fn first_of_type(cats: Seq<Category>, tt: TxType) -> Option<int> {
    if exists|k: int| is_first_of_type(cats, tt, k) {
        Some(choose|k: int| is_first_of_type(cats, tt, k))
    } else {
        None
    }
}

proof fn lemma_first_unique(cats: Seq<Category>, tt: TxType, a: int, b: int)
    requires
        is_first_of_type(cats, tt, a),
        is_first_of_type(cats, tt, b),
    ensures
        a == b,
{
    assert(cats[b].category_type == tt);
    assert(cats[a].category_type == tt);
}

fn name_key(c: &Category) -> (k: Vec<i128>)
    ensures
        k@ == crate::order::text_key(c.name@),
{
    let mut k: Vec<i128> = Vec::new();
    let cs = crate::text::chars_of(c.name.as_str());
    crate::order::push_text_key(&mut k, &cs);
    assert(k@ =~= crate::order::text_key(c.name@));
    k
}

impl Store {
    /// The first category of type `tt` by name.
    pub fn first_category_of_type(&self, tt: TxType) -> (r: Option<Category>)
        ensures
            match first_of_type(self@.categories, tt) {
                Some(k) => r == Some(self@.categories[k]),
                None => r is None,
            },
    {
        let n = self.categories_len();
        let mut best: Option<usize> = None;
        let mut best_key: Vec<i128> = Vec::new();
        let mut i: usize = 0;
        let ghost cats = self@.categories;
        while i < n
            invariant
                n == cats.len(),
                cats == self@.categories,
                i <= n,
                match best {
                    None => forall|j: int| 0 <= j < i ==> #[trigger] cats[j].category_type != tt,
                    Some(b) => {
                        &&& b < i
                        &&& best_key@ == crate::order::text_key(cats[b as int].name@)
                        &&& is_first_of_type(cats.take(i as int), tt, b as int)
                    },
                },
            decreases n - i,
        {
            let c = self.category_row(i);
            let ghost prev = best;
            if c.category_type == tt {
                let key = name_key(&c);
                let better = match best {
                    None => true,
                    Some(_) => !crate::order::key_le_exec(&best_key, &key),
                };
                if better {
                    proof {
                        crate::order::lemma_key_le_total(best_key@, key@);
                        assert forall|j: int| 0 <= j < i + 1 && #[trigger] cats.take(i + 1)[j].category_type == tt implies
                            crate::order::key_le(crate::order::text_key(cats.take(i + 1)[i as int].name@), crate::order::text_key(cats.take(i + 1)[j].name@))
                            && (crate::order::key_le(crate::order::text_key(cats.take(i + 1)[j].name@), crate::order::text_key(cats.take(i + 1)[i as int].name@)) ==> i <= j) by {
                            assert(cats.take(i + 1)[j] == cats[j]);
                            assert(cats.take(i + 1)[i as int] == cats[i as int]);
                            if j < i {
                                assert(cats.take(i as int)[j] == cats[j]);
                                assert(cats.take(i as int)[j].category_type == tt);
                                match prev {
                                    None => {
                                        assert(cats[j].category_type != tt);
                                    },
                                    Some(b) => {
                                        assert(cats.take(i as int)[b as int] == cats[b as int]);
                                        assert(crate::order::key_le(best_key@, crate::order::text_key(cats[j].name@)));
                                        crate::order::lemma_key_le_trans(key@, best_key@, crate::order::text_key(cats[j].name@));
                                        if crate::order::key_le(crate::order::text_key(cats[j].name@), key@) {
                                            crate::order::lemma_key_le_trans(best_key@, crate::order::text_key(cats[j].name@), key@);
                                        }
                                    },
                                }
                            } else {
                                assert(j == i);
                                crate::order::lemma_key_le_total(key@, key@);
                            }
                        }
                    }
                    best = Some(i);
                    best_key = key;
                } else {
                    proof {
                        let b = best->0;
                        assert forall|j: int| 0 <= j < i + 1 && #[trigger] cats.take(i + 1)[j].category_type == tt implies
                            crate::order::key_le(crate::order::text_key(cats.take(i + 1)[b as int].name@), crate::order::text_key(cats.take(i + 1)[j].name@))
                            && (crate::order::key_le(crate::order::text_key(cats.take(i + 1)[j].name@), crate::order::text_key(cats.take(i + 1)[b as int].name@)) ==> b <= j) by {
                            if j < i {
                                assert(cats.take(i as int)[j] == cats[j]);
                                assert(cats.take(i as int)[j].category_type == tt);
                            }
                        }
                    }
                }
            } else {
                proof {
                    if let Some(b) = best {
                        assert forall|j: int| 0 <= j < i + 1 && #[trigger] cats.take(i + 1)[j].category_type == tt implies
                            crate::order::key_le(crate::order::text_key(cats.take(i + 1)[b as int].name@), crate::order::text_key(cats.take(i + 1)[j].name@))
                            && (crate::order::key_le(crate::order::text_key(cats.take(i + 1)[j].name@), crate::order::text_key(cats.take(i + 1)[b as int].name@)) ==> b <= j) by {
                            if j < i {
                                assert(cats.take(i as int)[j] == cats[j]);
                                assert(cats.take(i as int)[j].category_type == tt);
                            }
                        }
                    }
                }
            }
            i += 1;
        }
        assert(cats.take(n as int) =~= cats);
        match best {
            Some(b) => {
                proof {
                    let k = choose|k: int| is_first_of_type(cats, tt, k);
                    lemma_first_unique(cats, tt, k, b as int);
                }
                Some(self.category_row(b))
            },
            None => {
                proof {
                    if exists|k: int| is_first_of_type(cats, tt, k) {
                        let k = choose|k: int| is_first_of_type(cats, tt, k);
                        assert(cats[k].category_type == tt);
                    }
                }
                None
            },
        }
    }
}


/// The note of the cash transaction that records a payment of `o`.
pub open spec fn payment_note(o: Obligation) -> Seq<char> {
    "Pembayaran "@ + o.direction@ + ": "@ + o.title@
}

/// Paying a debt is an expense; collecting a receivable is income.
pub open spec fn payment_tx_type(o: Obligation) -> TxType {
    if o.direction@ == "DEBT"@ {
        TxType::Expense
    } else {
        TxType::Income
    }
}

/// `q` is `o` after a payment of `amount` at time `now`.
pub open spec fn obligation_paid(q: Obligation, o: Obligation, amount: i64, now: i64) -> bool {
    let rem = (o.remaining_amount - amount) as i64;
    &&& q == Obligation { status: q.status, remaining_amount: rem, updated_at: now, ..o }
    &&& q.status@ == status_for(rem)
}

/// `t` is the cash transaction recording a payment.
pub open spec fn payment_tx(t: Transaction, id: String, account: String, category: String, amount: i64, tt: TxType, date: i64, note: Seq<char>) -> bool {
    &&& t == Transaction { note: t.note, ..Transaction {
        id,
        account_id: account,
        destination_account_id: None,
        category_id: category,
        amount,
        transaction_type: tt,
        date,
        note: t.note,
        receipt_url: None,
        sync_status: SyncStatus::Pending,
        sheet_row_id: None,
    } }
    &&& t.note@ == note
}

fn payment_note_exec(o: &Obligation) -> (s: String)
    ensures
        s@ == payment_note(*o),
{
    let mut v: Vec<char> = Vec::new();
    crate::text::push_all(&mut v, "Pembayaran ");
    crate::text::push_all(&mut v, o.direction.as_str());
    crate::text::push_all(&mut v, ": ");
    crate::text::push_all(&mut v, o.title.as_str());
    assert(v@ =~= payment_note(*o));
    crate::text::string_from_chars(&v)
}

/// The contract of `obligation_pay_at`: the stored state `w` and the result `r` after the
/// call on state `v`.
pub open spec fn obligation_pay_post(v: LedgerView, w: LedgerView, payment: ObligationPayment, tx_id: String, now: i64, r: Result<Obligation, String>) -> bool {
    &&& (({
            let v = v;
            if payment.amount <= 0 {
                (r matches Err(e) && e@ == "Nominal pembayaran harus > 0"@) && w == v
            } else {
                match find_index(obligation_ids(v.obligations), payment.obligation_id@) {
                    None => (r matches Err(e) && e@ == "Obligasi tidak ditemukan"@) && w == v,
                    Some(k) => {
                        let o = v.obligations[k];
                        let date = match payment.date { Some(d) => d, None => now };
                        if payment.amount > o.remaining_amount {
                            (r matches Err(e) && e@ == "Pembayaran melebihi sisa obligasi"@) && w == v
                        } else {
                            match payment.account_id {
                                None => {
                                    &&& r matches Ok(q)
                                    &&& obligation_paid(q, o, payment.amount, now)
                                    &&& w == (LedgerView { obligations: v.obligations.update(k, q), ..v })
                                },
                                Some(acc) => {
                                    let tt = payment_tx_type(o);
                                    match first_of_type(v.categories, tt) {
                                        None => (r matches Err(e) && e@ == "Kategori transaksi tidak tersedia"@) && w == v,
                                        Some(c) => {
                                            let ds = seq![(acc@, if tt == TxType::Expense { -payment.amount } else { payment.amount as int })];
                                            if transaction_ids(v.transactions).contains(tx_id@) {
                                                (r matches Err(e) && e@ == unique_error("transactions"@)) && w == v
                                            } else if !account_ids(v.accounts).contains(acc@) {
                                                (r matches Err(e) && e@ == foreign_key_error()) && w == v
                                            } else if !all_fit(v.accounts, ds) {
                                                (r matches Err(e) && e@ == overflow_error()) && w == v
                                            } else {
                                                let t = w.transactions.last();
                                                &&& r matches Ok(q)
                                                &&& obligation_paid(q, o, payment.amount, now)
                                                &&& payment_tx(t, tx_id, acc, v.categories[c].id, payment.amount, tt, date, payment_note(o))
                                                &&& w == (LedgerView {
                                                    accounts: apply_all(v.accounts, ds, now),
                                                    transactions: v.transactions.push(t),
                                                    obligations: v.obligations.update(k, q),
                                                    ..v
                                                })
                                            }
                                        },
                                    }
                                },
                            }
                        }
                    },
                }
            }
        }))
}


/// Pays `payment.amount` of an obligation at time `now`, all or nothing. With an
/// account, the payment is also recorded as a cash transaction `tx_id` in the
/// first category (by name) of the matching type, and the balance moves.
pub fn obligation_pay_at(store: &mut Store, payment: ObligationPayment, tx_id: String, now: i64) -> (r: Result<Obligation, String>)
    requires
        old(store)@.wf(),
    ensures
        final(store)@.wf(),
        obligation_pay_post(old(store)@, final(store)@, payment, tx_id, now, r),
{
    if payment.amount <= 0 {
        return fail("Nominal pembayaran harus > 0");
    }
    let k = match store.find_obligation(payment.obligation_id.as_str()) {
        Some(k) => k,
        None => {
            proof { crate::db::lemma_find_index_absent(obligation_ids(store@.obligations), payment.obligation_id@); }
            return fail("Obligasi tidak ditemukan");
        },
    };
    proof { crate::db::lemma_find_index_at(obligation_ids(store@.obligations), k as int); }
    let o = store.find_obligation_row(k);
    if payment.amount > o.remaining_amount {
        return fail("Pembayaran melebihi sisa obligasi");
    }
    let remaining = o.remaining_amount - payment.amount;
    let date = match payment.date { Some(d) => d, None => now };
    match payment.account_id {
        Some(acc) => {
            let tt = if str_eq(o.direction.as_str(), "DEBT") { TxType::Expense } else { TxType::Income };
            let cat = match store.first_category_of_type(tt) {
                Some(c) => c,
                None => {
                    return fail("Kategori transaksi tidak tersedia");
                },
            };
            let ghost c = first_of_type(store@.categories, tt)->0;
            proof {
                assert(crate::db::category_ids(store@.categories)[c] == cat.id@);
            }
            let delta: i128 = if tt == TxType::Expense { -(payment.amount as i128) } else { payment.amount as i128 };
            let ds = crate::db::one_delta(acc.as_str(), delta);
            let t = Transaction {
                id: tx_id,
                account_id: acc,
                destination_account_id: None,
                category_id: cat.id,
                amount: payment.amount,
                transaction_type: tt,
                date,
                note: payment_note_exec(&o),
                receipt_url: None,
                sync_status: SyncStatus::Pending,
                sheet_row_id: None,
            };
            if let Some(i) = store.find_transaction(t.id.as_str()) {
                assert(transaction_ids(store@.transactions)[i as int] == t.id@);
                return crate::db::unique_err("transactions");
            }
            if !store.tx_refs_exist(&t) {
                return fail("FOREIGN KEY constraint failed");
            }
            if !store.balance_changes_fit(&ds) {
                return fail("integer overflow");
            }
            let ins = crate::db::transactions_insert(store, &t);
            assert(ins is Ok);
            let ok = store.apply_balance_changes(&ds, now);
            assert(ok);
            proof { crate::db::lemma_apply_all_ids(old(store)@.accounts, deltas_view(ds@), now); }
        },
        None => {},
    }
    let q = Obligation {
        id: o.id,
        direction: o.direction,
        counterparty: o.counterparty,
        title: o.title,
        original_amount: o.original_amount,
        remaining_amount: remaining,
        due_date: o.due_date,
        note: o.note,
        status: status_text(remaining),
        created_at: o.created_at,
        updated_at: now,
    };
    let r = crate::db::obligation_update(store, &q);
    assert(r is Ok);
    assert(crate::db::obligation_updated(old(store)@.obligations[k as int], q) == q);
    Ok(q)
}

/// The running sum of `xs` from the left, or `None` when a partial sum leaves
/// the 64-bit range (SQLite's `SUM` then fails with "integer overflow").
pub open spec fn checked_sum(xs: Seq<int>) -> Option<int>
    decreases xs.len(),
{
    if xs.len() == 0 {
        Some(0)
    } else {
        match checked_sum(xs.drop_last()) {
            Some(s) => if i64::MIN <= s + xs.last() <= i64::MAX { Some(s + xs.last()) } else { None },
            None => None,
        }
    }
}

/// Remaining amounts of the open obligations in direction `dir`, in table order.
pub open spec fn open_amounts(os: Seq<Obligation>, dir: Seq<char>) -> Seq<int>
    decreases os.len(),
{
    if os.len() == 0 {
        seq![]
    } else {
        let rest = open_amounts(os.drop_last(), dir);
        let o = os.last();
        if o.status@ == "OPEN"@ && o.direction@ == dir { rest.push(o.remaining_amount as int) } else { rest }
    }
}

/// Number of open obligations whose due date lies before `now`.
pub open spec fn overdue_count(os: Seq<Obligation>, now: i64) -> nat
    decreases os.len(),
{
    if os.len() == 0 {
        0
    } else {
        let o = os.last();
        overdue_count(os.drop_last(), now) + if o.status@ == "OPEN"@ && o.due_date is Some && o.due_date->0 < now { 1nat } else { 0nat }
    }
}

/// The contract of `obligation_summary_at`.
pub open spec fn obligation_summary_post(v: LedgerView, now: i64, r: Result<ObligationSummary, String>) -> bool {
    let os = v.obligations;
    match (checked_sum(open_amounts(os, "DEBT"@)), checked_sum(open_amounts(os, "RECEIVABLE"@))) {
        (Some(d), Some(c)) => if overdue_count(os, now) <= u32::MAX {
            r matches Ok(s) && s.total_debt == d && s.total_receivable == c && s.overdue_count == overdue_count(os, now)
        } else {
            r matches Err(e) && e@ == overflow_error()
        },
        _ => r matches Err(e) && e@ == overflow_error(),
    }
}

/// Totals of the open debts and receivables, and the number overdue at `now`.
pub fn obligation_summary_at(store: &Store, now: i64) -> (r: Result<ObligationSummary, String>)
    ensures
        obligation_summary_post(store@, now, r),
{
    let n = store.obligations_len();
    let ghost os = store@.obligations;
    let mut debt: i64 = 0;
    let mut recv: i64 = 0;
    let mut debt_ok = true;
    let mut recv_ok = true;
    let mut overdue: u64 = 0;
    let mut i: usize = 0;
    while i < n
        invariant
            n == os.len(),
            os == store@.obligations,
            i <= n,
            overdue == overdue_count(os.take(i as int), now),
            overdue <= i,
            debt_ok == (checked_sum(open_amounts(os.take(i as int), "DEBT"@)) is Some),
            debt_ok ==> checked_sum(open_amounts(os.take(i as int), "DEBT"@)) == Some(debt as int),
            recv_ok == (checked_sum(open_amounts(os.take(i as int), "RECEIVABLE"@)) is Some),
            recv_ok ==> checked_sum(open_amounts(os.take(i as int), "RECEIVABLE"@)) == Some(recv as int),
        decreases n - i,
    {
        let o = store.find_obligation_row(i);
        assert(os.take(i + 1).drop_last() =~= os.take(i as int));
        assert(os.take(i + 1).last() == os[i as int]);
        let open = str_eq(o.status.as_str(), "OPEN");
        let is_debt = str_eq(o.direction.as_str(), "DEBT");
        let is_recv = str_eq(o.direction.as_str(), "RECEIVABLE");
        if open && is_debt {
            assert(open_amounts(os.take(i + 1), "DEBT"@) == open_amounts(os.take(i as int), "DEBT"@).push(o.remaining_amount as int));
            assert(open_amounts(os.take(i + 1), "DEBT"@).drop_last() =~= open_amounts(os.take(i as int), "DEBT"@));
            if debt_ok {
                match debt.checked_add(o.remaining_amount) {
                    Some(x) => { debt = x; },
                    None => { debt_ok = false; },
                }
            }
        } else {
            assert(open_amounts(os.take(i + 1), "DEBT"@) == open_amounts(os.take(i as int), "DEBT"@));
        }
        if open && is_recv {
            assert(open_amounts(os.take(i + 1), "RECEIVABLE"@) == open_amounts(os.take(i as int), "RECEIVABLE"@).push(o.remaining_amount as int));
            assert(open_amounts(os.take(i + 1), "RECEIVABLE"@).drop_last() =~= open_amounts(os.take(i as int), "RECEIVABLE"@));
            if recv_ok {
                match recv.checked_add(o.remaining_amount) {
                    Some(x) => { recv = x; },
                    None => { recv_ok = false; },
                }
            }
        } else {
            assert(open_amounts(os.take(i + 1), "RECEIVABLE"@) == open_amounts(os.take(i as int), "RECEIVABLE"@));
        }
        let due = match o.due_date { Some(d) => d < now, None => false };
        if open && due {
            overdue = overdue + 1;
        }
        i += 1;
    }
    assert(os.take(n as int) =~= os);
    if !debt_ok || !recv_ok || overdue > u32::MAX as u64 {
        return fail("integer overflow");
    }
    Ok(ObligationSummary { total_debt: debt, total_receivable: recv, overdue_count: overdue as u32 })
}


// ── Operations with a fresh identifier and the current time ─────────────────

pub fn accounts_list(store: &Store) -> (r: Result<Vec<Account>, String>)
    ensures
        r matches Ok(v) && crate::order::sorted_rows(store@.accounts, |a: Account| crate::listing::account_order_key(a), v@),
{
    crate::listing::accounts_all(store)
}

pub fn accounts_create(store: &mut Store, input: AccountInput) -> (r: Result<Account, String>)
    requires
        old(store)@.wf(),
    ensures
        final(store)@.wf(),
        exists|id: String, now: i64| accounts_create_post(old(store)@, final(store)@, input, id, now, r),
{
    let id = crate::outside::new_id();
    let now = crate::outside::now_ts();
    accounts_create_at(store, input, id, now)
}

pub fn accounts_update(store: &mut Store, id: String, input: AccountInput) -> (r: Result<Account, String>)
    requires
        old(store)@.wf(),
    ensures
        final(store)@.wf(),
        exists|now: i64| accounts_update_post(old(store)@, final(store)@, id@, input, now, r),
{
    let now = crate::outside::now_ts();
    accounts_update_at(store, id.as_str(), input, now)
}

pub fn accounts_delete(store: &mut Store, id: String) -> (r: Result<(), String>)
    requires
        old(store)@.wf(),
    ensures
        final(store)@.wf(),
        match find_index(account_ids(old(store)@.accounts), id@) {
            Some(k) => if old(store)@.account_in_use(id@) {
                &&& r matches Err(e) && e@ == foreign_key_error()
                &&& final(store)@ == old(store)@
            } else {
                &&& r is Ok
                &&& final(store)@ == (LedgerView { accounts: old(store)@.accounts.remove(k), ..old(store)@ })
            },
            None => r is Ok && final(store)@ == old(store)@,
        },
{
    crate::db::accounts_delete(store, id.as_str())
}

pub fn categories_list(store: &Store) -> (r: Result<Vec<Category>, String>)
    ensures
        r matches Ok(v) && crate::order::sorted_rows(store@.categories, |c: Category| crate::listing::category_order_key(c), v@),
{
    crate::listing::categories_all(store)
}

pub fn categories_create(store: &mut Store, input: CategoryInput) -> (r: Result<Category, String>)
    requires
        old(store)@.wf(),
    ensures
        final(store)@.wf(),
        exists|id: String| categories_create_post(old(store)@, final(store)@, input, id, r),
{
    let id = crate::outside::new_id();
    categories_create_at(store, input, id)
}

pub fn categories_delete(store: &mut Store, id: String) -> (r: Result<(), String>)
    requires
        old(store)@.wf(),
    ensures
        final(store)@.wf(),
        match find_index(crate::db::category_ids(old(store)@.categories), id@) {
            Some(k) => if old(store)@.category_in_use(id@) {
                &&& r matches Err(e) && e@ == foreign_key_error()
                &&& final(store)@ == old(store)@
            } else {
                &&& r is Ok
                &&& final(store)@ == (LedgerView { categories: old(store)@.categories.remove(k), ..old(store)@ })
            },
            None => r is Ok && final(store)@ == old(store)@,
        },
{
    crate::db::categories_delete(store, id.as_str())
}

pub fn transactions_list(
    store: &Store,
    limit: Option<i64>,
    offset: Option<i64>,
    search: Option<String>,
    account_id: Option<String>,
    category_id: Option<String>,
    tx_type: Option<String>,
    from: Option<i64>,
    to: Option<i64>,
) -> (r: Result<Vec<Transaction>, String>)
    ensures
        offset is Some && limit is None ==> (r matches Err(e) && e@ == "near \"OFFSET\": syntax error"@),
        !(offset is Some && limit is None) ==> (r matches Ok(v) && crate::listing::is_tx_listing(
            store@.transactions, limit, offset, search, account_id, category_id, tx_type, from, to, v@)),
{
    crate::listing::transactions_all(store, limit, offset, search, account_id, category_id, tx_type, from, to)
}

pub fn transactions_create(store: &mut Store, input: TransactionInput) -> (r: Result<Transaction, String>)
    requires
        old(store)@.wf(),
    ensures
        final(store)@.wf(),
        exists|id: String, now: i64|
            final(store)@ == create_tx_outcome(old(store)@, input, id, now).0
                && #[trigger] same_result(r, create_tx_outcome(old(store)@, input, id, now).1),
{
    let id = crate::outside::new_id();
    let now = crate::outside::now_ts();
    transactions_create_at(store, input, id, now)
}

pub fn transactions_update(store: &mut Store, id: String, input: TransactionInput) -> (r: Result<Transaction, String>)
    requires
        old(store)@.wf(),
    ensures
        final(store)@.wf(),
        exists|now: i64|
            final(store)@ == update_tx_outcome(old(store)@, id@, input, now).0
                && #[trigger] same_result(r, update_tx_outcome(old(store)@, id@, input, now).1),
{
    let now = crate::outside::now_ts();
    transactions_update_at(store, id.as_str(), input, now)
}

pub fn transactions_delete(store: &mut Store, id: String) -> (r: Result<(), String>)
    requires
        old(store)@.wf(),
    ensures
        final(store)@.wf(),
        exists|now: i64|
            final(store)@ == delete_tx_outcome(old(store)@, id@, now).0
                && #[trigger] same_result(r, delete_tx_outcome(old(store)@, id@, now).1),
{
    let now = crate::outside::now_ts();
    transactions_delete_at(store, id.as_str(), now)
}

pub fn pockets_list(store: &Store) -> (r: Result<Vec<SavingsPocket>, String>)
    ensures
        r matches Ok(v) && crate::order::sorted_rows(store@.pockets, |p: SavingsPocket| crate::listing::pocket_order_key(p), v@),
{
    crate::listing::pockets_all(store)
}

pub fn pockets_create(store: &mut Store, input: SavingsPocketInput) -> (r: Result<SavingsPocket, String>)
    requires
        old(store)@.wf(),
    ensures
        final(store)@.wf(),
        exists|id: String, now: i64| pockets_create_post(old(store)@, final(store)@, input, id, now, r),
{
    let id = crate::outside::new_id();
    let now = crate::outside::now_ts();
    pockets_create_at(store, input, id, now)
}

pub fn pockets_update(store: &mut Store, id: String, input: SavingsPocketInput) -> (r: Result<SavingsPocket, String>)
    requires
        old(store)@.wf(),
        pocket_update_ok(old(store)@, id@, input),
    ensures
        final(store)@.wf(),
        exists|now: i64| pockets_update_post(old(store)@, final(store)@, id@, input, now, r),
{
    let now = crate::outside::now_ts();
    pockets_update_at(store, id.as_str(), input, now)
}

pub fn pockets_delete(store: &mut Store, id: String) -> (r: Result<(), String>)
    requires
        old(store)@.wf(),
    ensures
        final(store)@.wf(),
        exists|now: i64| crate::db::pockets_delete_post(old(store)@, final(store)@, id@, now, r),
{
    crate::db::pockets_delete(store, id.as_str())
}

pub fn pockets_deposit(store: &mut Store, id: String, amount: i64) -> (r: Result<SavingsPocket, String>)
    requires
        old(store)@.wf(),
        deposit_ok(old(store)@, id@, amount),
    ensures
        final(store)@.wf(),
        exists|now: i64| pockets_deposit_post(old(store)@, final(store)@, id@, amount, now, r),
{
    let now = crate::outside::now_ts();
    pockets_deposit_at(store, id.as_str(), amount, now)
}

pub fn pockets_withdraw(store: &mut Store, id: String, amount: i64) -> (r: Result<SavingsPocket, String>)
    requires
        old(store)@.wf(),
    ensures
        final(store)@.wf(),
        exists|now: i64| pockets_withdraw_post(old(store)@, final(store)@, id@, amount, now, r),
{
    let now = crate::outside::now_ts();
    pockets_withdraw_at(store, id.as_str(), amount, now)
}

/// Whether a pocket update keeps the difference of amounts in 64 bits.
pub fn pocket_update_fits(store: &Store, id: &str, input: &SavingsPocketInput) -> (r: bool)
    requires
        store@.wf(),
    ensures
        r == pocket_update_ok(store@, id@, *input),
{
    match store.find_pocket(id) {
        Some(k) => {
            proof { crate::db::lemma_find_index_first_scan(pocket_ids(store@.pockets), k as int); }
            let p = store.find_pocket_row(k);
            let new_amt = match input.current_amount { Some(a) => a, None => p.current_amount };
            blank(input.name.as_str()) || new_amt.checked_sub(p.current_amount).is_some()
        },
        None => {
            proof { crate::db::lemma_find_index_absent(pocket_ids(store@.pockets), id@); }
            true
        },
    }
}

/// Whether a deposit keeps the pocket's amount in 64 bits.
pub fn deposit_fits(store: &Store, id: &str, amount: i64) -> (r: bool)
    requires
        store@.wf(),
    ensures
        r == deposit_ok(store@, id@, amount),
{
    match store.find_pocket(id) {
        Some(k) => {
            proof { crate::db::lemma_find_index_first_scan(pocket_ids(store@.pockets), k as int); }
            let p = store.find_pocket_row(k);
            amount <= 0 || p.is_locked || p.current_amount.checked_add(amount).is_some()
        },
        None => {
            proof { crate::db::lemma_find_index_absent(pocket_ids(store@.pockets), id@); }
            true
        },
    }
}

pub fn dashboard_summary(store: &Store, from: i64, to: i64) -> (r: Result<crate::models::DashboardSummary, String>)
    requires
        crate::report::cashflow_fits(store@, from, to),
    ensures
        r matches Ok(d) && {
            &&& d.net_worth == crate::report::net_worth(store@)
            &&& d.total_income == crate::report::period_income(store@, from, to)
            &&& d.total_expense == crate::report::period_expense(store@, from, to)
            &&& d.net_cashflow == d.total_income - d.total_expense
            &&& d.total_savings == crate::report::or_zero(checked_sum(crate::report::pocket_amounts(store@.pockets)))
        },
{
    crate::report::dashboard(store, from, to)
}

pub fn expense_by_category(store: &Store, from: i64, to: i64) -> (r: Result<Vec<crate::models::CategorySpend>, String>)
    ensures
        ({
            let cats = store@.categories;
            let txs = store@.transactions;
            if crate::report::spend_overflows(cats, txs, from, to) {
                r matches Err(e) && e@ == overflow_error()
            } else {
                r matches Ok(v) && crate::order::sorted_rows(crate::report::spend_rows(cats, txs, from, to), |s: crate::models::CategorySpend| crate::report::spend_order_key(s), v@)
            }
        }),
{
    crate::report::expense_by_category(store, from, to)
}

pub fn export_csv(store: &Store, from: Option<i64>, to: Option<i64>) -> (r: Result<String, String>)
    requires
        store@.wf(),
    ensures
        r matches Ok(text) && exists|ts: Seq<Transaction>|
            crate::listing::is_tx_listing(store@.transactions, None, None, None, None, None, None, from, to, ts)
                && text@ == crate::report::csv_header() + #[trigger] crate::report::csv_lines(store@, ts),
{
    crate::report::export_transactions_csv(store, from, to)
}

/// What the synchronisation status of state `v` reports: the number of
/// unsynced transactions ("synced" when there is none, "pending" otherwise)
/// and the settings.
pub open spec fn sync_info_of(v: LedgerView, info: crate::models::SyncInfo) -> bool {
    let c = crate::db::pending_count_spec(v.transactions);
    &&& info.pending_count == c
    &&& info.status@ == if c == 0 { "synced"@ } else { "pending"@ }
    &&& info.sheet_url == v.sheet_url
    &&& info.auto_sync == v.auto_sync
}

/// Synchronisation status: the number of unsynced transactions ("synced" when
/// there is none, "pending" otherwise) and the settings.
pub fn sync_status(store: &Store) -> (r: Result<crate::models::SyncInfo, String>)
    ensures
        r matches Ok(info) && sync_info_of(store@, info),
{
    let pending = crate::db::pending_count(store);
    let status = if pending == 0 { crate::text::copy_str("synced") } else { crate::text::copy_str("pending") };
    let (url, auto) = crate::db::load_settings(store);
    Ok(crate::models::SyncInfo { status, pending_count: pending, sheet_url: url, auto_sync: auto })
}

/// The URL kept by the settings: trimmed, and none when blank.
pub open spec fn settings_url(u: Option<String>) -> Option<Seq<char>> {
    match u {
        Some(s) => if trimmed(s@).len() > 0 { Some(trimmed(s@)) } else { None },
        None => None,
    }
}

/// The contract of `settings_save`: state `w` after saving `sheet_url` and
/// `auto_sync` on state `v`. Only the two settings change.
pub open spec fn settings_save_post(v: LedgerView, w: LedgerView, sheet_url: Option<String>, auto_sync: bool) -> bool {
    &&& w == (LedgerView { sheet_url: w.sheet_url, auto_sync, ..v })
    &&& match settings_url(sheet_url) {
        Some(u) => w.sheet_url matches Some(x) && x@ == u,
        None => w.sheet_url is None,
    }
}

/// Saves the spreadsheet URL (trimmed; removed when blank) and the auto-sync flag.
pub fn settings_save(store: &mut Store, sheet_url: Option<String>, auto_sync: bool) -> (r: Result<(), String>)
    requires
        old(store)@.wf(),
    ensures
        final(store)@.wf(),
        r is Ok,
        settings_save_post(old(store)@, final(store)@, sheet_url, auto_sync),
{
    let url = match &sheet_url {
        Some(s) => {
            if blank(s.as_str()) {
                None
            } else {
                Some(trim_text(s.as_str()))
            }
        },
        None => None,
    };
    crate::db::save_settings(store, &url, auto_sync)
}

pub fn obligations_list(store: &Store) -> (r: Result<Vec<Obligation>, String>)
    ensures
        r matches Ok(v) && crate::order::sorted_rows(store@.obligations, |o: Obligation| crate::listing::obligation_order_key(o), v@),
{
    crate::listing::obligations_all(store)
}

/// Totals of the open obligations, with the overdue ones counted against the
/// current time.
pub fn obligation_summary(store: &Store) -> (r: Result<ObligationSummary, String>)
    ensures
        exists|now: i64| obligation_summary_post(store@, now, r),
{
    let now = crate::outside::now_ts();
    obligation_summary_at(store, now)
}

pub fn obligations_summary(store: &Store) -> (r: Result<ObligationSummary, String>)
    ensures
        exists|now: i64| obligation_summary_post(store@, now, r),
{
    obligation_summary(store)
}

pub fn obligation_create(store: &mut Store, input: ObligationInput) -> (r: Result<Obligation, String>)
    requires
        old(store)@.wf(),
    ensures
        final(store)@.wf(),
        exists|id: String, now: i64| obligation_create_post(old(store)@, final(store)@, input, id, now, r),
{
    let id = crate::outside::new_id();
    let now = crate::outside::now_ts();
    obligation_create_at(store, input, id, now)
}

pub fn obligation_update(store: &mut Store, id: String, input: ObligationInput) -> (r: Result<Obligation, String>)
    requires
        old(store)@.wf(),
    ensures
        final(store)@.wf(),
        exists|now: i64| obligation_update_post(old(store)@, final(store)@, id@, input, now, r),
{
    let now = crate::outside::now_ts();
    obligation_update_at(store, id.as_str(), input, now)
}

pub fn obligation_delete(store: &mut Store, id: String) -> (r: Result<(), String>)
    requires
        old(store)@.wf(),
    ensures
        final(store)@.wf(),
        r is Ok,
        match find_index(obligation_ids(old(store)@.obligations), id@) {
            Some(k) => final(store)@ == (LedgerView { obligations: old(store)@.obligations.remove(k), ..old(store)@ }),
            None => final(store)@ == old(store)@,
        },
{
    crate::db::obligation_delete(store, id.as_str())
}

pub fn obligation_pay(store: &mut Store, payment: ObligationPayment) -> (r: Result<Obligation, String>)
    requires
        old(store)@.wf(),
    ensures
        final(store)@.wf(),
        exists|tx_id: String, now: i64| obligation_pay_post(old(store)@, final(store)@, payment, tx_id, now, r),
{
    let tx_id = crate::outside::new_id();
    let now = crate::outside::now_ts();
    obligation_pay_at(store, payment, tx_id, now)
}

pub fn reset_data(store: &mut Store) -> (r: Result<(), String>)
    requires
        old(store)@.wf(),
    ensures
        final(store)@.wf(),
        r is Ok,
        final(store)@ == (LedgerView {
            accounts: Seq::empty(),
            transactions: Seq::empty(),
            pockets: Seq::empty(),
            obligations: Seq::empty(),
            products: Seq::empty(),
            investments: Seq::empty(),
            ..old(store)@
        }),
{
    crate::db::reset_all_data(store)
}

/// The number of days asked for, thirty when none is given.
pub open spec fn days_or_default(days: Option<i64>) -> i64 {
    match days {
        Some(d) => d,
        None => 30,
    }
}

pub fn get_portfolio_snapshots(store: &Store, days: Option<i64>) -> (r: Result<Vec<crate::models::PortfolioSnapshot>, String>)
    ensures
        r matches Ok(v) && crate::listing::newest_snapshots(store@.snapshots, days_or_default(days), v@),
{
    let d = match days { Some(d) => d, None => 30 };
    crate::listing::snapshots_last(store, d)
}

} // verus!

//! The ledger store: its tables, their integrity rules (unique keys, references
//! between tables) and the row-level operations on them. Table order is
//! insertion order, which is the order the rows were written in.

use vstd::prelude::*;
use crate::models::{
    Account, Category, InvestmentTransaction, MutualFundProduct, Obligation, PortfolioSnapshot,
    SavingsPocket, SyncStatus, Transaction, TxType,
};
use crate::text::str_eq;

verus! {

broadcast use vstd::string::group_string_axioms;

/// Message of a refused insert whose key is already taken.
pub open spec fn unique_error(table: Seq<char>) -> Seq<char> {
    "UNIQUE constraint failed: "@ + table + ".id"@
}

/// Message of a write that would leave a reference to a missing row.
pub open spec fn foreign_key_error() -> Seq<char> {
    "FOREIGN KEY constraint failed"@
}

/// Message of a balance change that would leave the 64-bit range.
pub open spec fn overflow_error() -> Seq<char> {
    "integer overflow"@
}

pub open spec fn account_ids(s: Seq<Account>) -> Seq<Seq<char>> {
    s.map_values(|a: Account| a.id@)
}

pub open spec fn category_ids(s: Seq<Category>) -> Seq<Seq<char>> {
    s.map_values(|c: Category| c.id@)
}

pub open spec fn transaction_ids(s: Seq<Transaction>) -> Seq<Seq<char>> {
    s.map_values(|t: Transaction| t.id@)
}

pub open spec fn pocket_ids(s: Seq<SavingsPocket>) -> Seq<Seq<char>> {
    s.map_values(|p: SavingsPocket| p.id@)
}

pub open spec fn obligation_ids(s: Seq<Obligation>) -> Seq<Seq<char>> {
    s.map_values(|o: Obligation| o.id@)
}

pub open spec fn snapshot_days(s: Seq<PortfolioSnapshot>) -> Seq<i64> {
    s.map_values(|p: PortfolioSnapshot| p.day)
}

pub open spec fn product_ids(s: Seq<MutualFundProduct>) -> Seq<Seq<char>> {
    s.map_values(|p: MutualFundProduct| p.id@)
}

pub open spec fn investment_ids(s: Seq<InvestmentTransaction>) -> Seq<Seq<char>> {
    s.map_values(|t: InvestmentTransaction| t.id@)
}

/// Every transaction names a key of `accs` as its account and a key of `cats`
/// as its category.
#[verifier::opaque]
pub open spec fn tx_refs_valid(accs: Seq<Seq<char>>, cats: Seq<Seq<char>>, txs: Seq<Transaction>) -> bool {
    forall|i: int| 0 <= i < txs.len() ==> accs.contains(#[trigger] txs[i].account_id@) && cats.contains(txs[i].category_id@)
}

/// Every pocket names a key of `accs` as its account.
#[verifier::opaque]
pub open spec fn pocket_refs_valid(accs: Seq<Seq<char>>, ps: Seq<SavingsPocket>) -> bool {
    forall|i: int| 0 <= i < ps.len() ==> accs.contains(#[trigger] ps[i].linked_account_id@)
}

/// Every investment transaction names a key of `accs` as its account and a key
/// of `prods` as its product.
#[verifier::opaque]
pub open spec fn investment_refs_valid(accs: Seq<Seq<char>>, prods: Seq<Seq<char>>, invs: Seq<InvestmentTransaction>) -> bool {
    forall|i: int| 0 <= i < invs.len() ==> accs.contains(#[trigger] invs[i].account_id@) && prods.contains(invs[i].product_id@)
}

/// The contents of the store.
pub struct LedgerView {
    pub accounts: Seq<Account>,
    pub categories: Seq<Category>,
    pub transactions: Seq<Transaction>,
    pub pockets: Seq<SavingsPocket>,
    pub obligations: Seq<Obligation>,
    pub snapshots: Seq<PortfolioSnapshot>,
    pub products: Seq<MutualFundProduct>,
    pub investments: Seq<InvestmentTransaction>,
    pub sheet_url: Option<String>,
    pub auto_sync: bool,
}

impl LedgerView {
    /// Keys are unique in every table, and every reference names an existing row:
    /// a transaction its account and category, a pocket its linked account, an
    /// investment transaction its account and its product.
    pub open spec fn wf(self) -> bool {
        &&& account_ids(self.accounts).no_duplicates()
        &&& category_ids(self.categories).no_duplicates()
        &&& transaction_ids(self.transactions).no_duplicates()
        &&& pocket_ids(self.pockets).no_duplicates()
        &&& obligation_ids(self.obligations).no_duplicates()
        &&& snapshot_days(self.snapshots).no_duplicates()
        &&& product_ids(self.products).no_duplicates()
        &&& investment_ids(self.investments).no_duplicates()
        &&& tx_refs_valid(account_ids(self.accounts), category_ids(self.categories), self.transactions)
        &&& pocket_refs_valid(account_ids(self.accounts), self.pockets)
        &&& investment_refs_valid(account_ids(self.accounts), product_ids(self.products), self.investments)
    }

    /// Whether some row refers to the account `id`: a transaction as its source,
    /// a pocket, or an investment transaction.
    pub open spec fn account_in_use(self, id: Seq<char>) -> bool {
        ||| exists|i: int|
            0 <= i < self.transactions.len() && #[trigger] self.transactions[i].account_id@ == id
        ||| exists|i: int|
            0 <= i < self.pockets.len() && #[trigger] self.pockets[i].linked_account_id@ == id
        ||| exists|i: int|
            0 <= i < self.investments.len() && #[trigger] self.investments[i].account_id@ == id
    }

    /// Whether some transaction refers to the category `id`.
    pub open spec fn category_in_use(self, id: Seq<char>) -> bool {
        exists|i: int|
            0 <= i < self.transactions.len() && #[trigger] self.transactions[i].category_id@ == id
    }
}

/// The ledger store.
pub struct Store {
    accounts: Vec<Account>,
    categories: Vec<Category>,
    transactions: Vec<Transaction>,
    pockets: Vec<SavingsPocket>,
    obligations: Vec<Obligation>,
    snapshots: Vec<PortfolioSnapshot>,
    products: Vec<MutualFundProduct>,
    investments: Vec<InvestmentTransaction>,
    sheet_url: Option<String>,
    auto_sync: bool,
}

impl View for Store {
    type V = LedgerView;

    closed spec fn view(&self) -> LedgerView {
        LedgerView {
            accounts: self.accounts@,
            categories: self.categories@,
            transactions: self.transactions@,
            pockets: self.pockets@,
            obligations: self.obligations@,
            snapshots: self.snapshots@,
            products: self.products@,
            investments: self.investments@,
            sheet_url: self.sheet_url,
            auto_sync: self.auto_sync,
        }
    }
}

/// The empty ledger.
pub open spec fn empty_ledger() -> LedgerView {
    LedgerView {
        accounts: Seq::empty(),
        categories: Seq::empty(),
        transactions: Seq::empty(),
        pockets: Seq::empty(),
        obligations: Seq::empty(),
        snapshots: Seq::empty(),
        products: Seq::empty(),
        investments: Seq::empty(),
        sheet_url: None,
        auto_sync: false,
    }
}

// ── Balance adjustments ─────────────────────────────────────────────────────

/// `UPDATE accounts SET current_balance = current_balance + d, updated_at = now WHERE id = id`.
pub open spec fn adjust(accs: Seq<Account>, id: Seq<char>, d: int, now: i64) -> Seq<Account> {
    Seq::new(
        accs.len(),
        |i: int|
            if accs[i].id@ == id {
                Account { current_balance: (accs[i].current_balance + d) as i64, updated_at: now, ..accs[i] }
            } else {
                accs[i]
            },
    )
}

/// The adjustment keeps the balance of `id` in the 64-bit range.
pub open spec fn adjust_fits(accs: Seq<Account>, id: Seq<char>, d: int) -> bool {
    forall|i: int|
        0 <= i < accs.len() && #[trigger] accs[i].id@ == id ==> i64::MIN <= accs[i].current_balance
            + d <= i64::MAX
}

/// Applies the adjustments `ds` one after the other.
pub open spec fn apply_all(accs: Seq<Account>, ds: Seq<(Seq<char>, int)>, now: i64) -> Seq<Account>
    decreases ds.len(),
{
    if ds.len() == 0 {
        accs
    } else {
        apply_all(adjust(accs, ds[0].0, ds[0].1, now), ds.drop_first(), now)
    }
}

/// Every step of `apply_all` stays in the 64-bit range.
pub open spec fn all_fit(accs: Seq<Account>, ds: Seq<(Seq<char>, int)>) -> bool
    decreases ds.len(),
{
    ds.len() == 0 || (adjust_fits(accs, ds[0].0, ds[0].1) && all_fit(
        adjust(accs, ds[0].0, ds[0].1, 0),
        ds.drop_first(),
    ))
}

/// The balances of the accounts, in table order.
pub open spec fn balances(accs: Seq<Account>) -> Seq<i64> {
    accs.map_values(|a: Account| a.current_balance)
}

pub proof fn lemma_adjust_ids(accs: Seq<Account>, id: Seq<char>, d: int, now: i64)
    ensures
        account_ids(adjust(accs, id, d, now)) == account_ids(accs),
{
    assert(account_ids(adjust(accs, id, d, now)) =~= account_ids(accs));
}

proof fn lemma_adjust_now_irrelevant(accs: Seq<Account>, id: Seq<char>, d: int, n1: i64, n2: i64)
    ensures
        balances(adjust(accs, id, d, n1)) == balances(adjust(accs, id, d, n2)),
        account_ids(adjust(accs, id, d, n1)) == account_ids(adjust(accs, id, d, n2)),
{
    assert(balances(adjust(accs, id, d, n1)) =~= balances(adjust(accs, id, d, n2)));
    assert(account_ids(adjust(accs, id, d, n1)) =~= account_ids(adjust(accs, id, d, n2)));
}

pub proof fn lemma_fit_depends_on_balances(a: Seq<Account>, b: Seq<Account>, ds: Seq<(Seq<char>, int)>)
    requires
        balances(a) == balances(b),
        account_ids(a) == account_ids(b),
    ensures
        all_fit(a, ds) == all_fit(b, ds),
    decreases ds.len(),
{
    assert(a.len() == account_ids(a).len());
    assert(b.len() == account_ids(b).len());
    if ds.len() > 0 {
        assert forall|i: int| 0 <= i < a.len() implies a[i].id@ == b[i].id@ && a[i].current_balance
            == b[i].current_balance by {
            assert(account_ids(a)[i] == account_ids(b)[i]);
            assert(account_ids(a)[i] == a[i].id@);
            assert(account_ids(b)[i] == b[i].id@);
            assert(balances(a)[i] == balances(b)[i]);
            assert(balances(a)[i] == a[i].current_balance);
            assert(balances(b)[i] == b[i].current_balance);
        }
        let a2 = adjust(a, ds[0].0, ds[0].1, 0);
        let b2 = adjust(b, ds[0].0, ds[0].1, 0);
        assert(balances(a2) =~= balances(b2));
        assert(account_ids(a2) =~= account_ids(b2));
        lemma_fit_depends_on_balances(a2, b2, ds.drop_first());
    }
}

pub proof fn lemma_apply_all_ids(accs: Seq<Account>, ds: Seq<(Seq<char>, int)>, now: i64)
    ensures
        account_ids(apply_all(accs, ds, now)) == account_ids(accs),
    decreases ds.len(),
{
    if ds.len() > 0 {
        lemma_adjust_ids(accs, ds[0].0, ds[0].1, now);
        lemma_apply_all_ids(adjust(accs, ds[0].0, ds[0].1, now), ds.drop_first(), now);
    }
}

// ── Store operations ────────────────────────────────────────────────────────

fn err(msg: &str) -> (r: Result<(), String>)
    ensures
        r matches Err(e) && e@ == msg@,
{
    Err(crate::text::copy_str(msg))
}

// ── Keeping the ledger well formed ──────────────────────────────────────────

/// The ledger is well formed when each of its parts is.
proof fn lemma_wf_intro(w: LedgerView)
    requires
        account_ids(w.accounts).no_duplicates(),
        category_ids(w.categories).no_duplicates(),
        transaction_ids(w.transactions).no_duplicates(),
        pocket_ids(w.pockets).no_duplicates(),
        obligation_ids(w.obligations).no_duplicates(),
        snapshot_days(w.snapshots).no_duplicates(),
        product_ids(w.products).no_duplicates(),
        investment_ids(w.investments).no_duplicates(),
        tx_refs_valid(account_ids(w.accounts), category_ids(w.categories), w.transactions),
        pocket_refs_valid(account_ids(w.accounts), w.pockets),
        investment_refs_valid(account_ids(w.accounts), product_ids(w.products), w.investments),
    ensures
        w.wf(),
{
}

/// A key stays present when another is appended.
proof fn lemma_contains_push<T>(s: Seq<T>, x: T, y: T)
    requires
        s.contains(y),
    ensures
        s.push(x).contains(y),
{
    let j = choose|j: int| 0 <= j < s.len() && s[j] == y;
    assert(s.push(x)[j] == y);
}

/// A key stays present when another position is removed.
proof fn lemma_contains_remove<T>(s: Seq<T>, k: int, y: T)
    requires
        0 <= k < s.len(),
        s.contains(y),
        s[k] != y,
    ensures
        s.remove(k).contains(y),
{
    let j = choose|j: int| 0 <= j < s.len() && s[j] == y;
    assert(j != k);
    if j < k {
        assert(s.remove(k)[j] == y);
    } else {
        assert(s.remove(k)[j - 1] == y);
    }
}

/// Appending a key keeps every reference valid.
proof fn lemma_refs_key_pushed(v: LedgerView, acc: Option<Seq<char>>, cat: Option<Seq<char>>, prod: Option<Seq<char>>)
    requires
        v.wf(),
    ensures
        ({
            let accs = match acc { Some(x) => account_ids(v.accounts).push(x), None => account_ids(v.accounts) };
            let cats = match cat { Some(x) => category_ids(v.categories).push(x), None => category_ids(v.categories) };
            let prods = match prod { Some(x) => product_ids(v.products).push(x), None => product_ids(v.products) };
            &&& tx_refs_valid(accs, cats, v.transactions)
            &&& pocket_refs_valid(accs, v.pockets)
            &&& investment_refs_valid(accs, prods, v.investments)
        }),
{
    lemma_refs_of_wf(v);
    let accs = match acc { Some(x) => account_ids(v.accounts).push(x), None => account_ids(v.accounts) };
    let cats = match cat { Some(x) => category_ids(v.categories).push(x), None => category_ids(v.categories) };
    let prods = match prod { Some(x) => product_ids(v.products).push(x), None => product_ids(v.products) };
    assert forall|i: int| 0 <= i < v.transactions.len() implies accs.contains(#[trigger] v.transactions[i].account_id@)
        && cats.contains(v.transactions[i].category_id@) by {
        assert(account_ids(v.accounts).contains(v.transactions[i].account_id@));
        if let Some(x) = acc { lemma_contains_push(account_ids(v.accounts), x, v.transactions[i].account_id@); }
        if let Some(x) = cat { lemma_contains_push(category_ids(v.categories), x, v.transactions[i].category_id@); }
    }
    assert forall|i: int| 0 <= i < v.pockets.len() implies accs.contains(#[trigger] v.pockets[i].linked_account_id@) by {
        assert(account_ids(v.accounts).contains(v.pockets[i].linked_account_id@));
        if let Some(x) = acc { lemma_contains_push(account_ids(v.accounts), x, v.pockets[i].linked_account_id@); }
    }
    assert forall|i: int| 0 <= i < v.investments.len() implies accs.contains(#[trigger] v.investments[i].account_id@)
        && prods.contains(v.investments[i].product_id@) by {
        assert(account_ids(v.accounts).contains(v.investments[i].account_id@));
        if let Some(x) = acc { lemma_contains_push(account_ids(v.accounts), x, v.investments[i].account_id@); }
        if let Some(x) = prod { lemma_contains_push(product_ids(v.products), x, v.investments[i].product_id@); }
    }
    assert(tx_refs_valid(accs, cats, v.transactions)) by {
        reveal(tx_refs_valid);
    }
    assert(pocket_refs_valid(accs, v.pockets)) by {
        reveal(pocket_refs_valid);
    }
    assert(investment_refs_valid(accs, prods, v.investments)) by {
        reveal(investment_refs_valid);
    }
}

/// Adding an account with a fresh key keeps the ledger well formed.
proof fn lemma_wf_account_pushed(v: LedgerView, w: LedgerView, a: Account)
    requires
        v.wf(),
        w == (LedgerView { accounts: v.accounts.push(a), ..v }),
        !account_ids(v.accounts).contains(a.id@),
    ensures
        w.wf(),
{
    assert(account_ids(w.accounts) =~= account_ids(v.accounts).push(a.id@));
    lemma_push_distinct(account_ids(v.accounts), a.id@);
    lemma_refs_key_pushed(v, Some(a.id@), None, None);
    lemma_wf_intro(w);
}

/// Rewriting accounts in place, keeping every key, keeps the ledger well formed.
proof fn lemma_wf_accounts_same_keys(v: LedgerView, w: LedgerView)
    requires
        v.wf(),
        w == (LedgerView { accounts: w.accounts, ..v }),
        account_ids(w.accounts) == account_ids(v.accounts),
    ensures
        w.wf(),
{
    lemma_wf_intro(w);
}

/// Removing an account that nothing refers to keeps the ledger well formed.
proof fn lemma_wf_account_removed(v: LedgerView, w: LedgerView, k: int)
    requires
        v.wf(),
        0 <= k < v.accounts.len(),
        !v.account_in_use(v.accounts[k].id@),
        w == (LedgerView { accounts: v.accounts.remove(k), ..v }),
    ensures
        w.wf(),
{
    lemma_refs_of_wf(v);
    let ids = account_ids(v.accounts);
    assert(account_ids(w.accounts) =~= ids.remove(k));
    lemma_remove_distinct(ids, k);
    assert(ids[k] == v.accounts[k].id@);
    assert forall|i: int| 0 <= i < w.transactions.len() implies account_ids(w.accounts).contains(
        #[trigger] w.transactions[i].account_id@) && category_ids(w.categories).contains(w.transactions[i].category_id@) by {
        assert(ids.contains(v.transactions[i].account_id@));
        lemma_contains_remove(ids, k, v.transactions[i].account_id@);
    }
    assert forall|i: int| 0 <= i < w.pockets.len() implies account_ids(w.accounts).contains(
        #[trigger] w.pockets[i].linked_account_id@) by {
        assert(ids.contains(v.pockets[i].linked_account_id@));
        lemma_contains_remove(ids, k, v.pockets[i].linked_account_id@);
    }
    assert forall|i: int| 0 <= i < w.investments.len() implies account_ids(w.accounts).contains(
        #[trigger] w.investments[i].account_id@) && product_ids(w.products).contains(w.investments[i].product_id@) by {
        assert(ids.contains(v.investments[i].account_id@));
        lemma_contains_remove(ids, k, v.investments[i].account_id@);
    }
    assert(tx_refs_valid(account_ids(w.accounts), category_ids(w.categories), w.transactions)) by {
        reveal(tx_refs_valid);
    }
    assert(pocket_refs_valid(account_ids(w.accounts), w.pockets)) by {
        reveal(pocket_refs_valid);
    }
    assert(investment_refs_valid(account_ids(w.accounts), product_ids(w.products), w.investments)) by {
        reveal(investment_refs_valid);
    }
    lemma_wf_intro(w);
}

/// Adding a category with a fresh key keeps the ledger well formed.
proof fn lemma_wf_category_pushed(v: LedgerView, w: LedgerView, c: Category)
    requires
        v.wf(),
        w == (LedgerView { categories: v.categories.push(c), ..v }),
        !category_ids(v.categories).contains(c.id@),
    ensures
        w.wf(),
{
    assert(category_ids(w.categories) =~= category_ids(v.categories).push(c.id@));
    lemma_push_distinct(category_ids(v.categories), c.id@);
    lemma_refs_key_pushed(v, None, Some(c.id@), None);
    lemma_wf_intro(w);
}

/// Rewriting categories in place, keeping every key, keeps the ledger well formed.
proof fn lemma_wf_categories_same_keys(v: LedgerView, w: LedgerView)
    requires
        v.wf(),
        w == (LedgerView { categories: w.categories, ..v }),
        category_ids(w.categories) == category_ids(v.categories),
    ensures
        w.wf(),
{
    lemma_wf_intro(w);
}

/// Removing a category that no transaction refers to keeps the ledger well formed.
proof fn lemma_wf_category_removed(v: LedgerView, w: LedgerView, k: int)
    requires
        v.wf(),
        0 <= k < v.categories.len(),
        !v.category_in_use(v.categories[k].id@),
        w == (LedgerView { categories: v.categories.remove(k), ..v }),
    ensures
        w.wf(),
{
    lemma_refs_of_wf(v);
    let ids = category_ids(v.categories);
    assert(category_ids(w.categories) =~= ids.remove(k));
    lemma_remove_distinct(ids, k);
    assert(ids[k] == v.categories[k].id@);
    assert forall|i: int| 0 <= i < w.transactions.len() implies account_ids(w.accounts).contains(
        #[trigger] w.transactions[i].account_id@) && category_ids(w.categories).contains(w.transactions[i].category_id@) by {
        assert(account_ids(v.accounts).contains(v.transactions[i].account_id@));
        lemma_contains_remove(ids, k, v.transactions[i].category_id@);
    }
    assert(tx_refs_valid(account_ids(w.accounts), category_ids(w.categories), w.transactions)) by {
        reveal(tx_refs_valid);
    }
    lemma_wf_intro(w);
}

/// Adding a transaction with a fresh key whose references exist keeps the
/// ledger well formed.
proof fn lemma_wf_transaction_pushed(v: LedgerView, w: LedgerView, t: Transaction)
    requires
        v.wf(),
        w == (LedgerView { transactions: v.transactions.push(t), ..v }),
        !transaction_ids(v.transactions).contains(t.id@),
        tx_refs_ok(v, t),
    ensures
        w.wf(),
{
    lemma_refs_of_wf(v);
    assert(transaction_ids(w.transactions) =~= transaction_ids(v.transactions).push(t.id@));
    lemma_push_distinct(transaction_ids(v.transactions), t.id@);
    assert forall|i: int| 0 <= i < w.transactions.len() implies account_ids(w.accounts).contains(
        #[trigger] w.transactions[i].account_id@) && category_ids(w.categories).contains(w.transactions[i].category_id@) by {
        if i < v.transactions.len() {
            assert(w.transactions[i] == v.transactions[i]);
            assert(account_ids(v.accounts).contains(v.transactions[i].account_id@));
        } else {
            assert(w.transactions[i] == t);
        }
    }
    assert(tx_refs_valid(account_ids(w.accounts), category_ids(w.categories), w.transactions)) by {
        reveal(tx_refs_valid);
    }
    lemma_wf_intro(w);
}

/// Rewriting a transaction in place, keeping its key, with references that
/// exist keeps the ledger well formed.
proof fn lemma_wf_transaction_set(v: LedgerView, w: LedgerView, k: int, t: Transaction)
    requires
        v.wf(),
        0 <= k < v.transactions.len(),
        t.id@ == v.transactions[k].id@,
        w == (LedgerView { transactions: v.transactions.update(k, t), ..v }),
        tx_refs_ok(v, t),
    ensures
        w.wf(),
{
    lemma_refs_of_wf(v);
    assert(transaction_ids(w.transactions) =~= transaction_ids(v.transactions));
    assert forall|i: int| 0 <= i < w.transactions.len() implies account_ids(w.accounts).contains(
        #[trigger] w.transactions[i].account_id@) && category_ids(w.categories).contains(w.transactions[i].category_id@) by {
        if i != k {
            assert(w.transactions[i] == v.transactions[i]);
            assert(account_ids(v.accounts).contains(v.transactions[i].account_id@));
        } else {
            assert(w.transactions[i] == t);
        }
    }
    assert(tx_refs_valid(account_ids(w.accounts), category_ids(w.categories), w.transactions)) by {
        reveal(tx_refs_valid);
    }
    lemma_wf_intro(w);
}

/// Removing a transaction keeps the ledger well formed.
proof fn lemma_wf_remove_transaction(v: LedgerView, k: int)
    requires
        v.wf(),
        0 <= k < v.transactions.len(),
    ensures
        (LedgerView { transactions: v.transactions.remove(k), ..v }).wf(),
{
    lemma_refs_of_wf(v);
    let w = LedgerView { transactions: v.transactions.remove(k), ..v };
    assert(transaction_ids(w.transactions) =~= transaction_ids(v.transactions).remove(k));
    lemma_remove_distinct(transaction_ids(v.transactions), k);
    assert forall|i: int| 0 <= i < w.transactions.len() implies account_ids(w.accounts).contains(
        #[trigger] w.transactions[i].account_id@) && category_ids(w.categories).contains(w.transactions[i].category_id@) by {
        let j = if i < k { i } else { i + 1 };
        assert(w.transactions[i] == v.transactions[j]);
        assert(account_ids(v.accounts).contains(v.transactions[j].account_id@));
    }
    assert(tx_refs_valid(account_ids(w.accounts), category_ids(w.categories), w.transactions)) by {
        reveal(tx_refs_valid);
    }
    lemma_wf_intro(w);
}

/// Rewriting transactions in place while keeping their keys and the rows they
/// refer to keeps the ledger well formed.
proof fn lemma_wf_transactions_restamped(v: LedgerView, w: LedgerView)
    requires
        v.wf(),
        w == (LedgerView { transactions: w.transactions, ..v }),
        transaction_ids(w.transactions) == transaction_ids(v.transactions),
        w.transactions.len() == v.transactions.len(),
        forall|k: int| 0 <= k < w.transactions.len() ==> (#[trigger] w.transactions[k]).account_id == v.transactions[k].account_id
            && w.transactions[k].category_id == v.transactions[k].category_id,
    ensures
        w.wf(),
{
    lemma_refs_of_wf(v);
    assert forall|k: int| 0 <= k < w.transactions.len() implies account_ids(w.accounts).contains(
        #[trigger] w.transactions[k].account_id@) && category_ids(w.categories).contains(w.transactions[k].category_id@) by {
        assert(w.transactions[k].account_id == v.transactions[k].account_id);
        assert(account_ids(v.accounts).contains(v.transactions[k].account_id@));
    }
    assert(tx_refs_valid(account_ids(w.accounts), category_ids(w.categories), w.transactions)) by {
        reveal(tx_refs_valid);
    }
    lemma_wf_intro(w);
}

/// Changing the pockets so that their keys stay unique and every pocket's
/// account exists keeps the ledger well formed; `fresh` is the pocket that was
/// added or rewritten, if any.
proof fn lemma_wf_pocket_pushed(v: LedgerView, w: LedgerView, p: SavingsPocket)
    requires
        v.wf(),
        w == (LedgerView { pockets: v.pockets.push(p), ..v }),
        !pocket_ids(v.pockets).contains(p.id@),
        account_ids(v.accounts).contains(p.linked_account_id@),
    ensures
        w.wf(),
{
    lemma_refs_of_wf(v);
    assert(pocket_ids(w.pockets) =~= pocket_ids(v.pockets).push(p.id@));
    lemma_push_distinct(pocket_ids(v.pockets), p.id@);
    assert forall|i: int| 0 <= i < w.pockets.len() implies account_ids(w.accounts).contains(
        #[trigger] w.pockets[i].linked_account_id@) by {
        if i < v.pockets.len() {
            assert(w.pockets[i] == v.pockets[i]);
        } else {
            assert(w.pockets[i] == p);
        }
    }
    assert(pocket_refs_valid(account_ids(w.accounts), w.pockets)) by {
        reveal(pocket_refs_valid);
    }
    lemma_wf_intro(w);
}

/// Rewriting a pocket in place, keeping its key, with an existing account keeps
/// the ledger well formed.
proof fn lemma_wf_pocket_set(v: LedgerView, w: LedgerView, k: int, p: SavingsPocket)
    requires
        v.wf(),
        0 <= k < v.pockets.len(),
        p.id@ == v.pockets[k].id@,
        w == (LedgerView { pockets: v.pockets.update(k, p), ..v }),
        account_ids(v.accounts).contains(p.linked_account_id@),
    ensures
        w.wf(),
{
    lemma_refs_of_wf(v);
    assert(pocket_ids(w.pockets) =~= pocket_ids(v.pockets));
    assert forall|i: int| 0 <= i < w.pockets.len() implies account_ids(w.accounts).contains(
        #[trigger] w.pockets[i].linked_account_id@) by {
        if i != k {
            assert(w.pockets[i] == v.pockets[i]);
        } else {
            assert(w.pockets[i] == p);
        }
    }
    assert(pocket_refs_valid(account_ids(w.accounts), w.pockets)) by {
        reveal(pocket_refs_valid);
    }
    lemma_wf_intro(w);
}

/// Removing a pocket keeps the ledger well formed.
proof fn lemma_wf_pocket_removed(v: LedgerView, w: LedgerView, k: int)
    requires
        v.wf(),
        0 <= k < v.pockets.len(),
        w == (LedgerView { pockets: v.pockets.remove(k), ..v }),
    ensures
        w.wf(),
{
    lemma_refs_of_wf(v);
    assert(pocket_ids(w.pockets) =~= pocket_ids(v.pockets).remove(k));
    lemma_remove_distinct(pocket_ids(v.pockets), k);
    assert forall|i: int| 0 <= i < w.pockets.len() implies account_ids(w.accounts).contains(
        #[trigger] w.pockets[i].linked_account_id@) by {
        if i < k {
            assert(w.pockets[i] == v.pockets[i]);
        } else {
            assert(w.pockets[i] == v.pockets[i + 1]);
        }
    }
    assert(pocket_refs_valid(account_ids(w.accounts), w.pockets)) by {
        reveal(pocket_refs_valid);
    }
    lemma_wf_intro(w);
}

/// Changing tables that nothing refers to (obligations, snapshots, settings)
/// with unique keys keeps the ledger well formed.
proof fn lemma_wf_loose_changed(v: LedgerView, w: LedgerView)
    requires
        v.wf(),
        w == (LedgerView { obligations: w.obligations, snapshots: w.snapshots, sheet_url: w.sheet_url, auto_sync: w.auto_sync, ..v }),
        obligation_ids(w.obligations).no_duplicates(),
        snapshot_days(w.snapshots).no_duplicates(),
    ensures
        w.wf(),
{
    lemma_wf_intro(w);
}

/// Rewriting products in place, keeping every key, keeps the ledger well formed.
proof fn lemma_wf_products_same_keys(v: LedgerView, w: LedgerView)
    requires
        v.wf(),
        w == (LedgerView { products: w.products, ..v }),
        product_ids(w.products) == product_ids(v.products),
    ensures
        w.wf(),
{
    lemma_wf_intro(w);
}

/// Adding a product with a fresh key keeps the ledger well formed.
proof fn lemma_wf_product_pushed(v: LedgerView, w: LedgerView, p: MutualFundProduct)
    requires
        v.wf(),
        w == (LedgerView { products: v.products.push(p), ..v }),
        !product_ids(v.products).contains(p.id@),
    ensures
        w.wf(),
{
    assert(product_ids(w.products) =~= product_ids(v.products).push(p.id@));
    lemma_push_distinct(product_ids(v.products), p.id@);
    lemma_refs_key_pushed(v, None, None, Some(p.id@));
    lemma_wf_intro(w);
}

/// Adding an investment transaction with a fresh id, an existing account and an
/// existing product keeps the ledger well formed.
proof fn lemma_wf_investment_pushed(v: LedgerView, w: LedgerView, t: InvestmentTransaction)
    requires
        v.wf(),
        w == (LedgerView { investments: v.investments.push(t), ..v }),
        !investment_ids(v.investments).contains(t.id@),
        account_ids(v.accounts).contains(t.account_id@),
        product_ids(v.products).contains(t.product_id@),
    ensures
        w.wf(),
{
    lemma_refs_of_wf(v);
    assert(investment_ids(w.investments) =~= investment_ids(v.investments).push(t.id@));
    lemma_push_distinct(investment_ids(v.investments), t.id@);
    assert forall|i: int| 0 <= i < w.investments.len() implies account_ids(w.accounts).contains(
        #[trigger] w.investments[i].account_id@) && product_ids(w.products).contains(w.investments[i].product_id@) by {
        if i < v.investments.len() {
            assert(w.investments[i] == v.investments[i]);
            assert(account_ids(v.accounts).contains(v.investments[i].account_id@));
        } else {
            assert(w.investments[i] == t);
        }
    }
    assert(investment_refs_valid(account_ids(w.accounts), product_ids(w.products), w.investments)) by {
        reveal(investment_refs_valid);
    }
    lemma_wf_intro(w);
}

/// What a well-formed ledger says of its references, spelled out.
pub proof fn lemma_refs_of_wf(v: LedgerView)
    requires
        v.wf(),
    ensures
        forall|i: int| 0 <= i < v.transactions.len() ==> account_ids(v.accounts).contains(#[trigger] v.transactions[i].account_id@)
            && category_ids(v.categories).contains(v.transactions[i].category_id@),
        forall|i: int| 0 <= i < v.pockets.len() ==> account_ids(v.accounts).contains(#[trigger] v.pockets[i].linked_account_id@),
        forall|i: int| 0 <= i < v.investments.len() ==> account_ids(v.accounts).contains(#[trigger] v.investments[i].account_id@)
            && product_ids(v.products).contains(v.investments[i].product_id@),
{
    let accs = account_ids(v.accounts);
    let cats = category_ids(v.categories);
    let prods = product_ids(v.products);
    assert(tx_refs_valid(accs, cats, v.transactions));
    assert(pocket_refs_valid(accs, v.pockets));
    assert(investment_refs_valid(accs, prods, v.investments));
    assert forall|i: int| 0 <= i < v.transactions.len() implies accs.contains(#[trigger] v.transactions[i].account_id@)
        && cats.contains(v.transactions[i].category_id@) by {
        reveal(tx_refs_valid);
    }
    assert forall|i: int| 0 <= i < v.pockets.len() implies accs.contains(#[trigger] v.pockets[i].linked_account_id@) by {
        reveal(pocket_refs_valid);
    }
    assert forall|i: int| 0 <= i < v.investments.len() implies accs.contains(#[trigger] v.investments[i].account_id@)
        && prods.contains(v.investments[i].product_id@) by {
        reveal(investment_refs_valid);
    }
}

impl Store {
    /// An empty store.
    pub fn new() -> (s: Store)
        ensures
            s@ == empty_ledger(),
            s@.wf(),
    {
        let s = Store {
            accounts: Vec::new(),
            categories: Vec::new(),
            transactions: Vec::new(),
            pockets: Vec::new(),
            obligations: Vec::new(),
            snapshots: Vec::new(),
            products: Vec::new(),
            investments: Vec::new(),
            sheet_url: None,
            auto_sync: false,
        };
        proof {
            let w = s@;
            assert(account_ids(w.accounts) =~= Seq::<Seq<char>>::empty());
            assert(category_ids(w.categories) =~= Seq::<Seq<char>>::empty());
            assert(transaction_ids(w.transactions) =~= Seq::<Seq<char>>::empty());
            assert(pocket_ids(w.pockets) =~= Seq::<Seq<char>>::empty());
            assert(obligation_ids(w.obligations) =~= Seq::<Seq<char>>::empty());
            assert(snapshot_days(w.snapshots) =~= Seq::<i64>::empty());
            assert(product_ids(w.products) =~= Seq::<Seq<char>>::empty());
            assert(investment_ids(w.investments) =~= Seq::<Seq<char>>::empty());
            assert(tx_refs_valid(account_ids(w.accounts), category_ids(w.categories), w.transactions)) by {
                reveal(tx_refs_valid);
            }
            assert(pocket_refs_valid(account_ids(w.accounts), w.pockets)) by {
                reveal(pocket_refs_valid);
            }
            assert(investment_refs_valid(account_ids(w.accounts), product_ids(w.products), w.investments)) by {
                reveal(investment_refs_valid);
            }
            lemma_wf_intro(w);
        }
        s
    }

    /// Position of the account `id`.
    pub fn find_account(&self, id: &str) -> (r: Option<usize>)
        ensures
            match r {
                Some(i) => i < self@.accounts.len() && self@.accounts[i as int].id@ == id@,
                None => !account_ids(self@.accounts).contains(id@),
            },
    {
        let mut i: usize = 0;
        while i < self.accounts.len()
            invariant
                i <= self.accounts.len(),
                forall|k: int| 0 <= k < i ==> self.accounts@[k].id@ != id@,
            decreases self.accounts.len() - i,
        {
            if str_eq(self.accounts[i].id.as_str(), id) {
                return Some(i);
            }
            i += 1;
        }
        proof {
            if account_ids(self@.accounts).contains(id@) {
                let k = choose|k: int| 0 <= k < account_ids(self@.accounts).len() && account_ids(self@.accounts)[k] == id@;
                assert(self.accounts@[k].id@ == id@);
            }
        }
        None
    }

    /// Position of the category `id`.
    pub fn find_category(&self, id: &str) -> (r: Option<usize>)
        ensures
            match r {
                Some(i) => i < self@.categories.len() && self@.categories[i as int].id@ == id@,
                None => !category_ids(self@.categories).contains(id@),
            },
    {
        let mut i: usize = 0;
        while i < self.categories.len()
            invariant
                i <= self.categories.len(),
                forall|k: int| 0 <= k < i ==> self.categories@[k].id@ != id@,
            decreases self.categories.len() - i,
        {
            if str_eq(self.categories[i].id.as_str(), id) {
                return Some(i);
            }
            i += 1;
        }
        proof {
            if category_ids(self@.categories).contains(id@) {
                let k = choose|k: int| 0 <= k < category_ids(self@.categories).len() && category_ids(self@.categories)[k] == id@;
                assert(self.categories@[k].id@ == id@);
            }
        }
        None
    }

    /// Position of the transaction `id`.
    pub fn find_transaction(&self, id: &str) -> (r: Option<usize>)
        ensures
            match r {
                Some(i) => i < self@.transactions.len() && self@.transactions[i as int].id@ == id@,
                None => !transaction_ids(self@.transactions).contains(id@),
            },
    {
        let mut i: usize = 0;
        while i < self.transactions.len()
            invariant
                i <= self.transactions.len(),
                forall|k: int| 0 <= k < i ==> self.transactions@[k].id@ != id@,
            decreases self.transactions.len() - i,
        {
            if str_eq(self.transactions[i].id.as_str(), id) {
                return Some(i);
            }
            i += 1;
        }
        proof {
            if transaction_ids(self@.transactions).contains(id@) {
                let k = choose|k: int| 0 <= k < transaction_ids(self@.transactions).len() && transaction_ids(self@.transactions)[k] == id@;
                assert(self.transactions@[k].id@ == id@);
            }
        }
        None
    }

    /// Position of the pocket `id`.
    pub fn find_pocket(&self, id: &str) -> (r: Option<usize>)
        ensures
            match r {
                Some(i) => i < self@.pockets.len() && self@.pockets[i as int].id@ == id@,
                None => !pocket_ids(self@.pockets).contains(id@),
            },
    {
        let mut i: usize = 0;
        while i < self.pockets.len()
            invariant
                i <= self.pockets.len(),
                forall|k: int| 0 <= k < i ==> self.pockets@[k].id@ != id@,
            decreases self.pockets.len() - i,
        {
            if str_eq(self.pockets[i].id.as_str(), id) {
                return Some(i);
            }
            i += 1;
        }
        proof {
            if pocket_ids(self@.pockets).contains(id@) {
                let k = choose|k: int| 0 <= k < pocket_ids(self@.pockets).len() && pocket_ids(self@.pockets)[k] == id@;
                assert(self.pockets@[k].id@ == id@);
            }
        }
        None
    }

    /// Position of the obligation `id`.
    pub fn find_obligation(&self, id: &str) -> (r: Option<usize>)
        ensures
            match r {
                Some(i) => i < self@.obligations.len() && self@.obligations[i as int].id@ == id@,
                None => !obligation_ids(self@.obligations).contains(id@),
            },
    {
        let mut i: usize = 0;
        while i < self.obligations.len()
            invariant
                i <= self.obligations.len(),
                forall|k: int| 0 <= k < i ==> self.obligations@[k].id@ != id@,
            decreases self.obligations.len() - i,
        {
            if str_eq(self.obligations[i].id.as_str(), id) {
                return Some(i);
            }
            i += 1;
        }
        proof {
            if obligation_ids(self@.obligations).contains(id@) {
                let k = choose|k: int| 0 <= k < obligation_ids(self@.obligations).len() && obligation_ids(self@.obligations)[k] == id@;
                assert(self.obligations@[k].id@ == id@);
            }
        }
        None
    }
}


/// The adjustments as (account id, amount) pairs.
pub open spec fn deltas_view(ds: Seq<(String, i128)>) -> Seq<(Seq<char>, int)> {
    ds.map_values(|p: (String, i128)| (p.0@, p.1 as int))
}

/// `adjust` on a copy of the accounts, or `None` when the balance would leave the 64-bit range.
fn adjust_exec(accs: &Vec<Account>, id: &str, d: i128, now: i64) -> (r: Option<Vec<Account>>)
    requires
        -0x1_0000_0000_0000_0000 <= d <= 0x1_0000_0000_0000_0000,
    ensures
        match r {
            Some(v) => adjust_fits(accs@, id@, d as int) && v@ == adjust(accs@, id@, d as int, now),
            None => !adjust_fits(accs@, id@, d as int),
        },
{
    let mut out: Vec<Account> = Vec::new();
    let mut i: usize = 0;
    while i < accs.len()
        invariant
            i <= accs.len(),
            out@ == adjust(accs@, id@, d as int, now).take(i as int),
            -0x1_0000_0000_0000_0000 <= d <= 0x1_0000_0000_0000_0000,
            forall|k: int|
                0 <= k < i && #[trigger] accs@[k].id@ == id@ ==> i64::MIN <= accs@[k].current_balance
                    + d <= i64::MAX,
        decreases accs.len() - i,
    {
        let a = &accs[i];
        if str_eq(a.id.as_str(), id) {
            let nb: i128 = a.current_balance as i128 + d;
            if nb < i64::MIN as i128 || nb > i64::MAX as i128 {
                return None;
            }
            let mut b = a.duplicate();
            b.current_balance = nb as i64;
            b.updated_at = now;
            out.push(b);
        } else {
            out.push(a.duplicate());
        }
        assert(adjust(accs@, id@, d as int, now).take(i + 1) =~= adjust(accs@, id@, d as int, now).take(i as int).push(adjust(accs@, id@, d as int, now)[i as int]));
        i += 1;
    }
    assert(out@ =~= adjust(accs@, id@, d as int, now));
    Some(out)
}

/// `apply_all` on a copy of the accounts, or `None` when a step would leave the 64-bit range.
pub fn apply_deltas(accs: &Vec<Account>, ds: &Vec<(String, i128)>, now: i64) -> (r: Option<Vec<Account>>)
    requires
        forall|k: int| 0 <= k < ds.len() ==> -0x1_0000_0000_0000_0000 <= #[trigger] ds@[k].1 <= 0x1_0000_0000_0000_0000,
    ensures
        match r {
            Some(v) => all_fit(accs@, deltas_view(ds@)) && v@ == apply_all(accs@, deltas_view(ds@), now),
            None => !all_fit(accs@, deltas_view(ds@)),
        },
{
    let mut cur: Vec<Account> = Vec::new();
    let mut i: usize = 0;
    while i < accs.len()
        invariant
            i <= accs.len(),
            cur@ == accs@.take(i as int),
        decreases accs.len() - i,
    {
        cur.push(accs[i].duplicate());
        assert(accs@.take(i + 1) =~= accs@.take(i as int).push(accs@[i as int]));
        i += 1;
    }
    assert(cur@ =~= accs@);
    let ghost dv = deltas_view(ds@);
    assert(dv.skip(0) =~= dv);
    let mut k: usize = 0;
    while k < ds.len()
        invariant
            k <= ds.len(),
            dv == deltas_view(ds@),
            forall|q: int| 0 <= q < ds.len() ==> -0x1_0000_0000_0000_0000 <= #[trigger] ds@[q].1 <= 0x1_0000_0000_0000_0000,
            all_fit(accs@, dv) == all_fit(cur@, dv.skip(k as int)),
            apply_all(accs@, dv, now) == apply_all(cur@, dv.skip(k as int), now),
        decreases ds.len() - k,
    {
        let ghost before = cur@;
        let ghost rest = dv.skip(k as int);
        assert(rest[0] == (ds@[k as int].0@, ds@[k as int].1 as int));
        assert(rest.drop_first() =~= dv.skip(k + 1));
        match adjust_exec(&cur, ds[k].0.as_str(), ds[k].1, now) {
            Some(v) => {
                proof {
                    lemma_adjust_now_irrelevant(before, rest[0].0, rest[0].1, now, 0);
                    lemma_adjust_ids(before, rest[0].0, rest[0].1, now);
                    lemma_adjust_ids(before, rest[0].0, rest[0].1, 0);
                    lemma_fit_depends_on_balances(
                        adjust(before, rest[0].0, rest[0].1, now),
                        adjust(before, rest[0].0, rest[0].1, 0),
                        rest.drop_first(),
                    );
                }
                cur = v;
            },
            None => {
                return None;
            },
        }
        k += 1;
    }
    assert(dv.skip(ds.len() as int).len() == 0);
    Some(cur)
}

/// The refusal of an insert into `table` whose key is taken.
pub fn unique_err<T>(table: &str) -> (r: Result<T, String>)
    ensures
        r matches Err(e) && e@ == unique_error(table@),
{
    let mut v: Vec<char> = Vec::new();
    crate::text::push_all(&mut v, "UNIQUE constraint failed: ");
    crate::text::push_all(&mut v, table);
    crate::text::push_all(&mut v, ".id");
    assert(v@ =~= unique_error(table@));
    Err(crate::text::string_from_chars(&v))
}

pub proof fn lemma_push_distinct<T>(s: Seq<T>, x: T)
    requires
        s.no_duplicates(),
        !s.contains(x),
    ensures
        s.push(x).no_duplicates(),
{
    assert forall|i: int, j: int| 0 <= i < s.len() + 1 && 0 <= j < s.len() + 1 && i != j implies s.push(x)[i] != s.push(x)[j] by {
        if i == s.len() {
            assert(s[j] == s.push(x)[j]);
        } else if j == s.len() {
            assert(s[i] == s.push(x)[i]);
        }
    }
}

pub proof fn lemma_remove_distinct<T>(s: Seq<T>, k: int)
    requires
        s.no_duplicates(),
        0 <= k < s.len(),
    ensures
        s.remove(k).no_duplicates(),
        forall|x: T| s.contains(x) && x != s[k] ==> s.remove(k).contains(x),
        forall|x: T| #[trigger] s.remove(k).contains(x) ==> s.contains(x) && x != s[k],
{
    let r = s.remove(k);
    assert forall|i: int, j: int| 0 <= i < r.len() && 0 <= j < r.len() && i != j implies r[i] != r[j] by {
        let a = if i < k { i } else { i + 1 };
        let b = if j < k { j } else { j + 1 };
        assert(r[i] == s[a] && r[j] == s[b]);
    }
    assert forall|x: T| s.contains(x) && x != s[k] implies r.contains(x) by {
        let i = choose|i: int| 0 <= i < s.len() && s[i] == x;
        if i < k {
            assert(r[i] == x);
        } else {
            assert(i != k);
            assert(r[i - 1] == x);
        }
    }
    assert forall|x: T| #[trigger] r.contains(x) implies s.contains(x) && x != s[k] by {
        let i = choose|i: int| 0 <= i < r.len() && r[i] == x;
        if i < k {
            assert(s[i] == x);
            assert(i != k);
        } else {
            assert(s[i + 1] == x);
        }
    }
}

// ── Accounts ────────────────────────────────────────────────────────────────

/// Inserts an account; refused when its id is taken.
pub fn accounts_insert(store: &mut Store, a: &Account) -> (r: Result<(), String>)
    requires
        old(store)@.wf(),
    ensures
        final(store)@.wf(),
        if account_ids(old(store)@.accounts).contains(a.id@) {
            &&& r matches Err(e) && e@ == unique_error("accounts"@)
            &&& final(store)@ == old(store)@
        } else {
            &&& r is Ok
            &&& final(store)@ == (LedgerView { accounts: old(store)@.accounts.push(*a), ..old(store)@ })
        },
{
    if let Some(i) = store.find_account(a.id.as_str()) {
        assert(account_ids(store@.accounts)[i as int] == a.id@);
        return unique_err("accounts");
    }
    let ghost before = store@;
    store.accounts.push(a.duplicate());
    proof {
        assert(account_ids(store@.accounts) =~= account_ids(before.accounts).push(a.id@));
        lemma_push_distinct(account_ids(before.accounts), a.id@);
        assert forall|x: Seq<char>| account_ids(before.accounts).contains(x) implies account_ids(store@.accounts).contains(x) by {
            let i = choose|i: int| 0 <= i < account_ids(before.accounts).len() && account_ids(before.accounts)[i] == x;
            assert(account_ids(store@.accounts)[i] == x);
        }
        assert(store@ == (LedgerView { accounts: before.accounts.push(*a), ..before }));
        lemma_wf_account_pushed(before, store@, *a);
    }
    Ok(())
}

/// The stored row after `UPDATE accounts SET ... WHERE id = a.id`: every column
/// but the key and the creation time comes from `a`.
pub open spec fn account_updated(old: Account, a: Account) -> Account {
    Account { id: old.id, created_at: old.created_at, ..a }
}

/// Rewrites the account with the id of `a`; nothing happens when there is none.
pub fn accounts_update(store: &mut Store, a: &Account) -> (r: Result<(), String>)
    requires
        old(store)@.wf(),
    ensures
        final(store)@.wf(),
        r is Ok,
        match find_index(account_ids(old(store)@.accounts), a.id@) {
            Some(k) => final(store)@ == (LedgerView {
                accounts: old(store)@.accounts.update(k, account_updated(old(store)@.accounts[k], *a)),
                ..old(store)@
            }),
            None => final(store)@ == old(store)@,
        },
{
    match store.find_account(a.id.as_str()) {
        Some(k) => {
            proof { lemma_find_index_at(account_ids(store@.accounts), k as int); }
            let ghost before = store@;
            let old_row = store.accounts[k].duplicate();
            let mut row = a.duplicate();
            row.id = old_row.id;
            row.created_at = old_row.created_at;
            store.accounts.set(k, row);
            proof {
                assert(account_ids(store@.accounts) =~= account_ids(before.accounts));
                assert(store@ == (LedgerView { accounts: store@.accounts, ..before }));
                lemma_wf_accounts_same_keys(before, store@);
            }
            Ok(())
        },
        None => {
            proof { lemma_find_index_absent(account_ids(store@.accounts), a.id@); }
            Ok(())
        },
    }
}

/// Deletes the account `id`; refused while a transaction or pocket refers to it.
pub fn accounts_delete(store: &mut Store, id: &str) -> (r: Result<(), String>)
    requires
        old(store)@.wf(),
    ensures
        final(store)@.wf(),
        match find_index(account_ids(old(store)@.accounts), id@) {
            Some(k) => if old(store)@.account_in_use(id@) {
                &&& r matches Err(e) && e@ == foreign_key_error()
                &&& final(store)@ == old(store)@
            } else {
                &&& r is Ok
                &&& final(store)@ == (LedgerView { accounts: old(store)@.accounts.remove(k), ..old(store)@ })
            },
            None => r is Ok && final(store)@ == old(store)@,
        },
{
    match store.find_account(id) {
        Some(k) => {
            proof { lemma_find_index_at(account_ids(store@.accounts), k as int); }
            if store.account_used(id) {
                return err("FOREIGN KEY constraint failed");
            }
            let ghost before = store@;
            store.accounts.remove(k);
            proof {
                assert(store@ == (LedgerView { accounts: before.accounts.remove(k as int), ..before }));
                assert(before.accounts[k as int].id@ == id@);
                lemma_wf_account_removed(before, store@, k as int);
            }
            Ok(())
        },
        None => {
            proof { lemma_find_index_absent(account_ids(store@.accounts), id@); }
            Ok(())
        },
    }
}

/// Position of the first occurrence of `x` in `s`.
pub open spec fn find_index<T>(s: Seq<T>, x: T) -> Option<int> {
    if s.contains(x) {
        Some(choose|k: int| 0 <= k < s.len() && s[k] == x && forall|j: int| 0 <= j < k ==> s[j] != x)
    } else {
        None
    }
}

pub proof fn lemma_find_index_at<T>(s: Seq<T>, k: int)
    requires
        s.no_duplicates(),
        0 <= k < s.len(),
    ensures
        find_index(s, s[k]) == Some(k),
{
    assert(s.contains(s[k]));
    assert(0 <= k < s.len() && s[k] == s[k] && forall|j: int| 0 <= j < k ==> s[j] != s[k]);
    let c = choose|c: int| 0 <= c < s.len() && s[c] == s[k] && forall|j: int| 0 <= j < c ==> s[j] != s[k];
    assert(c == k);
}

/// Under unique keys, `find_index` gives back the position of the key.
pub proof fn lemma_find_index_first_scan<T>(s: Seq<T>, k: int)
    requires
        0 <= k < s.len(),
    ensures
        s.no_duplicates() ==> find_index(s, s[k]) == Some(k),
{
    if s.no_duplicates() {
        lemma_find_index_at(s, k);
    }
}

/// The position `find_index` gives back is the one found by scanning from the start.
pub proof fn lemma_find_index_first<T>(s: Seq<T>, k: int)
    requires
        0 <= k < s.len(),
        forall|j: int| 0 <= j < k ==> s[j] != s[k],
    ensures
        find_index(s, s[k]) == Some(k),
{
    assert(s.contains(s[k]));
    let c = choose|c: int| 0 <= c < s.len() && s[c] == s[k] && forall|j: int| 0 <= j < c ==> s[j] != s[k];
    if c < k {
        assert(s[c] != s[k]);
    } else if c > k {
        assert(s[k] != s[k]);
    }
}

pub proof fn lemma_find_index_absent<T>(s: Seq<T>, x: T)
    requires
        !s.contains(x),
    ensures
        find_index(s, x) == None::<int>,
{
}

impl Store {
    /// Whether a transaction, a pocket or an investment transaction refers to the account `id`.
    fn account_used(&self, id: &str) -> (r: bool)
        ensures
            r == self@.account_in_use(id@),
    {
        let mut i: usize = 0;
        while i < self.transactions.len()
            invariant
                i <= self.transactions.len(),
                forall|k: int| 0 <= k < i ==> self.transactions@[k].account_id@ != id@,
            decreases self.transactions.len() - i,
        {
            if str_eq(self.transactions[i].account_id.as_str(), id) {
                assert(self@.transactions[i as int].account_id@ == id@);
                return true;
            }
            i += 1;
        }
        let mut j: usize = 0;
        while j < self.pockets.len()
            invariant
                j <= self.pockets.len(),
                forall|k: int| 0 <= k < j ==> self.pockets@[k].linked_account_id@ != id@,
            decreases self.pockets.len() - j,
        {
            if str_eq(self.pockets[j].linked_account_id.as_str(), id) {
                assert(self@.pockets[j as int].linked_account_id@ == id@);
                return true;
            }
            j += 1;
        }
        let mut m: usize = 0;
        while m < self.investments.len()
            invariant
                m <= self.investments.len(),
                forall|k: int| 0 <= k < m ==> self.investments@[k].account_id@ != id@,
            decreases self.investments.len() - m,
        {
            if str_eq(self.investments[m].account_id.as_str(), id) {
                assert(self@.investments[m as int].account_id@ == id@);
                return true;
            }
            m += 1;
        }
        false
    }
}


// ── Categories ──────────────────────────────────────────────────────────────

/// Inserts a category; refused when its id is taken.
pub fn categories_insert(store: &mut Store, c: &Category) -> (r: Result<(), String>)
    requires
        old(store)@.wf(),
    ensures
        final(store)@.wf(),
        if category_ids(old(store)@.categories).contains(c.id@) {
            &&& r matches Err(e) && e@ == unique_error("categories"@)
            &&& final(store)@ == old(store)@
        } else {
            &&& r is Ok
            &&& final(store)@ == (LedgerView { categories: old(store)@.categories.push(*c), ..old(store)@ })
        },
{
    if let Some(i) = store.find_category(c.id.as_str()) {
        assert(category_ids(store@.categories)[i as int] == c.id@);
        return unique_err("categories");
    }
    let ghost before = store@;
    store.categories.push(c.duplicate());
    proof {
        assert(category_ids(store@.categories) =~= category_ids(before.categories).push(c.id@));
        lemma_push_distinct(category_ids(before.categories), c.id@);
        assert forall|x: Seq<char>| category_ids(before.categories).contains(x) implies category_ids(store@.categories).contains(x) by {
            let i = choose|i: int| 0 <= i < category_ids(before.categories).len() && category_ids(before.categories)[i] == x;
            assert(category_ids(store@.categories)[i] == x);
        }
        assert(store@ == (LedgerView { categories: before.categories.push(*c), ..before }));
        lemma_wf_category_pushed(before, store@, *c);
    }
    Ok(())
}

/// Rewrites every column but the key of the category with the id of `c`;
/// nothing happens when there is none.
pub fn categories_update(store: &mut Store, c: &Category) -> (r: Result<(), String>)
    requires
        old(store)@.wf(),
    ensures
        final(store)@.wf(),
        r is Ok,
        match find_index(category_ids(old(store)@.categories), c.id@) {
            Some(k) => final(store)@ == (LedgerView { categories: old(store)@.categories.update(k, *c), ..old(store)@ }),
            None => final(store)@ == old(store)@,
        },
{
    match store.find_category(c.id.as_str()) {
        Some(k) => {
            proof { lemma_find_index_at(category_ids(store@.categories), k as int); }
            let ghost before = store@;
            store.categories.set(k, c.duplicate());
            proof {
                assert(category_ids(store@.categories) =~= category_ids(before.categories));
                assert(store@ == (LedgerView { categories: store@.categories, ..before }));
                lemma_wf_categories_same_keys(before, store@);
            }
        },
        None => {
            proof { lemma_find_index_absent(category_ids(store@.categories), c.id@); }
        },
    }
    Ok(())
}

/// Deletes the category `id`; refused while a transaction refers to it.
pub fn categories_delete(store: &mut Store, id: &str) -> (r: Result<(), String>)
    requires
        old(store)@.wf(),
    ensures
        final(store)@.wf(),
        match find_index(category_ids(old(store)@.categories), id@) {
            Some(k) => if old(store)@.category_in_use(id@) {
                &&& r matches Err(e) && e@ == foreign_key_error()
                &&& final(store)@ == old(store)@
            } else {
                &&& r is Ok
                &&& final(store)@ == (LedgerView { categories: old(store)@.categories.remove(k), ..old(store)@ })
            },
            None => r is Ok && final(store)@ == old(store)@,
        },
{
    match store.find_category(id) {
        Some(k) => {
            proof { lemma_find_index_at(category_ids(store@.categories), k as int); }
            if store.category_used(id) {
                return err("FOREIGN KEY constraint failed");
            }
            let ghost before = store@;
            store.categories.remove(k);
            proof {
                assert(store@ == (LedgerView { categories: before.categories.remove(k as int), ..before }));
                assert(before.categories[k as int].id@ == id@);
                lemma_wf_category_removed(before, store@, k as int);
            }
            Ok(())
        },
        None => {
            proof { lemma_find_index_absent(category_ids(store@.categories), id@); }
            Ok(())
        },
    }
}

// ── Transactions ────────────────────────────────────────────────────────────

/// The account and the category that a transaction names both exist.
pub open spec fn tx_refs_ok(v: LedgerView, t: Transaction) -> bool {
    account_ids(v.accounts).contains(t.account_id@) && category_ids(v.categories).contains(t.category_id@)
}

impl Store {
    /// Decides `tx_refs_ok`.
    pub fn tx_refs_exist(&self, t: &Transaction) -> (r: bool)
        ensures
            r == tx_refs_ok(self@, *t),
    {
        match self.find_account(t.account_id.as_str()) {
            Some(i) => {
                assert(account_ids(self@.accounts)[i as int] == t.account_id@);
            },
            None => {
                return false;
            },
        }
        match self.find_category(t.category_id.as_str()) {
            Some(i) => {
                assert(category_ids(self@.categories)[i as int] == t.category_id@);
                true
            },
            None => false,
        }
    }
}

/// Inserts a transaction; refused when its id is taken, or when its account or
/// category does not exist.
pub fn transactions_insert(store: &mut Store, t: &Transaction) -> (r: Result<(), String>)
    requires
        old(store)@.wf(),
    ensures
        final(store)@.wf(),
        if transaction_ids(old(store)@.transactions).contains(t.id@) {
            &&& r matches Err(e) && e@ == unique_error("transactions"@)
            &&& final(store)@ == old(store)@
        } else if !tx_refs_ok(old(store)@, *t) {
            &&& r matches Err(e) && e@ == foreign_key_error()
            &&& final(store)@ == old(store)@
        } else {
            &&& r is Ok
            &&& final(store)@ == (LedgerView { transactions: old(store)@.transactions.push(*t), ..old(store)@ })
        },
{
    if let Some(i) = store.find_transaction(t.id.as_str()) {
        assert(transaction_ids(store@.transactions)[i as int] == t.id@);
        return unique_err("transactions");
    }
    if !store.tx_refs_exist(t) {
        return err("FOREIGN KEY constraint failed");
    }
    let ghost before = store@;
    store.transactions.push(t.duplicate());
    proof {
        assert(store@ == (LedgerView { transactions: before.transactions.push(*t), ..before }));
        lemma_wf_transaction_pushed(before, store@, *t);
    }
    Ok(())
}

/// Rewrites the transaction with the id of `t`; nothing happens when there is none;
/// refused when the new account or category does not exist.
pub fn transactions_update(store: &mut Store, t: &Transaction) -> (r: Result<(), String>)
    requires
        old(store)@.wf(),
    ensures
        final(store)@.wf(),
        match find_index(transaction_ids(old(store)@.transactions), t.id@) {
            Some(k) => if tx_refs_ok(old(store)@, *t) {
                &&& r is Ok
                &&& final(store)@ == (LedgerView { transactions: old(store)@.transactions.update(k, *t), ..old(store)@ })
            } else {
                &&& r matches Err(e) && e@ == foreign_key_error()
                &&& final(store)@ == old(store)@
            },
            None => r is Ok && final(store)@ == old(store)@,
        },
{
    match store.find_transaction(t.id.as_str()) {
        Some(k) => {
            proof { lemma_find_index_at(transaction_ids(store@.transactions), k as int); }
            if !store.tx_refs_exist(t) {
                return err("FOREIGN KEY constraint failed");
            }
            let ghost before = store@;
            store.transactions.set(k, t.duplicate());
            proof {
                assert(store@ == (LedgerView { transactions: before.transactions.update(k as int, *t), ..before }));
                lemma_wf_transaction_set(before, store@, k as int, *t);
            }
            Ok(())
        },
        None => {
            proof { lemma_find_index_absent(transaction_ids(store@.transactions), t.id@); }
            Ok(())
        },
    }
}

/// Deletes the transaction `id`, if there is one.
pub fn transactions_delete(store: &mut Store, id: &str) -> (r: Result<(), String>)
    requires
        old(store)@.wf(),
    ensures
        final(store)@.wf(),
        r is Ok,
        match find_index(transaction_ids(old(store)@.transactions), id@) {
            Some(k) => final(store)@ == (LedgerView { transactions: old(store)@.transactions.remove(k), ..old(store)@ }),
            None => final(store)@ == old(store)@,
        },
{
    match store.find_transaction(id) {
        Some(k) => {
            proof { lemma_find_index_at(transaction_ids(store@.transactions), k as int); }
            let ghost before = store@;
            store.transactions.remove(k);
            proof { lemma_wf_remove_transaction(before, k as int); }
            Ok(())
        },
        None => {
            proof { lemma_find_index_absent(transaction_ids(store@.transactions), id@); }
            Ok(())
        },
    }
}


impl Store {
    /// A copy of the transaction at position `k`.
    pub fn find_transaction_row(&self, k: usize) -> (t: Transaction)
        requires
            k < self@.transactions.len(),
        ensures
            t == self@.transactions[k as int],
    {
        self.transactions[k].duplicate()
    }

    /// Number of accounts.
    pub fn accounts_len(&self) -> (n: usize)
        ensures
            n == self@.accounts.len(),
    {
        self.accounts.len()
    }

    /// Number of transactions.
    pub fn transactions_len(&self) -> (n: usize)
        ensures
            n == self@.transactions.len(),
    {
        self.transactions.len()
    }

    /// Number of pockets.
    pub fn pockets_len(&self) -> (n: usize)
        ensures
            n == self@.pockets.len(),
    {
        self.pockets.len()
    }

    /// Number of snapshots.
    pub fn snapshots_len(&self) -> (n: usize)
        ensures
            n == self@.snapshots.len(),
    {
        self.snapshots.len()
    }

    /// A copy of the snapshot at position `k`.
    pub fn snapshot_row(&self, k: usize) -> (p: PortfolioSnapshot)
        requires
            k < self@.snapshots.len(),
        ensures
            p == self@.snapshots[k as int],
    {
        let s = &self.snapshots[k];
        PortfolioSnapshot { day: s.day, total_value: s.total_value, total_invested: s.total_invested, unrealized_pnl: s.unrealized_pnl }
    }

    /// Number of obligations.
    pub fn obligations_len(&self) -> (n: usize)
        ensures
            n == self@.obligations.len(),
    {
        self.obligations.len()
    }

    /// Number of categories.
    pub fn categories_len(&self) -> (n: usize)
        ensures
            n == self@.categories.len(),
    {
        self.categories.len()
    }

    /// A copy of the category at position `k`.
    pub fn category_row(&self, k: usize) -> (c: Category)
        requires
            k < self@.categories.len(),
        ensures
            c == self@.categories[k as int],
    {
        self.categories[k].duplicate()
    }

    /// A copy of the pocket at position `k`.
    pub fn find_pocket_row(&self, k: usize) -> (p: SavingsPocket)
        requires
            k < self@.pockets.len(),
        ensures
            p == self@.pockets[k as int],
    {
        self.pockets[k].duplicate()
    }

    /// A copy of the obligation at position `k`.
    pub fn find_obligation_row(&self, k: usize) -> (o: Obligation)
        requires
            k < self@.obligations.len(),
        ensures
            o == self@.obligations[k as int],
    {
        self.obligations[k].duplicate()
    }

    /// A copy of the account at position `k`.
    pub fn find_account_row(&self, k: usize) -> (a: Account)
        requires
            k < self@.accounts.len(),
        ensures
            a == self@.accounts[k as int],
    {
        self.accounts[k].duplicate()
    }

    /// Whether a transaction refers to the category `id`.
    fn category_used(&self, id: &str) -> (r: bool)
        ensures
            r == self@.category_in_use(id@),
    {
        let mut i: usize = 0;
        while i < self.transactions.len()
            invariant
                i <= self.transactions.len(),
                forall|q: int| 0 <= q < i ==> self.transactions@[q].category_id@ != id@,
            decreases self.transactions.len() - i,
        {
            if str_eq(self.transactions[i].category_id.as_str(), id) {
                assert(self@.transactions[i as int].category_id@ == id@);
                return true;
            }
            i += 1;
        }
        false
    }
}


// ── Savings pockets ─────────────────────────────────────────────────────────

/// Inserts a pocket; refused when its id is taken or its account does not exist.
pub fn pockets_insert(store: &mut Store, p: &SavingsPocket) -> (r: Result<(), String>)
    requires
        old(store)@.wf(),
    ensures
        final(store)@.wf(),
        if pocket_ids(old(store)@.pockets).contains(p.id@) {
            &&& r matches Err(e) && e@ == unique_error("savings_pockets"@)
            &&& final(store)@ == old(store)@
        } else if !account_ids(old(store)@.accounts).contains(p.linked_account_id@) {
            &&& r matches Err(e) && e@ == foreign_key_error()
            &&& final(store)@ == old(store)@
        } else {
            &&& r is Ok
            &&& final(store)@ == (LedgerView { pockets: old(store)@.pockets.push(*p), ..old(store)@ })
        },
{
    if let Some(i) = store.find_pocket(p.id.as_str()) {
        assert(pocket_ids(store@.pockets)[i as int] == p.id@);
        return unique_err("savings_pockets");
    }
    match store.find_account(p.linked_account_id.as_str()) {
        Some(i) => {
            assert(account_ids(store@.accounts)[i as int] == p.linked_account_id@);
        },
        None => {
            return err("FOREIGN KEY constraint failed");
        },
    }
    let ghost before = store@;
    store.pockets.push(p.duplicate());
    proof {
        assert(store@ == (LedgerView { pockets: before.pockets.push(*p), ..before }));
        lemma_wf_pocket_pushed(before, store@, *p);
    }
    Ok(())
}

/// Rewrites the pocket with the id of `p`; nothing happens when there is none;
/// refused when the new linked account does not exist.
pub fn pockets_update(store: &mut Store, p: &SavingsPocket) -> (r: Result<(), String>)
    requires
        old(store)@.wf(),
    ensures
        final(store)@.wf(),
        match find_index(pocket_ids(old(store)@.pockets), p.id@) {
            Some(k) => if account_ids(old(store)@.accounts).contains(p.linked_account_id@) {
                &&& r is Ok
                &&& final(store)@ == (LedgerView { pockets: old(store)@.pockets.update(k, *p), ..old(store)@ })
            } else {
                &&& r matches Err(e) && e@ == foreign_key_error()
                &&& final(store)@ == old(store)@
            },
            None => r is Ok && final(store)@ == old(store)@,
        },
{
    match store.find_pocket(p.id.as_str()) {
        Some(k) => {
            proof { lemma_find_index_at(pocket_ids(store@.pockets), k as int); }
            match store.find_account(p.linked_account_id.as_str()) {
                Some(i) => {
                    assert(account_ids(store@.accounts)[i as int] == p.linked_account_id@);
                },
                None => {
                    return err("FOREIGN KEY constraint failed");
                },
            }
            let ghost before = store@;
            store.pockets.set(k, p.duplicate());
            proof {
                assert(store@ == (LedgerView { pockets: before.pockets.update(k as int, *p), ..before }));
                lemma_wf_pocket_set(before, store@, k as int, *p);
            }
            Ok(())
        },
        None => {
            proof { lemma_find_index_absent(pocket_ids(store@.pockets), p.id@); }
            Ok(())
        },
    }
}

/// The pocket `id`, if there is one.
pub fn pockets_one(store: &Store, id: &str) -> (r: Result<Option<SavingsPocket>, String>)
    requires
        store@.wf(),
    ensures
        match find_index(pocket_ids(store@.pockets), id@) {
            Some(k) => r == Ok::<Option<SavingsPocket>, String>(Some(store@.pockets[k])),
            None => r == Ok::<Option<SavingsPocket>, String>(None),
        },
{
    match store.find_pocket(id) {
        Some(k) => {
            proof { lemma_find_index_at(pocket_ids(store@.pockets), k as int); }
            Ok(Some(store.pockets[k].duplicate()))
        },
        None => {
            proof { lemma_find_index_absent(pocket_ids(store@.pockets), id@); }
            Ok(None)
        },
    }
}

impl Store {
    /// Moves `rows` out of the accounts table after they were computed from it.
    fn replace_accounts(&mut self, rows: Vec<Account>)
        requires
            old(self)@.wf(),
            account_ids(rows@) == account_ids(old(self)@.accounts),
        ensures
            final(self)@ == (LedgerView { accounts: rows@, ..old(self)@ }),
            final(self)@.wf(),
    {
        let ghost before = self@;
        self.accounts = rows;
        proof {
            assert(account_ids(self@.accounts) == account_ids(before.accounts));
            assert(self@ == (LedgerView { accounts: self@.accounts, ..before }));
            lemma_wf_accounts_same_keys(before, self@);
        }
    }

    /// Whether the balance adjustments `ds` keep every balance in the 64-bit range.
    pub fn balance_changes_fit(&self, ds: &Vec<(String, i128)>) -> (ok: bool)
        requires
            forall|k: int| 0 <= k < ds.len() ==> -0x1_0000_0000_0000_0000 <= #[trigger] ds@[k].1 <= 0x1_0000_0000_0000_0000,
        ensures
            ok == all_fit(self@.accounts, deltas_view(ds@)),
    {
        apply_deltas(&self.accounts, ds, 0).is_some()
    }

    /// Applies the balance adjustments `ds`, all or none: `false` and no change when
    /// a step would leave the 64-bit range.
    pub fn apply_balance_changes(&mut self, ds: &Vec<(String, i128)>, now: i64) -> (ok: bool)
        requires
            old(self)@.wf(),
            forall|k: int| 0 <= k < ds.len() ==> -0x1_0000_0000_0000_0000 <= #[trigger] ds@[k].1 <= 0x1_0000_0000_0000_0000,
        ensures
            final(self)@.wf(),
            ok == all_fit(old(self)@.accounts, deltas_view(ds@)),
            ok ==> final(self)@ == (LedgerView {
                accounts: apply_all(old(self)@.accounts, deltas_view(ds@), now),
                ..old(self)@
            }),
            !ok ==> final(self)@ == old(self)@,
    {
        match apply_deltas(&self.accounts, ds, now) {
            Some(rows) => {
                proof { lemma_apply_all_ids(self@.accounts, deltas_view(ds@), now); }
                self.replace_accounts(rows);
                true
            },
            None => false,
        }
    }
}

/// A single adjustment `(id, d)`.
pub fn one_delta(id: &str, d: i128) -> (r: Vec<(String, i128)>)
    ensures
        deltas_view(r@) == seq![(id@, d as int)],
        r@.len() == 1,
        r@[0].1 == d,
{
    let mut v: Vec<(String, i128)> = Vec::new();
    v.push((crate::text::copy_str(id), d));
    assert(deltas_view(v@) =~= seq![(id@, d as int)]);
    v
}
/// The contract of `pockets_delete_at`: a positive amount in the pocket goes back
/// to its linked account, then the pocket goes.
pub open spec fn pockets_delete_post(v: LedgerView, w: LedgerView, id: Seq<char>, now: i64, r: Result<(), String>) -> bool {
        match find_index(pocket_ids(v.pockets), id) {
            Some(k) => {
                let p = v.pockets[k];
                let ds = if p.current_amount > 0 { seq![(p.linked_account_id@, p.current_amount as int)] } else { seq![] };
                if all_fit(v.accounts, ds) {
                    &&& r is Ok
                    &&& w == (LedgerView {
                        accounts: apply_all(v.accounts, ds, now),
                        pockets: v.pockets.remove(k),
                        ..v
                    })
                } else {
                    &&& r matches Err(e) && e@ == overflow_error()
                    &&& w == v
                }
            },
            None => r is Ok && w == v,
        }
}


/// Deletes the pocket `id` at time `now`; a positive amount in it goes back to its linked account.
pub fn pockets_delete_at(store: &mut Store, id: &str, now: i64) -> (r: Result<(), String>)
    requires
        old(store)@.wf(),
    ensures
        final(store)@.wf(),
        pockets_delete_post(old(store)@, final(store)@, id@, now, r),
{
    match store.find_pocket(id) {
        Some(k) => {
            proof { lemma_find_index_at(pocket_ids(store@.pockets), k as int); }
            let amt = store.pockets[k].current_amount;
            let ds = if amt > 0 {
                one_delta(store.pockets[k].linked_account_id.as_str(), amt as i128)
            } else {
                let v: Vec<(String, i128)> = Vec::new();
                assert(deltas_view(v@) =~= seq![]);
                v
            };
            if !store.apply_balance_changes(&ds, now) {
                return err("integer overflow");
            }
            let ghost before = store@;
            store.pockets.remove(k);
            proof {
                assert(store@ == (LedgerView { pockets: before.pockets.remove(k as int), ..before }));
                lemma_wf_pocket_removed(before, store@, k as int);
            }
            Ok(())
        },
        None => {
            proof { lemma_find_index_absent(pocket_ids(store@.pockets), id@); }
            Ok(())
        },
    }
}

// ── Obligations ─────────────────────────────────────────────────────────────

/// Inserts an obligation; refused when its id is taken.
pub fn obligation_insert(store: &mut Store, o: &Obligation) -> (r: Result<(), String>)
    requires
        old(store)@.wf(),
    ensures
        final(store)@.wf(),
        if obligation_ids(old(store)@.obligations).contains(o.id@) {
            &&& r matches Err(e) && e@ == unique_error("obligations"@)
            &&& final(store)@ == old(store)@
        } else {
            &&& r is Ok
            &&& final(store)@ == (LedgerView { obligations: old(store)@.obligations.push(*o), ..old(store)@ })
        },
{
    if let Some(i) = store.find_obligation(o.id.as_str()) {
        assert(obligation_ids(store@.obligations)[i as int] == o.id@);
        return unique_err("obligations");
    }
    let ghost before = store@;
    store.obligations.push(o.duplicate());
    proof {
        assert(obligation_ids(store@.obligations) =~= obligation_ids(before.obligations).push(o.id@));
        lemma_push_distinct(obligation_ids(before.obligations), o.id@);
        assert(store@ == (LedgerView { obligations: store@.obligations, ..before }));
        lemma_wf_loose_changed(before, store@);
    }
    Ok(())
}

/// The stored row after `UPDATE obligations SET ... WHERE id = o.id`: every
/// column but the key and the creation time comes from `o`.
pub open spec fn obligation_updated(old: Obligation, o: Obligation) -> Obligation {
    Obligation { id: old.id, created_at: old.created_at, ..o }
}

/// Rewrites the obligation with the id of `o`; nothing happens when there is none.
pub fn obligation_update(store: &mut Store, o: &Obligation) -> (r: Result<(), String>)
    requires
        old(store)@.wf(),
    ensures
        final(store)@.wf(),
        r is Ok,
        match find_index(obligation_ids(old(store)@.obligations), o.id@) {
            Some(k) => final(store)@ == (LedgerView {
                obligations: old(store)@.obligations.update(k, obligation_updated(old(store)@.obligations[k], *o)),
                ..old(store)@
            }),
            None => final(store)@ == old(store)@,
        },
{
    match store.find_obligation(o.id.as_str()) {
        Some(k) => {
            proof { lemma_find_index_at(obligation_ids(store@.obligations), k as int); }
            let ghost before = store@;
            let old_row = store.obligations[k].duplicate();
            let mut row = o.duplicate();
            row.id = old_row.id;
            row.created_at = old_row.created_at;
            store.obligations.set(k, row);
            proof {
                assert(obligation_ids(store@.obligations) =~= obligation_ids(before.obligations));
                assert(store@ == (LedgerView { obligations: store@.obligations, ..before }));
                lemma_wf_loose_changed(before, store@);
            }
            Ok(())
        },
        None => {
            proof { lemma_find_index_absent(obligation_ids(store@.obligations), o.id@); }
            Ok(())
        },
    }
}

/// Deletes the obligation `id`, if there is one.
pub fn obligation_delete(store: &mut Store, id: &str) -> (r: Result<(), String>)
    requires
        old(store)@.wf(),
    ensures
        final(store)@.wf(),
        r is Ok,
        match find_index(obligation_ids(old(store)@.obligations), id@) {
            Some(k) => final(store)@ == (LedgerView { obligations: old(store)@.obligations.remove(k), ..old(store)@ }),
            None => final(store)@ == old(store)@,
        },
{
    match store.find_obligation(id) {
        Some(k) => {
            proof { lemma_find_index_at(obligation_ids(store@.obligations), k as int); }
            let ghost before = store@;
            store.obligations.remove(k);
            proof {
                assert(obligation_ids(store@.obligations) =~= obligation_ids(before.obligations).remove(k as int));
                lemma_remove_distinct(obligation_ids(before.obligations), k as int);
                assert(store@ == (LedgerView { obligations: store@.obligations, ..before }));
                lemma_wf_loose_changed(before, store@);
            }
            Ok(())
        },
        None => {
            proof { lemma_find_index_absent(obligation_ids(store@.obligations), id@); }
            Ok(())
        },
    }
}

/// The obligation `id`, if there is one.
pub fn obligation_one(store: &Store, id: &str) -> (r: Result<Option<Obligation>, String>)
    requires
        store@.wf(),
    ensures
        match find_index(obligation_ids(store@.obligations), id@) {
            Some(k) => r == Ok::<Option<Obligation>, String>(Some(store@.obligations[k])),
            None => r == Ok::<Option<Obligation>, String>(None),
        },
{
    match store.find_obligation(id) {
        Some(k) => {
            proof { lemma_find_index_at(obligation_ids(store@.obligations), k as int); }
            Ok(Some(store.obligations[k].duplicate()))
        },
        None => {
            proof { lemma_find_index_absent(obligation_ids(store@.obligations), id@); }
            Ok(None)
        },
    }
}

// ── Snapshots, settings, reset ──────────────────────────────────────────────

/// Stores the snapshot of `day`, replacing the one already kept for that day.
pub fn snapshot_upsert(
    store: &mut Store,
    day: i64,
    total_value: i64,
    total_invested: i64,
    unrealized_pnl: i64,
) -> (r: Result<(), String>)
    requires
        old(store)@.wf(),
    ensures
        final(store)@.wf(),
        r is Ok,
        ({
            let snap = PortfolioSnapshot { day, total_value, total_invested, unrealized_pnl };
            match find_index(snapshot_days(old(store)@.snapshots), day) {
                Some(k) => final(store)@ == (LedgerView { snapshots: old(store)@.snapshots.update(k, snap), ..old(store)@ }),
                None => final(store)@ == (LedgerView { snapshots: old(store)@.snapshots.push(snap), ..old(store)@ }),
            }
        }),
{
    let snap = PortfolioSnapshot { day, total_value, total_invested, unrealized_pnl };
    let mut i: usize = 0;
    while i < store.snapshots.len()
        invariant
            i <= store.snapshots.len(),
            store@ == old(store)@,
            old(store)@.wf(),
            snap == (PortfolioSnapshot { day, total_value, total_invested, unrealized_pnl }),
            forall|q: int| 0 <= q < i ==> store.snapshots@[q].day != day,
        decreases store.snapshots.len() - i,
    {
        if store.snapshots[i].day == day {
            proof {
                assert(snapshot_days(store@.snapshots)[i as int] == day);
                lemma_find_index_at(snapshot_days(store@.snapshots), i as int);
            }
            let ghost before = store@;
            store.snapshots.set(i, snap);
            proof {
                assert(store@.snapshots == before.snapshots.update(i as int, snap));
                assert(before.snapshots[i as int].day == day);
                assert(snapshot_days(store@.snapshots) =~= snapshot_days(before.snapshots));
                assert(store@ == (LedgerView { snapshots: store@.snapshots, ..before }));
                lemma_wf_loose_changed(before, store@);
            }
            return Ok(());
        }
        i += 1;
    }
    proof {
        if snapshot_days(store@.snapshots).contains(day) {
            let q = choose|q: int| 0 <= q < snapshot_days(store@.snapshots).len() && snapshot_days(store@.snapshots)[q] == day;
            assert(store.snapshots@[q].day == day);
        }
    }
    assert(store@.wf());
    let ghost before = store@;
    store.snapshots.push(snap);
    proof {
        assert(snapshot_days(store@.snapshots) =~= snapshot_days(before.snapshots).push(day));
        lemma_push_distinct(snapshot_days(before.snapshots), day);
        assert(store@ == (LedgerView { snapshots: store@.snapshots, ..before }));
        lemma_wf_loose_changed(before, store@);
    }
    Ok(())
}

/// Stores the spreadsheet settings: the URL (removed when `None`) and auto-sync.
pub fn save_settings(store: &mut Store, sheet_url: &Option<String>, auto_sync: bool) -> (r: Result<(), String>)
    requires
        old(store)@.wf(),
    ensures
        final(store)@.wf(),
        r is Ok,
        final(store)@ == (LedgerView { sheet_url: *sheet_url, auto_sync, ..old(store)@ }),
{
    let ghost before = store@;
    store.sheet_url = crate::models::copy_opt(sheet_url);
    store.auto_sync = auto_sync;
    proof {
        assert(store@ == (LedgerView { sheet_url: store@.sheet_url, auto_sync: store@.auto_sync, ..before }));
        lemma_wf_loose_changed(before, store@);
    }
    Ok(())
}

/// The stored spreadsheet settings.
pub fn load_settings(store: &Store) -> (r: (Option<String>, bool))
    ensures
        r == (store@.sheet_url, store@.auto_sync),
{
    (crate::models::copy_opt(&store.sheet_url), store.auto_sync)
}

/// Empties investment transactions, the product catalogue, transactions,
/// pockets, accounts and obligations; categories, snapshots and settings stay.
pub fn reset_all_data(store: &mut Store) -> (r: Result<(), String>)
    requires
        old(store)@.wf(),
    ensures
        final(store)@.wf(),
        r is Ok,
        final(store)@ == (LedgerView {
            accounts: Seq::empty(),
            transactions: Seq::empty(),
            pockets: Seq::empty(),
            obligations: Seq::empty(),
            products: Seq::empty(),
            investments: Seq::empty(),
            ..old(store)@
        }),
{
    store.investments = Vec::new();
    store.products = Vec::new();
    store.transactions = Vec::new();
    store.pockets = Vec::new();
    store.accounts = Vec::new();
    store.obligations = Vec::new();
    proof {
        assert(account_ids(store@.accounts) =~= Seq::<Seq<char>>::empty());
        assert(transaction_ids(store@.transactions) =~= Seq::<Seq<char>>::empty());
        assert(pocket_ids(store@.pockets) =~= Seq::<Seq<char>>::empty());
        assert(obligation_ids(store@.obligations) =~= Seq::<Seq<char>>::empty());
        assert(product_ids(store@.products) =~= Seq::<Seq<char>>::empty());
        assert(investment_ids(store@.investments) =~= Seq::<Seq<char>>::empty());
        let w = store@;
        assert(tx_refs_valid(account_ids(w.accounts), category_ids(w.categories), w.transactions)) by {
            reveal(tx_refs_valid);
        }
        assert(pocket_refs_valid(account_ids(w.accounts), w.pockets)) by {
            reveal(pocket_refs_valid);
        }
        assert(investment_refs_valid(account_ids(w.accounts), product_ids(w.products), w.investments)) by {
            reveal(investment_refs_valid);
        }
        lemma_wf_intro(w);
    }
    Ok(())
}

/// Whether a transaction still has to be sent to the spreadsheet.
pub open spec fn is_unsynced(t: Transaction) -> bool {
    t.sync_status == SyncStatus::Pending || t.sync_status == SyncStatus::Failed
}

/// Number of the first `n` transactions that are not synced.
pub open spec fn unsynced_count(s: Seq<Transaction>) -> nat
    decreases s.len(),
{
    if s.len() == 0 {
        0
    } else {
        unsynced_count(s.drop_last()) + if is_unsynced(s.last()) { 1nat } else { 0nat }
    }
}

/// Number of transactions waiting for the spreadsheet; 0 when it does not fit in a `u32`.
pub open spec fn pending_count_spec(txs: Seq<Transaction>) -> nat {
    if unsynced_count(txs) <= u32::MAX { unsynced_count(txs) } else { 0 }
}

/// Number of transactions waiting for the spreadsheet; 0 when it does not fit in a `u32`.
pub fn pending_count(store: &Store) -> (r: u32)
    ensures
        r == pending_count_spec(store@.transactions),
{
    let mut c: u64 = 0;
    let mut i: usize = 0;
    while i < store.transactions.len()
        invariant
            i <= store.transactions.len(),
            c == unsynced_count(store@.transactions.take(i as int)),
            c <= i,
        decreases store.transactions.len() - i,
    {
        assert(store@.transactions.take(i + 1).drop_last() =~= store@.transactions.take(i as int));
        let st = store.transactions[i].sync_status;
        if st == SyncStatus::Pending || st == SyncStatus::Failed {
            c = c + 1;
        }
        i += 1;
    }
    assert(store@.transactions.take(store.transactions.len() as int) =~= store@.transactions);
    if c <= u32::MAX as u64 {
        c as u32
    } else {
        0
    }
}


// ── Facts about sequences of balance adjustments ────────────────────────────

/// Same balances and keys, whatever the update times.
pub open spec fn same_balances(a: Seq<Account>, b: Seq<Account>) -> bool {
    balances(a) == balances(b) && account_ids(a) == account_ids(b)
}

pub proof fn lemma_adjust_same_balances(a: Seq<Account>, b: Seq<Account>, id: Seq<char>, d: int, n1: i64, n2: i64)
    requires
        same_balances(a, b),
    ensures
        same_balances(adjust(a, id, d, n1), adjust(b, id, d, n2)),
        adjust_fits(a, id, d) == adjust_fits(b, id, d),
{
    assert(a.len() == account_ids(a).len() && b.len() == account_ids(b).len());
    assert forall|i: int| 0 <= i < a.len() implies a[i].id@ == b[i].id@ && a[i].current_balance == b[i].current_balance by {
        assert(account_ids(a)[i] == account_ids(b)[i]);
        assert(balances(a)[i] == balances(b)[i]);
    }
    assert(balances(adjust(a, id, d, n1)) =~= balances(adjust(b, id, d, n2)));
    assert(account_ids(adjust(a, id, d, n1)) =~= account_ids(adjust(b, id, d, n2)));
    if adjust_fits(a, id, d) {
        assert forall|i: int| 0 <= i < b.len() && #[trigger] b[i].id@ == id implies i64::MIN <= b[i].current_balance + d <= i64::MAX by {
            assert(a[i].id@ == id);
        }
    }
    if adjust_fits(b, id, d) {
        assert forall|i: int| 0 <= i < a.len() && #[trigger] a[i].id@ == id implies i64::MIN <= a[i].current_balance + d <= i64::MAX by {
            assert(b[i].id@ == id);
        }
    }
}

pub proof fn lemma_apply_same_balances(a: Seq<Account>, b: Seq<Account>, ds: Seq<(Seq<char>, int)>, n1: i64, n2: i64)
    requires
        same_balances(a, b),
    ensures
        same_balances(apply_all(a, ds, n1), apply_all(b, ds, n2)),
        all_fit(a, ds) == all_fit(b, ds),
    decreases ds.len(),
{
    if ds.len() > 0 {
        lemma_adjust_same_balances(a, b, ds[0].0, ds[0].1, n1, n2);
        lemma_adjust_same_balances(a, b, ds[0].0, ds[0].1, 0, 0);
        lemma_apply_same_balances(adjust(a, ds[0].0, ds[0].1, n1), adjust(b, ds[0].0, ds[0].1, n2), ds.drop_first(), n1, n2);
        lemma_apply_same_balances(adjust(a, ds[0].0, ds[0].1, 0), adjust(b, ds[0].0, ds[0].1, 0), ds.drop_first(), 0, 0);
    }
}

/// Applying `x + y` is applying `x`, then `y`.
pub proof fn lemma_apply_concat(a: Seq<Account>, x: Seq<(Seq<char>, int)>, y: Seq<(Seq<char>, int)>, now: i64)
    ensures
        apply_all(a, x + y, now) == apply_all(apply_all(a, x, now), y, now),
        all_fit(a, x + y) == (all_fit(a, x) && all_fit(apply_all(a, x, now), y)),
    decreases x.len(),
{
    if x.len() == 0 {
        assert(x + y =~= y);
    } else {
        assert((x + y)[0] == x[0]);
        assert((x + y).drop_first() =~= x.drop_first() + y);
        lemma_apply_concat(adjust(a, x[0].0, x[0].1, now), x.drop_first(), y, now);
        lemma_apply_concat(adjust(a, x[0].0, x[0].1, 0), x.drop_first(), y, 0);
        // all_fit is computed on update time 0; relate it to `now`.
        let a0 = adjust(a, x[0].0, x[0].1, 0);
        let an = adjust(a, x[0].0, x[0].1, now);
        lemma_adjust_same_balances(a, a, x[0].0, x[0].1, 0, now);
        lemma_apply_same_balances(a0, an, x.drop_first(), 0, now);
        lemma_apply_same_balances(apply_all(a0, x.drop_first(), 0), apply_all(an, x.drop_first(), now), y, 0, now);
    }
}


/// Deletes the pocket `id`; a positive amount in it goes back to its linked
/// account, stamped with the current time.
pub fn pockets_delete(store: &mut Store, id: &str) -> (r: Result<(), String>)
    requires
        old(store)@.wf(),
    ensures
        final(store)@.wf(),
        exists|now: i64| pockets_delete_post(old(store)@, final(store)@, id@, now, r),
{
    let now = crate::outside::now_ts();
    pockets_delete_at(store, id, now)
}

// ── Default categories ──────────────────────────────────────────────────────

pub open spec fn default_category_name(i: int) -> Seq<char> {
    if i == 0 { "Makanan & Minuman"@ }
    else if i == 1 { "Transportasi"@ }
    else if i == 2 { "Belanja"@ }
    else if i == 3 { "Tagihan"@ }
    else if i == 4 { "Kesehatan"@ }
    else if i == 5 { "Hiburan"@ }
    else if i == 6 { "Gaji"@ }
    else if i == 7 { "Bonus"@ }
    else if i == 8 { "Investasi"@ }
    else { "Transfer"@ }
}

pub open spec fn default_category_type(i: int) -> TxType {
    if i <= 5 { TxType::Expense } else if i <= 8 { TxType::Income } else { TxType::Transfer }
}

pub open spec fn default_category_icon(i: int) -> Seq<char> {
    if i == 0 { "utensils"@ }
    else if i == 1 { "bus"@ }
    else if i == 2 { "shopping-bag"@ }
    else if i == 3 { "receipt"@ }
    else if i == 4 { "heart"@ }
    else if i == 5 { "film"@ }
    else if i == 6 { "wallet"@ }
    else if i == 7 { "gift"@ }
    else if i == 8 { "trending-up"@ }
    else { "arrow-left-right"@ }
}

pub open spec fn default_category_color(i: int) -> Seq<char> {
    if i == 0 { "#f97316"@ }
    else if i == 1 { "#38bdf8"@ }
    else if i == 2 { "#ec4899"@ }
    else if i == 3 { "#ef4444"@ }
    else if i == 4 { "#a78bfa"@ }
    else if i == 5 { "#facc15"@ }
    else if i == 6 { "#10b981"@ }
    else if i == 7 { "#22c55e"@ }
    else if i == 8 { "#06b6d4"@ }
    else { "#64748b"@ }
}

/// `c` is the `i`-th default category, with identifier `id`.
pub open spec fn is_default_category(c: Category, i: int, id: String) -> bool {
    &&& c.id == id
    &&& c.name@ == default_category_name(i)
    &&& c.category_type == default_category_type(i)
    &&& c.icon@ == default_category_icon(i)
    &&& c.color_hex@ == default_category_color(i)
}

fn default_category(i: usize, id: String) -> (c: Category)
    requires
        i < 10,
    ensures
        is_default_category(c, i as int, id),
{
    let (name, tt, icon, color) = if i == 0 { ("Makanan & Minuman", TxType::Expense, "utensils", "#f97316") }
        else if i == 1 { ("Transportasi", TxType::Expense, "bus", "#38bdf8") }
        else if i == 2 { ("Belanja", TxType::Expense, "shopping-bag", "#ec4899") }
        else if i == 3 { ("Tagihan", TxType::Expense, "receipt", "#ef4444") }
        else if i == 4 { ("Kesehatan", TxType::Expense, "heart", "#a78bfa") }
        else if i == 5 { ("Hiburan", TxType::Expense, "film", "#facc15") }
        else if i == 6 { ("Gaji", TxType::Income, "wallet", "#10b981") }
        else if i == 7 { ("Bonus", TxType::Income, "gift", "#22c55e") }
        else if i == 8 { ("Investasi", TxType::Income, "trending-up", "#06b6d4") }
        else { ("Transfer", TxType::Transfer, "arrow-left-right", "#64748b") };
    Category {
        id,
        name: crate::text::copy_str(name),
        category_type: tt,
        icon: crate::text::copy_str(icon),
        color_hex: crate::text::copy_str(color),
    }
}

/// The contract of `seed_categories`: the ten default categories are appended
/// with identifiers `ids`, one by one; at the first identifier already taken the
/// seeding stops with the ones before it in place.
pub open spec fn seed_post(v: LedgerView, w: LedgerView, ids: Seq<String>, r: Result<(), String>) -> bool {
    let n = v.categories.len();
    &&& w == (LedgerView { categories: w.categories, ..v })
    &&& w.categories.take(n as int) == v.categories
    &&& match r {
        Ok(()) => w.categories.len() == n + 10 && forall|i: int| 0 <= i < 10 ==> is_default_category(#[trigger] w.categories[n + i], i, ids[i]),
        Err(e) => exists|p: int| #![trigger ids[p]] 0 <= p < 10 && e@ == unique_error("categories"@)
            && w.categories.len() == n + p
            && (forall|i: int| 0 <= i < p ==> is_default_category(#[trigger] w.categories[n + i], i, ids[i]))
            && category_ids(w.categories).contains(ids[p]@),
    }
}

/// Inserts the ten default categories with identifiers `ids`.
pub fn seed_categories(store: &mut Store, ids: &Vec<String>) -> (r: Result<(), String>)
    requires
        old(store)@.wf(),
        ids.len() == 10,
    ensures
        final(store)@.wf(),
        seed_post(old(store)@, final(store)@, ids@, r),
{
    let ghost v = store@;
    let ghost n = v.categories.len();
    let mut i: usize = 0;
    while i < 10
        invariant
            ids.len() == 10,
            i <= 10,
            v == old(store)@,
            n == v.categories.len(),
            store@.wf(),
            store@ == (LedgerView { categories: store@.categories, ..v }),
            store@.categories.len() == n + i,
            store@.categories.take(n as int) == v.categories,
            forall|q: int| 0 <= q < i ==> is_default_category(#[trigger] store@.categories[n + q], q, ids@[q]),
        decreases 10 - i,
    {
        let c = default_category(i, ids[i].clone());
        let ghost before = store@;
        match categories_insert(store, &c) {
            Ok(()) => {
                assert(store@.categories == before.categories.push(c));
                assert(store@.accounts == v.accounts && store@.transactions == v.transactions && store@.pockets == v.pockets && store@.obligations == v.obligations);
                assert(store@.categories.take(n as int) =~= before.categories.take(n as int));
                assert forall|q: int| 0 <= q < i + 1 implies is_default_category(#[trigger] store@.categories[n + q], q, ids@[q]) by {
                    if q < i {
                        assert(store@.categories[n + q] == before.categories[n + q]);
                    }
                }
            },
            Err(e) => {
                assert(category_ids(store@.categories).contains(ids@[i as int]@));
                assert(ids@[i as int] == ids@[i as int]);
                assert(store@ == before);
                assert(store@.accounts == v.accounts && store@.transactions == v.transactions && store@.pockets == v.pockets && store@.obligations == v.obligations);
                assert(store@ == (LedgerView { categories: store@.categories, ..v }));
                assert(v == old(store)@);
                return Err(e);
            },
        }
        i += 1;
    }
    Ok(())
}

/// The contract of `init_db`: the state `w` and the result `r` after the call
/// on state `v`. A store with categories is left alone; otherwise the defaults
/// are seeded with some ten identifiers.
pub open spec fn init_post(v: LedgerView, w: LedgerView, r: Result<(), String>) -> bool {
    &&& v.categories.len() > 0 ==> r is Ok && w == v
    &&& v.categories.len() == 0 ==> exists|ids: Seq<String>| ids.len() == 10 && #[trigger] seed_post(v, w, ids, r)
}

/// Prepares a store for use: when it has no category yet, the ten default
/// categories are seeded with fresh identifiers.
pub fn init_db(store: &mut Store) -> (r: Result<(), String>)
    requires
        old(store)@.wf(),
    ensures
        final(store)@.wf(),
        init_post(old(store)@, final(store)@, r),
{
    if store.categories_len() > 0 {
        return Ok(());
    }
    let mut ids: Vec<String> = Vec::new();
    let mut i: usize = 0;
    while i < 10
        invariant
            ids.len() == i,
            i <= 10,
        decreases 10 - i,
    {
        ids.push(crate::outside::new_id());
        i += 1;
    }
    seed_categories(store, &ids)
}


// ── Fund catalogue and investment transactions ──────────────────────────────

impl Store {
    /// Position of the product `id`.
    pub fn find_product(&self, id: &str) -> (r: Option<usize>)
        ensures
            match r {
                Some(i) => i < self@.products.len() && self@.products[i as int].id@ == id@,
                None => !product_ids(self@.products).contains(id@),
            },
    {
        let mut i: usize = 0;
        while i < self.products.len()
            invariant
                i <= self.products.len(),
                forall|k: int| 0 <= k < i ==> self.products@[k].id@ != id@,
            decreases self.products.len() - i,
        {
            if str_eq(self.products[i].id.as_str(), id) {
                return Some(i);
            }
            i += 1;
        }
        proof {
            if product_ids(self@.products).contains(id@) {
                let k = choose|k: int| 0 <= k < product_ids(self@.products).len() && product_ids(self@.products)[k] == id@;
                assert(self.products@[k].id@ == id@);
            }
        }
        None
    }

    /// Position of the investment transaction `id`.
    pub fn find_investment(&self, id: &str) -> (r: Option<usize>)
        ensures
            match r {
                Some(i) => i < self@.investments.len() && self@.investments[i as int].id@ == id@,
                None => !investment_ids(self@.investments).contains(id@),
            },
    {
        let mut i: usize = 0;
        while i < self.investments.len()
            invariant
                i <= self.investments.len(),
                forall|k: int| 0 <= k < i ==> self.investments@[k].id@ != id@,
            decreases self.investments.len() - i,
        {
            if str_eq(self.investments[i].id.as_str(), id) {
                return Some(i);
            }
            i += 1;
        }
        proof {
            if investment_ids(self@.investments).contains(id@) {
                let k = choose|k: int| 0 <= k < investment_ids(self@.investments).len() && investment_ids(self@.investments)[k] == id@;
                assert(self.investments@[k].id@ == id@);
            }
        }
        None
    }

    /// Number of cached products.
    pub fn products_len(&self) -> (n: usize)
        ensures
            n == self@.products.len(),
    {
        self.products.len()
    }

    /// A copy of the product at position `k`.
    pub fn product_row(&self, k: usize) -> (p: MutualFundProduct)
        requires
            k < self@.products.len(),
        ensures
            p == self@.products[k as int],
    {
        self.products[k].duplicate()
    }

    /// Number of investment transactions.
    pub fn investments_len(&self) -> (n: usize)
        ensures
            n == self@.investments.len(),
    {
        self.investments.len()
    }

    /// A copy of the investment transaction at position `k`.
    pub fn investment_row(&self, k: usize) -> (t: InvestmentTransaction)
        requires
            k < self@.investments.len(),
        ensures
            t == self@.investments[k as int],
    {
        self.investments[k].duplicate()
    }
}

/// Inserts the product, or rewrites every column of the cached one with the
/// same id (which keeps its place in the table).
pub fn bibit_product_upsert(store: &mut Store, p: &MutualFundProduct) -> (r: Result<(), String>)
    requires
        old(store)@.wf(),
    ensures
        final(store)@.wf(),
        r is Ok,
        match find_index(product_ids(old(store)@.products), p.id@) {
            Some(k) => final(store)@ == (LedgerView { products: old(store)@.products.update(k, *p), ..old(store)@ }),
            None => final(store)@ == (LedgerView { products: old(store)@.products.push(*p), ..old(store)@ }),
        },
{
    let ghost before = store@;
    match store.find_product(p.id.as_str()) {
        Some(k) => {
            proof { lemma_find_index_at(product_ids(store@.products), k as int); }
            store.products.set(k, p.duplicate());
            proof {
                assert(product_ids(store@.products) =~= product_ids(before.products));
                assert(store@ == (LedgerView { products: store@.products, ..before }));
                lemma_wf_products_same_keys(before, store@);
            }
        },
        None => {
            proof { lemma_find_index_absent(product_ids(store@.products), p.id@); }
            store.products.push(p.duplicate());
            proof {
                assert(store@ == (LedgerView { products: before.products.push(*p), ..before }));
                lemma_wf_product_pushed(before, store@, *p);
            }
        },
    }
    Ok(())
}

/// The index is derived from the cached products, so rebuilding it leaves the
/// store as it is.
pub fn rebuild_bibit_fts(store: &Store) -> (r: Result<(), String>)
    ensures
        r is Ok,
{
    Ok(())
}

/// Records one investment transaction; refused when its id is taken, or when
/// its account or its product does not exist.
pub fn investment_tx_insert(store: &mut Store, t: &InvestmentTransaction) -> (r: Result<(), String>)
    requires
        old(store)@.wf(),
    ensures
        final(store)@.wf(),
        if investment_ids(old(store)@.investments).contains(t.id@) {
            &&& r matches Err(e) && e@ == unique_error("investment_transactions"@)
            &&& final(store)@ == old(store)@
        } else if !account_ids(old(store)@.accounts).contains(t.account_id@)
            || !product_ids(old(store)@.products).contains(t.product_id@) {
            &&& r matches Err(e) && e@ == foreign_key_error()
            &&& final(store)@ == old(store)@
        } else {
            &&& r is Ok
            &&& final(store)@ == (LedgerView { investments: old(store)@.investments.push(*t), ..old(store)@ })
        },
{
    if let Some(i) = store.find_investment(t.id.as_str()) {
        assert(investment_ids(store@.investments)[i as int] == t.id@);
        return unique_err("investment_transactions");
    }
    match store.find_account(t.account_id.as_str()) {
        Some(i) => {
            assert(account_ids(store@.accounts)[i as int] == t.account_id@);
        },
        None => {
            return err("FOREIGN KEY constraint failed");
        },
    }
    match store.find_product(t.product_id.as_str()) {
        Some(i) => {
            assert(product_ids(store@.products)[i as int] == t.product_id@);
        },
        None => {
            return err("FOREIGN KEY constraint failed");
        },
    }
    let ghost before = store@;
    store.investments.push(t.duplicate());
    proof {
        assert(store@ == (LedgerView { investments: before.investments.push(*t), ..before }));
        lemma_wf_investment_pushed(before, store@, *t);
    }
    Ok(())
}

/// Sets the NAV and the fetch time of the cached product `id`; nothing happens
/// when there is none.
pub fn product_nav_update(store: &mut Store, id: &str, nav: u64, now: i64) -> (r: Result<(), String>)
    requires
        old(store)@.wf(),
    ensures
        final(store)@.wf(),
        r is Ok,
        match find_index(product_ids(old(store)@.products), id@) {
            Some(k) => final(store)@ == (LedgerView {
                products: old(store)@.products.update(k, MutualFundProduct {
                    current_nav: nav,
                    last_fetched_at: now,
                    ..old(store)@.products[k]
                }),
                ..old(store)@
            }),
            None => final(store)@ == old(store)@,
        },
{
    let ghost before = store@;
    match store.find_product(id) {
        Some(k) => {
            proof { lemma_find_index_at(product_ids(store@.products), k as int); }
            let mut p = store.products[k].duplicate();
            p.current_nav = nav;
            p.last_fetched_at = now;
            store.products.set(k, p);
            proof {
                assert(product_ids(store@.products) =~= product_ids(before.products));
                assert(store@ == (LedgerView { products: store@.products, ..before }));
                lemma_wf_products_same_keys(before, store@);
            }
        },
        None => {
            proof { lemma_find_index_absent(product_ids(store@.products), id@); }
        },
    }
    Ok(())
}


/// A transaction after a successful push: pending and failed ones are synced.
pub open spec fn synced(t: Transaction) -> Transaction {
    if is_unsynced(t) { Transaction { sync_status: SyncStatus::Synced, ..t } } else { t }
}

/// An optional text column, by its characters.
pub open spec fn opt_text(o: Option<String>) -> Option<Seq<char>> {
    match o {
        Some(s) => Some(s@),
        None => None,
    }
}

/// Two transactions hold the same content: every column is equal.
pub open spec fn same_content(a: Transaction, b: Transaction) -> bool {
    &&& a.id@ == b.id@
    &&& a.account_id@ == b.account_id@
    &&& opt_text(a.destination_account_id) == opt_text(b.destination_account_id)
    &&& a.category_id@ == b.category_id@
    &&& a.amount == b.amount
    &&& a.transaction_type == b.transaction_type
    &&& a.date == b.date
    &&& a.note@ == b.note@
    &&& opt_text(a.receipt_url) == opt_text(b.receipt_url)
    &&& a.sync_status == b.sync_status
    &&& a.sheet_row_id == b.sheet_row_id
}

/// Whether some row of `sent` holds the content of `t`.
pub open spec fn was_sent(sent: Seq<Transaction>, t: Transaction) -> bool {
    exists|j: int| 0 <= j < sent.len() && #[trigger] same_content(sent[j], t)
}

/// `t` after a push that sent `sent`: synced when it was waiting and a sent
/// row holds its content; otherwise as it was.
pub open spec fn marked_if_sent(t: Transaction, sent: Seq<Transaction>) -> Transaction {
    if was_sent(sent, t) { synced(t) } else { t }
}

fn same_opt_text(a: &Option<String>, b: &Option<String>) -> (r: bool)
    ensures
        r == (opt_text(*a) == opt_text(*b)),
{
    match (a, b) {
        (Some(x), Some(y)) => crate::text::str_eq(x.as_str(), y.as_str()),
        (None, None) => true,
        _ => false,
    }
}

/// Decides `same_content`.
fn same_content_exec(a: &Transaction, b: &Transaction) -> (r: bool)
    ensures
        r == same_content(*a, *b),
{
    let rows_same = match (a.sheet_row_id, b.sheet_row_id) {
        (Some(x), Some(y)) => x == y,
        (None, None) => true,
        _ => false,
    };
    crate::text::str_eq(a.id.as_str(), b.id.as_str())
        && crate::text::str_eq(a.account_id.as_str(), b.account_id.as_str())
        && same_opt_text(&a.destination_account_id, &b.destination_account_id)
        && crate::text::str_eq(a.category_id.as_str(), b.category_id.as_str())
        && a.amount == b.amount
        && a.transaction_type == b.transaction_type
        && a.date == b.date
        && crate::text::str_eq(a.note.as_str(), b.note.as_str())
        && same_opt_text(&a.receipt_url, &b.receipt_url)
        && a.sync_status == b.sync_status
        && rows_same
}

/// Decides `was_sent`.
fn was_sent_exec(sent: &Vec<Transaction>, t: &Transaction) -> (r: bool)
    ensures
        r == was_sent(sent@, *t),
{
    let mut j: usize = 0;
    while j < sent.len()
        invariant
            j <= sent.len(),
            forall|q: int| 0 <= q < j ==> !#[trigger] same_content(sent@[q], *t),
        decreases sent.len() - j,
    {
        if same_content_exec(&sent[j], t) {
            return true;
        }
        j += 1;
    }
    false
}

/// Marks synced every pending or failed transaction whose content a row of
/// `sent` holds; every other transaction stays as it was.
pub fn mark_synced(store: &mut Store, sent: &Vec<Transaction>) -> (r: Result<(), String>)
    requires
        old(store)@.wf(),
    ensures
        final(store)@.wf(),
        r is Ok,
        final(store)@ == (LedgerView {
            transactions: old(store)@.transactions.map_values(|t: Transaction| marked_if_sent(t, sent@)),
            ..old(store)@
        }),
{
    let ghost before = store@;
    let mut i: usize = 0;
    while i < store.transactions.len()
        invariant
            i <= store.transactions.len(),
            store.transactions.len() == before.transactions.len(),
            store@ == (LedgerView { transactions: store@.transactions, ..before }),
            forall|q: int| 0 <= q < i ==> store@.transactions[q] == marked_if_sent(#[trigger] before.transactions[q], sent@),
            forall|q: int| i <= q < store@.transactions.len() ==> store@.transactions[q] == before.transactions[q],
        decreases store.transactions.len() - i,
    {
        let waiting = store.transactions[i].sync_status == SyncStatus::Pending || store.transactions[i].sync_status == SyncStatus::Failed;
        if waiting && was_sent_exec(sent, &store.transactions[i]) {
            let mut t = store.transactions[i].duplicate();
            t.sync_status = SyncStatus::Synced;
            store.transactions.set(i, t);
        }
        i += 1;
    }
    proof {
        let w = store@;
        assert(w.transactions =~= before.transactions.map_values(|t: Transaction| marked_if_sent(t, sent@)));
        assert(transaction_ids(w.transactions) =~= transaction_ids(before.transactions));
        lemma_wf_transactions_restamped(before, w);
    }
    Ok(())
}

} // verus!

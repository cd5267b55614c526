//! What holds across the ledger's operations: money is moved, never made or
//! lost, and an operation followed by its opposite leaves the ledger as it was.
use vstd::prelude::*;
use crate::models::{Account, SavingsPocket, SavingsPocketInput, TransactionInput, TxType};
use crate::db::{
    LedgerView, adjust, adjust_fits, apply_all, all_fit, account_ids, pocket_ids,
    transaction_ids, same_balances, balances, find_index,
};
use crate::commands::{
    create_tx_outcome, delete_tx_outcome, tx_effect, tx_reversal, negate, tx_from_input,
    tx_input_error, pockets_deposit_post, pockets_withdraw_post,
};
use crate::db::{pockets_delete_post, obligation_ids};
use crate::commands::{obligation_pay_post, payment_tx_type};
use crate::models::{Obligation, ObligationPayment, Category, CategorySpend, Transaction};
use crate::db::category_ids;
use crate::commands::checked_sum;
use crate::report::{category_expenses, spend_rows, spend_overflows, spend_order_key, typed_amounts, or_zero, period_expense};
use crate::order::{sorted_rows, arranged, is_stable_order, is_permutation};
use vstd::set_lib::{lemma_int_range, set_int_range, lemma_subset_equality};

verus! {

/// The sum of all account balances.
pub open spec fn total_balance(accs: Seq<Account>) -> int
    decreases accs.len(),
{
    if accs.len() == 0 {
        0
    } else {
        total_balance(accs.drop_last()) + accs.last().current_balance
    }
}

/// The sum of the amounts held in pockets.
pub open spec fn pocket_total(ps: Seq<SavingsPocket>) -> int
    decreases ps.len(),
{
    if ps.len() == 0 {
        0
    } else {
        pocket_total(ps.drop_last()) + ps.last().current_amount
    }
}

/// What adjusting the account `id` by `d` adds to the total: `d` for each
/// account with that key.
spec fn adjust_gain(accs: Seq<Account>, id: Seq<char>, d: int) -> int
    decreases accs.len(),
{
    if accs.len() == 0 {
        0
    } else {
        adjust_gain(accs.drop_last(), id, d) + if accs.last().id@ == id { d } else { 0 }
    }
}

proof fn lemma_adjust_total(accs: Seq<Account>, id: Seq<char>, d: int, now: i64)
    requires
        adjust_fits(accs, id, d),
    ensures
        total_balance(adjust(accs, id, d, now)) == total_balance(accs) + adjust_gain(accs, id, d),
    decreases accs.len(),
{
    if accs.len() > 0 {
        let p = accs.drop_last();
        let k = accs.len() - 1;
        assert(adjust(accs, id, d, now).drop_last() =~= adjust(p, id, d, now));
        assert forall|i: int| 0 <= i < p.len() && #[trigger] p[i].id@ == id implies i64::MIN
            <= p[i].current_balance + d <= i64::MAX by {
            assert(accs[i] == p[i]);
            assert(accs[i].id@ == id);
        }
        lemma_adjust_total(p, id, d, now);
        if accs[k].id@ == id {
            assert(i64::MIN <= accs[k].current_balance + d <= i64::MAX);
        }
    }
}

proof fn lemma_adjust_gain_unique(accs: Seq<Account>, id: Seq<char>, d: int)
    requires
        account_ids(accs).no_duplicates(),
    ensures
        adjust_gain(accs, id, d) == if account_ids(accs).contains(id) { d } else { 0 },
    decreases accs.len(),
{
    if accs.len() > 0 {
        let p = accs.drop_last();
        let k = accs.len() - 1;
        let ids = account_ids(accs);
        assert(account_ids(p) =~= ids.drop_last());
        lemma_adjust_gain_unique(p, id, d);
        assert(ids[k] == accs[k].id@);
        if account_ids(p).contains(id) {
            let j = choose|j: int| 0 <= j < account_ids(p).len() && account_ids(p)[j] == id;
            assert(ids[j] == id);
        }
        if ids.contains(id) && accs[k].id@ != id {
            let j = choose|j: int| 0 <= j < ids.len() && ids[j] == id;
            assert(j != k);
            assert(account_ids(p)[j] == id);
        }
    }
}

/// Adjusting an existing account (keys unique) changes the total by `d`.
proof fn lemma_adjust_total_unique(accs: Seq<Account>, id: Seq<char>, d: int, now: i64)
    requires
        account_ids(accs).no_duplicates(),
        account_ids(accs).contains(id),
        adjust_fits(accs, id, d),
    ensures
        total_balance(adjust(accs, id, d, now)) == total_balance(accs) + d,
{
    lemma_adjust_total(accs, id, d, now);
    lemma_adjust_gain_unique(accs, id, d);
}

proof fn lemma_apply_one(a: Seq<Account>, p: (Seq<char>, int), now: i64)
    ensures
        apply_all(a, seq![p], now) == adjust(a, p.0, p.1, now),
        all_fit(a, seq![p]) == adjust_fits(a, p.0, p.1),
{
    reveal_with_fuel(apply_all, 2);
    reveal_with_fuel(all_fit, 2);
    assert(seq![p].drop_first() =~= Seq::<(Seq<char>, int)>::empty());
}

proof fn lemma_apply_two(a: Seq<Account>, p: (Seq<char>, int), q: (Seq<char>, int), now: i64)
    ensures
        apply_all(a, seq![p, q], now) == adjust(adjust(a, p.0, p.1, now), q.0, q.1, now),
        all_fit(a, seq![p, q]) == (adjust_fits(a, p.0, p.1) && adjust_fits(
            adjust(a, p.0, p.1, now),
            q.0,
            q.1,
        )),
{
    assert(seq![p, q].drop_first() =~= seq![q]);
    lemma_apply_one(adjust(a, p.0, p.1, now), q, now);
    lemma_apply_one(adjust(a, p.0, p.1, 0), q, 0);
    crate::db::lemma_adjust_same_balances(a, a, p.0, p.1, 0, now);
    crate::db::lemma_adjust_same_balances(
        adjust(a, p.0, p.1, 0),
        adjust(a, p.0, p.1, now),
        q.0,
        q.1,
        0,
        0,
    );
}

/// The signed amount by which a transaction changes the sum of all balances:
/// income adds, an expense takes away, a transfer moves money between accounts.
pub open spec fn net_change(tt: TxType, amount: i64) -> int {
    match tt {
        TxType::Income => amount as int,
        TxType::Expense => -amount,
        TxType::Transfer => 0,
    }
}

/// Recording a transaction changes the sum of all account balances by its
/// amount for income, by minus its amount for an expense, and not at all for a
/// transfer to an existing account.
pub proof fn law_transaction_total(v: LedgerView, input: TransactionInput, id: String, now: i64)
    requires
        v.wf(),
        create_tx_outcome(v, input, id, now).1 is Ok,
        TxType::parse(input.transaction_type@) == TxType::Transfer ==> (input.destination_account_id
            matches Some(d) && account_ids(v.accounts).contains(d@)),
    ensures
        total_balance(create_tx_outcome(v, input, id, now).0.accounts) == total_balance(v.accounts)
            + net_change(TxType::parse(input.transaction_type@), input.amount),
{
    let t = tx_from_input(input, id, now);
    let a = input.amount as int;
    let accs = v.accounts;
    assert(tx_input_error(input) is None);
    match t.transaction_type {
        TxType::Income => {
            lemma_apply_one(accs, (t.account_id@, a), now);
            lemma_adjust_total_unique(accs, t.account_id@, a, now);
        },
        TxType::Expense => {
            lemma_apply_one(accs, (t.account_id@, -a), now);
            lemma_adjust_total_unique(accs, t.account_id@, -a, now);
        },
        TxType::Transfer => {
            let d = t.destination_account_id->0;
            lemma_apply_two(accs, (t.account_id@, -a), (d@, a), now);
            let mid = adjust(accs, t.account_id@, -a, now);
            lemma_adjust_total_unique(accs, t.account_id@, -a, now);
            crate::db::lemma_adjust_ids(accs, t.account_id@, -a, now);
            lemma_adjust_total_unique(mid, d@, a, now);
        },
    }
}

/// Adjusting an account by `d` and then by `-d` gives the balances back.
proof fn lemma_adjust_back(a: Seq<Account>, x: Seq<char>, d: int, n1: i64, n2: i64)
    requires
        adjust_fits(a, x, d),
    ensures
        adjust_fits(adjust(a, x, d, n1), x, -d),
        same_balances(adjust(adjust(a, x, d, n1), x, -d, n2), a),
{
    let b = adjust(a, x, d, n1);
    let c = adjust(b, x, -d, n2);
    assert forall|i: int| 0 <= i < b.len() && #[trigger] b[i].id@ == x implies i64::MIN
        <= b[i].current_balance + -d <= i64::MAX by {
        assert(a[i].id@ == x);
    }
    assert forall|i: int| 0 <= i < a.len() implies c[i].current_balance == a[i].current_balance
        && c[i].id == a[i].id by {
        if a[i].id@ == x {
            assert(i64::MIN <= a[i].current_balance + d <= i64::MAX);
        }
    }
    assert(balances(c) =~= balances(a));
    assert(account_ids(c) =~= account_ids(a));
}

/// Undoing a transfer between two different accounts gives the balances back.
proof fn lemma_transfer_back(a: Seq<Account>, x: Seq<char>, y: Seq<char>, m: int, n1: i64, n2: i64)
    requires
        x != y,
        adjust_fits(a, x, -m),
        adjust_fits(adjust(a, x, -m, n1), y, m),
    ensures
        ({
            let w = adjust(adjust(a, x, -m, n1), y, m, n1);
            &&& adjust_fits(w, x, m)
            &&& adjust_fits(adjust(w, x, m, n2), y, -m)
            &&& same_balances(adjust(adjust(w, x, m, n2), y, -m, n2), a)
        }),
{
    let b = adjust(a, x, -m, n1);
    let w = adjust(b, y, m, n1);
    let c = adjust(w, x, m, n2);
    let e = adjust(c, y, -m, n2);
    assert forall|i: int| 0 <= i < a.len() implies {
        &&& w[i].id == a[i].id
        &&& a[i].id@ == x ==> w[i].current_balance == a[i].current_balance - m
        &&& a[i].id@ == y ==> w[i].current_balance == a[i].current_balance + m
        &&& a[i].id@ != x && a[i].id@ != y ==> w[i].current_balance == a[i].current_balance
    } by {
        if a[i].id@ == x {
            assert(i64::MIN <= a[i].current_balance + -m <= i64::MAX);
        }
        if a[i].id@ == y {
            assert(b[i].id@ == y);
            assert(i64::MIN <= b[i].current_balance + m <= i64::MAX);
        }
    }
    assert forall|i: int| 0 <= i < w.len() && #[trigger] w[i].id@ == x implies i64::MIN
        <= w[i].current_balance + m <= i64::MAX by {
        assert(a[i].id@ == x);
    }
    assert forall|i: int| 0 <= i < c.len() && #[trigger] c[i].id@ == y implies i64::MIN
        <= c[i].current_balance + -m <= i64::MAX by {
        assert(a[i].id@ == y);
    }
    assert forall|i: int| 0 <= i < a.len() implies e[i].current_balance == a[i].current_balance
        && e[i].id == a[i].id by {
        assert(w[i].id == a[i].id);
    }
    assert(balances(e) =~= balances(a));
    assert(account_ids(e) =~= account_ids(a));
}

/// The reversal of a recorded transaction fits, and gives the balances back.
proof fn lemma_effect_undone(a: Seq<Account>, t: crate::models::Transaction, n1: i64, n2: i64)
    requires
        all_fit(a, tx_effect(t)),
        t.transaction_type == TxType::Transfer && t.destination_account_id is Some
            ==> t.destination_account_id->0@ != t.account_id@,
    ensures
        all_fit(apply_all(a, tx_effect(t), n1), tx_reversal(t)),
        same_balances(apply_all(apply_all(a, tx_effect(t), n1), tx_reversal(t), n2), a),
{
    let m = t.amount as int;
    let x = t.account_id@;
    let eff = tx_effect(t);
    let rev = tx_reversal(t);
    match t.transaction_type {
        TxType::Income => {
            assert(rev =~= seq![(x, -m)]);
            lemma_apply_one(a, (x, m), n1);
            lemma_apply_one(adjust(a, x, m, n1), (x, -m), n2);
            lemma_adjust_back(a, x, m, n1, n2);
        },
        TxType::Expense => {
            assert(rev =~= seq![(x, m)]);
            lemma_apply_one(a, (x, -m), n1);
            lemma_apply_one(adjust(a, x, -m, n1), (x, m), n2);
            lemma_adjust_back(a, x, -m, n1, n2);
        },
        TxType::Transfer => {
            match t.destination_account_id {
                Some(dst) => {
                    let y = dst@;
                    assert(rev =~= seq![(x, m), (y, -m)]);
                    lemma_apply_two(a, (x, -m), (y, m), n1);
                    let w = adjust(adjust(a, x, -m, n1), y, m, n1);
                    lemma_apply_two(w, (x, m), (y, -m), n2);
                    lemma_transfer_back(a, x, y, m, n1, n2);
                },
                None => {
                    assert(rev =~= seq![(x, m)]);
                    lemma_apply_one(a, (x, -m), n1);
                    lemma_apply_one(adjust(a, x, -m, n1), (x, m), n2);
                    lemma_adjust_back(a, x, -m, n1, n2);
                },
            }
        },
    }
}

/// Deleting a transaction right after recording it gives back the ledger as it
/// was: the same transactions, the same balances, every other table untouched.
pub proof fn law_create_then_delete(v: LedgerView, input: TransactionInput, id: String, n1: i64, n2: i64)
    requires
        v.wf(),
        create_tx_outcome(v, input, id, n1).1 is Ok,
    ensures
        ({
            let w = create_tx_outcome(v, input, id, n1).0;
            let z = delete_tx_outcome(w, id@, n2);
            &&& z.1 is Ok
            &&& z.0 == (LedgerView { accounts: z.0.accounts, ..v })
            &&& same_balances(z.0.accounts, v.accounts)
        }),
{
    let t = tx_from_input(input, id, n1);
    let w = create_tx_outcome(v, input, id, n1).0;
    let ids = transaction_ids(v.transactions);
    let k = v.transactions.len() as int;
    assert(tx_input_error(input) is None);
    assert(transaction_ids(w.transactions) =~= ids.push(id@));
    assert(transaction_ids(w.transactions)[k] == id@);
    assert forall|j: int| 0 <= j < k implies transaction_ids(w.transactions)[j]
        != transaction_ids(w.transactions)[k] by {
        assert(transaction_ids(w.transactions)[j] == ids[j]);
    }
    crate::db::lemma_find_index_first(transaction_ids(w.transactions), k);
    assert(w.transactions[k] == t);
    assert(w.transactions.remove(k) =~= v.transactions);
    lemma_effect_undone(v.accounts, t, n1, n2);
}

proof fn lemma_pocket_total_update(ps: Seq<SavingsPocket>, k: int, q: SavingsPocket)
    requires
        0 <= k < ps.len(),
    ensures
        pocket_total(ps.update(k, q)) == pocket_total(ps) - ps[k].current_amount + q.current_amount,
    decreases ps.len(),
{
    let n = ps.len() - 1;
    if k < n {
        assert(ps.update(k, q).drop_last() =~= ps.drop_last().update(k, q));
        lemma_pocket_total_update(ps.drop_last(), k, q);
    } else {
        assert(ps.update(k, q).drop_last() =~= ps.drop_last());
    }
}

proof fn lemma_pocket_total_remove(ps: Seq<SavingsPocket>, k: int)
    requires
        0 <= k < ps.len(),
    ensures
        pocket_total(ps.remove(k)) == pocket_total(ps) - ps[k].current_amount,
    decreases ps.len(),
{
    let n = ps.len() - 1;
    if k < n {
        assert(ps.remove(k).drop_last() =~= ps.drop_last().remove(k));
        lemma_pocket_total_remove(ps.drop_last(), k);
    } else {
        assert(ps.remove(k) =~= ps.drop_last());
    }
}

/// The account a pocket is linked to exists (the ledger is well formed).
proof fn lemma_pocket_account(v: LedgerView, k: int)
    requires
        v.wf(),
        0 <= k < v.pockets.len(),
    ensures
        account_ids(v.accounts).contains(v.pockets[k].linked_account_id@),
{
    crate::db::lemma_refs_of_wf(v);
}

/// Depositing into a pocket moves money out of its linked account: the sum of
/// all balances and all pocket amounts stays the same.
pub proof fn law_deposit_conserves(v: LedgerView, w: LedgerView, id: Seq<char>, amount: i64, now: i64, r: Result<SavingsPocket, String>)
    requires
        v.wf(),
        crate::commands::deposit_ok(v, id, amount),
        pockets_deposit_post(v, w, id, amount, now, r),
        r is Ok,
    ensures
        total_balance(w.accounts) + pocket_total(w.pockets) == total_balance(v.accounts) + pocket_total(v.pockets),
{
    let k = find_index(pocket_ids(v.pockets), id)->0;
    let p = v.pockets[k];
    let x = p.linked_account_id@;
    lemma_pocket_account(v, k);
    lemma_apply_one(v.accounts, (x, -(amount as int)), now);
    lemma_adjust_total_unique(v.accounts, x, -(amount as int), now);
    lemma_pocket_total_update(v.pockets, k, SavingsPocket { current_amount: (p.current_amount + amount) as i64, ..p });
}

/// Withdrawing from a pocket moves money back to its linked account: the sum of
/// all balances and all pocket amounts stays the same.
pub proof fn law_withdraw_conserves(v: LedgerView, w: LedgerView, id: Seq<char>, amount: i64, now: i64, r: Result<SavingsPocket, String>)
    requires
        v.wf(),
        pockets_withdraw_post(v, w, id, amount, now, r),
        r is Ok,
    ensures
        total_balance(w.accounts) + pocket_total(w.pockets) == total_balance(v.accounts) + pocket_total(v.pockets),
{
    let k = find_index(pocket_ids(v.pockets), id)->0;
    let p = v.pockets[k];
    let x = p.linked_account_id@;
    lemma_pocket_account(v, k);
    lemma_apply_one(v.accounts, (x, amount as int), now);
    lemma_adjust_total_unique(v.accounts, x, amount as int, now);
    lemma_pocket_total_update(v.pockets, k, SavingsPocket { current_amount: (p.current_amount - amount) as i64, ..p });
}

/// Deleting a pocket that holds no debt gives its money back to the linked
/// account: the sum of all balances and all pocket amounts stays the same.
pub proof fn law_pocket_delete_conserves(v: LedgerView, w: LedgerView, id: Seq<char>, now: i64, r: Result<(), String>)
    requires
        v.wf(),
        pockets_delete_post(v, w, id, now, r),
        r is Ok,
        forall|i: int| 0 <= i < v.pockets.len() && #[trigger] v.pockets[i].id@ == id ==> v.pockets[i].current_amount >= 0,
    ensures
        total_balance(w.accounts) + pocket_total(w.pockets) == total_balance(v.accounts) + pocket_total(v.pockets),
{
    match find_index(pocket_ids(v.pockets), id) {
        Some(k) => {
            let p = v.pockets[k];
            let x = p.linked_account_id@;
            assert(pocket_ids(v.pockets)[k] == id);
            lemma_pocket_account(v, k);
            lemma_pocket_total_remove(v.pockets, k);
            if p.current_amount > 0 {
                lemma_apply_one(v.accounts, (x, p.current_amount as int), now);
                lemma_adjust_total_unique(v.accounts, x, p.current_amount as int, now);
            } else {
                reveal_with_fuel(apply_all, 1);
            }
        },
        None => {},
    }
}

/// Withdrawing what was just deposited gives back the pocket and the balances
/// as they were, when the pocket held no debt.
pub proof fn law_deposit_then_withdraw(
    v: LedgerView,
    w: LedgerView,
    z: LedgerView,
    id: Seq<char>,
    amount: i64,
    n1: i64,
    n2: i64,
    r1: Result<SavingsPocket, String>,
    r2: Result<SavingsPocket, String>,
)
    requires
        v.wf(),
        crate::commands::deposit_ok(v, id, amount),
        pockets_deposit_post(v, w, id, amount, n1, r1),
        r1 is Ok,
        pockets_withdraw_post(w, z, id, amount, n2, r2),
        forall|i: int| 0 <= i < v.pockets.len() && #[trigger] v.pockets[i].id@ == id ==> v.pockets[i].current_amount >= 0,
    ensures
        r2 is Ok,
        z == (LedgerView { accounts: z.accounts, ..v }),
        same_balances(z.accounts, v.accounts),
{
    let k = find_index(pocket_ids(v.pockets), id)->0;
    let p = v.pockets[k];
    let x = p.linked_account_id@;
    let m = amount as int;
    let q = SavingsPocket { current_amount: (p.current_amount + amount) as i64, ..p };
    assert(pocket_ids(v.pockets)[k] == id);
    assert(pocket_ids(w.pockets) =~= pocket_ids(v.pockets));
    assert(w.pockets[k] == q);
    lemma_apply_one(v.accounts, (x, -m), n1);
    lemma_apply_one(w.accounts, (x, m), n2);
    lemma_adjust_back(v.accounts, x, -m, n1, n2);
    let q2 = SavingsPocket { current_amount: (q.current_amount - amount) as i64, ..q };
    assert(q2 == p);
    assert(w.pockets.update(k, q2) =~= v.pockets);
}

/// A successful payment lowers what remains of the obligation by exactly the
/// amount paid, never below zero, and the obligation is done exactly when
/// nothing remains. With an account, the payment is recorded as one new
/// transaction on that account: an expense that takes the amount from the
/// balances for a debt, an income that adds it for a receivable. Without one,
/// no transaction is recorded and no balance moves.
pub proof fn law_payment_settles(
    v: LedgerView,
    w: LedgerView,
    payment: ObligationPayment,
    tx_id: String,
    now: i64,
    r: Result<Obligation, String>,
)
    requires
        v.wf(),
        obligation_pay_post(v, w, payment, tx_id, now, r),
        r is Ok,
    ensures
        ({
            let k = find_index(obligation_ids(v.obligations), payment.obligation_id@)->0;
            let o = v.obligations[k];
            let q = r->Ok_0;
            &&& w.obligations == v.obligations.update(k, q)
            &&& q.remaining_amount == o.remaining_amount - payment.amount
            &&& 0 <= q.remaining_amount
            &&& (q.status@ == "DONE"@ <==> q.remaining_amount == 0)
            &&& total_balance(w.accounts) == total_balance(v.accounts) + match payment.account_id {
                None => 0,
                Some(_) => if o.direction@ == "DEBT"@ { -payment.amount } else { payment.amount as int },
            }
            &&& match payment.account_id {
                None => w.transactions == v.transactions,
                Some(acc) => {
                    let t = w.transactions.last();
                    &&& w.transactions == v.transactions.push(t)
                    &&& t.account_id@ == acc@
                    &&& t.amount == payment.amount
                    &&& t.transaction_type == if o.direction@ == "DEBT"@ { TxType::Expense } else { TxType::Income }
                    &&& t.destination_account_id is None
                },
            }
        }),
{
    reveal_strlit("DONE");
    reveal_strlit("OPEN");
    assert("OPEN"@[0] != "DONE"@[0]);
    let k = find_index(obligation_ids(v.obligations), payment.obligation_id@)->0;
    let o = v.obligations[k];
    match payment.account_id {
        None => {},
        Some(acc) => {
            let tt = payment_tx_type(o);
            let d = if tt == TxType::Expense { -payment.amount } else { payment.amount as int };
            lemma_apply_one(v.accounts, (acc@, d), now);
            lemma_adjust_total_unique(v.accounts, acc@, d, now);
        },
    }
}


/// Every transaction that is waiting, and whose content was sent, is marked;
/// so nothing waits when every waiting row was sent.
proof fn lemma_nothing_waits(txs: Seq<Transaction>, sent: Seq<Transaction>)
    requires
        forall|i: int| 0 <= i < txs.len() && crate::db::is_unsynced(#[trigger] txs[i]) ==> crate::db::was_sent(sent, txs[i]),
    ensures
        crate::db::unsynced_count(txs.map_values(|t: Transaction| crate::db::marked_if_sent(t, sent))) == 0,
    decreases txs.len(),
{
    let m = txs.map_values(|t: Transaction| crate::db::marked_if_sent(t, sent));
    if txs.len() > 0 {
        let ts = txs.drop_last();
        assert forall|i: int| 0 <= i < ts.len() && crate::db::is_unsynced(#[trigger] ts[i]) implies crate::db::was_sent(sent, ts[i]) by {
            assert(ts[i] == txs[i]);
        }
        assert(m.drop_last() =~= ts.map_values(|t: Transaction| crate::db::marked_if_sent(t, sent)));
        lemma_nothing_waits(ts, sent);
        assert(txs[txs.len() - 1] == txs.last());
    }
}

/// With no filter, the transactions a listing selects are all of them.
proof fn lemma_select_all(txs: Seq<Transaction>)
    ensures
        crate::listing::select_txs(txs, None, None, None, None, None, None) == txs,
    decreases txs.len(),
{
    if txs.len() > 0 {
        lemma_select_all(txs.drop_last());
        assert(txs.drop_last().push(txs.last()) =~= txs);
    }
}

/// After a push the sheet accepted, no transaction that was waiting when the
/// push gathered its rows is waiting any more: each such row was sent and is
/// marked synced.
pub proof fn law_push_leaves_nothing_pending(txs: Seq<Transaction>, sent: Seq<Transaction>)
    requires
        crate::sync::pushed_transactions(txs, sent),
    ensures
        crate::db::unsynced_count(txs.map_values(|t: Transaction| crate::db::marked_if_sent(t, sent))) == 0,
{
    let all = choose|all: Seq<Transaction>|
        crate::listing::is_tx_listing(txs, None, None, None, None, None, None, None, None, all)
            && sent == #[trigger] crate::sync::unsynced_only(all);
    lemma_select_all(txs);
    let sel = crate::listing::select_txs(txs, None, None, None, None, None, None);
    let idx = choose|idx: Seq<usize>| is_stable_order(crate::listing::newest_keys(sel), idx)
        && #[trigger] arranged(sel, crate::listing::window(idx, None, None), all);
    assert(crate::listing::window(idx, None, None) =~= idx);
    assert(is_permutation(idx, txs.len()));
    let pred = |t: Transaction| crate::sync::is_pushed(t);
    assert(sent == all.filter(pred));
    assert forall|i: int| 0 <= i < txs.len() && crate::db::is_unsynced(#[trigger] txs[i]) implies crate::db::was_sent(sent, txs[i]) by {
        lemma_permutation_onto(idx, txs.len(), i);
        let p = choose|p: int| 0 <= p < txs.len() && idx[p] == i;
        assert(all[p] == txs[i]);
        all.lemma_filter_contains(pred, p);
        let j = choose|j: int| 0 <= j < sent.len() && sent[j] == all[p];
        assert(crate::db::same_content(sent[j], txs[i]));
    }
    lemma_nothing_waits(txs, sent);
}

/// A push marks nothing it did not send: a transaction whose content no sent
/// row holds keeps its state, whatever was written while the push was under way.
pub proof fn law_push_marks_only_sent(txs: Seq<Transaction>, sent: Seq<Transaction>, i: int)
    requires
        0 <= i < txs.len(),
        !crate::db::was_sent(sent, txs[i]),
    ensures
        txs.map_values(|t: Transaction| crate::db::marked_if_sent(t, sent))[i] == txs[i],
{
}

/// Fetching from the sheet never changes nor removes a transaction already in
/// the ledger: it only adds new ones after them.
pub proof fn law_fetch_keeps_transactions(
    txs: Seq<crate::models::Transaction>,
    accs: Seq<Account>,
    cats: Seq<crate::models::Category>,
    rows: Seq<crate::sync::SheetTransaction>,
    empty: String,
)
    ensures
        crate::sync::merged_transactions(txs, accs, cats, rows, empty).len() >= txs.len(),
        crate::sync::merged_transactions(txs, accs, cats, rows, empty).take(txs.len() as int) == txs,
    decreases rows.len(),
{
    let m = crate::sync::merged_transactions(txs, accs, cats, rows, empty);
    if rows.len() > 0 {
        let prev = crate::sync::merged_transactions(txs, accs, cats, rows.drop_last(), empty);
        law_fetch_keeps_transactions(txs, accs, cats, rows.drop_last(), empty);
        assert(m.take(txs.len() as int) =~= prev.take(txs.len() as int));
    } else {
        assert(m.take(txs.len() as int) =~= txs);
    }
}


/// Each page a catalogue download retries or keeps brings it closer to its end:
/// the measure drops and stays non-negative, and the state stays one that asks
/// for a page. So a download asks for finitely many pages, with pages of 100
/// retried at most once.
pub proof fn law_paging_terminates(p: crate::bibit::CatalogPaging, got: Option<usize>)
    requires
        1 <= p.page <= crate::bibit::MAX_PAGES,
        p.page_size == 100 || p.page_size == 50,
    ensures
        ({
            let (q, v) = crate::bibit::catalog_next(p, got);
            (v == crate::bibit::PageVerdict::Retry || v == crate::bibit::PageVerdict::Keep) ==> {
                &&& 0 <= crate::bibit::paging_measure(q) < crate::bibit::paging_measure(p)
                &&& q.page_size == 100 || q.page_size == 50
                &&& 1 <= q.page
            }
        }),
{
}


/// Saved settings read back: after saving a URL and the auto-sync flag, the
/// status reports the URL trimmed (none when it was blank) and the flag, and
/// the count of unsynced transactions is what it was.
pub proof fn law_settings_read_back(
    v: LedgerView,
    w: LedgerView,
    url: Option<String>,
    auto_sync: bool,
    info: crate::models::SyncInfo,
)
    requires
        crate::commands::settings_save_post(v, w, url, auto_sync),
        crate::commands::sync_info_of(w, info),
    ensures
        match crate::commands::settings_url(url) {
            Some(u) => info.sheet_url matches Some(x) && x@ == u,
            None => info.sheet_url is None,
        },
        info.auto_sync == auto_sync,
        info.pending_count == crate::db::pending_count_spec(v.transactions),
{
}

/// Preparing a store twice is preparing it once: the second time finds the
/// categories the first seeded and changes nothing.
pub proof fn law_init_idempotent(
    v: LedgerView,
    w: LedgerView,
    u: LedgerView,
    r1: Result<(), String>,
    r2: Result<(), String>,
)
    requires
        crate::db::init_post(v, w, r1),
        crate::db::init_post(w, u, r2),
    ensures
        u == w,
        r2 is Ok,
{
    if v.categories.len() == 0 {
        let ids = choose|ids: Seq<String>| ids.len() == 10 && #[trigger] crate::db::seed_post(v, w, ids, r1);
        assert(crate::db::seed_post(v, w, ids, r1));
        match r1 {
            Ok(()) => {
                assert(w.categories.len() == 10);
            },
            Err(e) => {
                if w.categories.len() == 0 {
                    assert(crate::db::category_ids(w.categories).len() == 0);
                    assert(forall|x: Seq<char>| !crate::db::category_ids(w.categories).contains(x));
                }
            },
        }
    }
}


/// A withdrawal that succeeds leaves the pocket holding what it held less the
/// amount, never less than zero; the stored pocket is the one given back.
pub proof fn law_withdraw_never_negative(v: LedgerView, w: LedgerView, id: Seq<char>, amount: i64, now: i64, r: Result<SavingsPocket, String>)
    requires
        pockets_withdraw_post(v, w, id, amount, now, r),
        r is Ok,
    ensures
        find_index(pocket_ids(v.pockets), id) matches Some(k) && r matches Ok(p) && {
            &&& p.current_amount == v.pockets[k].current_amount - amount
            &&& p.current_amount >= 0
            &&& w.pockets == v.pockets.update(k, p)
        },
{
}

// ── Spending per category against the period's expense ─────────────────────

/// The sum of a sequence of integers.
pub open spec fn sum_of(xs: Seq<int>) -> int
    decreases xs.len(),
{
    if xs.len() == 0 { 0 } else { sum_of(xs.drop_last()) + xs.last() }
}

/// The amounts of spending rows.
pub open spec fn spend_amounts(rows: Seq<CategorySpend>) -> Seq<int> {
    rows.map_values(|s: CategorySpend| s.amount as int)
}

/// The expenses of the period, category by category, added up over `cats`.
pub open spec fn per_category_total(cats: Seq<Category>, txs: Seq<Transaction>, from: i64, to: i64) -> int
    decreases cats.len(),
{
    if cats.len() == 0 {
        0
    } else {
        per_category_total(cats.drop_last(), txs, from, to) + sum_of(category_expenses(txs, cats.last().id@, from, to))
    }
}

proof fn lemma_checked_sum_exact(xs: Seq<int>)
    requires
        checked_sum(xs) is Some,
    ensures
        checked_sum(xs) == Some(sum_of(xs)),
    decreases xs.len(),
{
    if xs.len() > 0 {
        lemma_checked_sum_exact(xs.drop_last());
    }
}

proof fn lemma_sum_remove(ys: Seq<int>, p: int)
    requires
        0 <= p < ys.len(),
    ensures
        sum_of(ys) == sum_of(ys.remove(p)) + ys[p],
    decreases ys.len(),
{
    if p == ys.len() - 1 {
        assert(ys.remove(p) =~= ys.drop_last());
    } else {
        lemma_sum_remove(ys.drop_last(), p);
        assert(ys.remove(p).drop_last() =~= ys.drop_last().remove(p));
        assert(ys.remove(p).last() == ys.last());
    }
}

/// A permutation of `0..n` takes every value below `n`.
proof fn lemma_permutation_onto(idx: Seq<usize>, n: nat, x: int)
    requires
        is_permutation(idx, n),
        0 <= x < n,
    ensures
        exists|p: int| 0 <= p < n && idx[p] == x,
{
    let ii = idx.map_values(|u: usize| u as int);
    assert(ii.no_duplicates()) by {
        assert forall|i: int, j: int| 0 <= i < ii.len() && 0 <= j < ii.len() && i != j implies ii[i] != ii[j] by {
            if i < j {
                assert(idx[i] != idx[j]);
            } else {
                assert(idx[j] != idx[i]);
            }
        }
    }
    ii.unique_seq_to_set();
    lemma_int_range(0, n as int);
    assert(ii.to_set().subset_of(set_int_range(0, n as int))) by {
        assert forall|y: int| ii.to_set().contains(y) implies set_int_range(0, n as int).contains(y) by {
            let i = choose|i: int| 0 <= i < ii.len() && ii[i] == y;
            assert(idx[i] < n);
        }
    }
    lemma_subset_equality(ii.to_set(), set_int_range(0, n as int));
    assert(set_int_range(0, n as int).contains(x));
    assert(ii.to_set().contains(x));
    let p = choose|p: int| 0 <= p < ii.len() && ii[p] == x;
    assert(idx[p] == x);
}

/// Rearranging by a permutation keeps the sum.
proof fn lemma_sum_arranged(xs: Seq<int>, idx: Seq<usize>, ys: Seq<int>)
    requires
        is_permutation(idx, xs.len()),
        ys.len() == idx.len(),
        forall|i: int| 0 <= i < ys.len() ==> ys[i] == xs[#[trigger] idx[i] as int],
    ensures
        sum_of(ys) == sum_of(xs),
    decreases xs.len(),
{
    let n = xs.len();
    if n > 0 {
        lemma_permutation_onto(idx, n, n - 1);
        let p = choose|p: int| 0 <= p < n && idx[p] == n - 1;
        let idx2 = idx.remove(p);
        let ys2 = ys.remove(p);
        let xs2 = xs.drop_last();
        assert forall|i: int| 0 <= i < n - 1 implies #[trigger] idx2[i] < n - 1 by {
            if i < p {
                assert(idx[i] != idx[p]);
            } else {
                assert(idx[p] != idx[i + 1]);
            }
        }
        assert forall|i: int, j: int| 0 <= i < j < n - 1 implies idx2[i] != idx2[j] by {
            if j < p {
            } else if i < p {
                assert(idx[i] != idx[j + 1]);
            } else {
                assert(idx[i + 1] != idx[j + 1]);
            }
        }
        assert forall|i: int| 0 <= i < ys2.len() implies ys2[i] == xs2[#[trigger] idx2[i] as int] by {
            if i < p {
                assert(ys2[i] == ys[i]);
                assert(idx2[i] == idx[i]);
            } else {
                assert(ys2[i] == ys[i + 1]);
                assert(idx2[i] == idx[i + 1]);
            }
            assert(idx2[i] < n - 1);
        }
        lemma_sum_arranged(xs2, idx2, ys2);
        lemma_sum_remove(ys, p);
    }
}

proof fn lemma_sum_push(xs: Seq<int>, a: int)
    ensures
        sum_of(xs.push(a)) == sum_of(xs) + a,
{
    assert(xs.push(a).drop_last() =~= xs);
}

proof fn lemma_category_expenses_step(txs: Seq<Transaction>, cid: Seq<char>, from: i64, to: i64)
    requires
        txs.len() > 0,
    ensures
        ({
            let t = txs.last();
            sum_of(category_expenses(txs, cid, from, to)) == sum_of(category_expenses(txs.drop_last(), cid, from, to))
                + if t.transaction_type == TxType::Expense && from <= t.date <= to && t.category_id@ == cid { t.amount as int } else { 0 }
        }),
{
    let t = txs.last();
    if t.transaction_type == TxType::Expense && from <= t.date <= to && t.category_id@ == cid {
        lemma_sum_push(category_expenses(txs.drop_last(), cid, from, to), t.amount as int);
    }
}

proof fn lemma_typed_amounts_step(txs: Seq<Transaction>, from: i64, to: i64)
    requires
        txs.len() > 0,
    ensures
        ({
            let t = txs.last();
            sum_of(typed_amounts(txs, TxType::Expense, from, to)) == sum_of(typed_amounts(txs.drop_last(), TxType::Expense, from, to))
                + if t.transaction_type == TxType::Expense && from <= t.date <= to { t.amount as int } else { 0 }
        }),
{
    let t = txs.last();
    if t.transaction_type == TxType::Expense && from <= t.date <= to {
        lemma_sum_push(typed_amounts(txs.drop_last(), TxType::Expense, from, to), t.amount as int);
    }
}

/// With no category's total overflowing, the spending rows add up to the
/// per-category totals.
proof fn lemma_spend_rows_total(cats: Seq<Category>, txs: Seq<Transaction>, from: i64, to: i64)
    requires
        !spend_overflows(cats, txs, from, to),
    ensures
        sum_of(spend_amounts(spend_rows(cats, txs, from, to))) == per_category_total(cats, txs, from, to),
    decreases cats.len(),
{
    if cats.len() > 0 {
        let cs = cats.drop_last();
        if spend_overflows(cs, txs, from, to) {
            let k = choose|k: int|
                0 <= k < cs.len() && #[trigger] category_expenses(txs, cs[k].id@, from, to).len() > 0
                    && checked_sum(category_expenses(txs, cs[k].id@, from, to)) is None;
            assert(cats[k] == cs[k]);
            assert(category_expenses(txs, cats[k].id@, from, to).len() > 0);
        }
        lemma_spend_rows_total(cs, txs, from, to);
        let c = cats.last();
        let xs = category_expenses(txs, c.id@, from, to);
        let rest = spend_rows(cs, txs, from, to);
        if xs.len() > 0 {
            assert(cats[cats.len() - 1] == c);
            assert(category_expenses(txs, cats[cats.len() - 1].id@, from, to).len() > 0);
            lemma_checked_sum_exact(xs);
            let row = CategorySpend {
                category_id: c.id,
                category_name: c.name,
                color_hex: c.color_hex,
                icon: c.icon,
                amount: or_zero(checked_sum(xs)) as i64,
            };
            assert(spend_amounts(rest.push(row)) =~= spend_amounts(rest).push(row.amount as int));
            lemma_sum_push(spend_amounts(rest), row.amount as int);
        } else {
            assert(xs =~= Seq::<int>::empty());
        }
    }
}

/// Adding one transaction adds its amount to exactly the category it names,
/// when it is an expense of the period and that category is in `cats`.
proof fn lemma_per_category_step(cats: Seq<Category>, txs: Seq<Transaction>, from: i64, to: i64)
    requires
        txs.len() > 0,
        category_ids(cats).no_duplicates(),
    ensures
        ({
            let t = txs.last();
            let counted = t.transaction_type == TxType::Expense && from <= t.date <= to
                && category_ids(cats).contains(t.category_id@);
            per_category_total(cats, txs, from, to)
                == per_category_total(cats, txs.drop_last(), from, to) + if counted { t.amount as int } else { 0 }
        }),
    decreases cats.len(),
{
    if cats.len() > 0 {
        let cs = cats.drop_last();
        let c = cats.last();
        assert(category_ids(cats) =~= category_ids(cs).push(c.id@));
        assert(category_ids(cs) =~= category_ids(cats).drop_last());
        assert(category_ids(cs).no_duplicates());
        lemma_per_category_step(cs, txs, from, to);
        lemma_category_expenses_step(txs, c.id@, from, to);
        let t = txs.last();
        if category_ids(cs).contains(t.category_id@) {
            let j = choose|j: int| 0 <= j < category_ids(cs).len() && category_ids(cs)[j] == t.category_id@;
            assert(category_ids(cats)[j] == t.category_id@);
            assert(category_ids(cats)[cats.len() - 1] == c.id@);
        }
    } else {
        assert(category_ids(cats) =~= Seq::<Seq<char>>::empty());
    }
}

/// When every transaction names a category of `cats`, and the categories' keys
/// are unique, the per-category totals add up to all the period's expenses.
proof fn lemma_expenses_partition(cats: Seq<Category>, txs: Seq<Transaction>, from: i64, to: i64)
    requires
        category_ids(cats).no_duplicates(),
        forall|i: int| 0 <= i < txs.len() ==> category_ids(cats).contains(#[trigger] txs[i].category_id@),
    ensures
        per_category_total(cats, txs, from, to) == sum_of(typed_amounts(txs, TxType::Expense, from, to)),
    decreases txs.len(),
{
    if txs.len() == 0 {
        lemma_per_category_empty(cats, txs, from, to);
    } else {
        let ts = txs.drop_last();
        assert forall|i: int| 0 <= i < ts.len() implies category_ids(cats).contains(#[trigger] ts[i].category_id@) by {
            assert(ts[i] == txs[i]);
        }
        lemma_expenses_partition(cats, ts, from, to);
        lemma_per_category_step(cats, txs, from, to);
        lemma_typed_amounts_step(txs, from, to);
        assert(category_ids(cats).contains(txs[txs.len() - 1].category_id@));
    }
}

proof fn lemma_per_category_empty(cats: Seq<Category>, txs: Seq<Transaction>, from: i64, to: i64)
    requires
        txs.len() == 0,
    ensures
        per_category_total(cats, txs, from, to) == 0,
    decreases cats.len(),
{
    if cats.len() > 0 {
        lemma_per_category_empty(cats.drop_last(), txs, from, to);
    }
}

/// The spending per category adds up to the period's expense on the dashboard,
/// when no category's total and not the period's expense leave the 64-bit range.
pub proof fn law_category_totals_match_expense(v: LedgerView, from: i64, to: i64, out: Seq<CategorySpend>)
    requires
        v.wf(),
        !spend_overflows(v.categories, v.transactions, from, to),
        checked_sum(typed_amounts(v.transactions, TxType::Expense, from, to)) is Some,
        sorted_rows(spend_rows(v.categories, v.transactions, from, to), |s: CategorySpend| spend_order_key(s), out),
    ensures
        sum_of(spend_amounts(out)) == period_expense(v, from, to),
{
    let rows = spend_rows(v.categories, v.transactions, from, to);
    let kf = |s: CategorySpend| spend_order_key(s);
    let idx = choose|idx: Seq<usize>| is_stable_order(rows.map_values(kf), idx) && #[trigger] arranged(rows, idx, out);
    assert(is_permutation(idx, rows.len()));
    assert forall|i: int| 0 <= i < spend_amounts(out).len() implies spend_amounts(out)[i] == spend_amounts(rows)[#[trigger] idx[i] as int] by {
        assert(idx[i] < rows.len());
    }
    lemma_sum_arranged(spend_amounts(rows), idx, spend_amounts(out));
    lemma_spend_rows_total(v.categories, v.transactions, from, to);
    crate::db::lemma_refs_of_wf(v);
    assert forall|i: int| 0 <= i < v.transactions.len() implies category_ids(v.categories).contains(
        #[trigger] v.transactions[i].category_id@) by {
        assert(account_ids(v.accounts).contains(v.transactions[i].account_id@));
    }
    lemma_expenses_partition(v.categories, v.transactions, from, to);
    lemma_checked_sum_exact(typed_amounts(v.transactions, TxType::Expense, from, to));
}


/// Updating a pocket only moves money between the pocket and its account(s):
/// the sum of all balances and all pocket amounts stays the same. Within one
/// account, that account changes by minus the pocket's change; when the
/// pocket changes account, the old account gets the old amount back and the
/// new one gives the new amount.
pub proof fn law_pocket_update_conserves(
    v: LedgerView,
    w: LedgerView,
    id: Seq<char>,
    input: SavingsPocketInput,
    now: i64,
    r: Result<SavingsPocket, String>,
)
    requires
        v.wf(),
        crate::commands::pockets_update_post(v, w, id, input, now, r),
        r is Ok,
    ensures
        total_balance(w.accounts) + pocket_total(w.pockets) == total_balance(v.accounts) + pocket_total(v.pockets),
        ({
            let k = find_index(pocket_ids(v.pockets), id)->0;
            let old_p = v.pockets[k];
            let p = r->Ok_0;
            &&& w.pockets == v.pockets.update(k, p)
            &&& p.linked_account_id@ == input.linked_account_id@
            &&& (input.linked_account_id@ == old_p.linked_account_id@ ==>
                total_balance(w.accounts) == total_balance(v.accounts) - (p.current_amount - old_p.current_amount))
            &&& (input.linked_account_id@ != old_p.linked_account_id@ ==>
                total_balance(w.accounts) == total_balance(v.accounts) + old_p.current_amount - p.current_amount)
        }),
{
    let k = find_index(pocket_ids(v.pockets), id)->0;
    let old_p = v.pockets[k];
    let p = r->Ok_0;
    let x = old_p.linked_account_id@;
    let y = input.linked_account_id@;
    let new_amt = crate::commands::new_pocket_amount(old_p, input);
    let delta = new_amt - old_p.current_amount;
    let ds = crate::commands::pocket_update_moves(old_p, input);
    lemma_pocket_account(v, k);
    assert(p.current_amount == new_amt);
    lemma_pocket_total_update(v.pockets, k, p);
    if y == x {
        if delta != 0 {
            lemma_apply_one(v.accounts, (x, -delta), now);
            lemma_adjust_total_unique(v.accounts, x, -delta, now);
        } else {
            reveal_with_fuel(apply_all, 1);
        }
    } else {
        let a = if old_p.current_amount != 0 { seq![(x, old_p.current_amount as int)] } else { Seq::<(Seq<char>, int)>::empty() };
        let b = if new_amt != 0 { seq![(y, -new_amt)] } else { Seq::<(Seq<char>, int)>::empty() };
        assert(ds == a + b);
        if old_p.current_amount != 0 && new_amt != 0 {
            assert(a + b =~= seq![(x, old_p.current_amount as int), (y, -new_amt)]);
            lemma_apply_two(v.accounts, (x, old_p.current_amount as int), (y, -new_amt), now);
            let a1 = adjust(v.accounts, x, old_p.current_amount as int, now);
            lemma_adjust_total_unique(v.accounts, x, old_p.current_amount as int, now);
            crate::db::lemma_adjust_ids(v.accounts, x, old_p.current_amount as int, now);
            lemma_adjust_total_unique(a1, y, -new_amt, now);
        } else if old_p.current_amount != 0 {
            assert(a + b =~= seq![(x, old_p.current_amount as int)]);
            lemma_apply_one(v.accounts, (x, old_p.current_amount as int), now);
            lemma_adjust_total_unique(v.accounts, x, old_p.current_amount as int, now);
        } else if new_amt != 0 {
            assert(a + b =~= seq![(y, -new_amt)]);
            lemma_apply_one(v.accounts, (y, -new_amt), now);
            lemma_adjust_total_unique(v.accounts, y, -new_amt, now);
        } else {
            assert(a + b =~= Seq::<(Seq<char>, int)>::empty());
            reveal_with_fuel(apply_all, 1);
        }
    }
}


proof fn lemma_first_index_exists<T>(s: Seq<T>, x: T, k: int)
    requires
        0 <= k < s.len(),
        s[k] == x,
    ensures
        exists|c: int| 0 <= c < s.len() && s[c] == x && forall|j: int| 0 <= j < c ==> s[j] != x,
    decreases k,
{
    if exists|j: int| 0 <= j < k && s[j] == x {
        let j = choose|j: int| 0 <= j < k && s[j] == x;
        lemma_first_index_exists(s, x, j);
    } else {
        assert(forall|j: int| 0 <= j < k ==> s[j] != x);
    }
}

/// Where `find_index` finds `x`, `x` is there.
proof fn lemma_find_index_some<T>(s: Seq<T>, x: T)
    requires
        find_index(s, x) is Some,
    ensures
        0 <= find_index(s, x)->0 < s.len(),
        s[find_index(s, x)->0] == x,
{
    assert(s.contains(x));
    let i = choose|i: int| 0 <= i < s.len() && s[i] == x;
    lemma_first_index_exists(s, x, i);
}

proof fn lemma_active_balances_ignore_inactive(accs: Seq<Account>, k: int, a: Account)
    requires
        0 <= k < accs.len(),
        !accs[k].is_active,
        !a.is_active,
    ensures
        crate::report::active_balances(accs.update(k, a)) == crate::report::active_balances(accs),
    decreases accs.len(),
{
    let n = accs.len() - 1;
    let u = accs.update(k, a);
    if k < n {
        assert(u.drop_last() =~= accs.drop_last().update(k, a));
        lemma_active_balances_ignore_inactive(accs.drop_last(), k, a);
        assert(u.last() == accs.last());
    } else {
        assert(u.drop_last() =~= accs.drop_last());
    }
}

/// Net worth counts only active accounts: whatever an inactive account holds,
/// changing it (or replacing it by another inactive account) leaves the net
/// worth as it was.
pub proof fn law_inactive_accounts_not_counted(v: LedgerView, k: int, a: Account)
    requires
        0 <= k < v.accounts.len(),
        !v.accounts[k].is_active,
        !a.is_active,
    ensures
        crate::report::net_worth(LedgerView { accounts: v.accounts.update(k, a), ..v }) == crate::report::net_worth(v),
{
    lemma_active_balances_ignore_inactive(v.accounts, k, a);
}

/// Net worth with no active account is the sum of the pocket amounts alone.
pub proof fn law_net_worth_without_active_accounts(v: LedgerView)
    requires
        forall|i: int| 0 <= i < v.accounts.len() ==> !(#[trigger] v.accounts[i]).is_active,
    ensures
        crate::report::net_worth(v) == match checked_sum(crate::report::pocket_amounts(v.pockets)) {
            Some(b) => b,
            None => 0,
        },
{
    lemma_no_active_balances(v.accounts);
}

proof fn lemma_no_active_balances(accs: Seq<Account>)
    requires
        forall|i: int| 0 <= i < accs.len() ==> !(#[trigger] accs[i]).is_active,
    ensures
        crate::report::active_balances(accs) == Seq::<int>::empty(),
    decreases accs.len(),
{
    if accs.len() > 0 {
        let p = accs.drop_last();
        assert forall|i: int| 0 <= i < p.len() implies !(#[trigger] p[i]).is_active by {
            assert(p[i] == accs[i]);
        }
        lemma_no_active_balances(p);
        assert(!accs[accs.len() - 1].is_active);
    }
}

/// A successful edit of transaction `id` stores and gives back a transaction
/// with that id whose account, category, amount, type, note and (unless 0,
/// which means now) date are the input's, in the same row.
pub proof fn law_update_takes_input(v: LedgerView, id: Seq<char>, input: TransactionInput, now: i64)
    requires
        crate::commands::update_tx_outcome(v, id, input, now).1 is Ok,
    ensures
        ({
            let (w, r) = crate::commands::update_tx_outcome(v, id, input, now);
            let t = r->Ok_0;
            let k = find_index(transaction_ids(v.transactions), id)->0;
            &&& find_index(transaction_ids(v.transactions), id) is Some
            &&& t.id@ == id
            &&& t.account_id == input.account_id
            &&& t.category_id == input.category_id
            &&& t.amount == input.amount
            &&& t.transaction_type == TxType::parse(input.transaction_type@)
            &&& t.note == input.note
            &&& (input.date != 0 ==> t.date == input.date)
            &&& (input.date == 0 ==> t.date == now)
            &&& w.transactions == v.transactions.update(k, t)
        }),
{
    lemma_find_index_some(transaction_ids(v.transactions), id);
}

/// After merging sheet category rows, the category of every row with an id
/// (that no later row repeats) holds exactly that row's name, type, icon and
/// colour: an existing category is overwritten, a new one added.
pub proof fn law_merge_category_takes_row(cats: Seq<Category>, rows: Seq<crate::sync::SheetCategory>, j: int)
    requires
        0 <= j < rows.len(),
        rows[j].id@.len() > 0,
        forall|i: int| j < i < rows.len() ==> (#[trigger] rows[i]).id@ != rows[j].id@,
    ensures
        ({
            let m = crate::sync::merged_categories(cats, rows);
            exists|k: int| 0 <= k < m.len() && {
                &&& (#[trigger] m[k]).id@ == rows[j].id@
                &&& m[k].name == rows[j].name
                &&& m[k].category_type == TxType::parse(rows[j].category_type@)
                &&& m[k].icon == rows[j].icon
                &&& m[k].color_hex == rows[j].color
            }
        }),
    decreases rows.len(),
{
    let m = crate::sync::merged_categories(cats, rows);
    let prev = crate::sync::merged_categories(cats, rows.drop_last());
    let s = rows.last();
    let n = rows.len() - 1;
    if j == n {
        if find_index(category_ids(prev), s.id@) is Some {
            lemma_find_index_some(category_ids(prev), s.id@);
            let k = find_index(category_ids(prev), s.id@)->0;
            assert(m[k].id@ == rows[j].id@);
        } else {
            let k = prev.len() as int;
            assert(m[k].id@ == rows[j].id@);
        }
    } else {
        let rs = rows.drop_last();
        assert forall|i: int| j < i < rs.len() implies (#[trigger] rs[i]).id@ != rs[j].id@ by {
            assert(rs[i] == rows[i]);
        }
        law_merge_category_takes_row(cats, rs, j);
        assert(rs[j] == rows[j]);
        let k = choose|k: int| 0 <= k < prev.len() && {
            &&& (#[trigger] prev[k]).id@ == rs[j].id@
            &&& prev[k].name == rs[j].name
            &&& prev[k].category_type == TxType::parse(rs[j].category_type@)
            &&& prev[k].icon == rs[j].icon
            &&& prev[k].color_hex == rs[j].color
        };
        assert(rows[n].id@ != rows[j].id@);
        if s.id@.len() == 0 {
            assert(m[k] == prev[k]);
        } else if find_index(category_ids(prev), s.id@) is Some {
            lemma_find_index_some(category_ids(prev), s.id@);
            let k2 = find_index(category_ids(prev), s.id@)->0;
            assert(category_ids(prev)[k2] == s.id@);
            assert(k2 != k);
            assert(m[k] == prev[k]);
        } else {
            assert(m[k] == prev[k]);
        }
    }
}

} // verus!

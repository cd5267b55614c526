use personal_finance::commands::{
    accounts_create_at, categories_create_at, dashboard_summary, deposit_fits, expense_by_category,
    export_csv, get_portfolio_snapshots, obligation_create_at, obligation_pay_at, pockets_create_at,
    pockets_deposit_at, pockets_withdraw_at, settings_save, sync_status,
    transactions_create_at, transactions_delete_at, transactions_list, transactions_update_at,
};
use personal_finance::db::{init_db, pockets_delete_at, snapshot_upsert, Store};
use personal_finance::listing::{accounts_all, categories_all, pockets_all};
use personal_finance::models::{
    AccountInput, AccountType, CategoryInput, ObligationInput, ObligationPayment,
    SavingsPocketInput, SyncStatus, TransactionInput, TxType,
};

fn store() -> Store {
    let mut s = Store::new();
    init_db(&mut s).unwrap();
    s
}

fn account(s: &mut Store, id: &str, balance: i64, now: i64) {
    let input = AccountInput {
        name: format!("  Akun {id} "),
        account_type: "bank".into(),
        account_number: Some("   ".into()),
        current_balance: balance,
        is_active: None,
    };
    accounts_create_at(s, input, id.to_string(), now).unwrap();
}

fn category_id(s: &Store, name: &str) -> String {
    categories_all(s).unwrap().into_iter().find(|c| c.name == name).unwrap().id
}

fn balance(s: &Store, id: &str) -> i64 {
    accounts_all(s).unwrap().into_iter().find(|a| a.id == id).unwrap().current_balance
}

fn total(s: &Store) -> i64 {
    accounts_all(s).unwrap().iter().map(|a| a.current_balance).sum()
}

fn tx(kind: &str, account: &str, dest: Option<&str>, category: &str, amount: i64) -> TransactionInput {
    TransactionInput {
        account_id: account.into(),
        destination_account_id: dest.map(|d| d.to_string()),
        category_id: category.into(),
        amount,
        transaction_type: kind.into(),
        date: 0,
        note: "catatan".into(),
        receipt_url: Some(" ".into()),
    }
}

#[test]
fn init_seeds_ten_default_categories_once() {
    let mut s = store();
    assert_eq!(categories_all(&s).unwrap().len(), 10);
    init_db(&mut s).unwrap();
    assert_eq!(categories_all(&s).unwrap().len(), 10);
    let gaji = categories_all(&s).unwrap().into_iter().find(|c| c.name == "Gaji").unwrap();
    assert_eq!(gaji.category_type, TxType::Income);
    assert_eq!(gaji.icon, "wallet");
    assert_eq!(gaji.color_hex, "#10b981");
}

#[test]
fn account_create_trims_name_and_drops_blank_number() {
    let mut s = store();
    account(&mut s, "a1", 500, 7);
    let a = accounts_all(&s).unwrap().remove(0);
    assert_eq!(a.name, "Akun a1");
    assert_eq!(a.account_number, None);
    assert_eq!(a.account_type, AccountType::Bank);
    assert!(a.is_active);
    assert_eq!((a.created_at, a.updated_at), (7, 7));
    let e = accounts_create_at(
        &mut s,
        AccountInput { name: "  ".into(), account_type: "cash".into(), account_number: None, current_balance: 0, is_active: None },
        "a2".into(),
        8,
    );
    assert_eq!(e.unwrap_err(), "Nama akun wajib diisi");
    let dup = accounts_create_at(
        &mut s,
        AccountInput { name: "Lagi".into(), account_type: "cash".into(), account_number: None, current_balance: 0, is_active: None },
        "a1".into(),
        8,
    );
    assert_eq!(dup.unwrap_err(), "UNIQUE constraint failed: accounts.id");
}

#[test]
fn generated_ids_are_fresh_uuid_text() {
    let mut s = store();
    let input = AccountInput { name: "Dompet".into(), account_type: "cash".into(), account_number: None, current_balance: 0, is_active: None };
    let a = personal_finance::commands::accounts_create(&mut s, input.clone()).unwrap();
    let b = personal_finance::commands::accounts_create(&mut s, input).unwrap();
    assert_eq!(a.id.len(), 36);
    assert_eq!(a.id.matches('-').count(), 4);
    assert_ne!(a.id, b.id);
}

#[test]
fn income_expense_and_transfer_move_balances() {
    let mut s = store();
    account(&mut s, "a", 1000, 1);
    account(&mut s, "b", 0, 2);
    let gaji = category_id(&s, "Gaji");
    let makan = category_id(&s, "Makanan & Minuman");
    let tf = category_id(&s, "Transfer");
    transactions_create_at(&mut s, tx("income", "a", None, &gaji, 300), "t1".into(), 10).unwrap();
    assert_eq!(balance(&s, "a"), 1300);
    transactions_create_at(&mut s, tx("expense", "a", None, &makan, 100), "t2".into(), 11).unwrap();
    assert_eq!(balance(&s, "a"), 1200);
    let before = total(&s);
    let t3 = transactions_create_at(&mut s, tx("transfer", "a", Some("b"), &tf, 200), "t3".into(), 12).unwrap();
    assert_eq!(balance(&s, "a"), 1000);
    assert_eq!(balance(&s, "b"), 200);
    assert_eq!(total(&s), before, "a transfer between existing accounts keeps the total");
    assert_eq!(t3.date, 12, "date 0 takes the current time");
    assert_eq!(t3.receipt_url, None, "a blank receipt is dropped");
    assert_eq!(t3.sync_status, SyncStatus::Pending);
}

#[test]
fn transaction_input_errors() {
    let mut s = store();
    account(&mut s, "a", 0, 1);
    let makan = category_id(&s, "Makanan & Minuman");
    let e = |s: &mut Store, i: TransactionInput| transactions_create_at(s, i, "x".into(), 5).unwrap_err();
    assert_eq!(e(&mut s, tx("expense", "a", None, &makan, 0)), "Nominal harus > 0");
    assert_eq!(e(&mut s, tx("expense", " ", None, &makan, 5)), "Akun wajib dipilih");
    assert_eq!(e(&mut s, tx("expense", "a", None, "", 5)), "Kategori wajib dipilih");
    assert_eq!(e(&mut s, tx("transfer", "a", Some("  "), &makan, 5)), "Akun tujuan wajib untuk transfer");
    assert_eq!(e(&mut s, tx("transfer", "a", Some("a"), &makan, 5)), "Akun tujuan tidak boleh sama dengan akun sumber");
    assert_eq!(e(&mut s, tx("expense", "nope", None, &makan, 5)), "FOREIGN KEY constraint failed");
    assert_eq!(balance(&s, "a"), 0);
}

#[test]
fn create_then_delete_restores_balances() {
    let mut s = store();
    account(&mut s, "a", 50, 1);
    account(&mut s, "b", 70, 2);
    let tf = category_id(&s, "Transfer");
    transactions_create_at(&mut s, tx("transfer", "a", Some("b"), &tf, 30), "t".into(), 3).unwrap();
    assert_eq!((balance(&s, "a"), balance(&s, "b")), (20, 100));
    transactions_delete_at(&mut s, "t", 4).unwrap();
    assert_eq!((balance(&s, "a"), balance(&s, "b")), (50, 70));
    assert!(transactions_list(&s, None, None, None, None, None, None, None, None).unwrap().is_empty());
    // deleting what is not there changes nothing
    transactions_delete_at(&mut s, "t", 5).unwrap();
    assert_eq!(balance(&s, "a"), 50);
}

#[test]
fn update_reverts_old_effect_then_applies_new() {
    let mut s = store();
    account(&mut s, "a", 100, 1);
    account(&mut s, "b", 100, 2);
    let makan = category_id(&s, "Makanan & Minuman");
    let gaji = category_id(&s, "Gaji");
    transactions_create_at(&mut s, tx("expense", "a", None, &makan, 40), "t".into(), 3).unwrap();
    assert_eq!(balance(&s, "a"), 60);
    let t = transactions_update_at(&mut s, "t", tx("income", "b", None, &gaji, 25), 4).unwrap();
    assert_eq!((balance(&s, "a"), balance(&s, "b")), (100, 125));
    assert_eq!(t.transaction_type, TxType::Income);
    let missing = transactions_update_at(&mut s, "zz", tx("income", "b", None, &gaji, 25), 5);
    assert_eq!(missing.unwrap_err(), "Transaksi tidak ditemukan");
}

#[test]
fn listing_filters_orders_and_pages() {
    let mut s = store();
    account(&mut s, "a", 0, 1);
    let makan = category_id(&s, "Makanan & Minuman");
    for (i, d) in [(1, 300), (2, 100), (3, 200)] {
        let mut input = tx("expense", "a", None, &makan, 10);
        input.date = d;
        input.note = format!("beli {i}");
        transactions_create_at(&mut s, input, format!("t{i}"), 9).unwrap();
    }
    let all = transactions_list(&s, None, None, None, None, None, None, None, None).unwrap();
    let ids: Vec<String> = all.iter().map(|t| t.id.clone()).collect();
    assert_eq!(ids, ["t1", "t3", "t2"], "newest date first");
    let page = transactions_list(&s, Some(1), Some(1), None, None, None, None, None, None).unwrap();
    assert_eq!(page[0].id, "t3");
    let found = transactions_list(&s, None, None, Some("BELI 2".into()), None, None, None, None, None).unwrap();
    assert_eq!(found.len(), 1, "LIKE ignores ASCII case");
    let ranged = transactions_list(&s, None, None, None, None, None, None, Some(150), Some(250)).unwrap();
    assert_eq!(ranged[0].id, "t3");
    let e = transactions_list(&s, None, Some(1), None, None, None, None, None, None).unwrap_err();
    assert_eq!(e, "near \"OFFSET\": syntax error");
}

fn pocket_input(name: &str, account: &str, amount: Option<i64>) -> SavingsPocketInput {
    SavingsPocketInput {
        name: name.into(),
        target_amount: 1000,
        current_amount: amount,
        linked_account_id: account.into(),
        target_date: None,
        color_tag: " ".into(),
        is_locked: None,
    }
}

#[test]
fn pockets_move_money_and_conserve_it() {
    let mut s = store();
    account(&mut s, "a", 500, 1);
    let p = pockets_create_at(&mut s, pocket_input(" Liburan ", "a", Some(100)), "p".into(), 2).unwrap();
    assert_eq!(p.name, "Liburan");
    assert_eq!(p.color_tag, "#10b981");
    assert_eq!(balance(&s, "a"), 400);
    let held = |s: &Store| total(s) + pockets_all(s).unwrap().iter().map(|p| p.current_amount).sum::<i64>();
    let before = held(&s);
    assert!(deposit_fits(&s, "p", 50));
    let q = pockets_deposit_at(&mut s, "p", 50, 3).unwrap();
    assert_eq!(q.current_amount, 150);
    assert_eq!(balance(&s, "a"), 350);
    assert_eq!(held(&s), before);
    let q = pockets_withdraw_at(&mut s, "p", 50, 4).unwrap();
    assert_eq!(q.current_amount, 100);
    assert_eq!(balance(&s, "a"), 400);
    assert_eq!(pockets_withdraw_at(&mut s, "p", 500, 5).unwrap_err(), "Saldo kantong tidak cukup");
    assert_eq!(pockets_deposit_at(&mut s, "p", 0, 5).unwrap_err(), "Nominal setor harus > 0");
    assert_eq!(pockets_withdraw_at(&mut s, "p", 0, 5).unwrap_err(), "Nominal tarik harus > 0");
    assert_eq!(pockets_deposit_at(&mut s, "zz", 5, 5).unwrap_err(), "Kantong tidak ditemukan");
    pockets_delete_at(&mut s, "p", 6).unwrap();
    assert_eq!(balance(&s, "a"), 500, "deleting a pocket gives its money back");
    assert_eq!(held(&s), before);
}

#[test]
fn locked_pocket_refuses_moves() {
    let mut s = store();
    account(&mut s, "a", 500, 1);
    let mut input = pocket_input("Darurat", "a", None);
    input.is_locked = Some(true);
    pockets_create_at(&mut s, input, "p".into(), 2).unwrap();
    assert_eq!(balance(&s, "a"), 500);
    assert_eq!(pockets_deposit_at(&mut s, "p", 5, 3).unwrap_err(), "Kantong terkunci");
    let blank = pockets_create_at(&mut s, pocket_input(" ", "a", None), "q".into(), 2);
    assert_eq!(blank.unwrap_err(), "Nama kantong wajib diisi");
}

fn obligation_input(direction: &str, amount: i64) -> ObligationInput {
    ObligationInput {
        direction: direction.into(),
        counterparty: " Budi ".into(),
        title: "Pinjaman".into(),
        original_amount: amount,
        remaining_amount: None,
        due_date: None,
        note: Some("  ".into()),
    }
}

#[test]
fn paying_a_debt_records_an_expense_and_settles() {
    let mut s = store();
    account(&mut s, "a", 1000, 1);
    let o = obligation_create_at(&mut s, obligation_input("DEBT", 300), "o".into(), 2).unwrap();
    assert_eq!(o.counterparty, "Budi");
    assert_eq!(o.note, None);
    assert_eq!(o.status, "OPEN");
    let pay = |amount: i64| ObligationPayment { obligation_id: "o".into(), amount, account_id: Some("a".into()), date: Some(99) };
    let q = obligation_pay_at(&mut s, pay(100), "tx1".into(), 3).unwrap();
    assert_eq!(q.remaining_amount, 200);
    assert_eq!(q.status, "OPEN");
    assert_eq!(balance(&s, "a"), 900);
    let t = transactions_list(&s, None, None, None, None, None, None, None, None).unwrap().remove(0);
    assert_eq!(t.note, "Pembayaran DEBT: Pinjaman");
    assert_eq!(t.transaction_type, TxType::Expense);
    assert_eq!(t.date, 99);
    assert_eq!(obligation_pay_at(&mut s, pay(500), "tx2".into(), 4).unwrap_err(), "Pembayaran melebihi sisa obligasi");
    let q = obligation_pay_at(&mut s, pay(200), "tx3".into(), 5).unwrap();
    assert_eq!((q.remaining_amount, q.status.as_str()), (0, "DONE"));
    assert_eq!(balance(&s, "a"), 700);
    assert_eq!(obligation_pay_at(&mut s, pay(0), "tx4".into(), 6).unwrap_err(), "Nominal pembayaran harus > 0");
    let bad = obligation_create_at(&mut s, obligation_input("LOAN", 10), "o2".into(), 2);
    assert_eq!(bad.unwrap_err(), "Arah obligasi tidak valid");
}

#[test]
fn dashboard_and_category_spending() {
    let mut s = store();
    account(&mut s, "a", 1000, 1);
    account(&mut s, "b", 10, 2);
    let gaji = category_id(&s, "Gaji");
    let makan = category_id(&s, "Makanan & Minuman");
    let mut i1 = tx("income", "a", None, &gaji, 500);
    i1.date = 100;
    transactions_create_at(&mut s, i1, "t1".into(), 9).unwrap();
    let mut e1 = tx("expense", "b", None, &makan, 40);
    e1.date = 150;
    transactions_create_at(&mut s, e1, "t2".into(), 9).unwrap();
    pockets_create_at(&mut s, pocket_input("Dana", "a", Some(200)), "p".into(), 3).unwrap();
    let d = dashboard_summary(&s, 0, 200).unwrap();
    assert_eq!(d.total_income, 500);
    assert_eq!(d.total_expense, 40);
    assert_eq!(d.net_cashflow, 460);
    assert_eq!(d.total_savings, 200);
    assert_eq!(d.net_worth, 1300 + (-30) + 200);
    let spend = expense_by_category(&s, 0, 200).unwrap();
    assert_eq!(spend.len(), 1);
    assert_eq!((spend[0].category_name.as_str(), spend[0].amount), ("Makanan & Minuman", 40));
}

#[test]
fn category_spending_adds_up_to_the_period_expense() {
    let mut s = store();
    account(&mut s, "a", 1000, 1);
    let makan = category_id(&s, "Makanan & Minuman");
    let belanja = category_id(&s, "Belanja");
    for (id, cat, amount, date) in [("t1", &makan, 40, 10), ("t2", &belanja, 75, 20), ("t3", &makan, 5, 30), ("t4", &belanja, 1000, 999)] {
        let mut e = tx("expense", "a", None, cat, amount);
        e.date = date;
        transactions_create_at(&mut s, e, id.into(), 9).unwrap();
    }
    let spend = expense_by_category(&s, 0, 100).unwrap();
    assert_eq!(spend.iter().map(|c| (c.category_name.as_str(), c.amount)).collect::<Vec<_>>(), vec![("Belanja", 75), ("Makanan & Minuman", 45)]);
    assert_eq!(spend.iter().map(|c| c.amount).sum::<i64>(), dashboard_summary(&s, 0, 100).unwrap().total_expense);
    assert_eq!(dashboard_summary(&s, 0, 100).unwrap().total_expense, 120);
}

#[test]
fn pocket_update_check_waits_for_the_name() {
    let mut s = store();
    account(&mut s, "a", 0, 1);
    pockets_create_at(&mut s, pocket_input("Dana", "a", Some(-10)), "p".into(), 2).unwrap();
    let huge = pocket_input("Dana", "a", Some(i64::MAX));
    assert!(!personal_finance::commands::pocket_update_fits(&s, "p", &huge));
    let blank = pocket_input("  ", "a", Some(i64::MAX));
    assert!(personal_finance::commands::pocket_update_fits(&s, "p", &blank));
    assert_eq!(personal_finance::commands::pockets_update_at(&mut s, "p", blank, 3).unwrap_err(), "Nama kantong wajib diisi");
}

#[test]
fn csv_export_quotes_notes() {
    let mut s = store();
    account(&mut s, "a", 0, 1);
    let makan = category_id(&s, "Makanan & Minuman");
    let mut input = tx("expense", "a", None, &makan, 25);
    input.date = 1704067200;
    input.note = "kopi \"susu\"\nmanis".into();
    transactions_create_at(&mut s, input, "t1".into(), 9).unwrap();
    let csv = export_csv(&s, None, None).unwrap();
    assert_eq!(
        csv,
        "id,tanggal,tipe,akun,kategori,nominal,catatan\nt1,2024-01-01 00:00,expense,Akun a,Makanan & Minuman,25,\"kopi ''susu'' manis\"\n"
    );
}

#[test]
fn csv_dates_are_utc_minutes() {
    let mut s = store();
    account(&mut s, "a", 0, 1);
    let makan = category_id(&s, "Makanan & Minuman");
    for (id, date) in [("t1", -1i64), ("t2", 951827400), ("t3", 253402300799), ("t4", -62167219200)] {
        let mut input = tx("expense", "a", None, &makan, 1);
        input.date = date;
        transactions_create_at(&mut s, input, id.into(), 9).unwrap();
    }
    let csv = export_csv(&s, None, None).unwrap();
    let dates: Vec<&str> = csv.lines().skip(1).map(|l| l.split(',').nth(1).unwrap()).collect();
    assert_eq!(dates, ["9999-12-31 23:59", "2000-02-29 12:30", "1969-12-31 23:59", "0000-01-01 00:00"]);
}

#[test]
fn settings_and_sync_status() {
    let mut s = store();
    settings_save(&mut s, Some("  https://x.example/exec  ".into()), true).unwrap();
    let info = sync_status(&s).unwrap();
    assert_eq!(info.sheet_url.as_deref(), Some("https://x.example/exec"));
    assert!(info.auto_sync);
    assert_eq!((info.status.as_str(), info.pending_count), ("synced", 0));
    settings_save(&mut s, Some("   ".into()), false).unwrap();
    assert_eq!(sync_status(&s).unwrap().sheet_url, None);
    account(&mut s, "a", 0, 1);
    let makan = category_id(&s, "Makanan & Minuman");
    transactions_create_at(&mut s, tx("expense", "a", None, &makan, 5), "t".into(), 2).unwrap();
    let info = sync_status(&s).unwrap();
    assert_eq!((info.status.as_str(), info.pending_count), ("pending", 1));
}

#[test]
fn snapshots_keep_one_row_per_day_newest_first() {
    let mut s = store();
    snapshot_upsert(&mut s, 100, 1, 1, 0).unwrap();
    snapshot_upsert(&mut s, 200, 2, 2, 0).unwrap();
    snapshot_upsert(&mut s, 100, 5, 4, 1).unwrap();
    let all = get_portfolio_snapshots(&s, None).unwrap();
    assert_eq!(all.len(), 2);
    assert_eq!((all[0].day, all[1].day), (200, 100));
    assert_eq!(all[1].total_value, 5);
    assert_eq!(get_portfolio_snapshots(&s, Some(1)).unwrap().len(), 1);
}

#[test]
fn category_create_defaults() {
    let mut s = store();
    let c = categories_create_at(
        &mut s,
        CategoryInput { name: " Kopi ".into(), category_type: "expense".into(), icon: " ".into(), color_hex: "".into() },
        "c".into(),
    )
    .unwrap();
    assert_eq!(c.name, "Kopi");
    assert_eq!(c.icon, "wallet");
    assert_eq!(c.color_hex, "#6366f1");
}

#[test]
fn enum_names_round_trip() {
    for t in [TxType::Income, TxType::Expense, TxType::Transfer] {
        assert_eq!(TxType::from_str(t.as_str()), t);
    }
    for a in [AccountType::Bank, AccountType::EWallet, AccountType::Cash, AccountType::Investment] {
        assert_eq!(AccountType::from_str(a.as_str()), a);
    }
    for st in [SyncStatus::Synced, SyncStatus::Pending, SyncStatus::Failed] {
        assert_eq!(SyncStatus::from_str(st.as_str()), st);
    }
    assert_eq!(TxType::from_str("???"), TxType::Expense);
    assert_eq!(AccountType::from_str("???"), AccountType::Bank);
    assert_eq!(SyncStatus::from_str("???"), SyncStatus::Pending);
    assert_eq!(AccountType::EWallet.label(), "E-Wallet");
    assert_eq!(AccountType::Investment.label(), "Investasi");
    assert_eq!(TxType::Income.label(), "Pemasukan");
    assert_eq!(TxType::Expense.label(), "Pengeluaran");
}

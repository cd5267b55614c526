use personal_finance::commands::{sync_status, transactions_create_at};
use personal_finance::db::{init_db, Store};
use personal_finance::listing::{accounts_all, categories_all, pockets_all, transactions_all};
use personal_finance::models::{AccountType, SyncStatus, TransactionInput, TxType};
use personal_finance::sync::{
    connection_message, fetch_url, mark_pushed, merge_sheet_at, parse_int_exec, push_payload,
    push_succeeded, push_without_sending, require_sheet_url, require_test_url, sheet_int,
    sync_target, SheetAccount, SheetCategory, SheetCell, SheetData, SheetSaving, SheetTransaction,
};

fn store() -> Store {
    let mut s = Store::new();
    init_db(&mut s).unwrap();
    s
}

#[test]
fn sheet_cells_read_as_integers() {
    assert_eq!(sheet_int(&SheetCell::Number(Some(42))), 42);
    assert_eq!(sheet_int(&SheetCell::Number(None)), 0);
    assert_eq!(sheet_int(&SheetCell::Text("1,250,000".into())), 1250000);
    assert_eq!(sheet_int(&SheetCell::Text("-7".into())), -7);
    assert_eq!(sheet_int(&SheetCell::Text("+7".into())), 7);
    assert_eq!(sheet_int(&SheetCell::Text(" 7".into())), 0);
    assert_eq!(sheet_int(&SheetCell::Text("12a".into())), 0);
    assert_eq!(sheet_int(&SheetCell::Other), 0);
}

#[test]
fn integer_parsing_matches_std() {
    for s in ["0", "-0", "+12", "9223372036854775807", "-9223372036854775808", "9223372036854775808", "", "-", "+", "1 2", "00012", "99999999999999999999999"] {
        assert_eq!(parse_int_exec(s), s.parse::<i64>().ok(), "{s}");
    }
}

#[test]
fn fetch_url_adds_the_action() {
    assert_eq!(fetch_url("https://s.example/exec"), "https://s.example/exec?action=fetch");
    assert_eq!(fetch_url("https://s.example/exec?k=1"), "https://s.example/exec?k=1&action=fetch");
}

#[test]
fn url_checks_and_messages() {
    assert_eq!(require_sheet_url("").unwrap_err(), "URL Google Spreadsheet belum diatur");
    assert!(require_sheet_url("x").is_ok());
    assert_eq!(require_test_url("").unwrap_err(), "URL kosong");
    assert_eq!(connection_message(true, "200 OK").unwrap(), "Koneksi OK (200 OK). Sheet dapat dijangkau.");
    assert_eq!(connection_message(false, "404 Not Found").unwrap_err(), "Sheet merespons 404 Not Found – periksa URL / izin akses.");
    assert_eq!(sync_target("  ".into(), &Some("saved".into())), "saved");
    assert_eq!(sync_target("".into(), &None), "");
    assert_eq!(sync_target("given".into(), &Some("saved".into())), "given");
}

fn expense(account: &str, category: &str, amount: i64) -> TransactionInput {
    TransactionInput {
        account_id: account.into(),
        destination_account_id: None,
        category_id: category.into(),
        amount,
        transaction_type: "expense".into(),
        date: 5,
        note: String::new(),
        receipt_url: None,
    }
}

#[test]
fn push_sends_only_unsynced_and_then_nothing_is_pending() {
    let mut s = store();
    let empty = Store::new();
    let r = push_without_sending(&push_payload(&empty)).unwrap();
    assert_eq!((r.success, r.pushed, r.message.as_str()), (true, 0, "Tidak ada data yang perlu disinkronisasi"));
    let data = SheetData {
        accounts: vec![SheetAccount { id: "a".into(), name: "Kas".into(), account_type: "cash".into(), balance: SheetCell::Number(Some(10)), is_active: true }],
        categories: vec![],
        savings: vec![],
        transactions: vec![],
    };
    merge_sheet_at(&mut s, &data, 1);
    let cat = categories_all(&s).unwrap()[0].id.clone();
    transactions_create_at(&mut s, expense("a", &cat, 1), "t1".into(), 2).unwrap();
    transactions_create_at(&mut s, expense("a", &cat, 2), "t2".into(), 3).unwrap();
    let p = push_payload(&s);
    assert_eq!(p.transactions.len(), 2);
    assert_eq!(p.accounts.len(), 1);
    assert_eq!(p.categories.len(), 10);
    assert!(push_without_sending(&p).is_none());
    let done = push_succeeded(&p);
    assert_eq!((done.pushed, done.message.as_str()), (2, "2 transaksi berhasil dikirim"));
    mark_pushed(&mut s, &p.transactions).unwrap();
    assert_eq!(sync_status(&s).unwrap().pending_count, 0);
    assert!(push_payload(&s).transactions.is_empty());
    assert!(transactions_all(&s, None, None, None, None, None, None, None, None).unwrap().iter().all(|t| t.sync_status == SyncStatus::Synced));
}

#[test]
fn push_marks_only_the_rows_it_sent() {
    let mut s = store();
    let data = SheetData {
        accounts: vec![SheetAccount { id: "a".into(), name: "Kas".into(), account_type: "cash".into(), balance: SheetCell::Number(Some(10)), is_active: true }],
        categories: vec![],
        savings: vec![],
        transactions: vec![],
    };
    merge_sheet_at(&mut s, &data, 1);
    let cat = categories_all(&s).unwrap()[0].id.clone();
    transactions_create_at(&mut s, expense("a", &cat, 1), "t1".into(), 2).unwrap();
    let p = push_payload(&s);
    // Written while the push is under way: not in the payload.
    transactions_create_at(&mut s, expense("a", &cat, 2), "t2".into(), 3).unwrap();
    mark_pushed(&mut s, &p.transactions).unwrap();
    assert_eq!(sync_status(&s).unwrap().pending_count, 1);
    let left = push_payload(&s);
    assert_eq!(left.transactions.len(), 1);
    assert_eq!(left.transactions[0].id, "t2");
}

#[test]
fn fetch_merges_rows_without_touching_existing_transactions() {
    let mut s = store();
    let cat = categories_all(&s).unwrap()[0].id.clone();
    let data = SheetData {
        accounts: vec![
            SheetAccount { id: "a".into(), name: "Kas".into(), account_type: "cash".into(), balance: SheetCell::Text("1,000".into()), is_active: true },
            SheetAccount { id: "".into(), name: "tanpa id".into(), account_type: "bank".into(), balance: SheetCell::Other, is_active: true },
        ],
        categories: vec![SheetCategory { id: "c9".into(), name: "Kopi".into(), category_type: "expense".into(), icon: "cup".into(), color: "#000000".into() }],
        savings: vec![
            SheetSaving { id: "p".into(), name: "Dana".into(), target_amount: SheetCell::Number(Some(500)), current_amount: SheetCell::Text("20".into()), linked_account_id: "a".into() },
            SheetSaving { id: "q".into(), name: "Yatim".into(), target_amount: SheetCell::Other, current_amount: SheetCell::Other, linked_account_id: "missing".into() },
        ],
        transactions: vec![
            SheetTransaction { id: "t1".into(), account_id: "a".into(), destination_account_id: None, category_id: cat.clone(), amount: 5, tx_type: "income".into(), date: 9, note: "dari sheet".into() },
            SheetTransaction { id: "t2".into(), account_id: "missing".into(), destination_account_id: None, category_id: cat.clone(), amount: 5, tx_type: "income".into(), date: 9, note: String::new() },
        ],
    };
    merge_sheet_at(&mut s, &data, 77);
    let accts = accounts_all(&s).unwrap();
    assert_eq!(accts.len(), 1);
    assert_eq!((accts[0].current_balance, accts[0].account_type, accts[0].created_at), (1000, AccountType::Cash, 77));
    assert_eq!(balance_after_merge(&s), 1000, "merged transactions do not move balances");
    assert!(categories_all(&s).unwrap().iter().any(|c| c.id == "c9" && c.icon == "cup"));
    let pockets = pockets_all(&s).unwrap();
    assert_eq!(pockets.len(), 1);
    assert_eq!((pockets[0].current_amount, pockets[0].color_tag.as_str(), pockets[0].is_locked), (20, "#10b981", false));
    let txs = transactions_all(&s, None, None, None, None, None, None, None, None).unwrap();
    assert_eq!(txs.len(), 1);
    assert_eq!(txs[0].destination_account_id.as_deref(), Some(""));
    assert_eq!(txs[0].transaction_type, TxType::Income);
    assert_eq!(txs[0].sync_status, SyncStatus::Synced);

    // a second fetch updates the account but leaves the known transaction alone
    let mut again = data.clone();
    again.accounts[0].balance = SheetCell::Number(Some(5));
    again.transactions[0].note = "berubah".into();
    merge_sheet_at(&mut s, &again, 80);
    let accts = accounts_all(&s).unwrap();
    assert_eq!((accts[0].current_balance, accts[0].created_at, accts[0].updated_at), (5, 77, 80));
    let txs = transactions_all(&s, None, None, None, None, None, None, None, None).unwrap();
    assert_eq!(txs[0].note, "dari sheet");
}

fn balance_after_merge(s: &Store) -> i64 {
    accounts_all(s).unwrap()[0].current_balance
}

use personal_finance::commands::obligation_summary;
use personal_finance::db::{
    init_db, obligation_delete, obligation_insert, obligation_one, obligation_update,
    reset_all_data, Store,
};
use personal_finance::listing::obligations_all;
use personal_finance::models::Obligation;

fn open_db() -> Store {
    let mut c = Store::new();
    init_db(&mut c).unwrap();
    c
}

fn obligation(id: &str, direction: &str, amount: i64, status: &str) -> Obligation {
    Obligation {
        id: id.into(),
        direction: direction.into(),
        counterparty: "Bank".into(),
        title: "Pinjaman".into(),
        original_amount: amount,
        remaining_amount: amount,
        due_date: None,
        note: None,
        status: status.into(),
        created_at: 0,
        updated_at: 0,
    }
}

#[test]
fn crud_and_summary_work() {
    let mut c = open_db();
    let o1 = obligation("o1", "DEBT", 100, "OPEN");
    let o2 = obligation("o2", "RECEIVABLE", 200, "OPEN");
    obligation_insert(&mut c, &o1).unwrap();
    obligation_insert(&mut c, &o2).unwrap();
    assert_eq!(obligations_all(&c).unwrap().len(), 2);
    let s = obligation_summary(&c).unwrap();
    assert_eq!(s.total_debt, 100);
    assert_eq!(s.total_receivable, 200);
    assert_eq!(s.overdue_count, 0);

    let mut o1 = o1;
    o1.remaining_amount = 50;
    obligation_update(&mut c, &o1).unwrap();
    assert_eq!(
        obligation_one(&c, "o1").unwrap().unwrap().remaining_amount,
        50
    );

    obligation_delete(&mut c, "o2").unwrap();
    assert!(obligation_one(&c, "o2").unwrap().is_none());
    let s = obligation_summary(&c).unwrap();
    assert_eq!(s.total_debt, 50);
    assert_eq!(s.total_receivable, 0);
}

#[test]
fn summary_counts_overdue_open() {
    let mut c = open_db();
    let mut o = obligation("o1", "DEBT", 100, "OPEN");
    o.due_date = Some(chrono::Utc::now().timestamp() - 1);
    obligation_insert(&mut c, &o).unwrap();
    let s = obligation_summary(&c).unwrap();
    assert_eq!(s.overdue_count, 1);
    o.status = "DONE".into();
    obligation_update(&mut c, &o).unwrap();
    let s = obligation_summary(&c).unwrap();
    assert_eq!(s.overdue_count, 0);
}

#[test]
fn reset_all_data_clears_obligations() {
    let mut c = open_db();
    obligation_insert(&mut c, &obligation("o1", "DEBT", 100, "OPEN")).unwrap();
    reset_all_data(&mut c).unwrap();
    assert_eq!(obligations_all(&c).unwrap().len(), 0);
}

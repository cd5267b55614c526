use personal_finance::catalog::{bibit_products_all, cache_remote_results, investment_tx_all, investment_tx_by_product, needs_remote};
use personal_finance::commands::accounts_create_at;
use personal_finance::db::{bibit_product_upsert, init_db, Store};
use personal_finance::listing::accounts_all;
use personal_finance::models::{AccountInput, InvestmentTransaction, MutualFundProduct, PortfolioHolding};
use personal_finance::portfolio::{apply_navs, held_product_names, holdings_fit, portfolio_summary, record_daily_snapshot_at, record_investment_tx_at};
use personal_finance::commands::get_portfolio_snapshots;

fn product(id: &str, name: &str, kind: &str) -> MutualFundProduct {
    MutualFundProduct {
        id: id.into(),
        name: name.into(),
        fund_type: kind.into(),
        manager_name: "Manajer".into(),
        is_syariah: false,
        current_nav: 1000.0f64.to_bits(),
        return_1d: None,
        return_1y: None,
        aum: None,
        min_buy: 10000,
        last_fetched_at: 0,
    }
}

fn store() -> Store {
    let mut s = Store::new();
    init_db(&mut s).unwrap();
    let input = AccountInput { name: "RDN".into(), account_type: "investment".into(), account_number: None, current_balance: 1_000_000, is_active: None };
    accounts_create_at(&mut s, input, "acc".into(), 1).unwrap();
    bibit_product_upsert(&mut s, &product("rd1", "Dana Kas", "Pasar Uang")).unwrap();
    s
}

fn itx(id: &str, kind: &str, total: i64, fee: i64, date: i64) -> InvestmentTransaction {
    InvestmentTransaction {
        id: id.into(),
        product_id: "rd1".into(),
        account_id: "acc".into(),
        tx_type: kind.into(),
        units: 10.0f64.to_bits(),
        nav_per_unit: 1000.0f64.to_bits(),
        total_amount: total,
        fee,
        date,
        note: None,
    }
}

fn cash(s: &Store) -> i64 {
    accounts_all(s).unwrap()[0].current_balance
}

#[test]
fn investment_transactions_move_cash() {
    let mut s = store();
    record_investment_tx_at(&mut s, itx("b", "BUY", 10_000, 500, 1), true, true, None, 9).unwrap();
    assert_eq!(cash(&s), 1_000_000 - 10_500);
    record_investment_tx_at(&mut s, itx("s", "SELL", 4_000, 500, 2), true, true, None, 9).unwrap();
    assert_eq!(cash(&s), 1_000_000 - 10_500 + 3_500);
    record_investment_tx_at(&mut s, itx("s2", "SELL", 100, 500, 3), true, true, None, 9).unwrap();
    assert_eq!(cash(&s), 1_000_000 - 10_500 + 3_500, "a sale never takes money");
    record_investment_tx_at(&mut s, itx("d", "DIVIDEND", 250, 0, 4), true, true, None, 9).unwrap();
    assert_eq!(cash(&s), 1_000_000 - 10_500 + 3_500 + 250);
    let listed: Vec<String> = investment_tx_all(&s).unwrap().into_iter().map(|t| t.id).collect();
    assert_eq!(listed, ["d", "s2", "s", "b"]);
    assert_eq!(investment_tx_by_product(&s, "other").unwrap().len(), 0);
}

#[test]
fn investment_refusals() {
    let mut s = store();
    let e = |s: &mut Store, t: InvestmentTransaction, u: bool, n: bool, sell: Option<String>| record_investment_tx_at(s, t, u, n, sell, 9).unwrap_err();
    assert_eq!(e(&mut s, itx("x", "SWAP", 1, 0, 1), true, true, None), "Tipe transaksi investasi tidak valid");
    assert_eq!(e(&mut s, itx("x", "BUY", 1, 0, 1), false, true, None), "Units harus > 0");
    assert_eq!(e(&mut s, itx("x", "DIVIDEND", 1, 0, 1), false, true, None), "Units dividen tidak boleh negatif");
    assert_eq!(e(&mut s, itx("x", "BUY", 1, 0, 1), true, false, None), "NAV harus > 0");
    assert_eq!(e(&mut s, itx("x", "BUY", 1, -1, 1), true, true, None), "Fee tidak boleh negatif");
    assert_eq!(e(&mut s, itx("x", "SELL", 1, 0, 1), true, true, Some("terlalu banyak".into())), "terlalu banyak");
    assert_eq!(e(&mut s, itx("x", "BUY", i64::MAX, 1, 1), true, true, None), "Nominal total + fee overflow");
    let mut orphan = itx("x", "BUY", 1, 0, 1);
    orphan.product_id = "nope".into();
    assert_eq!(e(&mut s, orphan, true, true, None), "FOREIGN KEY constraint failed");
    assert_eq!(cash(&s), 1_000_000);
}

fn holding(value: i64, invested: i64) -> PortfolioHolding {
    PortfolioHolding {
        product_id: "rd1".into(),
        product_name: "Dana Kas".into(),
        fund_type: "Pasar Uang".into(),
        manager_name: "Manajer".into(),
        total_units: 1.0f64.to_bits(),
        avg_buy_nav: 1.0f64.to_bits(),
        total_invested: invested,
        current_nav: 1.0f64.to_bits(),
        current_value: value,
        unrealized_pnl: value - invested,
        roi_percentage: 0.0f64.to_bits(),
    }
}

#[test]
fn portfolio_totals_and_daily_snapshot() {
    let mut s = store();
    let hs = vec![holding(120, 100), holding(90, 100)];
    assert!(holdings_fit(&hs));
    let sum = portfolio_summary(&hs).unwrap();
    assert_eq!((sum.total_value, sum.total_invested, sum.unrealized_pnl), (210, 200, 10));
    let snap = record_daily_snapshot_at(&mut s, &hs, 86_400).unwrap();
    assert_eq!((snap.day, snap.total_value), (86_400, 210));
    record_daily_snapshot_at(&mut s, &vec![holding(1, 1)], 86_400).unwrap();
    let all = get_portfolio_snapshots(&s, None).unwrap();
    assert_eq!(all.len(), 1);
    assert_eq!(all[0].total_value, 1);
    assert!(!holdings_fit(&vec![holding(i64::MAX, 0), holding(1, 0)]));
}

#[test]
fn navs_refresh_known_products_only() {
    let mut s = store();
    let n = apply_navs(&mut s, &vec![("rd1".to_string(), 1234.5f64.to_bits()), ("ghost".to_string(), 1.0f64.to_bits())], 55);
    assert_eq!(n, 2);
    let p = bibit_products_all(&s).unwrap().remove(0);
    assert_eq!(f64::from_bits(p.current_nav), 1234.5);
    assert_eq!(p.last_fetched_at, 55);
    assert_eq!(bibit_products_all(&s).unwrap().len(), 1);
}

#[test]
fn remote_results_are_cached_then_filtered() {
    let mut s = store();
    assert!(needs_remote(&vec![], "dana"));
    assert!(!needs_remote(&vec![], "  "));
    let got = cache_remote_results(&mut s, vec![product("a", "Alfa", "Saham"), product("b", "Beta", "Obligasi")], Some("Saham")).unwrap();
    assert_eq!(got.len(), 1);
    assert_eq!(got[0].id, "a");
    assert_eq!(bibit_products_all(&s).unwrap().len(), 3);
}

#[test]
fn held_products_are_those_with_transactions() {
    let mut s = store();
    bibit_product_upsert(&mut s, &product("rd2", "Saham Lain", "Saham")).unwrap();
    assert!(held_product_names(&s).is_empty());
    record_investment_tx_at(&mut s, itx("b", "BUY", 10_000, 0, 1), true, true, None, 9).unwrap();
    assert_eq!(held_product_names(&s), vec![("rd1".to_string(), "Dana Kas".to_string())]);
}

use personal_finance::catalog::bibit_product_search;
use personal_finance::db::{bibit_product_upsert, init_db, rebuild_bibit_fts, Store};
use personal_finance::models::MutualFundProduct;

/// A store through `init_db` with three catalogue products.
fn seeded() -> Store {
    let mut c = Store::new();
    init_db(&mut c).unwrap();
    for (i, name) in ["Mandiri Investa BCA", "BCA Prima Dana", "Reksa Dana Sukun"]
        .iter()
        .enumerate()
    {
        let p = MutualFundProduct {
            id: format!("p{i}"),
            name: name.to_string(),
            fund_type: "Pasar Uang".into(),
            manager_name: "Bca".into(),
            is_syariah: false,
            current_nav: 1.0f64.to_bits(),
            return_1d: None,
            return_1y: None,
            aum: None,
            min_buy: 10000,
            last_fetched_at: 0,
        };
        bibit_product_upsert(&mut c, &p).unwrap();
    }
    c
}

fn names(v: &Vec<MutualFundProduct>) -> Vec<String> {
    v.iter().map(|x| x.name.clone()).collect()
}

#[test]
fn fts_matches_substrings_and_survives_operator_text() {
    let mut c = seeded();
    assert_eq!(
        names(&bibit_product_search(&c, "bca", None).unwrap()),
        ["BCA Prima Dana", "Mandiri Investa BCA", "Reksa Dana Sukun"],
        "trigram must match mid-name and inside manager_name, case-insensitive, sorted by name"
    );
    assert_eq!(
        names(&bibit_product_search(&c, "MANDIRI", None).unwrap()),
        ["Mandiri Investa BCA"]
    );
    assert_eq!(
        names(&bibit_product_search(&c, "investa bca", None).unwrap()),
        ["Mandiri Investa BCA"],
        "multi-word query must stay one ordered phrase"
    );
    assert_eq!(
        bibit_product_search(&c, "' OR 1=1 --\"", None)
            .unwrap()
            .len(),
        0,
        "quoted MATCH must not error nor match everything"
    );
    assert_eq!(
        bibit_product_search(&c, "bca", Some("Obligasi"))
            .unwrap()
            .len(),
        0
    );
    let mut p = bibit_product_search(&c, "sukun", None).unwrap().remove(0);
    p.name = "Renamed Foo".into();
    bibit_product_upsert(&mut c, &p).unwrap();
    assert_eq!(bibit_product_search(&c, "sukun", None).unwrap().len(), 0);
    assert_eq!(bibit_product_search(&c, "renamed", None).unwrap().len(), 1);
}

#[test]
fn short_query_falls_back_to_like() {
    let c = seeded();
    assert_eq!(bibit_product_search(&c, "bc", None).unwrap().len(), 3);
    assert_eq!(bibit_product_search(&c, "su", None).unwrap().len(), 1);
    assert!(bibit_product_search(&c, "%", None).unwrap().is_empty());
    assert!(bibit_product_search(&c, "_", None).unwrap().is_empty());
}

#[test]
fn empty_query_returns_defaults() {
    let c = seeded();
    assert_eq!(bibit_product_search(&c, "   ", None).unwrap().len(), 3);
}

#[test]
fn rebuild_resyncs_index() {
    let c = seeded();
    rebuild_bibit_fts(&c).unwrap();
    assert_eq!(bibit_product_search(&c, "bca", None).unwrap().len(), 3);
}

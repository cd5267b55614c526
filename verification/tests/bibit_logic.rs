use aes::cipher::block_padding::Pkcs7;
use aes::cipher::{BlockEncryptMut, KeyIvInit};
use personal_finance::bibit::{
    catalog_finish, catalog_request, catalog_start, catalog_step, decrypt_bibit, nav_query,
    sort_remote_hits, text_flag, PageVerdict,
};
use personal_finance::models::MutualFundProduct;

const KEY: &[u8; 32] = b"0123456789abcdef0123456789abcdef";

fn payload(plain: &[u8], iv: [u8; 16]) -> String {
    let mut buf = vec![0u8; plain.len() + 16];
    buf[..plain.len()].copy_from_slice(plain);
    let ct = cbc::Encryptor::<aes::Aes256>::new_from_slices(KEY, &iv)
        .unwrap()
        .encrypt_padded_mut::<Pkcs7>(&mut buf, plain.len())
        .unwrap()
        .to_vec();
    format!("{}{}{}", hex::encode(iv), hex::encode(ct), std::str::from_utf8(KEY).unwrap())
}

#[test]
fn decrypts_a_catalogue_payload() {
    let text = r#"[{"id":"RD1","name":"Dana Pasti"}]"#;
    assert_eq!(decrypt_bibit(&payload(text.as_bytes(), [7u8; 16])).unwrap(), text);
}

#[test]
fn decrypt_errors_name_the_failing_step() {
    assert_eq!(decrypt_bibit("abc").unwrap_err(), "payload terlalu pendek");
    let good = payload(b"{}", [1u8; 16]);
    let bad_iv = format!("zz{}", &good[2..]);
    assert!(decrypt_bibit(&bad_iv).unwrap_err().starts_with("iv hex: Invalid character 'z' at position 0"));
    let odd = format!("{}0{}", &good[..32], &good[32..]);
    assert_eq!(decrypt_bibit(&odd).unwrap_err(), "ct hex: Odd number of digits");
    let short_ct = format!("{}00{}", &good[..32], &good[good.len() - 32..]);
    assert_eq!(decrypt_bibit(&short_ct).unwrap_err(), "decrypt: Unpad Error");
    let not_text = payload(&[0xff, 0xfe], [2u8; 16]);
    assert!(decrypt_bibit(&not_text).unwrap_err().starts_with("utf8: "));
}

#[test]
fn paging_retries_with_fifty_then_walks_pages() {
    let p = catalog_start();
    assert_eq!(catalog_request(&p), Some((100, 1)));
    let (p, v) = catalog_step(p, Some(50));
    assert_eq!(v, PageVerdict::Retry);
    assert_eq!(catalog_request(&p), Some((50, 1)));
    let (p, v) = catalog_step(p, Some(50));
    assert_eq!(v, PageVerdict::Keep);
    assert_eq!(catalog_request(&p), Some((50, 2)));
    let (p, v) = catalog_step(p, Some(20));
    assert_eq!(v, PageVerdict::KeepLast);
    assert_eq!(p.collected, 70);
    assert!(catalog_finish(&p).is_ok());
}

#[test]
fn paging_refusals() {
    let (p, v) = catalog_step(catalog_start(), None);
    assert_eq!(v, PageVerdict::Retry);
    let (p, v) = catalog_step(p, None);
    assert_eq!(v, PageVerdict::Stop);
    assert_eq!(catalog_finish(&p).unwrap_err(), "fetch_catalog: katalog kosong / respons tak dikenali");
    let (p, v) = catalog_step(catalog_start(), Some(100));
    assert_eq!(v, PageVerdict::Keep);
    let (p, v) = catalog_step(p, Some(0));
    assert_eq!(v, PageVerdict::Stop);
    assert!(catalog_finish(&p).is_ok());
    let mut last = catalog_start();
    last.page = 41;
    assert_eq!(catalog_request(&last), None);
}

#[test]
fn nav_query_takes_two_words_and_fifteen_chars() {
    assert_eq!(nav_query("Mandiri Investa BCA").as_deref(), Some("Mandiri Investa"));
    assert_eq!(nav_query("  Sucorinvest \t Money   Market").as_deref(), Some("Sucorinvest Mon"));
    assert_eq!(nav_query("Tunggal").as_deref(), Some("Tunggal"));
    assert_eq!(nav_query("   ").as_deref(), Some("   "));
    assert_eq!(nav_query(""), None);
}

fn product(id: &str, name: &str) -> MutualFundProduct {
    MutualFundProduct {
        id: id.into(),
        name: name.into(),
        fund_type: "Saham".into(),
        manager_name: "M".into(),
        is_syariah: false,
        current_nav: 2.5f64.to_bits(),
        return_1d: None,
        return_1y: Some(0.1f64.to_bits()),
        aum: None,
        min_buy: 10000,
        last_fetched_at: 1,
    }
}

#[test]
fn remote_hits_sort_by_name_as_the_local_search() {
    let out = sort_remote_hits(vec![product("1", "beta"), product("2", "Alpha"), product("3", "alpha"), product("4", "Beta"), product("5", "Alpha")]);
    let ids: Vec<&str> = out.iter().map(|p| p.id.as_str()).collect();
    assert_eq!(ids, ["2", "5", "4", "3", "1"]);
}

#[test]
fn flags_from_text() {
    assert_eq!(text_flag("TRUE"), Some(true));
    assert_eq!(text_flag("0"), Some(false));
    assert_eq!(text_flag("yes"), None);
}

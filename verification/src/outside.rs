//! Calls into outside code: `chrono` and `uuid` for the clock, fresh
//! identifiers and date text; `hex`, `aes` and `cbc` for the catalogue payload;
//! std for UTF-8 decoding. Results that depend on the clock, on
//! chance or on the machine's time zone carry no promise; results that are a
//! function of the arguments are stated or named.

use vstd::prelude::*;

verus! {

/// `chrono::Utc::now().timestamp()`: the current Unix time in seconds. Nothing is
/// promised of the value; it depends on the clock.
#[verifier::external_body]
pub(crate) fn now_ts() -> (t: i64) {
    chrono::Utc::now().timestamp()
}

/// `uuid::Uuid::new_v4().to_string()`: a random identifier in its hyphenated
/// form, which is 36 characters long. Nothing more is promised; it depends on chance.
#[verifier::external_body]
pub(crate) fn new_id() -> (s: String)
    ensures
        s@.len() == 36,
{
    uuid::Uuid::new_v4().to_string()
}

/// Local midnight of today, as a Unix timestamp, from `chrono::Local`
/// (`and_local_timezone(..).earliest()`): the earlier instant when midnight
/// occurs twice, `None` when a clock change skips it. Nothing is promised of
/// the value; it depends on the clock and the machine's time zone.
#[verifier::external_body]
pub(crate) fn local_midnight_ts() -> (t: Option<i64>) {
    chrono::Local::now()
        .date_naive()
        .and_time(chrono::NaiveTime::MIN)
        .and_local_timezone(chrono::Local)
        .earliest()
        .map(|d| d.timestamp())
}

/// The decimal digits of `n`, zero-padded to `width` (for `0 <= n < 10^width`).
pub open spec fn padded_digits(n: int, width: nat) -> Seq<char>
    decreases width,
{
    if width == 0 {
        seq![]
    } else {
        padded_digits(n / 10, (width - 1) as nat).push(((n % 10) + 48) as char)
    }
}

/// The proleptic Gregorian (year, month, day) of the day `days` after
/// 1970-01-01 (negative before it).
pub open spec fn civil_date(days: int) -> (int, int, int) {
    let z = days + 719468;
    let era = z / 146097;
    let doe = z - era * 146097;
    let yoe = (doe - doe / 1460 + doe / 36524 - doe / 146096) / 365;
    let doy = doe - (365 * yoe + yoe / 4 - yoe / 100);
    let mp = (5 * doy + 2) / 153;
    let d = doy - (153 * mp + 2) / 5 + 1;
    let m = if mp < 10 { mp + 3 } else { mp - 9 };
    let y = yoe + era * 400;
    (if m <= 2 { y + 1 } else { y }, m, d)
}

/// `ts` lies in the years 0000 to 9999 (UTC), where the year has four digits.
pub open spec fn four_digit_year(ts: i64) -> bool {
    -62167219200 <= ts <= 253402300799
}

/// `YYYY-MM-DD HH:MM` of the Unix time `ts` in UTC.
pub open spec fn utc_minute_text(ts: i64) -> Seq<char> {
    let days = ts / 86400;
    let secs = ts % 86400;
    let (y, m, d) = civil_date(days);
    padded_digits(y, 4) + seq!['-'] + padded_digits(m, 2) + seq!['-'] + padded_digits(d, 2) + seq![' ']
        + padded_digits(secs / 3600, 2) + seq![':'] + padded_digits((secs % 3600) / 60, 2)
}

/// The text that `chrono::DateTime::from_timestamp(ts, 0)` formats with
/// `"%Y-%m-%d %H:%M"` (UTC); empty when `ts` lies outside chrono's range.
pub uninterp spec fn csv_date_text(ts: i64) -> Seq<char>;

/// The date text of a CSV row: stated for the years 0000 to 9999, named
/// (signed five-digit years, or empty past chrono's range) beyond them.
pub open spec fn csv_date(ts: i64) -> Seq<char> {
    if four_digit_year(ts) { utc_minute_text(ts) } else { csv_date_text(ts) }
}

/// Formats `ts` as `YYYY-MM-DD HH:MM` in UTC through `chrono`, or gives back an
/// empty string when chrono cannot represent `ts`. For the years 0000 to 9999
/// the text is stated (`utc_minute_text`); beyond them, where chrono writes a
/// signed year or nothing, it is only named `csv_date_text(ts)`.
#[verifier::external_body]
pub(crate) fn format_csv_date(ts: i64) -> (s: String)
    ensures
        s@ == csv_date_text(ts),
        four_digit_year(ts) ==> s@ == utc_minute_text(ts),
{
    chrono::DateTime::from_timestamp(ts, 0).map(|d| d.format("%Y-%m-%d %H:%M").to_string()).unwrap_or_default()
}

/// The value of one hexadecimal digit (either case), as `hex` reads it.
pub open spec fn hex_digit_value(c: u8) -> Option<u8> {
    if 48 <= c <= 57 {
        Some((c - 48) as u8)
    } else if 65 <= c <= 70 {
        Some((c - 55) as u8)
    } else if 97 <= c <= 102 {
        Some((c - 87) as u8)
    } else {
        None
    }
}

/// `b` is an even number of hexadecimal digits.
pub open spec fn is_hex_text(b: Seq<u8>) -> bool {
    b.len() % 2 == 0 && forall|i: int| 0 <= i < b.len() ==> (#[trigger] hex_digit_value(b[i])) is Some
}

/// The bytes that the hexadecimal text `b` spells, two digits per byte, high first.
pub open spec fn hex_bytes(b: Seq<u8>) -> Seq<u8> {
    Seq::new(
        b.len() / 2,
        |i: int| (hex_digit_value(b[2 * i])->0 * 16 + hex_digit_value(b[2 * i + 1])->0) as u8,
    )
}

/// The text of the error `hex::decode(b)` gives (its `Display`).
pub uninterp spec fn hex_error_text(b: Seq<u8>) -> Seq<char>;

/// `hex::decode`: the bytes spelled by an even number of hex digits of either
/// case; otherwise the text of its error, which for an odd length is "Odd number
/// of digits". The text for a bad digit (it quotes the first one and its
/// position) is named, not spelled out.
#[verifier::external_body]
pub(crate) fn hex_decode(b: &[u8]) -> (r: Result<Vec<u8>, String>)
    ensures
        match r {
            Ok(v) => is_hex_text(b@) && v@ == hex_bytes(b@),
            Err(m) => !is_hex_text(b@) && m@ == hex_error_text(b@) && (b@.len() % 2 != 0 ==> m@ == "Odd number of digits"@),
        },
{
    hex::decode(b).map_err(|e| e.to_string())
}

/// What AES-256 in CBC mode with PKCS#7 padding decrypts from `ct` with `key`
/// and `iv`: `None` when `ct` is not a whole number of blocks or its padding is
/// malformed.
pub uninterp spec fn cbc_plaintext(key: Seq<u8>, iv: Seq<u8>, ct: Seq<u8>) -> Option<Seq<u8>>;

/// Decrypts with `cbc::Decryptor<aes::Aes256>` and PKCS#7 unpadding. With a
/// 32-byte key and a 16-byte IV the decryptor is always built; the result is
/// the named plaintext, or the error "Unpad Error" (`block_padding::UnpadError`)
/// when there is none, which is always the case for a length that is not a
/// multiple of 16.
#[verifier::external_body]
pub(crate) fn aes256_cbc_decrypt(key: &[u8], iv: &[u8], ct: Vec<u8>) -> (r: Result<Vec<u8>, String>)
    requires
        key@.len() == 32,
        iv@.len() == 16,
    ensures
        match cbc_plaintext(key@, iv@, ct@) {
            Some(p) => r matches Ok(v) && v@ == p,
            None => r matches Err(m) && m@ == "Unpad Error"@,
        },
        ct@.len() % 16 != 0 ==> r is Err,
{
    let dec = <cbc::Decryptor<aes::Aes256> as aes::cipher::KeyIvInit>::new_from_slices(key, iv).map_err(|e| e.to_string())?;
    let mut buf = ct;
    let pt = aes::cipher::BlockDecryptMut::decrypt_padded_mut::<cbc::cipher::block_padding::Pkcs7>(dec, &mut buf).map_err(|e| e.to_string())?;
    Ok(pt.to_vec())
}

/// The text of the error `String::from_utf8(b)` gives for bytes that are not
/// valid UTF-8 (its `Display`, which says where decoding failed).
pub uninterp spec fn utf8_error_text(b: Seq<u8>) -> Seq<char>;

/// `String::from_utf8`: the text the bytes encode when they are valid UTF-8,
/// else the text of its error, which is named.
#[verifier::external_body]
pub(crate) fn text_from_utf8(b: Vec<u8>) -> (r: Result<String, String>)
    ensures
        match r {
            Ok(s) => vstd::utf8::valid_utf8(b@) && s@ == vstd::utf8::decode_utf8(b@),
            Err(m) => !vstd::utf8::valid_utf8(b@) && m@ == utf8_error_text(b@),
        },
{
    String::from_utf8(b).map_err(|e| e.to_string())
}

} // verus!

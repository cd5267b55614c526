//! The Bibit fund catalogue: how its encrypted payload is opened, how its
//! pages are walked, how remote hits are ordered, and which name fragment asks
//! for a product's NAV. The HTTP exchange and the JSON reading happen outside
//! the library.

use vstd::prelude::*;
use crate::models::MutualFundProduct;
use crate::order::{arranged, is_stable_order, sorted_rows, stable_order, text_key};
use crate::outside::{cbc_plaintext, hex_bytes, hex_error_text, is_hex_text};
use crate::text::{chars_of, is_white_space, string_from_chars, white_space};
use vstd::string::StringSliceAdditionalSpecFns;

verus! {

broadcast use vstd::string::group_string_axioms;

// ── The encrypted payload ───────────────────────────────────────────────────

/// The text a catalogue payload `[iv hex (32)][ciphertext hex][key (32)]`
/// decrypts to, as bytes: `Err` with the message of the first step that fails.
pub open spec fn payload_plaintext(b: Seq<u8>) -> Result<Seq<u8>, Seq<char>> {
    let n = b.len();
    let iv_hex = b.subrange(0, 32);
    let ct_hex = b.subrange(32, n - 32);
    let key = b.subrange(n - 32, n as int);
    if n < 64 {
        Err("payload terlalu pendek"@)
    } else if !is_hex_text(iv_hex) {
        Err("iv hex: "@ + hex_error_text(iv_hex))
    } else if !is_hex_text(ct_hex) {
        Err("ct hex: "@ + hex_error_text(ct_hex))
    } else {
        match cbc_plaintext(key, hex_bytes(iv_hex), hex_bytes(ct_hex)) {
            Some(p) => Ok(p),
            None => Err("decrypt: "@ + "Unpad Error"@),
        }
    }
}

/// The payload can be cut at its IV and key (both cuts fall between characters).
pub open spec fn payload_cuttable(b: Seq<u8>) -> bool {
    b.len() >= 64 ==> vstd::utf8::is_char_boundary(b, 32) && vstd::utf8::is_char_boundary(b, b.len() - 32)
}

fn copy_range(b: &[u8], lo: usize, hi: usize) -> (r: Vec<u8>)
    requires
        lo <= hi <= b@.len(),
    ensures
        r@ == b@.subrange(lo as int, hi as int),
{
    let mut v: Vec<u8> = Vec::new();
    let mut i: usize = lo;
    while i < hi
        invariant
            lo <= i <= hi <= b@.len(),
            v@ == b@.subrange(lo as int, i as int),
        decreases hi - i,
    {
        v.push(b[i]);
        assert(b@.subrange(lo as int, i + 1) =~= b@.subrange(lo as int, i as int).push(b@[i as int]));
        i += 1;
    }
    v
}

/// Opens a catalogue payload: the first 32 characters are the IV in hex, the
/// last 32 the key as text, the middle the ciphertext in hex; AES-256-CBC with
/// PKCS#7 padding gives the UTF-8 text of the catalogue.
pub fn decrypt_bibit(payload: &str) -> (r: Result<String, String>)
    requires
        payload_cuttable(payload.spec_bytes()),
    ensures
        match payload_plaintext(payload.spec_bytes()) {
            Err(m) => r matches Err(e) && e@ == m,
            Ok(p) => if vstd::utf8::valid_utf8(p) {
                r matches Ok(s) && s@ == vstd::utf8::decode_utf8(p)
            } else {
                r matches Err(e) && e@ == "utf8: "@ + crate::outside::utf8_error_text(p)
            },
        },
{
    let b = payload.as_bytes();
    let n = b.len();
    if n < 64 {
        return Err(crate::text::copy_str("payload terlalu pendek"));
    }
    let iv_hex = copy_range(b, 0, 32);
    let ct_hex = copy_range(b, 32, n - 32);
    let key = copy_range(b, n - 32, n);
    let iv = match crate::outside::hex_decode(iv_hex.as_slice()) {
        Ok(v) => v,
        Err(e) => {
            return Err(crate::text::concat_text("iv hex: ", e.as_str()));
        },
    };
    let ct = match crate::outside::hex_decode(ct_hex.as_slice()) {
        Ok(v) => v,
        Err(e) => {
            return Err(crate::text::concat_text("ct hex: ", e.as_str()));
        },
    };
    assert(iv@.len() == 16);
    let pt = match crate::outside::aes256_cbc_decrypt(key.as_slice(), iv.as_slice(), ct) {
        Ok(v) => v,
        Err(e) => {
            return Err(crate::text::concat_text("decrypt: ", e.as_str()));
        },
    };
    match crate::outside::text_from_utf8(pt) {
        Ok(s) => Ok(s),
        Err(e) => {
            Err(crate::text::concat_text("utf8: ", e.as_str()))
        },
    }
}

// ── Walking the catalogue's pages ───────────────────────────────────────────

/// Where a catalogue download stands: the page size in use, the page to ask for
/// next, whether a first page was taken, and how many items were kept.
#[derive(Debug, Clone, Copy)]
pub struct CatalogPaging {
    pub page_size: i64,
    pub page: i64,
    pub page1_ok: bool,
    pub collected: usize,
}

/// What to do with a page that came back.
#[derive(Debug, Clone, Copy, PartialEq, Eq, Structural)]
pub enum PageVerdict {
    /// Drop it and ask again (now with pages of 50).
    Retry,
    /// Keep its items and ask for the next page.
    Keep,
    /// Keep its items; it was the last page.
    KeepLast,
    /// Drop it and stop.
    Stop,
}

/// The most pages a download asks for.
pub const MAX_PAGES: i64 = 40;

/// A download starts with pages of 100 at page 1.
pub fn catalog_start() -> (p: CatalogPaging)
    ensures
        p == (CatalogPaging { page_size: 100, page: 1, page1_ok: false, collected: 0 }),
{
    CatalogPaging { page_size: 100, page: 1, page1_ok: false, collected: 0 }
}

/// The page size and page number to ask for next, or `None` once past the cap.
pub fn catalog_request(p: &CatalogPaging) -> (r: Option<(i64, i64)>)
    ensures
        p.page <= MAX_PAGES ==> r == Some((p.page_size, p.page)),
        p.page > MAX_PAGES ==> r is None,
{
    if p.page <= MAX_PAGES { Some((p.page_size, p.page)) } else { None }
}

/// The state after a page: `got` is the number of items the page held, or
/// `None` when the server refused it or its shape was not understood.
pub open spec fn catalog_next(p: CatalogPaging, got: Option<usize>) -> (CatalogPaging, PageVerdict) {
    match got {
        None => if p.page == 1 && p.page_size == 100 {
            (CatalogPaging { page_size: 50, ..p }, PageVerdict::Retry)
        } else {
            (p, PageVerdict::Stop)
        },
        Some(n) => if p.page == 1 && p.page_size == 100 && n < 100 {
            (CatalogPaging { page_size: 50, ..p }, PageVerdict::Retry)
        } else {
            let q = CatalogPaging { page1_ok: p.page1_ok || p.page == 1, ..p };
            if n == 0 {
                (q, PageVerdict::Stop)
            } else if n < p.page_size {
                (CatalogPaging { collected: (p.collected + n) as usize, ..q }, PageVerdict::KeepLast)
            } else {
                (CatalogPaging { collected: (p.collected + n) as usize, page: (p.page + 1) as i64, ..q }, PageVerdict::Keep)
            }
        },
    }
}

/// Decides what to do with a page that came back (see `catalog_next`).
pub fn catalog_step(p: CatalogPaging, got: Option<usize>) -> (r: (CatalogPaging, PageVerdict))
    requires
        p.page <= MAX_PAGES,
        got matches Some(n) ==> n <= i64::MAX && p.collected + n <= usize::MAX,
    ensures
        r == catalog_next(p, got),
{
    match got {
        None => {
            if p.page == 1 && p.page_size == 100 {
                (CatalogPaging { page_size: 50, ..p }, PageVerdict::Retry)
            } else {
                (p, PageVerdict::Stop)
            }
        },
        Some(n) => {
            if p.page == 1 && p.page_size == 100 && (n as i64) < 100 {
                return (CatalogPaging { page_size: 50, ..p }, PageVerdict::Retry);
            }
            let q = CatalogPaging { page1_ok: p.page1_ok || p.page == 1, ..p };
            if n == 0 {
                (q, PageVerdict::Stop)
            } else if (n as i64) < p.page_size {
                (CatalogPaging { collected: p.collected + n, ..q }, PageVerdict::KeepLast)
            } else {
                (CatalogPaging { collected: p.collected + n, page: p.page + 1, ..q }, PageVerdict::Keep)
            }
        },
    }
}

/// The outcome of a finished download: refused when no first page was taken
/// or nothing was kept.
pub fn catalog_finish(p: &CatalogPaging) -> (r: Result<(), String>)
    ensures
        (!p.page1_ok || p.collected == 0) ==> (r matches Err(e) && e@ == "fetch_catalog: katalog kosong / respons tak dikenali"@),
        (p.page1_ok && p.collected > 0) ==> r is Ok,
{
    if !p.page1_ok || p.collected == 0 {
        Err(crate::text::copy_str("fetch_catalog: katalog kosong / respons tak dikenali"))
    } else {
        Ok(())
    }
}

/// How far a download is from its end: two steps per page left, one more
/// while pages of 100 are still tried.
pub open spec fn paging_measure(p: CatalogPaging) -> int {
    2 * (MAX_PAGES + 1 - p.page) + if p.page_size == 100 { 1int } else { 0int }
}

// ── Ordering remote hits ────────────────────────────────────────────────────

/// Remote hits are ordered by name, character by character (code point), as
/// the local search orders by name.
pub open spec fn remote_order_key(p: MutualFundProduct) -> Seq<i128> {
    text_key(p.name@)
}

/// Orders remote hits by name, as the local search does; hits with equal names
/// keep the order they came in.
pub fn sort_remote_hits(hits: Vec<MutualFundProduct>) -> (r: Vec<MutualFundProduct>)
    ensures
        sorted_rows(hits@, |p: MutualFundProduct| remote_order_key(p), r@),
{
    let ghost rows = hits@;
    let ghost kf = |p: MutualFundProduct| remote_order_key(p);
    let mut keys: Vec<Vec<i128>> = Vec::new();
    let mut i: usize = 0;
    while i < hits.len()
        invariant
            rows == hits@,
            i <= hits.len(),
            kf == (|p: MutualFundProduct| remote_order_key(p)),
            keys@.map_values(|k: Vec<i128>| k@) == rows.take(i as int).map_values(kf),
        decreases hits.len() - i,
    {
        let key = crate::listing::text_key_of(hits[i].name.as_str());
        proof { crate::order::lemma_keys_push(keys@, rows, kf, i as int, key); }
        keys.push(key);
        i += 1;
    }
    assert(rows.take(hits.len() as int) =~= rows);
    let idx = stable_order(&keys);
    let mut out: Vec<MutualFundProduct> = Vec::new();
    let mut j: usize = 0;
    while j < idx.len()
        invariant
            rows == hits@,
            is_stable_order(rows.map_values(kf), idx@),
            j <= idx.len(),
            out@.len() == j,
            forall|q: int| 0 <= q < j ==> out@[q] == rows[#[trigger] idx@[q] as int],
        decreases idx.len() - j,
    {
        out.push(hits[idx[j]].duplicate());
        j += 1;
    }
    assert(arranged(rows, idx@, out@));
    out
}

// ── The name fragment that asks for a NAV ───────────────────────────────────

/// The first position from `i` on that is not white space (the length if none).
pub open spec fn skip_space(s: Seq<char>, i: int) -> int
    decreases s.len() - i,
{
    if i >= s.len() || i < 0 {
        s.len() as int
    } else if !is_white_space(s[i]) {
        i
    } else {
        skip_space(s, i + 1)
    }
}

/// The first position from `i` on that is white space (the length if none).
pub open spec fn skip_word(s: Seq<char>, i: int) -> int
    decreases s.len() - i,
{
    if i >= s.len() || i < 0 {
        s.len() as int
    } else if is_white_space(s[i]) {
        i
    } else {
        skip_word(s, i + 1)
    }
}

/// The first two words of `s` (split at white space) joined by one space; empty
/// when `s` has no word.
pub open spec fn two_words(s: Seq<char>) -> Seq<char> {
    let a = skip_space(s, 0);
    let b = skip_word(s, a);
    let c = skip_space(s, b);
    let d = skip_word(s, c);
    if a == s.len() {
        seq![]
    } else if c == s.len() {
        s.subrange(a, b)
    } else {
        s.subrange(a, b) + seq![' '] + s.subrange(c, d)
    }
}

/// At most the first `n` characters of `s`.
pub open spec fn first_chars(s: Seq<char>, n: int) -> Seq<char> {
    if s.len() <= n { s } else { s.take(n) }
}

/// The text that asks the remote search for a product by name: its first two
/// words, at most 15 characters; the name's first 15 characters when it has no
/// word; `None` when that is empty too.
pub open spec fn nav_query_text(name: Seq<char>) -> Option<Seq<char>> {
    let q = if two_words(name).len() == 0 { first_chars(name, 15) } else { first_chars(two_words(name), 15) };
    if q.len() == 0 { None } else { Some(q) }
}

proof fn lemma_skip_space_bounds(s: Seq<char>, i: int)
    requires
        0 <= i <= s.len(),
    ensures
        i <= skip_space(s, i) <= s.len(),
        forall|k: int| i <= k < skip_space(s, i) ==> is_white_space(#[trigger] s[k]),
        skip_space(s, i) < s.len() ==> !is_white_space(s[skip_space(s, i)]),
    decreases s.len() - i,
{
    if i < s.len() && is_white_space(s[i]) {
        lemma_skip_space_bounds(s, i + 1);
    }
}

proof fn lemma_skip_word_bounds(s: Seq<char>, i: int)
    requires
        0 <= i <= s.len(),
    ensures
        i <= skip_word(s, i) <= s.len(),
        forall|k: int| i <= k < skip_word(s, i) ==> !is_white_space(#[trigger] s[k]),
        skip_word(s, i) < s.len() ==> is_white_space(s[skip_word(s, i)]),
    decreases s.len() - i,
{
    if i < s.len() && !is_white_space(s[i]) {
        lemma_skip_word_bounds(s, i + 1);
    }
}

fn skip_space_exec(s: &Vec<char>, i: usize) -> (r: usize)
    requires
        i <= s.len(),
    ensures
        r == skip_space(s@, i as int),
        i <= r <= s.len(),
{
    let mut j = i;
    while j < s.len() && white_space(s[j])
        invariant
            i <= j <= s.len(),
            skip_space(s@, j as int) == skip_space(s@, i as int),
        decreases s.len() - j,
    {
        j += 1;
    }
    j
}

fn skip_word_exec(s: &Vec<char>, i: usize) -> (r: usize)
    requires
        i <= s.len(),
    ensures
        r == skip_word(s@, i as int),
        i <= r <= s.len(),
{
    let mut j = i;
    while j < s.len() && !white_space(s[j])
        invariant
            i <= j <= s.len(),
            skip_word(s@, j as int) == skip_word(s@, i as int),
        decreases s.len() - j,
    {
        j += 1;
    }
    j
}

fn push_range(out: &mut Vec<char>, s: &Vec<char>, lo: usize, hi: usize)
    requires
        lo <= hi <= s.len(),
    ensures
        final(out)@ == old(out)@ + s@.subrange(lo as int, hi as int),
{
    let mut i = lo;
    while i < hi
        invariant
            lo <= i <= hi <= s.len(),
            out@ == old(out)@ + s@.subrange(lo as int, i as int),
        decreases hi - i,
    {
        out.push(s[i]);
        assert(s@.subrange(lo as int, i + 1) =~= s@.subrange(lo as int, i as int).push(s@[i as int]));
        i += 1;
    }
}

fn first_chars_exec(v: &Vec<char>, n: usize) -> (r: Vec<char>)
    ensures
        r@ == first_chars(v@, n as int),
{
    let hi = if v.len() <= n { v.len() } else { n };
    let mut out: Vec<char> = Vec::new();
    push_range(&mut out, v, 0, hi);
    assert(v@.subrange(0, hi as int) =~= first_chars(v@, n as int));
    out
}

/// The name fragment that asks the remote search for a product (see `nav_query_text`).
pub fn nav_query(name: &str) -> (r: Option<String>)
    ensures
        match (r, nav_query_text(name@)) {
            (Some(q), Some(t)) => q@ == t,
            (None, None) => true,
            _ => false,
        },
{
    let s = chars_of(name);
    let a = skip_space_exec(&s, 0);
    let b = skip_word_exec(&s, a);
    let c = skip_space_exec(&s, b);
    let d = skip_word_exec(&s, c);
    proof {
        lemma_skip_space_bounds(s@, 0);
        lemma_skip_word_bounds(s@, a as int);
        lemma_skip_space_bounds(s@, b as int);
        lemma_skip_word_bounds(s@, c as int);
    }
    let mut w: Vec<char> = Vec::new();
    if a < s.len() {
        push_range(&mut w, &s, a, b);
        if c < s.len() {
            w.push(' ');
            push_range(&mut w, &s, c, d);
        }
    }
    assert(w@ =~= two_words(s@));
    let q = if w.len() == 0 { first_chars_exec(&s, 15) } else { first_chars_exec(&w, 15) };
    if q.len() == 0 {
        None
    } else {
        Some(string_from_chars(&q))
    }
}

/// How a flag reads when it comes as text: "1", "true" or "TRUE" are true,
/// "0", "false" or "FALSE" false, anything else unknown.
pub fn text_flag(s: &str) -> (r: Option<bool>)
    ensures
        r == if s@ == "1"@ || s@ == "true"@ || s@ == "TRUE"@ {
            Some(true)
        } else if s@ == "0"@ || s@ == "false"@ || s@ == "FALSE"@ {
            Some(false)
        } else {
            None::<bool>
        },
{
    if crate::text::str_eq(s, "1") || crate::text::str_eq(s, "true") || crate::text::str_eq(s, "TRUE") {
        Some(true)
    } else if crate::text::str_eq(s, "0") || crate::text::str_eq(s, "false") || crate::text::str_eq(s, "FALSE") {
        Some(false)
    } else {
        None
    }
}

} // verus!

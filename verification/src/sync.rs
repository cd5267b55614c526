//! Two-way sync with a Google Spreadsheet: what is pushed, how pushed
//! transactions are marked, and how rows fetched from the sheet are merged.
//! The network exchange itself happens outside the library.

use vstd::prelude::*;
use crate::db::{LedgerView, Store, account_ids, category_ids, find_index, pocket_ids, transaction_ids};
use crate::models::{Account, AccountType, Category, SavingsPocket, SyncStatus, Transaction, TxType};
use crate::listing::{account_order_key, category_order_key, is_tx_listing, pocket_order_key};
use crate::order::sorted_rows;
use crate::text::{chars_of, int_text, is_blank, string_from_chars};

verus! {

broadcast use vstd::string::group_string_axioms;

/// The outcome of a push.
#[derive(Debug, Clone)]
pub struct SyncResult {
    pub success: bool,
    pub message: String,
    pub pushed: u32,
}

/// One cell of a fetched sheet row: a JSON number (as a 64-bit integer when it
/// is one), a text, or anything else (missing, null, a boolean, ...).
#[derive(Debug, Clone)]
pub enum SheetCell {
    Number(Option<i64>),
    Text(String),
    Other,
}

/// Whether `c` is an ASCII decimal digit.
pub open spec fn is_digit(c: char) -> bool {
    48 <= (c as u32) <= 57
}

/// The value of a run of decimal digits.
pub open spec fn digits_value(s: Seq<char>) -> int
    decreases s.len(),
{
    if s.len() == 0 {
        0
    } else {
        digits_value(s.drop_last()) * 10 + ((s.last() as u32) - 48)
    }
}

/// Every character of `s` is a decimal digit.
pub open spec fn all_digits(s: Seq<char>) -> bool {
    forall|i: int| 0 <= i < s.len() ==> is_digit(#[trigger] s[i])
}

/// What `str::parse::<i64>` gives: an optional `+` or `-`, then one or more
/// decimal digits and nothing else, whose value fits in 64 bits.
pub open spec fn parse_int(s: Seq<char>) -> Option<i64> {
    let signed = s.len() > 0 && (s[0] == '-' || s[0] == '+');
    let body = if signed { s.drop_first() } else { s };
    let v = if s.len() > 0 && s[0] == '-' { -digits_value(body) } else { digits_value(body) };
    if body.len() == 0 || !all_digits(body) {
        None
    } else if i64::MIN <= v <= i64::MAX {
        Some(v as i64)
    } else {
        None
    }
}

proof fn lemma_digits_step(s: Seq<char>, k: int)
    requires
        0 <= k < s.len(),
        forall|i: int| 0 <= i < s.len() ==> is_digit(#[trigger] s[i]),
    ensures
        digits_value(s.take(k + 1)) == digits_value(s.take(k)) * 10 + ((s[k] as u32) - 48),
{
    assert(s.take(k + 1).drop_last() =~= s.take(k));
}

proof fn lemma_digits_nonneg(s: Seq<char>)
    requires
        forall|i: int| 0 <= i < s.len() ==> is_digit(#[trigger] s[i]),
    ensures
        digits_value(s) >= 0,
    decreases s.len(),
{
    if s.len() > 0 {
        let p = s.drop_last();
        assert forall|i: int| 0 <= i < p.len() implies is_digit(#[trigger] p[i]) by {
            assert(p[i] == s[i]);
        }
        lemma_digits_nonneg(p);
        assert(is_digit(s[s.len() - 1]));
    }
}

/// Parses `s` as `str::parse::<i64>` does.
pub fn parse_int_exec(s: &str) -> (r: Option<i64>)
    ensures
        r == parse_int(s@),
{
    let cs = chars_of(s);
    let n = cs.len();
    let signed = n > 0 && (cs[0] == '-' || cs[0] == '+');
    let neg = n > 0 && cs[0] == '-';
    let start: usize = if signed { 1 } else { 0 };
    let ghost body = if signed { cs@.drop_first() } else { cs@ };
    assert(body =~= cs@.skip(start as int));
    if start == n {
        return None;
    }
    let limit: i128 = 0x8000_0000_0000_0000;
    let mut acc: i128 = 0;
    let mut big = false;
    let mut i: usize = start;
    while i < n
        invariant
            start <= i <= n,
            n == cs.len(),
            cs@ == s@,
            signed == (n > 0 && (cs@[0] == '-' || cs@[0] == '+')),
            neg == (n > 0 && cs@[0] == '-'),
            start == if signed { 1usize } else { 0usize },
            body == if signed { cs@.drop_first() } else { cs@ },
            body == cs@.skip(start as int),
            forall|k: int| 0 <= k < i - start ==> is_digit(#[trigger] body[k]),
            !big ==> acc == digits_value(body.take(i - start)) && 0 <= acc <= limit,
            big ==> digits_value(body.take(i - start)) > limit,
            limit == 0x8000_0000_0000_0000,
        decreases n - i,
    {
        let c = cs[i];
        let u = c as u32;
        assert(body[i - start] == c);
        if u < 48 || u > 57 {
            assert(!is_digit(body[i - start]));
            return None;
        }
        let ghost k = i - start;
        proof {
            let b = body.take(k + 1);
            assert forall|q: int| 0 <= q < b.len() implies is_digit(#[trigger] b[q]) by {
                assert(b[q] == body[q]);
            }
            lemma_digits_step(b, k);
            assert(b.take(k + 1) =~= b);
            assert(b.take(k) =~= body.take(k));
            let p = body.take(k);
            assert forall|q: int| 0 <= q < p.len() implies is_digit(#[trigger] p[q]) by {
                assert(p[q] == body[q]);
            }
            lemma_digits_nonneg(p);
        }
        if !big {
            let nv: i128 = acc * 10 + (u - 48) as i128;
            if nv > limit {
                big = true;
            } else {
                acc = nv;
            }
        } else {
            proof {
                let x = digits_value(body.take(k));
                let d = (u - 48) as int;
                assert(x * 10 + d >= x) by (nonlinear_arith)
                    requires
                        x >= 0,
                        d >= 0,
                ;
            }
        }
        i += 1;
    }
    assert(body.take(n - start) =~= body);
    if big {
        return None;
    }
    let v: i128 = if neg { -acc } else { acc };
    if v < i64::MIN as i128 || v > i64::MAX as i128 {
        None
    } else {
        Some(v as i64)
    }
}

/// `s` without its commas.
pub open spec fn strip_commas(s: Seq<char>) -> Seq<char> {
    s.filter(|c: char| c != ',')
}

/// The integer a sheet cell stands for: a JSON integer as it is; a text with its
/// commas removed and parsed; zero for anything else or a text that does not parse.
pub open spec fn sheet_int_value(cell: SheetCell) -> i64 {
    match cell {
        SheetCell::Number(n) => match n { Some(x) => x, None => 0 },
        SheetCell::Text(s) => match parse_int(strip_commas(s@)) { Some(x) => x, None => 0 },
        SheetCell::Other => 0,
    }
}

/// Reads a sheet cell as an integer, tolerating thousands separators in text cells.
pub fn sheet_int(cell: &SheetCell) -> (r: i64)
    ensures
        r == sheet_int_value(*cell),
{
    match cell {
        SheetCell::Number(n) => match n { Some(x) => *x, None => 0 },
        SheetCell::Text(s) => {
            let cs = chars_of(s.as_str());
            let mut kept: Vec<char> = Vec::new();
            let mut i: usize = 0;
            while i < cs.len()
                invariant
                    i <= cs.len(),
                    cs@ == s@,
                    kept@ == strip_commas(cs@.take(i as int)),
                decreases cs.len() - i,
            {
                proof {
                    let t = cs@.take(i + 1);
                    assert(t.drop_last() =~= cs@.take(i as int));
                    cs@.take(i as int).lemma_filter_push(cs@[i as int], |c: char| c != ',');
                    assert(cs@.take(i as int).push(cs@[i as int]) =~= t);
                }
                if cs[i] != ',' {
                    kept.push(cs[i]);
                }
                i += 1;
            }
            assert(cs@.take(cs.len() as int) =~= cs@);
            let t = string_from_chars(&kept);
            match parse_int_exec(t.as_str()) {
                Some(x) => x,
                None => 0,
            }
        },
        SheetCell::Other => 0,
    }
}

/// The URL that asks the sheet for its data: `action=fetch` added as the first
/// or a further query parameter.
pub open spec fn fetch_url_text(url: Seq<char>) -> Seq<char> {
    if url.contains('?') { url + "&action=fetch"@ } else { url + "?action=fetch"@ }
}

/// Builds `fetch_url_text(url)`.
pub fn fetch_url(url: &str) -> (r: String)
    ensures
        r@ == fetch_url_text(url@),
{
    let mut v: Vec<char> = Vec::new();
    crate::text::push_all(&mut v, url);
    if crate::text::has_char(url, '?') {
        crate::text::push_all(&mut v, "&action=fetch");
    } else {
        crate::text::push_all(&mut v, "?action=fetch");
    }
    string_from_chars(&v)
}

/// Refuses an empty spreadsheet URL before a push or a fetch.
pub fn require_sheet_url(url: &str) -> (r: Result<(), String>)
    ensures
        url@.len() == 0 ==> (r matches Err(e) && e@ == "URL Google Spreadsheet belum diatur"@),
        url@.len() > 0 ==> r is Ok,
{
    if crate::text::chars_of(url).len() == 0 {
        Err(crate::text::copy_str("URL Google Spreadsheet belum diatur"))
    } else {
        Ok(())
    }
}

/// Refuses an empty URL before a connection test.
pub fn require_test_url(url: &str) -> (r: Result<(), String>)
    ensures
        url@.len() == 0 ==> (r matches Err(e) && e@ == "URL kosong"@),
        url@.len() > 0 ==> r is Ok,
{
    if crate::text::chars_of(url).len() == 0 {
        Err(crate::text::copy_str("URL kosong"))
    } else {
        Ok(())
    }
}

/// The URL a connection test goes to: the given one, or the saved one (empty
/// when none is saved) when the given one is blank.
pub fn sync_target(url: String, saved: &Option<String>) -> (r: String)
    ensures
        is_blank(url@) ==> r@ == match saved { Some(s) => s@, None => Seq::<char>::empty() },
        !is_blank(url@) ==> r == url,
{
    if crate::text::blank(url.as_str()) {
        match saved {
            Some(s) => s.clone(),
            None => String::new(),
        }
    } else {
        url
    }
}

/// The answer to a connection test, from whether the sheet answered with
/// success and the text of its HTTP status (such as `200 OK`).
pub fn connection_message(success: bool, status: &str) -> (r: Result<String, String>)
    ensures
        success ==> (r matches Ok(m) && m@ == "Koneksi OK ("@ + status@ + "). Sheet dapat dijangkau."@),
        !success ==> (r matches Err(m) && m@ == "Sheet merespons "@ + status@ + " – periksa URL / izin akses."@),
{
    let mut v: Vec<char> = Vec::new();
    if success {
        crate::text::push_all(&mut v, "Koneksi OK (");
        crate::text::push_all(&mut v, status);
        crate::text::push_all(&mut v, "). Sheet dapat dijangkau.");
        Ok(string_from_chars(&v))
    } else {
        crate::text::push_all(&mut v, "Sheet merespons ");
        crate::text::push_all(&mut v, status);
        crate::text::push_all(&mut v, " – periksa URL / izin akses.");
        Err(string_from_chars(&v))
    }
}


/// What a push sends: the transactions not yet synced and the whole reference
/// tables, each in its listing order.
#[derive(Debug, Clone)]
pub struct PushPayload {
    pub transactions: Vec<Transaction>,
    pub accounts: Vec<Account>,
    pub savings: Vec<SavingsPocket>,
    pub categories: Vec<Category>,
}

/// Whether a transaction is sent by a push: any that is not synced yet.
pub open spec fn is_pushed(t: Transaction) -> bool {
    t.sync_status != SyncStatus::Synced
}

/// The transactions of `s` that a push sends, in order.
pub open spec fn unsynced_only(s: Seq<Transaction>) -> Seq<Transaction> {
    s.filter(|t: Transaction| is_pushed(t))
}

/// `out` is the unsynced transactions of `txs`, newest first.
pub open spec fn pushed_transactions(txs: Seq<Transaction>, out: Seq<Transaction>) -> bool {
    exists|all: Seq<Transaction>|
        is_tx_listing(txs, None, None, None, None, None, None, None, None, all)
            && out == #[trigger] unsynced_only(all)
}

/// Gathers what a push sends.
pub fn push_payload(store: &Store) -> (p: PushPayload)
    ensures
        pushed_transactions(store@.transactions, p.transactions@),
        sorted_rows(store@.accounts, |a: Account| account_order_key(a), p.accounts@),
        sorted_rows(store@.pockets, |q: SavingsPocket| pocket_order_key(q), p.savings@),
        sorted_rows(store@.categories, |c: Category| category_order_key(c), p.categories@),
{
    let all = match crate::listing::transactions_all(store, None, None, None, None, None, None, None, None) {
        Ok(v) => v,
        Err(e) => Vec::new(),
    };
    let mut txs: Vec<Transaction> = Vec::new();
    let mut i: usize = 0;
    while i < all.len()
        invariant
            i <= all.len(),
            txs@ == all@.take(i as int).filter(|t: Transaction| is_pushed(t)),
        decreases all.len() - i,
    {
        proof {
            all@.take(i as int).lemma_filter_push(all@[i as int], |t: Transaction| is_pushed(t));
            assert(all@.take(i as int).push(all@[i as int]) =~= all@.take(i + 1));
        }
        if all[i].sync_status != SyncStatus::Synced {
            txs.push(all[i].duplicate());
        }
        i += 1;
    }
    assert(all@.take(all.len() as int) =~= all@);
    assert(unsynced_only(all@) == txs@);
    let accounts = match crate::listing::accounts_all(store) { Ok(v) => v, Err(e) => Vec::new() };
    let savings = match crate::listing::pockets_all(store) { Ok(v) => v, Err(e) => Vec::new() };
    let categories = match crate::listing::categories_all(store) { Ok(v) => v, Err(e) => Vec::new() };
    PushPayload { transactions: txs, accounts, savings, categories }
}

/// Whether a push has nothing to send.
pub open spec fn push_is_empty(p: PushPayload) -> bool {
    p.transactions@.len() == 0 && p.accounts@.len() == 0 && p.savings@.len() == 0 && p.categories@.len() == 0
}

/// The outcome of a push that has nothing to send, when that is the case:
/// success, with nothing pushed.
pub fn push_without_sending(p: &PushPayload) -> (r: Option<SyncResult>)
    ensures
        push_is_empty(*p) ==> (r matches Some(s) && s.success && s.pushed == 0
            && s.message@ == "Tidak ada data yang perlu disinkronisasi"@),
        !push_is_empty(*p) ==> r is None,
{
    if p.transactions.len() == 0 && p.accounts.len() == 0 && p.savings.len() == 0 && p.categories.len() == 0 {
        Some(SyncResult {
            success: true,
            message: crate::text::copy_str("Tidak ada data yang perlu disinkronisasi"),
            pushed: 0,
        })
    } else {
        None
    }
}

/// The outcome of a push whose transactions the sheet accepted: success, with
/// the number of transactions sent (taken modulo 2^32).
pub fn push_succeeded(p: &PushPayload) -> (r: SyncResult)
    ensures
        r.success,
        r.pushed == p.transactions@.len() as u32,
        r.message@ == int_text(r.pushed as int) + " transaksi berhasil dikirim"@,
{
    let count: u32 = p.transactions.len() as u32;
    let mut v: Vec<char> = Vec::new();
    crate::text::push_all(&mut v, crate::text::int_to_text(count as i64).as_str());
    crate::text::push_all(&mut v, " transaksi berhasil dikirim");
    SyncResult { success: true, message: string_from_chars(&v), pushed: count }
}


/// An account row fetched from the sheet.
#[derive(Debug, Clone)]
pub struct SheetAccount {
    pub id: String,
    pub name: String,
    pub account_type: String,
    pub balance: SheetCell,
    pub is_active: bool,
}

/// A category row fetched from the sheet.
#[derive(Debug, Clone)]
pub struct SheetCategory {
    pub id: String,
    pub name: String,
    pub category_type: String,
    pub icon: String,
    pub color: String,
}

/// A savings pocket row fetched from the sheet.
#[derive(Debug, Clone)]
pub struct SheetSaving {
    pub id: String,
    pub name: String,
    pub target_amount: SheetCell,
    pub current_amount: SheetCell,
    pub linked_account_id: String,
}

/// A transaction row fetched from the sheet.
#[derive(Debug, Clone)]
pub struct SheetTransaction {
    pub id: String,
    pub account_id: String,
    pub destination_account_id: Option<String>,
    pub category_id: String,
    pub amount: i64,
    pub tx_type: String,
    pub date: i64,
    pub note: String,
}

/// Everything a fetch brought back, table by table.
#[derive(Debug, Clone)]
pub struct SheetData {
    pub accounts: Vec<SheetAccount>,
    pub categories: Vec<SheetCategory>,
    pub savings: Vec<SheetSaving>,
    pub transactions: Vec<SheetTransaction>,
}

/// The accounts after merging sheet rows at time `now`: a row without an id
/// is passed over; a known account takes the row's name, type, balance and
/// active flag; an unknown one is added. The type text is read as
/// `AccountType::parse` reads it.
pub open spec fn merged_accounts(accs: Seq<Account>, rows: Seq<SheetAccount>, now: i64) -> Seq<Account>
    decreases rows.len(),
{
    if rows.len() == 0 {
        accs
    } else {
        let prev = merged_accounts(accs, rows.drop_last(), now);
        let s = rows.last();
        let kind = AccountType::parse(s.account_type@);
        let balance = sheet_int_value(s.balance);
        if s.id@.len() == 0 {
            prev
        } else {
            match find_index(account_ids(prev), s.id@) {
                Some(k) => prev.update(k, Account {
                    name: s.name,
                    account_type: kind,
                    current_balance: balance,
                    is_active: s.is_active,
                    updated_at: now,
                    ..prev[k]
                }),
                None => prev.push(Account {
                    id: s.id,
                    name: s.name,
                    account_type: kind,
                    account_number: None,
                    current_balance: balance,
                    is_active: s.is_active,
                    created_at: now,
                    updated_at: now,
                }),
            }
        }
    }
}

/// Merges fetched account rows at time `now`.
pub fn merge_accounts(store: &mut Store, rows: &Vec<SheetAccount>, now: i64)
    requires
        old(store)@.wf(),
    ensures
        final(store)@.wf(),
        final(store)@ == (LedgerView { accounts: merged_accounts(old(store)@.accounts, rows@, now), ..old(store)@ }),
{
    let mut i: usize = 0;
    while i < rows.len()
        invariant
            i <= rows.len(),
            store@.wf(),
            store@ == (LedgerView { accounts: merged_accounts(old(store)@.accounts, rows@.take(i as int), now), ..old(store)@ }),
        decreases rows.len() - i,
    {
        assert(rows@.take(i + 1).drop_last() =~= rows@.take(i as int));
        assert(rows@.take(i + 1).last() == rows@[i as int]);
        let s = &rows[i];
        if chars_of(s.id.as_str()).len() > 0 {
            let kind = AccountType::from_str(s.account_type.as_str());
            let balance = sheet_int(&s.balance);
            match store.find_account(s.id.as_str()) {
                Some(k) => {
                    proof { crate::db::lemma_find_index_at(account_ids(store@.accounts), k as int); }
                    let mut a = store.find_account_row(k);
                    a.name = s.name.clone();
                    a.account_type = kind;
                    a.current_balance = balance;
                    a.is_active = s.is_active;
                    a.updated_at = now;
                    let r = crate::db::accounts_update(store, &a);
                },
                None => {
                    proof { crate::db::lemma_find_index_absent(account_ids(store@.accounts), s.id@); }
                    let a = Account {
                        id: s.id.clone(),
                        name: s.name.clone(),
                        account_type: kind,
                        account_number: None,
                        current_balance: balance,
                        is_active: s.is_active,
                        created_at: now,
                        updated_at: now,
                    };
                    let r = crate::db::accounts_insert(store, &a);
                },
            }
        }
        i += 1;
    }
    assert(rows@.take(rows.len() as int) =~= rows@);
}

/// The categories after merging sheet rows: a row without an id is passed
/// over; a known category takes every column of the row; an unknown one is added.
/// The type text is read as `TxType::parse` reads it.
pub open spec fn merged_categories(cats: Seq<Category>, rows: Seq<SheetCategory>) -> Seq<Category>
    decreases rows.len(),
{
    if rows.len() == 0 {
        cats
    } else {
        let prev = merged_categories(cats, rows.drop_last());
        let s = rows.last();
        let c = Category {
            id: s.id,
            name: s.name,
            category_type: TxType::parse(s.category_type@),
            icon: s.icon,
            color_hex: s.color,
        };
        if s.id@.len() == 0 {
            prev
        } else {
            match find_index(category_ids(prev), s.id@) {
                Some(k) => prev.update(k, c),
                None => prev.push(c),
            }
        }
    }
}

/// Merges fetched category rows.
pub fn merge_categories(store: &mut Store, rows: &Vec<SheetCategory>)
    requires
        old(store)@.wf(),
    ensures
        final(store)@.wf(),
        final(store)@ == (LedgerView { categories: merged_categories(old(store)@.categories, rows@), ..old(store)@ }),
{
    let mut i: usize = 0;
    while i < rows.len()
        invariant
            i <= rows.len(),
            store@.wf(),
            store@ == (LedgerView { categories: merged_categories(old(store)@.categories, rows@.take(i as int)), ..old(store)@ }),
        decreases rows.len() - i,
    {
        assert(rows@.take(i + 1).drop_last() =~= rows@.take(i as int));
        assert(rows@.take(i + 1).last() == rows@[i as int]);
        let s = &rows[i];
        if chars_of(s.id.as_str()).len() > 0 {
            let c = Category {
                id: s.id.clone(),
                name: s.name.clone(),
                category_type: TxType::from_str(s.category_type.as_str()),
                icon: s.icon.clone(),
                color_hex: s.color.clone(),
            };
            match store.find_category(s.id.as_str()) {
                Some(k) => {
                    proof { crate::db::lemma_find_index_at(category_ids(store@.categories), k as int); }
                    let r = crate::db::categories_update(store, &c);
                },
                None => {
                    proof { crate::db::lemma_find_index_absent(category_ids(store@.categories), s.id@); }
                    let r = crate::db::categories_insert(store, &c);
                },
            }
        }
        i += 1;
    }
    assert(rows@.take(rows.len() as int) =~= rows@);
}

/// The pockets after merging sheet rows, given the accounts: a row without an
/// id or a linked account is passed over, and so is one whose linked account
/// does not exist; a known pocket takes the row's name, amounts and account;
/// an unknown one is added, unlocked, with no target date and the colour `color`.
pub open spec fn merged_pockets(ps: Seq<SavingsPocket>, accs: Seq<Account>, rows: Seq<SheetSaving>, color: String) -> Seq<SavingsPocket>
    decreases rows.len(),
{
    if rows.len() == 0 {
        ps
    } else {
        let prev = merged_pockets(ps, accs, rows.drop_last(), color);
        let s = rows.last();
        let target = sheet_int_value(s.target_amount);
        let current = sheet_int_value(s.current_amount);
        if s.id@.len() == 0 || s.linked_account_id@.len() == 0 || !account_ids(accs).contains(s.linked_account_id@) {
            prev
        } else {
            match find_index(pocket_ids(prev), s.id@) {
                Some(k) => prev.update(k, SavingsPocket {
                    name: s.name,
                    target_amount: target,
                    current_amount: current,
                    linked_account_id: s.linked_account_id,
                    ..prev[k]
                }),
                None => prev.push(SavingsPocket {
                    id: s.id,
                    name: s.name,
                    target_amount: target,
                    current_amount: current,
                    linked_account_id: s.linked_account_id,
                    target_date: None,
                    color_tag: color,
                    is_locked: false,
                }),
            }
        }
    }
}

/// Merges fetched savings pocket rows.
pub fn merge_savings(store: &mut Store, rows: &Vec<SheetSaving>)
    requires
        old(store)@.wf(),
    ensures
        final(store)@.wf(),
        exists|color: String| color@ == "#10b981"@ && final(store)@ == (LedgerView {
            pockets: #[trigger] merged_pockets(old(store)@.pockets, old(store)@.accounts, rows@, color),
            ..old(store)@
        }),
{
    let color = crate::text::copy_str("#10b981");
    let mut i: usize = 0;
    while i < rows.len()
        invariant
            i <= rows.len(),
            store@.wf(),
            color@ == "#10b981"@,
            store@ == (LedgerView {
                pockets: merged_pockets(old(store)@.pockets, old(store)@.accounts, rows@.take(i as int), color),
                ..old(store)@
            }),
        decreases rows.len() - i,
    {
        assert(rows@.take(i + 1).drop_last() =~= rows@.take(i as int));
        assert(rows@.take(i + 1).last() == rows@[i as int]);
        let s = &rows[i];
        if chars_of(s.id.as_str()).len() > 0 && chars_of(s.linked_account_id.as_str()).len() > 0 {
            let target = sheet_int(&s.target_amount);
            let current = sheet_int(&s.current_amount);
            match store.find_pocket(s.id.as_str()) {
                Some(k) => {
                    proof { crate::db::lemma_find_index_at(pocket_ids(store@.pockets), k as int); }
                    let mut p = store.find_pocket_row(k);
                    p.name = s.name.clone();
                    p.target_amount = target;
                    p.current_amount = current;
                    p.linked_account_id = s.linked_account_id.clone();
                    let r = crate::db::pockets_update(store, &p);
                },
                None => {
                    proof { crate::db::lemma_find_index_absent(pocket_ids(store@.pockets), s.id@); }
                    let p = SavingsPocket {
                        id: s.id.clone(),
                        name: s.name.clone(),
                        target_amount: target,
                        current_amount: current,
                        linked_account_id: s.linked_account_id.clone(),
                        target_date: None,
                        color_tag: color.clone(),
                        is_locked: false,
                    };
                    let r = crate::db::pockets_insert(store, &p);
                },
            }
        }
        i += 1;
    }
    assert(rows@.take(rows.len() as int) =~= rows@);
}

/// The transaction a fetched row stands for, marked synced; a missing
/// destination is stored as the empty text `empty`. The row's type text is
/// read as `TxType::parse` reads it, so text that names no type is kept as an
/// expense.
pub open spec fn sheet_transaction(s: SheetTransaction, empty: String) -> Transaction {
    Transaction {
        id: s.id,
        account_id: s.account_id,
        destination_account_id: Some(match s.destination_account_id { Some(d) => d, None => empty }),
        category_id: s.category_id,
        amount: s.amount,
        transaction_type: TxType::parse(s.tx_type@),
        date: s.date,
        note: s.note,
        receipt_url: None,
        sync_status: SyncStatus::Synced,
        sheet_row_id: None,
    }
}

/// The transactions after merging sheet rows, given the accounts and the
/// categories: only new ids are added, never an existing transaction changed;
/// a row without an id, an account or a category is passed over, and so is one
/// whose account or category does not exist. Balances are not touched.
pub open spec fn merged_transactions(txs: Seq<Transaction>, accs: Seq<Account>, cats: Seq<Category>, rows: Seq<SheetTransaction>, empty: String) -> Seq<Transaction>
    decreases rows.len(),
{
    if rows.len() == 0 {
        txs
    } else {
        let prev = merged_transactions(txs, accs, cats, rows.drop_last(), empty);
        let s = rows.last();
        if s.id@.len() == 0 || transaction_ids(prev).contains(s.id@) || s.account_id@.len() == 0
            || s.category_id@.len() == 0 || !account_ids(accs).contains(s.account_id@)
            || !category_ids(cats).contains(s.category_id@) {
            prev
        } else {
            prev.push(sheet_transaction(s, empty))
        }
    }
}

/// Merges fetched transaction rows.
pub fn merge_transactions(store: &mut Store, rows: &Vec<SheetTransaction>)
    requires
        old(store)@.wf(),
    ensures
        final(store)@.wf(),
        exists|empty: String| empty@.len() == 0 && final(store)@ == (LedgerView {
            transactions: #[trigger] merged_transactions(old(store)@.transactions, old(store)@.accounts, old(store)@.categories, rows@, empty),
            ..old(store)@
        }),
{
    let empty = String::new();
    let mut i: usize = 0;
    while i < rows.len()
        invariant
            i <= rows.len(),
            store@.wf(),
            empty@.len() == 0,
            store@ == (LedgerView {
                transactions: merged_transactions(old(store)@.transactions, old(store)@.accounts, old(store)@.categories, rows@.take(i as int), empty),
                ..old(store)@
            }),
        decreases rows.len() - i,
    {
        assert(rows@.take(i + 1).drop_last() =~= rows@.take(i as int));
        assert(rows@.take(i + 1).last() == rows@[i as int]);
        let s = &rows[i];
        if chars_of(s.id.as_str()).len() > 0 && chars_of(s.account_id.as_str()).len() > 0
            && chars_of(s.category_id.as_str()).len() > 0 {
            let t = Transaction {
                id: s.id.clone(),
                account_id: s.account_id.clone(),
                destination_account_id: Some(match &s.destination_account_id { Some(d) => d.clone(), None => empty.clone() }),
                category_id: s.category_id.clone(),
                amount: s.amount,
                transaction_type: TxType::from_str(s.tx_type.as_str()),
                date: s.date,
                note: s.note.clone(),
                receipt_url: None,
                sync_status: SyncStatus::Synced,
                sheet_row_id: None,
            };
            assert(t == sheet_transaction(*s, empty));
            let r = crate::db::transactions_insert(store, &t);
        }
        i += 1;
    }
    assert(rows@.take(rows.len() as int) =~= rows@);
}

/// The ledger after merging `data` at time `now`: accounts first, then
/// categories, then pockets (against the merged accounts), then transactions
/// (against the merged accounts and categories).
pub open spec fn merged_ledger(v: LedgerView, data: SheetData, now: i64, color: String, empty: String) -> LedgerView {
    let accs = merged_accounts(v.accounts, data.accounts@, now);
    let cats = merged_categories(v.categories, data.categories@);
    LedgerView {
        accounts: accs,
        categories: cats,
        pockets: merged_pockets(v.pockets, accs, data.savings@, color),
        transactions: merged_transactions(v.transactions, accs, cats, data.transactions@, empty),
        ..v
    }
}

/// Merges everything a fetch brought back at time `now`: accounts first, then
/// categories, then pockets, so that the references of the rows that follow
/// can be met; then the transactions.
pub fn merge_sheet_at(store: &mut Store, data: &SheetData, now: i64)
    requires
        old(store)@.wf(),
    ensures
        final(store)@.wf(),
        exists|color: String, empty: String|
            color@ == "#10b981"@ && empty@.len() == 0
                && final(store)@ == #[trigger] merged_ledger(old(store)@, *data, now, color, empty),
{
    let ghost v = store@;
    merge_accounts(store, &data.accounts, now);
    merge_categories(store, &data.categories);
    let ghost v2 = store@;
    merge_savings(store, &data.savings);
    let ghost v3 = store@;
    let ghost color = choose|c: String| c@ == "#10b981"@ && v3 == (LedgerView {
        pockets: #[trigger] merged_pockets(v2.pockets, v2.accounts, data.savings@, c),
        ..v2
    });
    merge_transactions(store, &data.transactions);
    let ghost empty = choose|e: String| e@.len() == 0 && store@ == (LedgerView {
        transactions: #[trigger] merged_transactions(v3.transactions, v3.accounts, v3.categories, data.transactions@, e),
        ..v3
    });
    assert(store@ == merged_ledger(v, *data, now, color, empty));
}

/// Merges everything a fetch brought back, now.
pub fn merge_sheet(store: &mut Store, data: &SheetData)
    requires
        old(store)@.wf(),
    ensures
        final(store)@.wf(),
        exists|now: i64, color: String, empty: String|
            color@ == "#10b981"@ && empty@.len() == 0
                && final(store)@ == #[trigger] merged_ledger(old(store)@, *data, now, color, empty),
{
    let now = crate::outside::now_ts();
    merge_sheet_at(store, data, now);
    assert(exists|color: String, empty: String|
        color@ == "#10b981"@ && empty@.len() == 0
            && store@ == #[trigger] merged_ledger(old(store)@, *data, now, color, empty));
}

/// After a push the sheet accepted: every pending or failed transaction whose
/// content is among the rows `sent` is synced; every other one, such as a row
/// written or changed while the push was under way, stays as it was.
pub fn mark_pushed(store: &mut Store, sent: &Vec<Transaction>) -> (r: Result<(), String>)
    requires
        old(store)@.wf(),
    ensures
        final(store)@.wf(),
        r is Ok,
        final(store)@ == (LedgerView {
            transactions: old(store)@.transactions.map_values(|t: Transaction| crate::db::marked_if_sent(t, sent@)),
            ..old(store)@
        }),
{
    crate::db::mark_synced(store, sent)
}

} // verus!

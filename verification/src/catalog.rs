//! The cached mutual fund catalogue: search by name or manager, and the
//! listings of products and investment transactions.

use vstd::prelude::*;
use crate::db::Store;
use crate::models::{InvestmentTransaction, MutualFundProduct};
use crate::order::{arranged, is_stable_order, sorted_rows, stable_order, text_key};
use crate::text::{chars_of, fold_ascii, fold_ascii_exec, is_blank, like, like_match, trimmed};
use crate::listing::{limited, text_key_of};

verus! {

broadcast use vstd::string::group_string_axioms;

/// `a` and `b` are the same text when ASCII letters are folded to lower case.
pub open spec fn same_folded(a: Seq<char>, b: Seq<char>) -> bool {
    a.len() == b.len() && forall|k: int| 0 <= k < a.len() ==> fold_ascii(#[trigger] a[k]) == fold_ascii(b[k])
}

/// `needle` occurs in `hay`, ASCII letters folded to lower case: what a quoted
/// phrase of three or more characters matches in a trigram index.
pub open spec fn contains_folded(hay: Seq<char>, needle: Seq<char>) -> bool {
    exists|i: int| 0 <= i && i + needle.len() <= hay.len() && #[trigger] same_folded(hay.subrange(i, i + needle.len()), needle)
}

/// The text with `\`, `%` and `_` escaped by a backslash, so that `LIKE ... ESCAPE '\'`
/// takes it literally.
pub open spec fn escape_like(t: Seq<char>) -> Seq<char>
    decreases t.len(),
{
    if t.len() == 0 {
        seq![]
    } else {
        let c = t.last();
        escape_like(t.drop_last()) + if c == '\\' || c == '%' || c == '_' { seq!['\\', c] } else { seq![c] }
    }
}

/// The `LIKE` pattern of a short query: the escaped text anywhere.
pub open spec fn like_pattern(t: Seq<char>) -> Seq<char> {
    seq!['%'] + escape_like(t) + seq!['%']
}

/// Whether product `p` answers `query` within `fund_type`. A blank query takes
/// every product; three or more characters (after trimming) match as one
/// phrase inside the name or the manager's name; one or two characters match
/// as a literal `LIKE` substring there.
pub open spec fn product_hit(p: MutualFundProduct, query: Seq<char>, fund_type: Option<Seq<char>>) -> bool {
    let t = trimmed(query);
    &&& (fund_type matches Some(f) ==> p.fund_type@ == f)
    &&& if t.len() == 0 {
        true
    } else if t.len() >= 3 {
        contains_folded(p.name@, t) || contains_folded(p.manager_name@, t)
    } else {
        like(p.name@, like_pattern(t), Some('\\')) || like(p.manager_name@, like_pattern(t), Some('\\'))
    }
}

/// The products that answer the query, in table order.
pub open spec fn select_products(s: Seq<MutualFundProduct>, query: Seq<char>, fund_type: Option<Seq<char>>) -> Seq<MutualFundProduct>
    decreases s.len(),
{
    if s.len() == 0 {
        seq![]
    } else {
        let rest = select_products(s.drop_last(), query, fund_type);
        if product_hit(s.last(), query, fund_type) { rest.push(s.last()) } else { rest }
    }
}

/// Products are listed by name.
pub open spec fn product_order_key(p: MutualFundProduct) -> Seq<i128> {
    text_key(p.name@)
}

/// How many hits a search gives at most: five defaults for a blank query,
/// fifty otherwise.
pub open spec fn search_limit(query: Seq<char>) -> i64 {
    if is_blank(query) { 5 } else { 50 }
}

/// `out` is what a search of `products` gives: the hits by name, cut to the limit.
pub open spec fn is_search_result(products: Seq<MutualFundProduct>, query: Seq<char>, fund_type: Option<Seq<char>>, out: Seq<MutualFundProduct>) -> bool {
    exists|all: Seq<MutualFundProduct>|
        sorted_rows(select_products(products, query, fund_type), |p: MutualFundProduct| product_order_key(p), all)
            && out == #[trigger] limited(all, search_limit(query))
}

/// Decides `same_folded(hay[i..i + needle.len()], needle)`.
fn folded_at(hay: &Vec<char>, needle: &Vec<char>, i: usize) -> (r: bool)
    requires
        i + needle.len() <= hay.len(),
    ensures
        r == same_folded(hay@.subrange(i as int, i + needle.len()), needle@),
{
    let mut k: usize = 0;
    while k < needle.len()
        invariant
            i + needle.len() <= hay.len(),
            k <= needle.len(),
            forall|q: int| 0 <= q < k ==> fold_ascii(hay@[i + q]) == fold_ascii(needle@[q]),
        decreases needle.len() - k,
    {
        if fold_ascii_exec(hay[i + k]) != fold_ascii_exec(needle[k]) {
            assert(hay@.subrange(i as int, i + needle.len())[k as int] == hay@[i + k]);
            return false;
        }
        k += 1;
    }
    assert forall|q: int| 0 <= q < needle.len() implies fold_ascii(#[trigger] hay@.subrange(i as int, i + needle.len())[q]) == fold_ascii(needle@[q]) by {
        assert(hay@.subrange(i as int, i + needle.len())[q] == hay@[i + q]);
    }
    true
}

/// Decides `contains_folded(hay, needle)`.
pub fn contains_folded_exec(hay: &Vec<char>, needle: &Vec<char>) -> (r: bool)
    ensures
        r == contains_folded(hay@, needle@),
{
    if needle.len() > hay.len() {
        return false;
    }
    let last = hay.len() - needle.len();
    let mut i: usize = 0;
    while i <= last
        invariant
            last == hay.len() - needle.len(),
            needle.len() <= hay.len(),
            i <= last + 1,
            forall|q: int| 0 <= q < i ==> !same_folded(#[trigger] hay@.subrange(q, q + needle.len()), needle@),
        decreases last + 1 - i,
    {
        if folded_at(hay, needle, i) {
            return true;
        }
        i += 1;
    }
    false
}

/// Builds `escape_like(t)`.
fn escape_like_exec(t: &Vec<char>) -> (r: Vec<char>)
    ensures
        r@ == escape_like(t@),
{
    let mut out: Vec<char> = Vec::new();
    let mut i: usize = 0;
    while i < t.len()
        invariant
            i <= t.len(),
            out@ == escape_like(t@.take(i as int)),
        decreases t.len() - i,
    {
        let c = t[i];
        assert(t@.take(i + 1).drop_last() =~= t@.take(i as int));
        assert(t@.take(i + 1).last() == c);
        if c == '\\' || c == '%' || c == '_' {
            out.push('\\');
        }
        out.push(c);
        assert(out@ =~= escape_like(t@.take(i + 1)));
        i += 1;
    }
    assert(t@.take(t.len() as int) =~= t@);
    out
}

/// How a trimmed query selects products.
enum Matcher {
    All,
    Phrase(Vec<char>),
    Pattern(Vec<char>),
}

fn matcher_hit(m: &Matcher, p: &MutualFundProduct, fund_type: Option<&str>, Ghost(query): Ghost<Seq<char>>) -> (r: bool)
    requires
        match m {
            Matcher::All => trimmed(query).len() == 0,
            Matcher::Phrase(t) => t@ == trimmed(query) && t@.len() >= 3,
            Matcher::Pattern(q) => trimmed(query).len() > 0 && trimmed(query).len() < 3 && q@ == like_pattern(trimmed(query)),
        },
    ensures
        r == product_hit(*p, query, match fund_type { Some(f) => Some(f@), None => None }),
{
    match fund_type {
        Some(f) => {
            if !crate::text::str_eq(p.fund_type.as_str(), f) {
                return false;
            }
        },
        None => {},
    }
    match m {
        Matcher::All => true,
        Matcher::Phrase(t) => {
            let name = chars_of(p.name.as_str());
            let manager = chars_of(p.manager_name.as_str());
            contains_folded_exec(&name, t) || contains_folded_exec(&manager, t)
        },
        Matcher::Pattern(q) => {
            let name = chars_of(p.name.as_str());
            let manager = chars_of(p.manager_name.as_str());
            like_match(&name, q, Some('\\')) || like_match(&manager, q, Some('\\'))
        },
    }
}

/// Searches the cached catalogue by product or manager name, optionally within
/// one fund type. A blank query gives the first five products by name; a
/// query of three or more characters matches as one phrase anywhere in either
/// name (letters in any case); one or two characters match literally as a
/// substring. At most fifty hits, by name.
pub fn bibit_product_search(store: &Store, query: &str, fund_type: Option<&str>) -> (r: Result<Vec<MutualFundProduct>, String>)
    ensures
        r matches Ok(v) && is_search_result(
            store@.products,
            query@,
            match fund_type { Some(f) => Some(f@), None => None },
            v@,
        ),
{
    let ghost ft = match fund_type { Some(f) => Some(f@), None => None::<Seq<char>> };
    let t = crate::text::trim_text(query);
    let tv = chars_of(t.as_str());
    let limit: i64 = if tv.len() == 0 { 5 } else { 50 };
    let m = if tv.len() == 0 {
        Matcher::All
    } else if tv.len() >= 3 {
        Matcher::Phrase(tv)
    } else {
        let esc = escape_like_exec(&tv);
        let mut q: Vec<char> = Vec::new();
        q.push('%');
        let mut j: usize = 0;
        while j < esc.len()
            invariant
                j <= esc.len(),
                q@ == seq!['%'] + esc@.take(j as int),
            decreases esc.len() - j,
        {
            q.push(esc[j]);
            assert(esc@.take(j + 1) =~= esc@.take(j as int).push(esc@[j as int]));
            j += 1;
        }
        q.push('%');
        assert(esc@.take(esc.len() as int) =~= esc@);
        assert(q@ =~= like_pattern(trimmed(query@)));
        Matcher::Pattern(q)
    };
    let n = store.products_len();
    let ghost rows = store@.products;
    let mut sel: Vec<MutualFundProduct> = Vec::new();
    let mut i: usize = 0;
    while i < n
        invariant
            n == rows.len(),
            rows == store@.products,
            i <= n,
            sel@ == select_products(rows.take(i as int), query@, ft),
            ft == match fund_type { Some(f) => Some(f@), None => None::<Seq<char>> },
            match m {
                Matcher::All => trimmed(query@).len() == 0,
                Matcher::Phrase(t) => t@ == trimmed(query@) && t@.len() >= 3,
                Matcher::Pattern(q) => trimmed(query@).len() > 0 && trimmed(query@).len() < 3 && q@ == like_pattern(trimmed(query@)),
            },
        decreases n - i,
    {
        let p = store.product_row(i);
        assert(rows.take(i + 1).drop_last() =~= rows.take(i as int));
        assert(rows.take(i + 1).last() == rows[i as int]);
        if matcher_hit(&m, &p, fund_type, Ghost(query@)) {
            sel.push(p);
        }
        i += 1;
    }
    assert(rows.take(n as int) =~= rows);
    let ghost sv = sel@;
    let ghost kf = |p: MutualFundProduct| product_order_key(p);
    let mut keys: Vec<Vec<i128>> = Vec::new();
    let mut k: usize = 0;
    while k < sel.len()
        invariant
            sv == sel@,
            k <= sel.len(),
            kf == (|p: MutualFundProduct| product_order_key(p)),
            keys@.map_values(|x: Vec<i128>| x@) == sv.take(k as int).map_values(kf),
        decreases sel.len() - k,
    {
        let key = text_key_of(sel[k].name.as_str());
        proof { crate::order::lemma_keys_push(keys@, sv, kf, k as int, key); }
        keys.push(key);
        k += 1;
    }
    assert(sv.take(sel.len() as int) =~= sv);
    let idx = stable_order(&keys);
    let mut out: Vec<MutualFundProduct> = Vec::new();
    let mut j: usize = 0;
    while j < idx.len()
        invariant
            sv == sel@,
            is_stable_order(sv.map_values(kf), idx@),
            j <= idx.len(),
            out@.len() == j,
            forall|q: int| 0 <= q < j ==> out@[q] == sv[#[trigger] idx@[q] as int],
        decreases idx.len() - j,
    {
        out.push(sel[idx[j]].duplicate());
        j += 1;
    }
    assert(arranged(sv, idx@, out@));
    assert(sorted_rows(sv, kf, out@));
    let ghost all = out@;
    if (limit as u64) < (out.len() as u64) {
        out.truncate(limit as usize);
    }
    assert(out@ =~= limited(all, search_limit(query@)));
    Ok(out)
}


/// The whole cached catalogue, by name (ties in table order).
pub fn bibit_products_all(store: &Store) -> (r: Result<Vec<MutualFundProduct>, String>)
    ensures
        r matches Ok(v) && sorted_rows(store@.products, |p: MutualFundProduct| product_order_key(p), v@),
{
    let n = store.products_len();
    let ghost rows = store@.products;
    let ghost kf = |p: MutualFundProduct| product_order_key(p);
    let mut keys: Vec<Vec<i128>> = Vec::new();
    let mut i: usize = 0;
    while i < n
        invariant
            n == rows.len(),
            rows == store@.products,
            i <= n,
            kf == (|p: MutualFundProduct| product_order_key(p)),
            keys@.map_values(|k: Vec<i128>| k@) == rows.take(i as int).map_values(kf),
        decreases n - i,
    {
        let p = store.product_row(i);
        let key = text_key_of(p.name.as_str());
        proof { crate::order::lemma_keys_push(keys@, rows, kf, i as int, key); }
        keys.push(key);
        i += 1;
    }
    assert(rows.take(n as int) =~= rows);
    let idx = stable_order(&keys);
    let mut out: Vec<MutualFundProduct> = Vec::new();
    let mut j: usize = 0;
    while j < idx.len()
        invariant
            n == rows.len(),
            rows == store@.products,
            is_stable_order(rows.map_values(kf), idx@),
            j <= idx.len(),
            out@.len() == j,
            forall|q: int| 0 <= q < j ==> out@[q] == rows[#[trigger] idx@[q] as int],
        decreases idx.len() - j,
    {
        out.push(store.product_row(idx[j]));
        j += 1;
    }
    assert(arranged(rows, idx@, out@));
    Ok(out)
}

/// Investment transactions are listed newest date first.
pub open spec fn investment_order_key(t: InvestmentTransaction) -> Seq<i128> {
    seq![(-(t.date as int)) as i128]
}

/// The investment transactions of one product (of every product when `product`
/// is `None`), in table order.
pub open spec fn select_investments(s: Seq<InvestmentTransaction>, product: Option<Seq<char>>) -> Seq<InvestmentTransaction>
    decreases s.len(),
{
    if s.len() == 0 {
        seq![]
    } else {
        let rest = select_investments(s.drop_last(), product);
        if product matches Some(id) && s.last().product_id@ != id { rest } else { rest.push(s.last()) }
    }
}

/// The investment transactions of `product` (all of them for `None`), newest first.
fn investments_listed(store: &Store, product: Option<&str>) -> (r: Vec<InvestmentTransaction>)
    ensures
        sorted_rows(
            select_investments(store@.investments, match product { Some(p) => Some(p@), None => None }),
            |t: InvestmentTransaction| investment_order_key(t),
            r@,
        ),
{
    let ghost pv = match product { Some(p) => Some(p@), None => None::<Seq<char>> };
    let n = store.investments_len();
    let ghost rows = store@.investments;
    let mut sel: Vec<InvestmentTransaction> = Vec::new();
    let mut i: usize = 0;
    while i < n
        invariant
            n == rows.len(),
            rows == store@.investments,
            i <= n,
            pv == match product { Some(p) => Some(p@), None => None::<Seq<char>> },
            sel@ == select_investments(rows.take(i as int), pv),
        decreases n - i,
    {
        let t = store.investment_row(i);
        assert(rows.take(i + 1).drop_last() =~= rows.take(i as int));
        assert(rows.take(i + 1).last() == rows[i as int]);
        let keep = match product {
            Some(p) => crate::text::str_eq(t.product_id.as_str(), p),
            None => true,
        };
        if keep {
            sel.push(t);
        }
        i += 1;
    }
    assert(rows.take(n as int) =~= rows);
    let ghost sv = sel@;
    let ghost kf = |t: InvestmentTransaction| investment_order_key(t);
    let mut keys: Vec<Vec<i128>> = Vec::new();
    let mut k: usize = 0;
    while k < sel.len()
        invariant
            sv == sel@,
            k <= sel.len(),
            kf == (|t: InvestmentTransaction| investment_order_key(t)),
            keys@.map_values(|x: Vec<i128>| x@) == sv.take(k as int).map_values(kf),
        decreases sel.len() - k,
    {
        let neg: i128 = -(sel[k].date as i128);
        let key: Vec<i128> = vec![neg];
        assert(key@ =~= kf(sv[k as int]));
        proof { crate::order::lemma_keys_push(keys@, sv, kf, k as int, key); }
        keys.push(key);
        k += 1;
    }
    assert(sv.take(sel.len() as int) =~= sv);
    let idx = stable_order(&keys);
    let mut out: Vec<InvestmentTransaction> = Vec::new();
    let mut j: usize = 0;
    while j < idx.len()
        invariant
            sv == sel@,
            is_stable_order(sv.map_values(kf), idx@),
            j <= idx.len(),
            out@.len() == j,
            forall|q: int| 0 <= q < j ==> out@[q] == sv[#[trigger] idx@[q] as int],
        decreases idx.len() - j,
    {
        out.push(sel[idx[j]].duplicate());
        j += 1;
    }
    assert(arranged(sv, idx@, out@));
    out
}

/// Every investment transaction, newest first (ties in table order).
pub fn investment_tx_all(store: &Store) -> (r: Result<Vec<InvestmentTransaction>, String>)
    ensures
        r matches Ok(v) && sorted_rows(
            select_investments(store@.investments, None),
            |t: InvestmentTransaction| investment_order_key(t),
            v@,
        ),
{
    Ok(investments_listed(store, None))
}

/// The investment transactions of one product, newest first.
pub fn investment_tx_by_product(store: &Store, product_id: &str) -> (r: Result<Vec<InvestmentTransaction>, String>)
    ensures
        r matches Ok(v) && sorted_rows(
            select_investments(store@.investments, Some(product_id@)),
            |t: InvestmentTransaction| investment_order_key(t),
            v@,
        ),
{
    Ok(investments_listed(store, Some(product_id)))
}

/// The products after upserting `ps` one after the other.
pub open spec fn upserted(products: Seq<MutualFundProduct>, ps: Seq<MutualFundProduct>) -> Seq<MutualFundProduct>
    decreases ps.len(),
{
    if ps.len() == 0 {
        products
    } else {
        let prev = upserted(products, ps.drop_last());
        let p = ps.last();
        match crate::db::find_index(crate::db::product_ids(prev), p.id@) {
            Some(k) => prev.update(k, p),
            None => prev.push(p),
        }
    }
}

/// Upserts every product of `ps`, in order; gives back how many were written.
pub fn upsert_products(store: &mut Store, ps: &Vec<MutualFundProduct>) -> (n: usize)
    requires
        old(store)@.wf(),
    ensures
        final(store)@.wf(),
        n == ps.len(),
        final(store)@ == (crate::db::LedgerView { products: upserted(old(store)@.products, ps@), ..old(store)@ }),
{
    let mut i: usize = 0;
    while i < ps.len()
        invariant
            i <= ps.len(),
            store@.wf(),
            store@ == (crate::db::LedgerView { products: upserted(old(store)@.products, ps@.take(i as int)), ..old(store)@ }),
        decreases ps.len() - i,
    {
        assert(ps@.take(i + 1).drop_last() =~= ps@.take(i as int));
        assert(ps@.take(i + 1).last() == ps@[i as int]);
        let r = crate::db::bibit_product_upsert(store, &ps[i]);
        i += 1;
    }
    assert(ps@.take(ps.len() as int) =~= ps@);
    ps.len()
}

/// Whether a search should ask the remote catalogue: the query is not blank
/// and nothing was found locally.
pub fn needs_remote(local: &Vec<MutualFundProduct>, query: &str) -> (r: bool)
    ensures
        r == (local@.len() == 0 && !is_blank(query@)),
{
    local.len() == 0 && !crate::text::blank(query)
}

/// The remote hits of a type, in the order they came.
pub open spec fn of_type(ps: Seq<MutualFundProduct>, fund_type: Option<Seq<char>>) -> Seq<MutualFundProduct>
    decreases ps.len(),
{
    if ps.len() == 0 {
        seq![]
    } else {
        let rest = of_type(ps.drop_last(), fund_type);
        if fund_type matches Some(f) && ps.last().fund_type@ != f { rest } else { rest.push(ps.last()) }
    }
}

/// Keeps the remote hits in the cache (of every type), then gives back those
/// of the asked type.
pub fn cache_remote_results(store: &mut Store, remote: Vec<MutualFundProduct>, fund_type: Option<&str>) -> (r: Result<Vec<MutualFundProduct>, String>)
    requires
        old(store)@.wf(),
    ensures
        final(store)@.wf(),
        final(store)@ == (crate::db::LedgerView { products: upserted(old(store)@.products, remote@), ..old(store)@ }),
        r matches Ok(v) && v@ == of_type(remote@, match fund_type { Some(f) => Some(f@), None => None }),
{
    let ghost fv = match fund_type { Some(f) => Some(f@), None => None::<Seq<char>> };
    upsert_products(store, &remote);
    let mut out: Vec<MutualFundProduct> = Vec::new();
    let mut i: usize = 0;
    while i < remote.len()
        invariant
            i <= remote.len(),
            fv == match fund_type { Some(f) => Some(f@), None => None::<Seq<char>> },
            out@ == of_type(remote@.take(i as int), fv),
        decreases remote.len() - i,
    {
        assert(remote@.take(i + 1).drop_last() =~= remote@.take(i as int));
        assert(remote@.take(i + 1).last() == remote@[i as int]);
        let keep = match fund_type {
            Some(f) => crate::text::str_eq(remote[i].fund_type.as_str(), f),
            None => true,
        };
        if keep {
            out.push(remote[i].duplicate());
        }
        i += 1;
    }
    assert(remote@.take(remote.len() as int) =~= remote@);
    Ok(out)
}

} // verus!

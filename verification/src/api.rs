//! The fetch layer's decisions: catalog addresses, the identifier pattern,
//! response charset, and the not-found page test.

use crate::dom::{chain_texts, chain_texts_spec, str_views, tests_views, HtmlNode, NodeTest,
    NodeTestView};
use crate::text::{
    dec_str_of, ends_with, has_suffix, is_digit_char, push_dec_u64, str_eq, trim,
    trim_spec,
};
use vstd::prelude::*;

verus! {

// ---------------------------------------------------------------------------
// The product identifier inside a catalog address
// ---------------------------------------------------------------------------

/// A character an identifier may hold where it stands in an address: a
/// decimal digit or a capital letter.
pub open spec fn id_char(c: char) -> bool {
    is_digit_char(c) || (65 <= c as int && c as int <= 90)
}

/// The slashes from position `p` on stop exactly at `q`, and none follow.
pub open spec fn slash_split_at(s: Seq<char>, p: int, q: int) -> bool {
    &&& p <= q <= s.len()
    &&& (forall|j: int| p <= j < q ==> s[j] == '/')
    &&& (forall|j: int| q <= j < s.len() ==> s[j] != '/')
}

/// From position `p` on, the address holds slashes only at its front: zero
/// or more `/`, then a final segment free of them.
pub open spec fn tail_ok(s: Seq<char>, p: int) -> bool {
    exists|q: int| slash_split_at(s, p, q)
}

/// A ten-character identifier sits at position `i`: `/dp/`, ten identifier
/// characters, then slashes and one final slash-free segment to the end.
pub open spec fn id_match_at(s: Seq<char>, i: int) -> bool {
    &&& 0 <= i
    &&& i + 14 <= s.len()
    &&& s.subrange(i, i + 4) == "/dp/"@
    &&& (forall|j: int| i + 4 <= j < i + 14 ==> id_char(#[trigger] s[j]))
    &&& tail_ok(s, i + 14)
}

/// The identifier of the leftmost match from position `i` on.
pub open spec fn find_id_from(s: Seq<char>, i: int) -> Option<Seq<char>>
    decreases s.len() - i,
{
    if i < 0 || i + 14 > s.len() {
        None
    } else if id_match_at(s, i) {
        Some(s.subrange(i + 4, i + 14))
    } else {
        find_id_from(s, i + 1)
    }
}

/// The product identifier in an address: the capture of the leftmost match.
pub open spec fn extract_asin_spec(s: Seq<char>) -> Option<Seq<char>> {
    find_id_from(s, 0)
}

/// Whether a match sits exactly at position `i`.
#[verifier::loop_isolation(false)]
fn id_match_here(s: &str, i: usize) -> (r: bool)
    requires
        i + 14 <= s@.len(),
    ensures
        r == id_match_at(s@, i as int),
{
    let n = s.unicode_len();
    let head = s.substring_char(i, i + 4);
    if !str_eq(head, "/dp/") {
        return false;
    }
    let mut j: usize = i + 4;
    while j < i + 14
        invariant
            i + 4 <= j <= i + 14,
            forall|k: int| i + 4 <= k < j ==> id_char(#[trigger] s@[k]),
        decreases i + 14 - j,
    {
        let c = s.get_char(j);
        let u = c as u32;
        if !((48 <= u && u <= 57) || (65 <= u && u <= 90)) {
            return false;
        }
        j = j + 1;
    }
    // Skip the run of slashes, then demand a slash-free final segment.
    let mut q: usize = i + 14;
    while q < n && s.get_char(q) == '/'
        invariant
            i + 14 <= q <= n,
            forall|k: int| i + 14 <= k < q ==> s@[k] == '/',
        decreases n - q,
    {
        q = q + 1;
    }
    let mut m: usize = q;
    while m < n
        invariant
            q <= m <= n,
            forall|k: int| q <= k < m ==> s@[k] != '/',
        decreases n - m,
    {
        if s.get_char(m) == '/' {
            proof {
                assert(s@[q as int] != '/');
                assert forall|qq: int| !(#[trigger] slash_split_at(s@, i + 14, qq)) by {
                    if slash_split_at(s@, i + 14, qq) {
                        if qq <= m {
                            assert(s@[m as int] != '/');
                        } else {
                            assert(s@[q as int] == '/');
                        }
                    }
                }
                assert(!tail_ok(s@, i + 14));
            }
            return false;
        }
        m = m + 1;
    }
    proof {
        assert(slash_split_at(s@, i + 14, q as int));
        assert(tail_ok(s@, i + 14));
    }
    true
}

/// Pick the product identifier out of a catalog address, if one is there.
#[verifier::loop_isolation(false)]
pub fn extract_asin<'a>(url: &'a str) -> (r: Option<&'a str>)
    ensures
        match r {
            Some(a) => extract_asin_spec(url@) == Some(a@),
            None => extract_asin_spec(url@) is None,
        },
{
    let n = url.unicode_len();
    if n < 14 {
        return None;
    }
    let mut i: usize = 0;
    while i <= n - 14
        invariant
            0 <= i,
            i <= n,
            extract_asin_spec(url@) == find_id_from(url@, i as int),
        decreases n - i,
    {
        if id_match_here(url, i) {
            let a = url.substring_char(i + 4, i + 14);
            return Some(a);
        }
        i = i + 1;
    }
    None
}

/// Whether every character of the identifier is a plain letter or digit;
/// nothing else may reach the network.
pub open spec fn plain_alnum(c: char) -> bool {
    is_digit_char(c) || (65 <= c as int && c as int <= 90) || (97 <= c as int && c as int <= 122)
}

pub open spec fn all_plain_alnum(s: Seq<char>) -> bool {
    forall|i: int| 0 <= i < s.len() ==> plain_alnum(#[trigger] s[i])
}

/// Check an identifier before any network use.
pub fn asin_is_alphanumeric(asin: &str) -> (r: bool)
    ensures
        r == all_plain_alnum(asin@),
{
    let n = asin.unicode_len();
    let mut i: usize = 0;
    while i < n
        invariant
            n == asin@.len(),
            0 <= i <= n,
            forall|k: int| 0 <= k < i ==> plain_alnum(#[trigger] asin@[k]),
        decreases n - i,
    {
        let c = asin.get_char(i);
        let u = c as u32;
        if !((48 <= u && u <= 57) || (65 <= u && u <= 90) || (97 <= u && u <= 122)) {
            return false;
        }
        i = i + 1;
    }
    true
}

// ---------------------------------------------------------------------------
// Catalog addresses
// ---------------------------------------------------------------------------

/// The product page address for an identifier.
pub fn product_url(asin: &str) -> (r: String)
    ensures
        r@ == "https://www.amazon.com/dp/"@ + asin@,
{
    let mut out = String::from_str("https://www.amazon.com/dp/");
    out.append(asin);
    out
}

/// The offer listing address: page one carries the full frame, later pages
/// only the offer list.
pub open spec fn offer_page_url_spec(asin: Seq<char>, page: u32) -> Seq<char> {
    if page == 1 {
        "https://www.amazon.com/gp/product/ajax/ref=dp_aod_ALL_mbc?asin="@ + asin
            + "&m=&qid=&smid=&sourcecustomerorglistid=&sourcecustomerorglistitemid=&sr=&pc=dp&experienceId=aodAjaxMain"@
    } else {
        "https://www.amazon.com/gp/product/ajax/ref=aod_page_"@ + dec_str_of(page as nat)
            + "?asin="@ + asin + "&pc=dp&isonlyrenderofferlist=true&pageno="@ + dec_str_of(
            page as nat,
        ) + "&experienceId=aodAjaxMain"@
    }
}

pub fn offer_page_url(asin: &str, page: u32) -> (r: String)
    requires
        page >= 1,
    ensures
        r@ == offer_page_url_spec(asin@, page),
{
    if page == 1 {
        let mut out = String::from_str(
            "https://www.amazon.com/gp/product/ajax/ref=dp_aod_ALL_mbc?asin=",
        );
        out.append(asin);
        out.append(
            "&m=&qid=&smid=&sourcecustomerorglistid=&sourcecustomerorglistitemid=&sr=&pc=dp&experienceId=aodAjaxMain",
        );
        proof {
            assert(out@ =~= offer_page_url_spec(asin@, page));
        }
        out
    } else {
        let mut out = String::from_str("https://www.amazon.com/gp/product/ajax/ref=aod_page_");
        push_dec_u64(page as u64, &mut out);
        out.append("?asin=");
        out.append(asin);
        out.append("&pc=dp&isonlyrenderofferlist=true&pageno=");
        push_dec_u64(page as u64, &mut out);
        out.append("&experienceId=aodAjaxMain");
        proof {
            assert(out@ =~= offer_page_url_spec(asin@, page));
        }
        out
    }
}

// ---------------------------------------------------------------------------
// Response charset and the not-found page
// ---------------------------------------------------------------------------

/// Whether a declared content type ends in an explicit UTF-8 charset; only
/// then may the body bytes be reinterpreted directly.
pub fn content_type_is_utf8(header: &str) -> (r: bool)
    ensures
        r == (has_suffix(header@, "charset=UTF-8"@) || has_suffix(header@, "charset=utf-8"@)),
{
    ends_with(header, "charset=UTF-8") || ends_with(header, "charset=utf-8")
}

pub open spec fn title_chain() -> Seq<NodeTestView> {
    seq![NodeTestView::ByTag("title"@)]
}

/// A page whose title reads `Page Not Found` stands for a missing listing.
pub open spec fn not_found_spec(doc: HtmlNode) -> bool {
    exists|i: int|
        0 <= i < chain_texts_spec(doc, title_chain()).len() && trim_spec(
            #[trigger] chain_texts_spec(doc, title_chain())[i],
        ) == "Page Not Found"@
}

fn title_tests() -> (r: Vec<NodeTest<'static>>)
    ensures
        tests_views(r@) == title_chain(),
{
    let mut v: Vec<NodeTest<'static>> = Vec::new();
    v.push(NodeTest::ByTag("title"));
    proof {
        assert(tests_views(v@) =~= title_chain());
    }
    v
}

/// Whether the fetched page announces a missing listing.
#[verifier::loop_isolation(false)]
pub fn page_indicates_not_found(doc: &HtmlNode) -> (r: bool)
    ensures
        r == not_found_spec(*doc),
{
    let texts = chain_texts(doc, &title_tests());
    let n = texts.len();
    let mut i: usize = 0;
    while i < n
        invariant
            0 <= i <= n,
            forall|k: int|
                0 <= k < i ==> trim_spec(#[trigger] str_views(texts@)[k]) != "Page Not Found"@,
        decreases n - i,
    {
        let t = trim(texts[i].as_str());
        if str_eq(t, "Page Not Found") {
            proof {
                assert(trim_spec(str_views(texts@)[i as int]) == "Page Not Found"@);
            }
            return true;
        }
        i = i + 1;
    }
    proof {
        assert(!not_found_spec(*doc));
    }
    false
}

} // verus!

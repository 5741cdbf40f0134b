//! The offer collector's decisions: offers on a page, the server-reported
//! total, and which further pages to fetch.

use crate::dom::{
    chain_texts, chain_texts_spec, deref_all, matches_in, str_views, tests_views, HtmlNode,
    NodeTest, NodeTestView,
};
use crate::offer::{extract_offer_spec, Offer, OfferView};
use crate::text::{ends_with, has_suffix, parse_u32, parse_u32_spec};
use vstd::prelude::*;

verus! {

/// How many offers the origin lists on one page.
pub const OFFERS_PER_PAGE: u32 = 10;

pub open spec fn counter_chain() -> Seq<NodeTestView> {
    seq![NodeTestView::ById("aod-filter-offer-count-string"@)]
}

pub open spec fn offer_node_test() -> NodeTestView {
    NodeTestView::ById("aod-offer"@)
}

/// The offer nodes of a page, in document order.
pub open spec fn offer_nodes(page: HtmlNode) -> Seq<HtmlNode> {
    matches_in(page, offer_node_test())
}

// ---------------------------------------------------------------------------
// Offers on one page
// ---------------------------------------------------------------------------

pub open spec fn offer_views(s: Seq<Offer>) -> Seq<OfferView> {
    s.map_values(|o: Offer| o@)
}

/// The offers that extract successfully from a list of nodes, in order; a
/// node that fails is skipped, never fatal.
pub open spec fn page_offers_spec(nodes: Seq<HtmlNode>) -> Seq<OfferView>
    decreases nodes.len(),
{
    if nodes.len() == 0 {
        Seq::<OfferView>::empty()
    } else {
        let rest = page_offers_spec(nodes.subrange(1, nodes.len() as int));
        match extract_offer_spec(nodes[0]) {
            Some(v) => seq![v] + rest,
            None => rest,
        }
    }
}

proof fn lemma_page_offers_take_step(nodes: Seq<HtmlNode>, i: int)
    requires
        0 <= i < nodes.len(),
    ensures
        page_offers_spec(nodes.subrange(0, i + 1)) == page_offers_spec(nodes.subrange(0, i)) + (
        match extract_offer_spec(nodes[i]) {
            Some(v) => seq![v],
            None => Seq::<OfferView>::empty(),
        }),
    decreases i,
{
    if i == 0 {
        let single = nodes.subrange(0, 1);
        assert(single.len() == 1);
        assert(single[0] == nodes[0]);
        assert(single.subrange(1, single.len() as int) =~= Seq::<HtmlNode>::empty());
        assert(page_offers_spec(single.subrange(1, single.len() as int))
            == Seq::<OfferView>::empty());
        match extract_offer_spec(nodes[0]) {
            Some(v) => {
                assert(page_offers_spec(single) =~= seq![v]);
                assert(page_offers_spec(nodes.subrange(0, 0)) + seq![v] =~= seq![v]);
            },
            None => {
                assert(page_offers_spec(single) =~= Seq::<OfferView>::empty());
                assert(page_offers_spec(nodes.subrange(0, 0)) + Seq::<OfferView>::empty()
                    =~= Seq::<OfferView>::empty());
            },
        }
    } else {
        let rest = nodes.subrange(1, nodes.len() as int);
        lemma_page_offers_take_step(rest, i - 1);
        assert(rest.subrange(0, i) =~= nodes.subrange(1, i + 1));
        assert(rest.subrange(0, i - 1) =~= nodes.subrange(1, i));
        assert(rest[i - 1] == nodes[i]);
        let front1 = nodes.subrange(0, i + 1);
        assert(front1[0] == nodes[0]);
        assert(front1.subrange(1, front1.len() as int) =~= nodes.subrange(1, i + 1));
        let front0 = nodes.subrange(0, i);
        assert(front0[0] == nodes[0]);
        assert(front0.subrange(1, front0.len() as int) =~= nodes.subrange(1, i));
        match extract_offer_spec(nodes[0]) {
            Some(v) => {
                assert(page_offers_spec(front1) =~= page_offers_spec(front0) + (
                match extract_offer_spec(nodes[i]) {
                    Some(x) => seq![x],
                    None => Seq::<OfferView>::empty(),
                }));
            },
            None => {
                assert(page_offers_spec(front1) =~= page_offers_spec(front0) + (
                match extract_offer_spec(nodes[i]) {
                    Some(x) => seq![x],
                    None => Seq::<OfferView>::empty(),
                }));
            },
        }
    }
}

/// The extracted offers of a list are never more than its nodes, and when
/// every node extracts, they are exactly as many: a failing node only ever
/// costs its own offer.
pub proof fn lemma_partial_failure_bound(nodes: Seq<HtmlNode>)
    ensures
        page_offers_spec(nodes).len() <= nodes.len(),
        (forall|i: int| 0 <= i < nodes.len() ==> extract_offer_spec(#[trigger] nodes[i]) is Some)
            ==> page_offers_spec(nodes).len() == nodes.len(),
    decreases nodes.len(),
{
    if nodes.len() > 0 {
        let rest = nodes.subrange(1, nodes.len() as int);
        lemma_partial_failure_bound(rest);
        assert forall|i: int| 0 <= i < rest.len() implies rest[i] == nodes[i + 1] by {}
    }
}

/// Gather the offers of one page into the accumulator, skipping nodes that
/// fail, and report how many offer nodes the page held.
#[verifier::loop_isolation(false)]
pub fn collect_page_offers(page: &HtmlNode, acc: &mut Vec<Offer>) -> (found: usize)
    ensures
        offer_views(final(acc)@) == offer_views(old(acc)@) + page_offers_spec(
            offer_nodes(*page),
        ),
        found == offer_nodes(*page).len(),
{
    let nodes = crate::dom::all_matches(page, &NodeTest::ById("aod-offer"));
    let ghost all = deref_all(nodes@);
    let n = nodes.len();
    proof {
        assert(all =~= offer_nodes(*page));
        assert(offer_views(acc@) =~= offer_views(old(acc)@) + page_offers_spec(
            all.subrange(0, 0),
        ));
    }
    let mut i: usize = 0;
    while i < n
        invariant
            0 <= i <= n,
            offer_views(acc@) == offer_views(old(acc)@) + page_offers_spec(
                all.subrange(0, i as int),
            ),
        decreases n - i,
    {
        proof {
            assert(all[i as int] == *nodes@[i as int]);
        }
        let ghost before = acc@;
        match Offer::extract(nodes[i]) {
            Ok(o) => {
                let ghost ov = o@;
                acc.push(o);
                proof {
                    assert(offer_views(acc@) =~= offer_views(before).push(ov));
                }
            },
            Err(_) => {},
        }
        proof {
            lemma_page_offers_take_step(all, i as int);
            assert(offer_views(acc@) =~= offer_views(old(acc)@) + page_offers_spec(
                all.subrange(0, i + 1),
            ));
        }
        i = i + 1;
    }
    proof {
        assert(all.subrange(0, n as int) =~= all);
    }
    n
}

// ---------------------------------------------------------------------------
// The server-reported offer total
// ---------------------------------------------------------------------------

/// A counter text of the form `N options`.
pub open spec fn options_count(s: Seq<char>) -> Option<u32> {
    if has_suffix(s, " options"@) {
        parse_u32_spec(s.subrange(0, s.len() - " options"@.len()))
    } else {
        None
    }
}

/// First text in the list carrying an offer total.
pub open spec fn first_count_in(ts: Seq<Seq<char>>) -> Option<u32>
    decreases ts.len(),
{
    if ts.len() == 0 {
        None
    } else {
        match options_count(ts[0]) {
            Some(c) => Some(c),
            None => first_count_in(ts.subrange(1, ts.len() as int)),
        }
    }
}

/// The offer total the first page reports, if its counter element is present
/// and readable.
pub open spec fn offer_count_spec(page: HtmlNode) -> Option<u32> {
    first_count_in(chain_texts_spec(page, counter_chain()))
}

/// Read one counter text.
fn parse_options_count(s: &str) -> (r: Option<u32>)
    ensures
        r == options_count(s@),
{
    proof {
        reveal_strlit(" options");
    }
    if !ends_with(s, " options") {
        return None;
    }
    let n = s.unicode_len();
    let head = s.substring_char(0, n - 8);
    parse_u32(head)
}

fn counter_tests() -> (r: Vec<NodeTest<'static>>)
    ensures
        tests_views(r@) == counter_chain(),
{
    let mut v: Vec<NodeTest<'static>> = Vec::new();
    v.push(NodeTest::ById("aod-filter-offer-count-string"));
    proof {
        assert(tests_views(v@) =~= counter_chain());
    }
    v
}

/// Read the offer total off the first page.
#[verifier::loop_isolation(false)]
pub fn read_offer_count(page: &HtmlNode) -> (r: Option<u32>)
    ensures
        r == offer_count_spec(*page),
{
    let texts = chain_texts(page, &counter_tests());
    let n = texts.len();
    proof {
        assert(str_views(texts@).subrange(0, n as int) =~= str_views(texts@));
    }
    let mut i: usize = 0;
    while i < n
        invariant
            0 <= i <= n,
            first_count_in(str_views(texts@)) == first_count_in(
                str_views(texts@).subrange(i as int, n as int),
            ),
        decreases n - i,
    {
        proof {
            let rest = str_views(texts@).subrange(i as int, n as int);
            assert(rest[0] == texts@[i as int]@);
            assert(rest.subrange(1, rest.len() as int) =~= str_views(texts@).subrange(
                i + 1,
                n as int,
            ));
        }
        match parse_options_count(texts[i].as_str()) {
            Some(c) => {
                return Some(c);
            },
            None => {},
        }
        i = i + 1;
    }
    None
}

// ---------------------------------------------------------------------------
// Which further pages to fetch
// ---------------------------------------------------------------------------

/// The page numbers still to fetch after page one, in order: `2` up to the
/// number of pages that hold `total` offers, ten to a page.
pub open spec fn remaining_page_numbers(total: u32) -> Seq<u32> {
    let pc = (total + 9) / (10 as int);
    if pc >= 2 {
        Seq::<u32>::new((pc - 1) as nat, |i: int| (i + 2) as u32)
    } else {
        Seq::<u32>::empty()
    }
}

/// What the first page decides: no counter or a zero total means no further
/// fetches; otherwise pages `2..` up to the page count.
pub open spec fn remaining_pages_spec(page: HtmlNode) -> Seq<u32> {
    match offer_count_spec(page) {
        None => Seq::<u32>::empty(),
        Some(total) => remaining_page_numbers(total),
    }
}

/// One fetch per ten reported offers: with a positive total, page one and
/// the remaining pages together cover the total, and dropping the last page
/// would not.
pub proof fn lemma_pages_cover_total(total: u32)
    requires
        total > 0,
    ensures
        (1 + remaining_page_numbers(total).len()) * 10 >= total,
        (remaining_page_numbers(total).len()) * 10 < total,
{
    let pc = (total + 9) / (10 as int);
    assert(total + 9 == 10 * pc + ((total + 9) % 10));
}

/// Compute the remaining page numbers from the first page.
#[verifier::loop_isolation(false)]
pub fn remaining_pages(page: &HtmlNode) -> (pages: Vec<u32>)
    ensures
        pages@ == remaining_pages_spec(*page),
{
    let mut pages: Vec<u32> = Vec::new();
    let total = match read_offer_count(page) {
        Some(t) => t,
        None => {
            proof {
                assert(pages@ =~= remaining_pages_spec(*page));
            }
            return pages;
        },
    };
    let pc: u32 = (((total as u64) + 9) / 10) as u32;
    proof {
        assert((total as int + 9) / (10 as int) == pc as int);
    }
    if pc < 2 {
        proof {
            assert(pages@ =~= remaining_pages_spec(*page));
        }
        return pages;
    }
    let mut p: u32 = 2;
    while p <= pc
        invariant
            2 <= p <= pc + 1,
            pages@.len() == p - 2,
            forall|i: int| 0 <= i < pages@.len() ==> pages@[i] == (i + 2) as u32,
        decreases pc + 1 - p,
    {
        pages.push(p);
        p = p + 1;
    }
    proof {
        assert(pages@ =~= remaining_page_numbers(total));
    }
    pages
}

} // verus!

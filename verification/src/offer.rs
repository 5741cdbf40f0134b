//! Extraction of a seller's offer from one offer node of a listing page.

use crate::condition::{parse_condition_spec, Condition};
use crate::dom::{
    chain_texts, chain_texts_spec, first_in, first_match, join_texts_trimmed, join_trimmed,
    node_attr, str_views, tests_views, HtmlNode, NodeTest, NodeTestView,
};
use crate::price::{parse_price_spec, PriceUSD};
use vstd::prelude::*;

verus! {

/// One seller's offer for a product.
#[derive(Debug)]
pub struct Offer {
    pub condition: Condition,
    pub condition_description: Option<String>,
    pub price: PriceUSD,
    pub ships_from: String,
    pub sold_by: String,
    /// Absent when the seller is the marketplace operator itself, which has
    /// no seller page.
    pub seller_page: Option<String>,
}

/// A required field of an offer was absent or unreadable; holds the field's
/// name.
#[derive(Debug)]
pub struct MissingOfferField(pub &'static str);

/// The contract-level image of an offer.
pub struct OfferView {
    pub condition: Condition,
    pub condition_description: Option<Seq<char>>,
    pub price: int,
    pub ships_from: Seq<char>,
    pub sold_by: Seq<char>,
    pub seller_page: Option<Seq<char>>,
}

impl View for Offer {
    type V = OfferView;

    open spec fn view(&self) -> OfferView {
        OfferView {
            condition: self.condition,
            condition_description: match self.condition_description {
                Some(d) => Some(d@),
                None => None,
            },
            price: self.price.0 as int,
            ships_from: self.ships_from@,
            sold_by: self.sold_by@,
            seller_page: match self.seller_page {
                Some(p) => Some(p@),
                None => None,
            },
        }
    }
}

// ---------------------------------------------------------------------------
// The chains each field is read through
// ---------------------------------------------------------------------------

pub open spec fn price_chain() -> Seq<NodeTestView> {
    seq![NodeTestView::ByClassWord("a-price"@), NodeTestView::ByClassWord("a-offscreen"@)]
}

pub open spec fn condition_chain() -> Seq<NodeTestView> {
    seq![NodeTestView::ById("aod-offer-heading"@)]
}

pub open spec fn description_chain() -> Seq<NodeTestView> {
    seq![
        NodeTestView::ById("aod-condition-container"@),
        NodeTestView::ByClassWord("expandable-expanded-text"@),
    ]
}

pub open spec fn seller_span_chain() -> Seq<NodeTestView> {
    seq![NodeTestView::ByTagAndClassAttr("span"@, "a-size-small a-color-base"@)]
}

// ---------------------------------------------------------------------------
// Field extraction, as contracts state it
// ---------------------------------------------------------------------------

/// First text in the list that reads as a price.
pub open spec fn first_price_in(ts: Seq<Seq<char>>) -> Option<i64>
    decreases ts.len(),
{
    if ts.len() == 0 {
        None
    } else {
        match parse_price_spec(ts[0]) {
            Some(c) => Some(c),
            None => first_price_in(ts.subrange(1, ts.len() as int)),
        }
    }
}

/// First text in the list that reads as a condition.
pub open spec fn first_condition_in(ts: Seq<Seq<char>>) -> Option<Condition>
    decreases ts.len(),
{
    if ts.len() == 0 {
        None
    } else {
        match parse_condition_spec(ts[0]) {
            Some(c) => Some(c),
            None => first_condition_in(ts.subrange(1, ts.len() as int)),
        }
    }
}

/// The offer's price: the first price text below the offer node.
pub open spec fn offer_price_spec(n: HtmlNode) -> Option<i64> {
    first_price_in(chain_texts_spec(n, price_chain()))
}

/// The offer's condition: the first condition text in the offer heading.
pub open spec fn offer_condition_spec(n: HtmlNode) -> Option<Condition> {
    first_condition_in(chain_texts_spec(n, condition_chain()))
}

/// The optional expanded condition description: its first text, as it
/// stands.
pub open spec fn offer_description_spec(n: HtmlNode) -> Option<Seq<char>> {
    let ts = chain_texts_spec(n, description_chain());
    if ts.len() > 0 {
        Some(ts[0])
    } else {
        None
    }
}

/// Where the offer ships from: the joined trimmed text of the right-hand
/// column of the ships-from row; absent when that text is empty.
pub open spec fn ships_from_spec(n: HtmlNode) -> Option<Seq<char>> {
    match first_in(n, NodeTestView::ById("aod-offer-shipsFrom"@)) {
        None => None,
        Some(row) => match first_in(row, NodeTestView::ByClassWord("a-col-right"@)) {
            None => None,
            Some(col) => {
                let txt = join_trimmed(chain_texts_spec(col, Seq::<NodeTestView>::empty()));
                if txt.len() == 0 {
                    None
                } else {
                    Some(txt)
                }
            },
        },
    }
}

/// Who sells the offer: the seller link's text and page when a link exists,
/// else the plain seller-name element with no page.
pub open spec fn seller_spec(n: HtmlNode) -> Option<(Seq<char>, Option<Seq<char>>)> {
    match first_in(n, NodeTestView::ById("aod-offer-soldBy"@)) {
        None => None,
        Some(row) => match first_in(row, NodeTestView::ByClassWord("a-col-right"@)) {
            None => None,
            Some(col) => match first_in(col, NodeTestView::ByTag("a"@)) {
                Some(link) => Some(
                    (
                        join_trimmed(chain_texts_spec(link, Seq::<NodeTestView>::empty())),
                        node_attr(link, "href"@),
                    ),
                ),
                None => Some(
                    (join_trimmed(chain_texts_spec(col, seller_span_chain())), None),
                ),
            },
        },
    }
}

/// The whole offer, or nothing when a required field is absent.
pub open spec fn extract_offer_spec(n: HtmlNode) -> Option<OfferView> {
    match (offer_price_spec(n), offer_condition_spec(n), ships_from_spec(n), seller_spec(n)) {
        (Some(p), Some(c), Some(sf), Some(seller)) => Some(
            OfferView {
                condition: c,
                condition_description: offer_description_spec(n),
                price: p as int,
                ships_from: sf,
                sold_by: seller.0,
                seller_page: seller.1,
            },
        ),
        _ => None,
    }
}

/// The name of the first required field found missing, in extraction order.
pub open spec fn missing_offer_field(n: HtmlNode) -> Seq<char> {
    if offer_price_spec(n) is None {
        "price"@
    } else if offer_condition_spec(n) is None {
        "condition"@
    } else if ships_from_spec(n) is None {
        "ships_from"@
    } else {
        "sold_by"@
    }
}

// ---------------------------------------------------------------------------
// Executable extraction
// ---------------------------------------------------------------------------

fn price_tests() -> (r: Vec<NodeTest<'static>>)
    ensures
        tests_views(r@) == price_chain(),
{
    let mut v: Vec<NodeTest<'static>> = Vec::new();
    v.push(NodeTest::ByClassWord("a-price"));
    v.push(NodeTest::ByClassWord("a-offscreen"));
    proof {
        assert(tests_views(v@) =~= price_chain());
    }
    v
}

fn condition_tests() -> (r: Vec<NodeTest<'static>>)
    ensures
        tests_views(r@) == condition_chain(),
{
    let mut v: Vec<NodeTest<'static>> = Vec::new();
    v.push(NodeTest::ById("aod-offer-heading"));
    proof {
        assert(tests_views(v@) =~= condition_chain());
    }
    v
}

fn description_tests() -> (r: Vec<NodeTest<'static>>)
    ensures
        tests_views(r@) == description_chain(),
{
    let mut v: Vec<NodeTest<'static>> = Vec::new();
    v.push(NodeTest::ById("aod-condition-container"));
    v.push(NodeTest::ByClassWord("expandable-expanded-text"));
    proof {
        assert(tests_views(v@) =~= description_chain());
    }
    v
}

fn seller_span_tests() -> (r: Vec<NodeTest<'static>>)
    ensures
        tests_views(r@) == seller_span_chain(),
{
    let mut v: Vec<NodeTest<'static>> = Vec::new();
    v.push(NodeTest::ByTagAndClassAttr("span", "a-size-small a-color-base"));
    proof {
        assert(tests_views(v@) =~= seller_span_chain());
    }
    v
}

/// First text among `texts` that reads as a price.
#[verifier::loop_isolation(false)]
fn find_price(texts: &Vec<String>) -> (r: Option<PriceUSD>)
    ensures
        match r {
            Some(p) => first_price_in(str_views(texts@)) == Some(p.0),
            None => first_price_in(str_views(texts@)) is None,
        },
{
    let n = texts.len();
    proof {
        assert(str_views(texts@).subrange(0, n as int) =~= str_views(texts@));
    }
    let mut i: usize = 0;
    while i < n
        invariant
            0 <= i <= n,
            first_price_in(str_views(texts@)) == first_price_in(
                str_views(texts@).subrange(i as int, n as int),
            ),
        decreases n - i,
    {
        proof {
            let rest = str_views(texts@).subrange(i as int, n as int);
            assert(rest[0] == texts@[i as int]@);
            assert(rest.subrange(1, rest.len() as int) =~= str_views(texts@).subrange(
                i + 1,
                n as int,
            ));
        }
        match PriceUSD::parse(texts[i].as_str()) {
            Ok(p) => {
                return Some(p);
            },
            Err(_) => {},
        }
        i = i + 1;
    }
    None
}

/// First text among `texts` that reads as a condition.
#[verifier::loop_isolation(false)]
fn find_condition(texts: &Vec<String>) -> (r: Option<Condition>)
    ensures
        match r {
            Some(c) => first_condition_in(str_views(texts@)) == Some(c),
            None => first_condition_in(str_views(texts@)) is None,
        },
{
    let n = texts.len();
    proof {
        assert(str_views(texts@).subrange(0, n as int) =~= str_views(texts@));
    }
    let mut i: usize = 0;
    while i < n
        invariant
            0 <= i <= n,
            first_condition_in(str_views(texts@)) == first_condition_in(
                str_views(texts@).subrange(i as int, n as int),
            ),
        decreases n - i,
    {
        proof {
            let rest = str_views(texts@).subrange(i as int, n as int);
            assert(rest[0] == texts@[i as int]@);
            assert(rest.subrange(1, rest.len() as int) =~= str_views(texts@).subrange(
                i + 1,
                n as int,
            ));
        }
        match Condition::parse(texts[i].as_str()) {
            Ok(c) => {
                return Some(c);
            },
            Err(_) => {},
        }
        i = i + 1;
    }
    None
}

impl Offer {
    /// Read one offer out of its node; every required field must be present,
    /// or the extraction fails naming the first missing one.
    pub fn extract(n: &HtmlNode) -> (r: Result<Offer, MissingOfferField>)
        ensures
            match r {
                Ok(o) => extract_offer_spec(*n) == Some(o@),
                Err(e) => extract_offer_spec(*n) is None && e.0@ == missing_offer_field(*n),
            },
    {
        let price = match find_price(&chain_texts(n, &price_tests())) {
            Some(p) => p,
            None => {
                return Err(MissingOfferField("price"));
            },
        };
        let condition = match find_condition(&chain_texts(n, &condition_tests())) {
            Some(c) => c,
            None => {
                return Err(MissingOfferField("condition"));
            },
        };
        let description_texts = chain_texts(n, &description_tests());
        let condition_description: Option<String> = if description_texts.len() > 0 {
            Some(String::from_str(description_texts[0].as_str()))
        } else {
            None
        };
        let ships_row = match first_match(n, &NodeTest::ById("aod-offer-shipsFrom")) {
            Some(row) => row,
            None => {
                return Err(MissingOfferField("ships_from"));
            },
        };
        let ships_col = match first_match(ships_row, &NodeTest::ByClassWord("a-col-right")) {
            Some(col) => col,
            None => {
                return Err(MissingOfferField("ships_from"));
            },
        };
        let no_tests: Vec<NodeTest> = Vec::new();
        proof {
            assert(tests_views(no_tests@) =~= Seq::<NodeTestView>::empty());
        }
        let ships_from = join_texts_trimmed(&chain_texts(ships_col, &no_tests));
        if ships_from.as_str().unicode_len() == 0 {
            proof {
                assert(ships_from_spec(*n) is None);
            }
            return Err(MissingOfferField("ships_from"));
        }
        let seller_row = match first_match(n, &NodeTest::ById("aod-offer-soldBy")) {
            Some(row) => row,
            None => {
                return Err(MissingOfferField("sold_by"));
            },
        };
        let seller_col = match first_match(seller_row, &NodeTest::ByClassWord("a-col-right")) {
            Some(col) => col,
            None => {
                return Err(MissingOfferField("sold_by"));
            },
        };
        let (sold_by, seller_page): (String, Option<String>) = match first_match(
            seller_col,
            &NodeTest::ByTag("a"),
        ) {
            Some(link) => {
                let name = join_texts_trimmed(&chain_texts(link, &no_tests));
                (name, link.attr_value("href"))
            },
            None => {
                let name = join_texts_trimmed(&chain_texts(seller_col, &seller_span_tests()));
                (name, None)
            },
        };
        Ok(
            Offer {
                condition,
                condition_description,
                price,
                ships_from,
                sold_by,
                seller_page,
            },
        )
    }
}

} // verus!

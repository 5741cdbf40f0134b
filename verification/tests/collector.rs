use pricewatch::collect::{collect_page_offers, read_offer_count, remaining_pages};
use pricewatch::dom::HtmlNode;

fn el(name: &str, attrs: &[(&str, &str)], children: Vec<HtmlNode>) -> HtmlNode {
    HtmlNode::Element {
        name: name.to_string(),
        attrs: attrs.iter().map(|(k, v)| (k.to_string(), v.to_string())).collect(),
        children,
    }
}

fn txt(content: &str) -> HtmlNode {
    HtmlNode::Text { content: content.to_string() }
}

fn offer_node(price: &str) -> HtmlNode {
    el(
        "div",
        &[("id", "aod-offer")],
        vec![
            el("div", &[("id", "aod-offer-heading")], vec![txt("New")]),
            el(
                "span",
                &[("class", "a-price")],
                vec![el("span", &[("class", "a-offscreen")], vec![txt(price)])],
            ),
            el(
                "div",
                &[("id", "aod-offer-shipsFrom")],
                vec![el("div", &[("class", "a-col-right")], vec![txt("Nevada")])],
            ),
            el(
                "div",
                &[("id", "aod-offer-soldBy")],
                vec![el(
                    "div",
                    &[("class", "a-col-right")],
                    vec![el("a", &[("href", "/sp?seller=S")], vec![txt("Seller")])],
                )],
            ),
        ],
    )
}

fn counter(text: &str) -> HtmlNode {
    el("div", &[("id", "aod-filter-offer-count-string")], vec![txt(text)])
}

#[test]
fn counter_reads_total() {
    let page = el("div", &[], vec![counter("25 options")]);
    assert_eq!(read_offer_count(&page), Some(25));
}

#[test]
fn counter_absent_or_malformed_reads_nothing() {
    let no_counter = el("div", &[], vec![txt("25 options")]);
    assert_eq!(read_offer_count(&no_counter), None);

    let malformed = el("div", &[], vec![counter("several options")]);
    assert_eq!(read_offer_count(&malformed), None);

    let wrong_suffix = el("div", &[], vec![counter("25 offers")]);
    assert_eq!(read_offer_count(&wrong_suffix), None);
}

#[test]
fn pagination_for_twenty_five_offers() {
    // Twenty-five reported offers at ten per page: pages two and three
    // remain, three fetches in all.
    let page = el("div", &[], vec![counter("25 options")]);
    assert_eq!(remaining_pages(&page), vec![2, 3]);
}

#[test]
fn pagination_stops_without_counter_or_offers() {
    let zero = el("div", &[], vec![counter("0 options")]);
    assert_eq!(remaining_pages(&zero), Vec::<u32>::new());

    let missing = el("div", &[], vec![txt("no counter")]);
    assert_eq!(remaining_pages(&missing), Vec::<u32>::new());

    let one_page = el("div", &[], vec![counter("10 options")]);
    assert_eq!(remaining_pages(&one_page), Vec::<u32>::new());

    let just_over = el("div", &[], vec![counter("11 options")]);
    assert_eq!(remaining_pages(&just_over), vec![2]);
}

#[test]
fn partial_failure_keeps_other_offers() {
    // Five offer nodes, one of them unreadable: four offers come back and
    // the page still counts five nodes; nothing aborts.
    let page = el(
        "div",
        &[],
        vec![
            offer_node("$1.00"),
            offer_node("$2.00"),
            el("div", &[("id", "aod-offer")], vec![txt("broken")]),
            offer_node("$4.00"),
            offer_node("$5.00"),
        ],
    );
    let mut acc = Vec::new();
    let found = collect_page_offers(&page, &mut acc);
    assert_eq!(found, 5);
    assert_eq!(acc.len(), 4);
    let cents: Vec<i64> = acc.iter().map(|o| o.price.cents()).collect();
    assert_eq!(cents, vec![100, 200, 400, 500]);
}

#[test]
fn offers_append_in_document_order() {
    let page = el("div", &[], vec![offer_node("$9.99"), offer_node("$8.88")]);
    let mut acc = Vec::new();
    collect_page_offers(&page, &mut acc);
    collect_page_offers(&page, &mut acc);
    let cents: Vec<i64> = acc.iter().map(|o| o.price.cents()).collect();
    assert_eq!(cents, vec![999, 888, 999, 888]);
}

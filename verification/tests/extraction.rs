use pricewatch::condition::Condition;
use pricewatch::dom::HtmlNode;
use pricewatch::offer::Offer;
use pricewatch::product::{Department, DepartmentHierarchy, Product};

fn el(name: &str, attrs: &[(&str, &str)], children: Vec<HtmlNode>) -> HtmlNode {
    HtmlNode::Element {
        name: name.to_string(),
        attrs: attrs.iter().map(|(k, v)| (k.to_string(), v.to_string())).collect(),
        children,
    }
}

fn txt(content: &str) -> HtmlNode {
    HtmlNode::Text { content: content.to_string() }
}

fn offer_node(price: &str, heading: &str, ships_from: &str, with_link: bool) -> HtmlNode {
    let mut children = vec![
        el(
            "div",
            &[("id", "aod-offer-heading")],
            vec![txt("\n  "), el("h5", &[], vec![txt(heading)])],
        ),
        el(
            "span",
            &[("class", "a-price centralized")],
            vec![el("span", &[("class", "a-offscreen")], vec![txt(price)])],
        ),
        el(
            "div",
            &[("id", "aod-offer-shipsFrom")],
            vec![el("div", &[("class", "a-col-right")], vec![txt(ships_from)])],
        ),
    ];
    let seller_inner = if with_link {
        el("a", &[("href", "/sp?seller=SELLER1")], vec![txt(" Acme Resellers ")])
    } else {
        el(
            "span",
            &[("class", "a-size-small a-color-base")],
            vec![txt(" Amazon.com ")],
        )
    };
    children.push(el(
        "div",
        &[("id", "aod-offer-soldBy")],
        vec![el("div", &[("class", "a-col-right")], vec![seller_inner])],
    ));
    el("div", &[("id", "aod-offer")], children)
}

#[test]
fn offer_extraction_full() {
    let node = offer_node("$12.34", "Used - Good", " New Jersey ", true);
    let offer = Offer::extract(&node).unwrap();
    assert_eq!(offer.condition, Condition::UsedGood);
    assert_eq!(offer.price.cents(), 1234);
    assert_eq!(offer.ships_from, "New Jersey");
    assert_eq!(offer.sold_by, "Acme Resellers");
    assert_eq!(offer.seller_page.as_deref(), Some("/sp?seller=SELLER1"));
    assert!(offer.condition_description.is_none());
}

#[test]
fn offer_extraction_marketplace_seller() {
    let node = offer_node("$5.00", "New", "Kentucky", false);
    let offer = Offer::extract(&node).unwrap();
    assert_eq!(offer.condition, Condition::New);
    assert_eq!(offer.sold_by, "Amazon.com");
    assert!(offer.seller_page.is_none());
}

#[test]
fn offer_extraction_missing_price_fails() {
    let node = el(
        "div",
        &[("id", "aod-offer")],
        vec![el("div", &[("id", "aod-offer-heading")], vec![txt("New")])],
    );
    let err = Offer::extract(&node).unwrap_err();
    assert_eq!(err.0, "price");
}

#[test]
fn offer_extraction_missing_ships_from_fails() {
    let node = el(
        "div",
        &[("id", "aod-offer")],
        vec![
            el("div", &[("id", "aod-offer-heading")], vec![txt("New")]),
            el(
                "span",
                &[("class", "a-price")],
                vec![el("span", &[("class", "a-offscreen")], vec![txt("$3.99")])],
            ),
        ],
    );
    let err = Offer::extract(&node).unwrap_err();
    assert_eq!(err.0, "ships_from");
}

#[test]
fn offer_extraction_reads_condition_description() {
    let mut node = offer_node("$1.00", "Used - Acceptable", "Ohio", true);
    if let HtmlNode::Element { children, .. } = &mut node {
        children.push(el(
            "div",
            &[("id", "aod-condition-container")],
            vec![el(
                "span",
                &[("class", "expandable-expanded-text")],
                vec![txt("Light scratches on the lid.")],
            )],
        ));
    }
    let offer = Offer::extract(&node).unwrap();
    assert_eq!(
        offer.condition_description.as_deref(),
        Some("Light scratches on the lid.")
    );
}

fn product_doc(with_asin_row: bool) -> HtmlNode {
    let mut rows = Vec::new();
    if with_asin_row {
        rows.push(el(
            "tr",
            &[],
            vec![
                el("th", &[], vec![txt(" ASIN ")]),
                el("td", &[], vec![txt(" B07VGRJDFY ")]),
            ],
        ));
    }
    rows.push(el(
        "tr",
        &[],
        vec![
            el("th", &[], vec![txt(" Manufacturer ")]),
            el("td", &[], vec![txt(" Acme Corp ")]),
        ],
    ));
    el(
        "html",
        &[],
        vec![
            el("span", &[("id", "productTitle")], vec![txt("\n  Fancy Kettle  ")]),
            el(
                "div",
                &[("id", "wayfinding-breadcrumbs_feature_div")],
                vec![
                    el("a", &[("href", "/b/?node=100")], vec![txt(" Home ")]),
                    el("a", &[("href", "/b/ref=x?ie=UTF8&node=2205")], vec![txt(" Kitchen ")]),
                    el("a", &[("href", "/b/no-node-here")], vec![txt(" Broken ")]),
                ],
            ),
            el(
                "table",
                &[("id", "productDetails_detailBullets_sections1")],
                rows,
            ),
        ],
    )
}

#[test]
fn product_extraction_full() {
    let doc = product_doc(true);
    let product = Product::extract(&doc).unwrap();
    assert_eq!(product.asin, "B07VGRJDFY");
    assert_eq!(product.name, "Fancy Kettle");
    assert_eq!(product.manufacturer, "Acme Corp");
    let departments = &product.department.departments;
    assert_eq!(departments.len(), 2);
    assert_eq!(departments[0].name, "Home");
    assert_eq!(departments[0].node, 100);
    assert_eq!(departments[1].name, "Kitchen");
    assert_eq!(departments[1].node, 2205);
}

#[test]
fn product_extraction_missing_asin_row_fails() {
    let doc = product_doc(false);
    assert!(Product::extract(&doc).is_err());
}

#[test]
fn hierarchy_empty_without_breadcrumbs() {
    let doc = el("html", &[], vec![txt("nothing here")]);
    let hierarchy = DepartmentHierarchy::extract(&doc);
    assert!(hierarchy.departments.is_empty());
}

#[test]
fn department_link_parsing() {
    let good = el("a", &[("href", "/b/?node=456")], vec![txt("Books")]);
    let dept = Department::from_link(&good).unwrap();
    assert_eq!(dept.name, "Books");
    assert_eq!(dept.node, 456);

    let no_id = el("a", &[("href", "/b/?category=456")], vec![txt("Books")]);
    assert!(Department::from_link(&no_id).is_err());

    let no_href = el("a", &[], vec![txt("Books")]);
    assert!(Department::from_link(&no_href).is_err());
}

#[test]
fn department_url_format() {
    let dept = Department { name: "Books".to_string(), node: 123 };
    assert_eq!(dept.url(), "https://amazon.com/b/?node=123");
}

#[test]
fn offer_price_skips_unparsable_texts() {
    let node = el(
        "div",
        &[("id", "aod-offer")],
        vec![
            el("div", &[("id", "aod-offer-heading")], vec![txt("New")]),
            el(
                "span",
                &[("class", "a-price")],
                vec![
                    el("span", &[("class", "a-offscreen")], vec![txt("Price:")]),
                    el("span", &[("class", "a-offscreen")], vec![txt("$3.50")]),
                ],
            ),
            el(
                "div",
                &[("id", "aod-offer-shipsFrom")],
                vec![el("div", &[("class", "a-col-right")], vec![txt("Texas")])],
            ),
            el(
                "div",
                &[("id", "aod-offer-soldBy")],
                vec![el(
                    "div",
                    &[("class", "a-col-right")],
                    vec![el("a", &[("href", "/sp?seller=S")], vec![txt("Seller")])],
                )],
            ),
        ],
    );
    let offer = Offer::extract(&node).unwrap();
    assert_eq!(offer.price.cents(), 350);
}

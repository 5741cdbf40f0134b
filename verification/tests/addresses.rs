use pricewatch::api::{
    asin_is_alphanumeric, content_type_is_utf8, extract_asin, offer_page_url,
    page_indicates_not_found, product_url,
};
use pricewatch::dom::HtmlNode;
use pricewatch::forms::UserCredentials;

#[test]
pub fn test_asin_extraction() {
    assert_eq!(
        extract_asin("https://www.amazon.com/dp/B07VGRJDFY"),
        Some("B07VGRJDFY")
    );

    let long_url = "https://www.amazon.com/Warming-Pets-Removable-Non-Slip-Washable/dp/B096S3QHWL/?_encoding=UTF8&pd_rd_w=DZ6f0&content-id=amzn1.sym.436e9684-a04c-4889-97d3-fc86a74d02fb&pf_rd_p=436e9684-a04c-4889-97d3-fc86a74d02fb&pf_rd_r=C66MWWHFNP8AZJNKEBCS&pd_rd_wg=kFZs4&pd_rd_r=ccf07ba4-b6dd-4daf-8e9e-b499cc9d4f30&ref_=pd_gw_trq_dl&th=1";
    assert_eq!(extract_asin(long_url), Some("B096S3QHWL"));
}

#[test]
fn asin_extraction_rejects_other_addresses() {
    assert_eq!(extract_asin("https://www.amazon.com/gp/help"), None);
    assert_eq!(extract_asin("https://www.amazon.com/dp/short"), None);
    assert_eq!(extract_asin("https://www.amazon.com/dp/b07vgrjdfy"), None);
}

#[test]
fn asin_character_check() {
    assert!(asin_is_alphanumeric("B07VGRJDFY"));
    assert!(asin_is_alphanumeric(""));
    assert!(!asin_is_alphanumeric("B07/GRJDFY"));
    assert!(!asin_is_alphanumeric("B07 GRJDFY"));
}

#[test]
fn catalog_addresses() {
    assert_eq!(
        product_url("B07VGRJDFY"),
        "https://www.amazon.com/dp/B07VGRJDFY"
    );
    assert_eq!(
        offer_page_url("B07VGRJDFY", 1),
        "https://www.amazon.com/gp/product/ajax/ref=dp_aod_ALL_mbc?asin=B07VGRJDFY&m=&qid=&smid=&sourcecustomerorglistid=&sourcecustomerorglistitemid=&sr=&pc=dp&experienceId=aodAjaxMain"
    );
    assert_eq!(
        offer_page_url("B07VGRJDFY", 3),
        "https://www.amazon.com/gp/product/ajax/ref=aod_page_3?asin=B07VGRJDFY&pc=dp&isonlyrenderofferlist=true&pageno=3&experienceId=aodAjaxMain"
    );
}

#[test]
fn charset_detection() {
    assert!(content_type_is_utf8("text/html; charset=UTF-8"));
    assert!(content_type_is_utf8("text/html; charset=utf-8"));
    assert!(!content_type_is_utf8("text/html"));
    assert!(!content_type_is_utf8("text/html; charset=ISO-8859-1"));
}

#[test]
fn not_found_page_detection() {
    let missing = HtmlNode::Element {
        name: "html".to_string(),
        attrs: vec![],
        children: vec![HtmlNode::Element {
            name: "title".to_string(),
            attrs: vec![],
            children: vec![HtmlNode::Text { content: "  Page Not Found ".to_string() }],
        }],
    };
    assert!(page_indicates_not_found(&missing));

    let ok = HtmlNode::Element {
        name: "html".to_string(),
        attrs: vec![],
        children: vec![HtmlNode::Element {
            name: "title".to_string(),
            attrs: vec![],
            children: vec![HtmlNode::Text { content: "Fancy Kettle".to_string() }],
        }],
    };
    assert!(!page_indicates_not_found(&ok));
}

#[test]
fn password_rules() {
    let short = UserCredentials { email: "a@b.c", password: "short" };
    assert_eq!(
        short.check_password_for_issues(),
        Some("Password must be at least 8 characters")
    );

    let fine = UserCredentials { email: "a@b.c", password: "password123" };
    assert_eq!(fine.check_password_for_issues(), None);

    let long_password = "x".repeat(513);
    let long = UserCredentials { email: "a@b.c", password: &long_password };
    assert_eq!(
        long.check_password_for_issues(),
        Some("Password can not be more than 512 characters")
    );
}

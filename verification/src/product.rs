//! Extraction of the product record: detail rows, title, and the breadcrumb
//! department hierarchy.

use crate::dom::{
    all_matches, chain_texts, chain_texts_spec, deref_all, first_in, first_match,
    join_plain, join_texts_plain, matches_in, node_attr, str_views, tests_views, HtmlNode,
    NodeTest, NodeTestView,
};
use crate::text::{
    all_digits, digits_val, is_digit_char, parse_digit_run_str, push_dec_u64, str_eq, trim,
    trim_spec,
};
use vstd::prelude::*;

verus! {

/// A required part of the product page was absent.
#[derive(Copy, Clone, Debug)]
pub struct ItemNotfound;

/// One step of the breadcrumb path: a department name and its numeric
/// category id.
#[derive(Debug)]
pub struct Department {
    pub name: String,
    pub node: u64,
}

/// The breadcrumb path, root first; empty when the page shows none.
#[derive(Debug)]
pub struct DepartmentHierarchy {
    pub departments: Vec<Department>,
}

/// A full product record; every field is required.
#[derive(Debug)]
pub struct Product {
    pub asin: String,
    pub name: String,
    pub department: DepartmentHierarchy,
    pub manufacturer: String,
}

/// Contract-level image of a department: its name and category id.
pub open spec fn dept_view(d: Department) -> (Seq<char>, u64) {
    (d.name@, d.node)
}

pub open spec fn dept_views(s: Seq<Department>) -> Seq<(Seq<char>, u64)> {
    s.map_values(|d: Department| dept_view(d))
}

/// Contract-level image of a product.
pub struct ProductView {
    pub asin: Seq<char>,
    pub name: Seq<char>,
    pub department: Seq<(Seq<char>, u64)>,
    pub manufacturer: Seq<char>,
}

impl View for Product {
    type V = ProductView;

    open spec fn view(&self) -> ProductView {
        ProductView {
            asin: self.asin@,
            name: self.name@,
            department: dept_views(self.department.departments@),
            manufacturer: self.manufacturer@,
        }
    }
}

// ---------------------------------------------------------------------------
// Category id in a breadcrumb link's address
// ---------------------------------------------------------------------------

/// How many characters at the end of `h` are decimal digits.
pub open spec fn trailing_digits(h: Seq<char>) -> nat
    decreases h.len(),
{
    if h.len() > 0 && is_digit_char(h.last()) {
        1 + trailing_digits(h.drop_last())
    } else {
        0
    }
}

/// The category id at the end of a breadcrumb address: a final run of
/// digits, preceded by `node=`, preceded by `?` or `&`.
pub open spec fn href_node_id(h: Seq<char>) -> Option<u64> {
    let k = trailing_digits(h) as int;
    let start = h.len() - k;
    if k > 0 && start >= 6 && h.subrange(start - 5, start) == "node="@ && (h[start - 6] == '?'
        || h[start - 6] == '&') {
        if digits_val(h.subrange(start, h.len() as int)) <= u64::MAX {
            Some(digits_val(h.subrange(start, h.len() as int)) as u64)
        } else {
            None
        }
    } else {
        None
    }
}

proof fn lemma_trailing_digits_at(h: Seq<char>, k: int)
    requires
        0 <= k <= h.len(),
        forall|j: int| h.len() - k <= j < h.len() ==> is_digit_char(#[trigger] h[j]),
        k == h.len() || !is_digit_char(h[h.len() - k - 1]),
    ensures
        trailing_digits(h) == k,
    decreases k,
{
    if k == 0 {
        if h.len() > 0 {
            assert(!is_digit_char(h.last()));
        }
    } else {
        let t = h.drop_last();
        lemma_trailing_digits_at(t, k - 1);
    }
}

/// Read the category id out of a breadcrumb address.
#[verifier::loop_isolation(false)]
pub fn parse_node_id(href: &str) -> (r: Option<u64>)
    ensures
        r == href_node_id(href@),
{
    let n = href.unicode_len();
    let mut k: usize = 0;
    while k < n && crate::text::is_digit(href.get_char(n - 1 - k))
        invariant
            0 <= k <= n,
            forall|j: int| n - k <= j < n ==> is_digit_char(#[trigger] href@[j]),
        decreases n - k,
    {
        k = k + 1;
    }
    proof {
        lemma_trailing_digits_at(href@, k as int);
    }
    if k == 0 {
        return None;
    }
    let start = n - k;
    if start < 6 {
        return None;
    }
    let tag = href.substring_char(start - 5, start);
    if !str_eq(tag, "node=") {
        return None;
    }
    let pre = href.get_char(start - 6);
    if !(pre == '?' || pre == '&') {
        return None;
    }
    let run = parse_digit_run_str(href, start);
    proof {
        let body = href@.subrange(start as int, n as int);
        assert(body.len() == k);
        assert forall|j: int| 0 <= j < body.len() implies is_digit_char(#[trigger] body[j]) by {
            assert(body[j] == href@[start + j]);
        }
        assert(all_digits(body));
    }
    run
}

// ---------------------------------------------------------------------------
// Departments from breadcrumb links
// ---------------------------------------------------------------------------

/// What a breadcrumb link yields: its trimmed text content as the name, and
/// the category id from its address; nothing when either is missing.
pub open spec fn department_spec(n: HtmlNode) -> Option<(Seq<char>, u64)> {
    match node_attr(n, "href"@) {
        None => None,
        Some(h) => match href_node_id(h) {
            None => None,
            Some(id) => Some(
                (trim_spec(join_plain(chain_texts_spec(n, Seq::<NodeTestView>::empty()))), id),
            ),
        },
    }
}

impl Department {
    /// The department's catalog address.
    pub fn url(&self) -> (r: String)
        ensures
            r@ == "https://amazon.com/b/?node="@ + crate::text::dec_str_of(self.node as nat),
    {
        let mut out = String::from_str("https://amazon.com/b/?node=");
        push_dec_u64(self.node, &mut out);
        out
    }

    /// Read one department out of a breadcrumb link.
    pub fn from_link(n: &HtmlNode) -> (r: Result<Department, ItemNotfound>)
        ensures
            match r {
                Ok(d) => department_spec(*n) == Some(dept_view(d)),
                Err(_) => department_spec(*n) is None,
            },
    {
        let href = match n.attr_value("href") {
            Some(h) => h,
            None => {
                return Err(ItemNotfound);
            },
        };
        let id = match parse_node_id(href.as_str()) {
            Some(id) => id,
            None => {
                return Err(ItemNotfound);
            },
        };
        let no_tests: Vec<NodeTest> = Vec::new();
        proof {
            assert(tests_views(no_tests@) =~= Seq::<NodeTestView>::empty());
        }
        let joined = join_texts_plain(&chain_texts(n, &no_tests));
        let name = String::from_str(trim(joined.as_str()));
        Ok(Department { name, node: id })
    }
}

/// The departments read from a list of links, keeping those that yield one,
/// in order.
pub open spec fn departments_of(links: Seq<HtmlNode>) -> Seq<(Seq<char>, u64)>
    decreases links.len(),
{
    if links.len() == 0 {
        Seq::<(Seq<char>, u64)>::empty()
    } else {
        let rest = departments_of(links.subrange(1, links.len() as int));
        match department_spec(links[0]) {
            Some(d) => seq![d] + rest,
            None => rest,
        }
    }
}

proof fn lemma_departments_take_step(links: Seq<HtmlNode>, i: int)
    requires
        0 <= i < links.len(),
    ensures
        departments_of(links.subrange(0, i + 1)) == departments_of(links.subrange(0, i)) + (
        match department_spec(links[i]) {
            Some(d) => seq![d],
            None => Seq::<(Seq<char>, u64)>::empty(),
        }),
    decreases i,
{
    if i == 0 {
        let single = links.subrange(0, 1);
        assert(single.len() == 1);
        assert(single[0] == links[0]);
        assert(single.subrange(1, single.len() as int) =~= Seq::<HtmlNode>::empty());
        assert(departments_of(single.subrange(1, single.len() as int))
            == Seq::<(Seq<char>, u64)>::empty());
        match department_spec(links[0]) {
            Some(d) => {
                assert(departments_of(single) =~= seq![d]);
                assert(departments_of(links.subrange(0, 0)) + seq![d] =~= seq![d]);
            },
            None => {
                assert(departments_of(single) =~= Seq::<(Seq<char>, u64)>::empty());
                assert(departments_of(links.subrange(0, 0)) + Seq::<(Seq<char>, u64)>::empty()
                    =~= Seq::<(Seq<char>, u64)>::empty());
            },
        }
    } else {
        let rest = links.subrange(1, links.len() as int);
        lemma_departments_take_step(rest, i - 1);
        assert(rest.subrange(0, i) =~= links.subrange(1, i + 1));
        assert(rest.subrange(0, i - 1) =~= links.subrange(1, i));
        assert(rest[i - 1] == links[i]);
        let front1 = links.subrange(0, i + 1);
        assert(front1[0] == links[0]);
        assert(front1.subrange(1, front1.len() as int) =~= links.subrange(1, i + 1));
        let front0 = links.subrange(0, i);
        assert(front0[0] == links[0]);
        assert(front0.subrange(1, front0.len() as int) =~= links.subrange(1, i));
        match department_spec(links[0]) {
            Some(d) => {
                assert(departments_of(front1) =~= departments_of(front0) + (
                match department_spec(links[i]) {
                    Some(x) => seq![x],
                    None => Seq::<(Seq<char>, u64)>::empty(),
                }));
            },
            None => {
                assert(departments_of(front1) =~= departments_of(front0) + (
                match department_spec(links[i]) {
                    Some(x) => seq![x],
                    None => Seq::<(Seq<char>, u64)>::empty(),
                }));
            },
        }
    }
}

/// What the page's breadcrumb section yields: the departments of its links,
/// in page order; empty when the section is absent.
pub open spec fn hierarchy_spec(doc: HtmlNode) -> Seq<(Seq<char>, u64)> {
    match first_in(doc, NodeTestView::ById("wayfinding-breadcrumbs_feature_div"@)) {
        None => Seq::<(Seq<char>, u64)>::empty(),
        Some(div) => departments_of(matches_in(div, NodeTestView::ByTag("a"@))),
    }
}

impl DepartmentHierarchy {
    /// Read the breadcrumb path out of the document.
    #[verifier::loop_isolation(false)]
    pub fn extract(doc: &HtmlNode) -> (r: DepartmentHierarchy)
        ensures
            dept_views(r.departments@) == hierarchy_spec(*doc),
    {
        let mut acc: Vec<Department> = Vec::new();
        let div = match first_match(doc, &NodeTest::ById("wayfinding-breadcrumbs_feature_div")) {
            Some(d) => d,
            None => {
                proof {
                    assert(dept_views(acc@) =~= hierarchy_spec(*doc));
                }
                return DepartmentHierarchy { departments: acc };
            },
        };
        let links = all_matches(div, &NodeTest::ByTag("a"));
        let n = links.len();
        let ghost all = deref_all(links@);
        proof {
            assert(dept_views(acc@) =~= departments_of(all.subrange(0, 0)));
        }
        let mut i: usize = 0;
        while i < n
            invariant
                0 <= i <= n,
                dept_views(acc@) == departments_of(all.subrange(0, i as int)),
            decreases n - i,
        {
            proof {
                assert(all[i as int] == *links@[i as int]);
            }
            match Department::from_link(links[i]) {
                Ok(d) => {
                    acc.push(d);
                },
                Err(_) => {},
            }
            proof {
                lemma_departments_take_step(all, i as int);
                assert(dept_views(acc@) =~= departments_of(all.subrange(0, i + 1)));
            }
            i = i + 1;
        }
        proof {
            assert(all.subrange(0, n as int) =~= all);
        }
        DepartmentHierarchy { departments: acc }
    }
}

// ---------------------------------------------------------------------------
// Detail table and title
// ---------------------------------------------------------------------------

pub open spec fn th_chain() -> Seq<NodeTestView> {
    seq![NodeTestView::ByTag("th"@)]
}

pub open spec fn td_chain() -> Seq<NodeTestView> {
    seq![NodeTestView::ByTag("td"@)]
}

/// A table row one of whose header texts, trimmed, equals the key.
pub open spec fn row_matches_key(row: HtmlNode, key: Seq<char>) -> bool {
    exists|i: int|
        0 <= i < chain_texts_spec(row, th_chain()).len() && trim_spec(
            #[trigger] chain_texts_spec(row, th_chain())[i],
        ) == key
}

pub open spec fn first_matching_row(rows: Seq<HtmlNode>, key: Seq<char>) -> Option<HtmlNode>
    decreases rows.len(),
{
    if rows.len() == 0 {
        None
    } else if row_matches_key(rows[0], key) {
        Some(rows[0])
    } else {
        first_matching_row(rows.subrange(1, rows.len() as int), key)
    }
}

/// Value of the detail row labelled `key`: the first text of a value cell of
/// the first matching row, trimmed.
pub open spec fn detail_value_spec(doc: HtmlNode, key: Seq<char>) -> Option<Seq<char>> {
    match first_in(doc, NodeTestView::ById("productDetails_detailBullets_sections1"@)) {
        None => None,
        Some(table) => match first_matching_row(
            matches_in(table, NodeTestView::ByTag("tr"@)),
            key,
        ) {
            None => None,
            Some(row) => {
                let ts = chain_texts_spec(row, td_chain());
                if ts.len() > 0 {
                    Some(trim_spec(ts[0]))
                } else {
                    None
                }
            },
        },
    }
}

fn th_tests() -> (r: Vec<NodeTest<'static>>)
    ensures
        tests_views(r@) == th_chain(),
{
    let mut v: Vec<NodeTest<'static>> = Vec::new();
    v.push(NodeTest::ByTag("th"));
    proof {
        assert(tests_views(v@) =~= th_chain());
    }
    v
}

fn td_tests() -> (r: Vec<NodeTest<'static>>)
    ensures
        tests_views(r@) == td_chain(),
{
    let mut v: Vec<NodeTest<'static>> = Vec::new();
    v.push(NodeTest::ByTag("td"));
    proof {
        assert(tests_views(v@) =~= td_chain());
    }
    v
}

/// Whether the row carries the key in one of its header cells.
#[verifier::loop_isolation(false)]
fn row_has_key(row: &HtmlNode, key: &str) -> (r: bool)
    ensures
        r == row_matches_key(*row, key@),
{
    let texts = chain_texts(row, &th_tests());
    let n = texts.len();
    let mut j: usize = 0;
    while j < n
        invariant
            0 <= j <= n,
            forall|k: int|
                0 <= k < j ==> trim_spec(#[trigger] str_views(texts@)[k]) != key@,
        decreases n - j,
    {
        let t = trim(texts[j].as_str());
        if str_eq(t, key) {
            proof {
                assert(trim_spec(str_views(texts@)[j as int]) == key@);
            }
            return true;
        }
        j = j + 1;
    }
    proof {
        assert(!row_matches_key(*row, key@));
    }
    false
}

/// Value of the detail row labelled `key`, trimmed, if the table, the row
/// and its value cell are all present.
#[verifier::loop_isolation(false)]
pub fn read_product_info(doc: &HtmlNode, key: &str) -> (r: Option<String>)
    ensures
        match r {
            Some(v) => detail_value_spec(*doc, key@) == Some(v@),
            None => detail_value_spec(*doc, key@) is None,
        },
{
    let table = match first_match(doc, &NodeTest::ById("productDetails_detailBullets_sections1")) {
        Some(t) => t,
        None => {
            return None;
        },
    };
    let rows = all_matches(table, &NodeTest::ByTag("tr"));
    let ghost all = deref_all(rows@);
    let n = rows.len();
    proof {
        assert(all.subrange(0, n as int) =~= all);
    }
    let mut i: usize = 0;
    while i < n
        invariant
            0 <= i <= n,
            first_matching_row(all, key@) == first_matching_row(
                all.subrange(i as int, n as int),
                key@,
            ),
        decreases n - i,
    {
        proof {
            let rest = all.subrange(i as int, n as int);
            assert(rest[0] == all[i as int]);
            assert(rest.subrange(1, rest.len() as int) =~= all.subrange(i + 1, n as int));
            assert(all[i as int] == *rows@[i as int]);
        }
        if row_has_key(rows[i], key) {
            let texts = chain_texts(rows[i], &td_tests());
            if texts.len() > 0 {
                let v = String::from_str(trim(texts[0].as_str()));
                proof {
                    assert(v@ == trim_spec(str_views(texts@)[0]));
                }
                return Some(v);
            }
            return None;
        }
        i = i + 1;
    }
    proof {
        assert(all.subrange(n as int, n as int) =~= Seq::<HtmlNode>::empty());
    }
    None
}

/// The product title: the first text under the title element, trimmed.
pub open spec fn title_spec(doc: HtmlNode) -> Option<Seq<char>> {
    match first_in(doc, NodeTestView::ById("productTitle"@)) {
        None => None,
        Some(t) => {
            let ts = chain_texts_spec(t, Seq::<NodeTestView>::empty());
            if ts.len() > 0 {
                Some(trim_spec(ts[0]))
            } else {
                None
            }
        },
    }
}

/// Read the product title off the page.
pub fn read_title(doc: &HtmlNode) -> (r: Option<String>)
    ensures
        match r {
            Some(v) => title_spec(*doc) == Some(v@),
            None => title_spec(*doc) is None,
        },
{
    let title_node = match first_match(doc, &NodeTest::ById("productTitle")) {
        Some(t) => t,
        None => {
            return None;
        },
    };
    let no_tests: Vec<NodeTest> = Vec::new();
    proof {
        assert(tests_views(no_tests@) =~= Seq::<NodeTestView>::empty());
    }
    let texts = chain_texts(title_node, &no_tests);
    if texts.len() > 0 {
        let v = String::from_str(trim(texts[0].as_str()));
        proof {
            assert(v@ == trim_spec(str_views(texts@)[0]));
        }
        Some(v)
    } else {
        None
    }
}

/// The whole product record, or nothing when a required part is absent: the
/// identifier and manufacturer rows, the title, and the breadcrumb path,
/// which alone may be empty.
pub open spec fn extract_product_spec(doc: HtmlNode) -> Option<ProductView> {
    match (detail_value_spec(doc, "ASIN"@), detail_value_spec(doc, "Manufacturer"@), title_spec(
        doc,
    )) {
        (Some(a), Some(m), Some(t)) => Some(
            ProductView { asin: a, name: t, department: hierarchy_spec(doc), manufacturer: m },
        ),
        _ => None,
    }
}

impl Product {
    /// Read the product record off the page; no partial record is ever
    /// returned.
    pub fn extract(doc: &HtmlNode) -> (r: Result<Product, ItemNotfound>)
        ensures
            match r {
                Ok(p) => extract_product_spec(*doc) == Some(p@),
                Err(_) => extract_product_spec(*doc) is None,
            },
    {
        let asin = match read_product_info(doc, "ASIN") {
            Some(a) => a,
            None => {
                return Err(ItemNotfound);
            },
        };
        let manufacturer = match read_product_info(doc, "Manufacturer") {
            Some(m) => m,
            None => {
                return Err(ItemNotfound);
            },
        };
        let department = DepartmentHierarchy::extract(doc);
        let name = match read_title(doc) {
            Some(t) => t,
            None => {
                return Err(ItemNotfound);
            },
        };
        Ok(Product { asin, name, department, manufacturer })
    }
}


} // verus!

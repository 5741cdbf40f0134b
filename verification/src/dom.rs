//! An owned document tree and the queries the extractors run over it: the
//! callers parse markup outside and hand the tree in as plain values.

use crate::text::{is_space, is_space_char, str_eq};
use vstd::prelude::*;

verus! {

/// One node of a parsed document: an element with a tag name, attributes and
/// children, or a run of character data.
pub enum HtmlNode {
    Element { name: String, attrs: Vec<(String, String)>, children: Vec<HtmlNode> },
    Text { content: String },
}

/// First value for `key` in an attribute list.
pub open spec fn attr_lookup(attrs: Seq<(String, String)>, key: Seq<char>) -> Option<Seq<char>>
    decreases attrs.len(),
{
    if attrs.len() == 0 {
        None
    } else if attrs[0].0@ == key {
        Some(attrs[0].1@)
    } else {
        attr_lookup(attrs.subrange(1, attrs.len() as int), key)
    }
}

/// Value of attribute `key` on `n`, if `n` is an element that carries it.
pub open spec fn node_attr(n: HtmlNode, key: Seq<char>) -> Option<Seq<char>> {
    match n {
        HtmlNode::Element { attrs, .. } => attr_lookup(attrs@, key),
        HtmlNode::Text { .. } => None,
    }
}

/// `w` occurs at position `i` of `s` as a whitespace-delimited word.
pub open spec fn word_at(s: Seq<char>, w: Seq<char>, i: int) -> bool {
    &&& 0 <= i
    &&& i + w.len() <= s.len()
    &&& s.subrange(i, i + w.len()) == w
    &&& (i == 0 || is_space_char(s[i - 1]))
    &&& (i + w.len() == s.len() || is_space_char(s[i + w.len()]))
}

/// `w` is one of the whitespace-separated words of `s`.
pub open spec fn contains_word(s: Seq<char>, w: Seq<char>) -> bool {
    &&& w.len() > 0
    &&& (forall|j: int| 0 <= j < w.len() ==> !is_space_char(#[trigger] w[j]))
    &&& exists|i: int| word_at(s, w, i)
}

/// The node is an element whose `class` attribute lists the word `w`.
pub open spec fn node_has_class(n: HtmlNode, w: Seq<char>) -> bool {
    match node_attr(n, "class"@) {
        Some(cls) => contains_word(cls, w),
        None => false,
    }
}

/// The node is an element with tag name `t`.
pub open spec fn node_has_name(n: HtmlNode, t: Seq<char>) -> bool {
    match n {
        HtmlNode::Element { name, .. } => name@ == t,
        HtmlNode::Text { .. } => false,
    }
}

/// The node is an element whose `id` attribute equals `id`.
pub open spec fn node_has_id(n: HtmlNode, id: Seq<char>) -> bool {
    node_attr(n, "id"@) == Some(id)
}

impl HtmlNode {
    /// Look an attribute up, handing back a copy of its value.
    pub fn attr_value(&self, key: &str) -> (r: Option<String>)
        ensures
            match r {
                Some(v) => node_attr(*self, key@) == Some(v@),
                None => node_attr(*self, key@) is None,
            },
    {
        match self {
            HtmlNode::Text { .. } => None,
            HtmlNode::Element { attrs, .. } => {
                let n = attrs.len();
                proof {
                    assert(attrs@.subrange(0, n as int) =~= attrs@);
                }
                let mut i: usize = 0;
                while i < n
                    invariant
                        n == attrs@.len(),
                        0 <= i <= n,
                        node_attr(*self, key@) == attr_lookup(attrs@, key@),
                        attr_lookup(attrs@, key@) == attr_lookup(
                            attrs@.subrange(i as int, n as int),
                            key@,
                        ),
                    decreases n - i,
                {
                    let hit = str_eq(attrs[i].0.as_str(), key);
                    proof {
                        let rest = attrs@.subrange(i as int, n as int);
                        assert(rest[0] == attrs@[i as int]);
                        assert(rest.subrange(1, rest.len() as int) =~= attrs@.subrange(
                            i + 1,
                            n as int,
                        ));
                        if attrs@[i as int].0@ == key@ {
                            assert(attr_lookup(rest, key@) == Some(rest[0].1@));
                        } else {
                            assert(attr_lookup(rest, key@) == attr_lookup(
                                rest.subrange(1, rest.len() as int),
                                key@,
                            ));
                        }
                    }
                    if hit {
                        let v = String::from_str(attrs[i].1.as_str());
                        proof {
                            assert(v@ == attrs@[i as int].1@);
                            assert(attr_lookup(attrs@, key@) == Some(v@));
                        }
                        return Some(v);
                    }
                    i = i + 1;
                }
                proof {
                    assert(attrs@.subrange(n as int, n as int) =~= Seq::<(String, String)>::empty());
                }
                None
            },
        }
    }
}

/// Whether `w` is one of the whitespace-separated words of `s`.
pub fn word_in(s: &str, w: &str) -> (r: bool)
    ensures
        r == contains_word(s@, w@),
{
    let m = w.unicode_len();
    if m == 0 {
        return false;
    }
    let mut j: usize = 0;
    while j < m
        invariant
            m == w@.len(),
            0 <= j <= m,
            forall|k: int| 0 <= k < j ==> !is_space_char(#[trigger] w@[k]),
        decreases m - j,
    {
        if is_space(w.get_char(j)) {
            return false;
        }
        j = j + 1;
    }
    let n = s.unicode_len();
    if n < m {
        proof {
            assert forall|i: int| !word_at(s@, w@, i) by {}
        }
        return false;
    }
    let mut i: usize = 0;
    while i <= n - m
        invariant
            m == w@.len(),
            n == s@.len(),
            0 < m <= n,
            0 <= i <= n - m + 1,
            forall|k: int| 0 <= k < w@.len() ==> !is_space_char(#[trigger] w@[k]),
            forall|k: int| 0 <= k < i ==> !word_at(s@, w@, k),
        decreases n - m - i + 1,
    {
        let left_ok = i == 0 || is_space(s.get_char(i - 1));
        let right_ok = i + m == n || is_space(s.get_char(i + m));
        if left_ok && right_ok {
            let piece = s.substring_char(i, i + m);
            if str_eq(piece, w) {
                proof {
                    assert(word_at(s@, w@, i as int));
                }
                return true;
            }
            proof {
                assert(s@.subrange(i as int, i as int + m as int) != w@);
            }
        }
        proof {
            assert(!word_at(s@, w@, i as int));
        }
        i = i + 1;
    }
    proof {
        assert forall|k: int| !word_at(s@, w@, k) by {
            if 0 <= k <= n - m {
                assert(!word_at(s@, w@, k));
            }
        }
    }
    false
}

/// One test a query runs against a node.
pub enum NodeTest<'a> {
    /// The element's `id` attribute equals the given text.
    ById(&'a str),
    /// The element's `class` attribute lists the given word.
    ByClassWord(&'a str),
    /// The element's tag name equals the given text.
    ByTag(&'a str),
    /// The tag name and the exact `class` attribute both equal the given
    /// texts.
    ByTagAndClassAttr(&'a str, &'a str),
}

/// A test at the level of contracts: the same alternatives, holding the
/// text each one compares against.
pub enum NodeTestView {
    ById(Seq<char>),
    ByClassWord(Seq<char>),
    ByTag(Seq<char>),
    ByTagAndClassAttr(Seq<char>, Seq<char>),
}

impl<'a> View for NodeTest<'a> {
    type V = NodeTestView;

    open spec fn view(&self) -> NodeTestView {
        match *self {
            NodeTest::ById(id) => NodeTestView::ById(id@),
            NodeTest::ByClassWord(w) => NodeTestView::ByClassWord(w@),
            NodeTest::ByTag(tag) => NodeTestView::ByTag(tag@),
            NodeTest::ByTagAndClassAttr(tag, cls) => NodeTestView::ByTagAndClassAttr(tag@, cls@),
        }
    }
}

/// The views of a sequence of tests.
pub open spec fn tests_views(s: Seq<NodeTest>) -> Seq<NodeTestView> {
    s.map_values(|t: NodeTest| t@)
}

pub open spec fn test_matches(t: NodeTestView, n: HtmlNode) -> bool {
    match t {
        NodeTestView::ById(id) => node_has_id(n, id),
        NodeTestView::ByClassWord(w) => node_has_class(n, w),
        NodeTestView::ByTag(tag) => node_has_name(n, tag),
        NodeTestView::ByTagAndClassAttr(tag, cls) => node_has_name(n, tag) && node_attr(
            n,
            "class"@,
        ) == Some(cls),
    }
}

/// The element's tag name equals `t`.
pub fn has_tag(n: &HtmlNode, t: &str) -> (r: bool)
    ensures
        r == node_has_name(*n, t@),
{
    match n {
        HtmlNode::Element { name, .. } => str_eq(name.as_str(), t),
        HtmlNode::Text { .. } => false,
    }
}

/// Run one `NodeTest` against a node.
pub fn node_matches(t: &NodeTest, n: &HtmlNode) -> (r: bool)
    ensures
        r == test_matches(t@, *n),
{
    match t {
        NodeTest::ById(id) => match n.attr_value("id") {
            Some(v) => str_eq(v.as_str(), id),
            None => false,
        },
        NodeTest::ByClassWord(w) => match n.attr_value("class") {
            Some(cls) => word_in(cls.as_str(), w),
            None => false,
        },
        NodeTest::ByTag(tag) => has_tag(n, tag),
        NodeTest::ByTagAndClassAttr(tag, cls) => {
            if !has_tag(n, tag) {
                return false;
            }
            match n.attr_value("class") {
                Some(v) => str_eq(v.as_str(), cls),
                None => false,
            }
        },
    }
}

// ---------------------------------------------------------------------------
// Matching descendants, in document order
// ---------------------------------------------------------------------------

/// The matches contributed by the subtree rooted at `n`: `n` itself first if
/// it passes the test, then the matches below it, depth first.
pub open spec fn matches_at(n: HtmlNode, t: NodeTestView) -> Seq<HtmlNode>
    decreases n,
{
    match n {
        HtmlNode::Text { .. } => Seq::<HtmlNode>::empty(),
        HtmlNode::Element { children, .. } => {
            let own = if test_matches(t, n) {
                seq![n]
            } else {
                Seq::<HtmlNode>::empty()
            };
            own + matches_list(children@, t)
        },
    }
}

pub open spec fn matches_list(cs: Seq<HtmlNode>, t: NodeTestView) -> Seq<HtmlNode>
    decreases cs,
{
    if cs.len() == 0 {
        Seq::<HtmlNode>::empty()
    } else {
        matches_at(cs[0], t) + matches_list(cs.subrange(1, cs.len() as int), t)
    }
}

/// All strict descendants of `n` passing the test, in document order.
pub open spec fn matches_in(n: HtmlNode, t: NodeTestView) -> Seq<HtmlNode> {
    match n {
        HtmlNode::Text { .. } => Seq::<HtmlNode>::empty(),
        HtmlNode::Element { children, .. } => matches_list(children@, t),
    }
}

proof fn lemma_matches_list_split(cs: Seq<HtmlNode>, t: NodeTestView, i: int)
    requires
        0 <= i <= cs.len(),
    ensures
        matches_list(cs, t) == matches_list(cs.subrange(0, i), t) + matches_list(
            cs.subrange(i, cs.len() as int),
            t,
        ),
    decreases i,
{
    if i == 0 {
        assert(cs.subrange(0, cs.len() as int) =~= cs);
        assert(matches_list(cs.subrange(0, 0), t) + matches_list(cs, t) =~= matches_list(cs, t));
    } else {
        let rest = cs.subrange(1, cs.len() as int);
        lemma_matches_list_split(rest, t, i - 1);
        assert(rest.subrange(0, i - 1) =~= cs.subrange(1, i));
        assert(rest.subrange(i - 1, rest.len() as int) =~= cs.subrange(i, cs.len() as int));
        let front = cs.subrange(0, i);
        assert(front[0] == cs[0]);
        assert(front.subrange(1, front.len() as int) =~= cs.subrange(1, i));
        assert(matches_list(cs, t) =~= matches_list(front, t) + matches_list(
            cs.subrange(i, cs.len() as int),
            t,
        ));
    }
}

proof fn lemma_matches_take_step(cs: Seq<HtmlNode>, t: NodeTestView, i: int)
    requires
        0 <= i < cs.len(),
    ensures
        matches_list(cs.subrange(0, i + 1), t) == matches_list(cs.subrange(0, i), t) + matches_at(
            cs[i],
            t,
        ),
{
    let taken = cs.subrange(0, i + 1);
    lemma_matches_list_split(taken, t, i);
    assert(taken.subrange(0, i) =~= cs.subrange(0, i));
    let single = taken.subrange(i, i + 1);
    assert(single.len() == 1);
    assert(single[0] == cs[i]);
    let tail0 = single.subrange(1, single.len() as int);
    assert(tail0 =~= Seq::<HtmlNode>::empty());
    assert(matches_list(tail0, t) == Seq::<HtmlNode>::empty());
    assert(matches_list(single, t) == matches_at(single[0], t) + matches_list(tail0, t));
    assert(matches_list(single, t) =~= matches_at(cs[i], t));
}

/// First strict descendant of `n` passing the test, in document order.
#[verifier::loop_isolation(false)]
pub fn first_match<'a, 'b>(n: &'a HtmlNode, t: &NodeTest<'b>) -> (r: Option<&'a HtmlNode>)
    ensures
        match r {
            Some(m) => matches_in(*n, t@).len() > 0 && *m == matches_in(*n, t@)[0],
            None => matches_in(*n, t@).len() == 0,
        },
    decreases *n,
{
    match n {
        HtmlNode::Text { .. } => None,
        HtmlNode::Element { children, .. } => {
            let cn = children.len();
            proof {
                assert(matches_list(children@.subrange(0, 0), t@) =~= Seq::<HtmlNode>::empty());
            }
            let mut i: usize = 0;
            while i < cn
                invariant
                    cn == children@.len(),
                    0 <= i <= cn,
                    matches_in(*n, t@) == matches_list(children@, t@),
                    matches_list(children@.subrange(0, i as int), t@) == Seq::<HtmlNode>::empty(),
                decreases cn - i,
            {
                let c = &children[i];
                proof {
                    lemma_matches_list_split(children@, t@, i as int);
                    let suffix = children@.subrange(i as int, cn as int);
                    assert(suffix[0] == children@[i as int]);
                    assert(suffix.subrange(1, suffix.len() as int) =~= children@.subrange(
                        i + 1,
                        cn as int,
                    ));
                }
                if node_matches(t, c) {
                    proof {
                        assert(matches_at(*c, t@)[0] == *c);
                        assert(matches_list(children@, t@)[0] == *c);
                    }
                    return Some(c);
                }
                proof {
                    assert(decreases_to!(*n => children@[i as int]));
                }
                let deeper = first_match(c, t);
                proof {
                    assert(matches_at(*c, t@) =~= matches_in(*c, t@));
                }
                match deeper {
                    Some(m) => {
                        proof {
                            assert(matches_list(children@, t@)[0] == matches_in(*c, t@)[0]);
                        }
                        return Some(m);
                    },
                    None => {
                        proof {
                            lemma_matches_take_step(children@, t@, i as int);
                            assert(matches_list(children@.subrange(0, i + 1), t@)
                                =~= Seq::<HtmlNode>::empty());
                        }
                    },
                }
                i = i + 1;
            }
            proof {
                assert(children@.subrange(0, cn as int) =~= children@);
            }
            None
        },
    }
}

/// First strict descendant of `n` passing the test, as a value.
pub open spec fn first_in(n: HtmlNode, t: NodeTestView) -> Option<HtmlNode> {
    if matches_in(n, t).len() > 0 {
        Some(matches_in(n, t)[0])
    } else {
        None
    }
}

/// The values behind a sequence of node references.
pub open spec fn deref_all(s: Seq<&HtmlNode>) -> Seq<HtmlNode> {
    s.map_values(|x: &HtmlNode| *x)
}

#[verifier::loop_isolation(false)]
fn collect_matches<'a, 'b>(n: &'a HtmlNode, t: &NodeTest<'b>, out: &mut Vec<&'a HtmlNode>)
    ensures
        deref_all(final(out)@) == deref_all(old(out)@) + matches_at(*n, t@),
    decreases *n,
{
    match n {
        HtmlNode::Text { .. } => {
            proof {
                assert(deref_all(out@) =~= deref_all(old(out)@) + matches_at(*n, t@));
            }
        },
        HtmlNode::Element { children, .. } => {
            let ghost own: Seq<HtmlNode> = if test_matches(t@, *n) {
                seq![*n]
            } else {
                Seq::<HtmlNode>::empty()
            };
            if node_matches(t, n) {
                out.push(n);
            }
            proof {
                assert(deref_all(out@) =~= deref_all(old(out)@) + own);
                assert(matches_list(children@.subrange(0, 0), t@) =~= Seq::<HtmlNode>::empty());
                assert(deref_all(out@) =~= deref_all(old(out)@) + own + matches_list(
                    children@.subrange(0, 0),
                    t@,
                ));
            }
            let cn = children.len();
            let mut i: usize = 0;
            while i < cn
                invariant
                    cn == children@.len(),
                    0 <= i <= cn,
                    matches_at(*n, t@) == own + matches_list(children@, t@),
                    deref_all(out@) == deref_all(old(out)@) + own + matches_list(
                        children@.subrange(0, i as int),
                        t@,
                    ),
                decreases cn - i,
            {
                collect_matches(&children[i], t, out);
                proof {
                    lemma_matches_take_step(children@, t@, i as int);
                    assert(deref_all(out@) =~= deref_all(old(out)@) + own + matches_list(
                        children@.subrange(0, i + 1),
                        t@,
                    ));
                }
                i = i + 1;
            }
            proof {
                assert(children@.subrange(0, cn as int) =~= children@);
            }
        },
    }
}

/// All strict descendants of `n` passing the test, in document order.
pub fn all_matches<'a, 'b>(n: &'a HtmlNode, t: &NodeTest<'b>) -> (r: Vec<&'a HtmlNode>)
    ensures
        deref_all(r@) == matches_in(*n, t@),
{
    let mut out: Vec<&HtmlNode> = Vec::new();
    proof {
        assert(deref_all(out@) =~= Seq::<HtmlNode>::empty());
    }
    collect_children_matches(n, t, &mut out);
    proof {
        assert(deref_all(out@) =~= matches_in(*n, t@));
    }
    out
}

#[verifier::loop_isolation(false)]
fn collect_children_matches<'a, 'b>(n: &'a HtmlNode, t: &NodeTest<'b>, out: &mut Vec<
    &'a HtmlNode,
>)
    ensures
        deref_all(final(out)@) == deref_all(old(out)@) + matches_in(*n, t@),
    decreases *n,
{
    match n {
        HtmlNode::Text { .. } => {
            proof {
                assert(deref_all(out@) =~= deref_all(old(out)@) + matches_in(*n, t@));
            }
        },
        HtmlNode::Element { children, .. } => {
            proof {
                assert(matches_list(children@.subrange(0, 0), t@) =~= Seq::<HtmlNode>::empty());
                assert(deref_all(out@) =~= deref_all(old(out)@) + matches_list(
                    children@.subrange(0, 0),
                    t@,
                ));
            }
            let cn = children.len();
            let mut i: usize = 0;
            while i < cn
                invariant
                    cn == children@.len(),
                    0 <= i <= cn,
                    matches_in(*n, t@) == matches_list(children@, t@),
                    deref_all(out@) == deref_all(old(out)@) + matches_list(
                        children@.subrange(0, i as int),
                        t@,
                    ),
                decreases cn - i,
            {
                collect_matches(&children[i], t, out);
                proof {
                    lemma_matches_take_step(children@, t@, i as int);
                    assert(deref_all(out@) =~= deref_all(old(out)@) + matches_list(
                        children@.subrange(0, i + 1),
                        t@,
                    ));
                }
                i = i + 1;
            }
            proof {
                assert(children@.subrange(0, cn as int) =~= children@);
            }
        },
    }
}

// ---------------------------------------------------------------------------
// Texts reached through a chain of tests
// ---------------------------------------------------------------------------

/// The character sequences behind a sequence of strings.
pub open spec fn str_views(s: Seq<String>) -> Seq<Seq<char>> {
    s.map_values(|x: String| x@)
}

/// Texts contributed by the subtree rooted at `n`, given the tests still to
/// be passed: a text node counts once no test is left; an element that
/// passes the next test opens its subtree to the rest of the chain, and every
/// element keeps the whole chain alive for deeper matches.
pub open spec fn texts_at(n: HtmlNode, ts: Seq<NodeTestView>) -> Seq<Seq<char>>
    decreases n,
{
    match n {
        HtmlNode::Text { content } => if ts.len() == 0 {
            seq![content@]
        } else {
            Seq::<Seq<char>>::empty()
        },
        HtmlNode::Element { children, .. } => {
            let through = if ts.len() > 0 && test_matches(ts[0], n) {
                texts_list(children@, ts.subrange(1, ts.len() as int))
            } else {
                Seq::<Seq<char>>::empty()
            };
            through + texts_list(children@, ts)
        },
    }
}

pub open spec fn texts_list(cs: Seq<HtmlNode>, ts: Seq<NodeTestView>) -> Seq<Seq<char>>
    decreases cs,
{
    if cs.len() == 0 {
        Seq::<Seq<char>>::empty()
    } else {
        texts_at(cs[0], ts) + texts_list(cs.subrange(1, cs.len() as int), ts)
    }
}

/// All texts below `n` reached through the chain of tests, in walk order.
pub open spec fn chain_texts_spec(n: HtmlNode, ts: Seq<NodeTestView>) -> Seq<Seq<char>> {
    match n {
        HtmlNode::Text { .. } => Seq::<Seq<char>>::empty(),
        HtmlNode::Element { children, .. } => texts_list(children@, ts),
    }
}

proof fn lemma_texts_list_split(cs: Seq<HtmlNode>, ts: Seq<NodeTestView>, i: int)
    requires
        0 <= i <= cs.len(),
    ensures
        texts_list(cs, ts) == texts_list(cs.subrange(0, i), ts) + texts_list(
            cs.subrange(i, cs.len() as int),
            ts,
        ),
    decreases i,
{
    if i == 0 {
        assert(cs.subrange(0, cs.len() as int) =~= cs);
        assert(texts_list(cs.subrange(0, 0), ts) + texts_list(cs, ts) =~= texts_list(cs, ts));
    } else {
        let rest = cs.subrange(1, cs.len() as int);
        lemma_texts_list_split(rest, ts, i - 1);
        assert(rest.subrange(0, i - 1) =~= cs.subrange(1, i));
        assert(rest.subrange(i - 1, rest.len() as int) =~= cs.subrange(i, cs.len() as int));
        let front = cs.subrange(0, i);
        assert(front[0] == cs[0]);
        assert(front.subrange(1, front.len() as int) =~= cs.subrange(1, i));
        assert(texts_list(cs, ts) =~= texts_list(front, ts) + texts_list(
            cs.subrange(i, cs.len() as int),
            ts,
        ));
    }
}

proof fn lemma_texts_take_step(cs: Seq<HtmlNode>, ts: Seq<NodeTestView>, i: int)
    requires
        0 <= i < cs.len(),
    ensures
        texts_list(cs.subrange(0, i + 1), ts) == texts_list(cs.subrange(0, i), ts) + texts_at(
            cs[i],
            ts,
        ),
{
    let taken = cs.subrange(0, i + 1);
    lemma_texts_list_split(taken, ts, i);
    assert(taken.subrange(0, i) =~= cs.subrange(0, i));
    let single = taken.subrange(i, i + 1);
    assert(single.len() == 1);
    assert(single[0] == cs[i]);
    let tail0 = single.subrange(1, single.len() as int);
    assert(tail0 =~= Seq::<HtmlNode>::empty());
    assert(texts_list(tail0, ts) == Seq::<Seq<char>>::empty());
    assert(texts_list(single, ts) == texts_at(single[0], ts) + texts_list(tail0, ts));
    assert(texts_list(single, ts) =~= texts_at(cs[i], ts));
}

#[verifier::loop_isolation(false)]
fn collect_texts<'a>(n: &HtmlNode, tests: &Vec<NodeTest<'a>>, idx: usize, out: &mut Vec<String>)
    requires
        idx <= tests@.len(),
    ensures
        str_views(final(out)@) == str_views(old(out)@) + texts_at(
            *n,
            tests_views(tests@).subrange(idx as int, tests@.len() as int),
        ),
    decreases *n,
{
    let ghost ts = tests_views(tests@).subrange(idx as int, tests@.len() as int);
    match n {
        HtmlNode::Text { content } => {
            if idx == tests.len() {
                out.push(String::from_str(content.as_str()));
                proof {
                    assert(texts_at(*n, ts) =~= seq![content@]);
                    assert(str_views(out@) =~= str_views(old(out)@) + texts_at(*n, ts));
                }
            } else {
                proof {
                    assert(str_views(out@) =~= str_views(old(out)@) + texts_at(*n, ts));
                }
            }
        },
        HtmlNode::Element { children, .. } => {
            let cn = children.len();
            let ghost through: Seq<Seq<char>> = if ts.len() > 0 && test_matches(ts[0], *n) {
                texts_list(children@, ts.subrange(1, ts.len() as int))
            } else {
                Seq::<Seq<char>>::empty()
            };
            proof {
                assert(texts_at(*n, ts) == through + texts_list(children@, ts));
            }
            if idx < tests.len() && node_matches(&tests[idx], n) {
                let ghost rest = tests_views(tests@).subrange(idx + 1, tests@.len() as int);
                proof {
                    assert(ts[0] == tests@[idx as int]@);
                    assert(rest =~= ts.subrange(1, ts.len() as int));
                    assert(texts_list(children@.subrange(0, 0), rest)
                        =~= Seq::<Seq<char>>::empty());
                }
                let mut i: usize = 0;
                while i < cn
                    invariant
                        0 <= i <= cn,
                        str_views(out@) == str_views(old(out)@) + texts_list(
                            children@.subrange(0, i as int),
                            rest,
                        ),
                    decreases cn - i,
                {
                    collect_texts(&children[i], tests, idx + 1, out);
                    proof {
                        lemma_texts_take_step(children@, rest, i as int);
                        assert(str_views(out@) =~= str_views(old(out)@) + texts_list(
                            children@.subrange(0, i + 1),
                            rest,
                        ));
                    }
                    i = i + 1;
                }
                proof {
                    assert(children@.subrange(0, cn as int) =~= children@);
                    assert(str_views(out@) =~= str_views(old(out)@) + through);
                }
            } else {
                proof {
                    assert(str_views(out@) =~= str_views(old(out)@) + through);
                }
            }
            let ghost mid = out@;
            proof {
                assert(texts_list(children@.subrange(0, 0), ts) =~= Seq::<Seq<char>>::empty());
            }
            let mut i: usize = 0;
            while i < cn
                invariant
                    0 <= i <= cn,
                    str_views(out@) == str_views(mid) + texts_list(
                        children@.subrange(0, i as int),
                        ts,
                    ),
                decreases cn - i,
            {
                collect_texts(&children[i], tests, idx, out);
                proof {
                    lemma_texts_take_step(children@, ts, i as int);
                    assert(str_views(out@) =~= str_views(mid) + texts_list(
                        children@.subrange(0, i + 1),
                        ts,
                    ));
                }
                i = i + 1;
            }
            proof {
                assert(children@.subrange(0, cn as int) =~= children@);
                assert(str_views(out@) =~= str_views(old(out)@) + texts_at(*n, ts));
            }
        },
    }
}

/// All texts below `n` reached through the chain of tests, in walk order.
#[verifier::loop_isolation(false)]
pub fn chain_texts<'a>(n: &HtmlNode, tests: &Vec<NodeTest<'a>>) -> (r: Vec<String>)
    ensures
        str_views(r@) == chain_texts_spec(*n, tests_views(tests@)),
{
    let mut out: Vec<String> = Vec::new();
    match n {
        HtmlNode::Text { .. } => {
            proof {
                assert(str_views(out@) =~= chain_texts_spec(*n, tests_views(tests@)));
            }
        },
        HtmlNode::Element { children, .. } => {
            let cn = children.len();
            proof {
                assert(tests_views(tests@).subrange(0, tests@.len() as int) =~= tests_views(
                    tests@,
                ));
                assert(texts_list(children@.subrange(0, 0), tests_views(tests@))
                    =~= Seq::<Seq<char>>::empty());
                assert(str_views(out@) =~= Seq::<Seq<char>>::empty());
            }
            let mut i: usize = 0;
            while i < cn
                invariant
                    0 <= i <= cn,
                    str_views(out@) == texts_list(
                        children@.subrange(0, i as int),
                        tests_views(tests@),
                    ),
                decreases cn - i,
            {
                collect_texts(&children[i], tests, 0, &mut out);
                proof {
                    lemma_texts_take_step(children@, tests_views(tests@), i as int);
                    assert(str_views(out@) =~= texts_list(
                        children@.subrange(0, i + 1),
                        tests_views(tests@),
                    ));
                }
                i = i + 1;
            }
            proof {
                assert(children@.subrange(0, cn as int) =~= children@);
            }
        },
    }
    out
}

// ---------------------------------------------------------------------------
// Joining collected texts
// ---------------------------------------------------------------------------

/// Concatenation of a sequence of texts.
pub open spec fn join_plain(ts: Seq<Seq<char>>) -> Seq<char>
    decreases ts.len(),
{
    if ts.len() == 0 {
        Seq::<char>::empty()
    } else {
        ts[0] + join_plain(ts.subrange(1, ts.len() as int))
    }
}

/// Concatenation of a sequence of texts, each trimmed first.
pub open spec fn join_trimmed(ts: Seq<Seq<char>>) -> Seq<char>
    decreases ts.len(),
{
    if ts.len() == 0 {
        Seq::<char>::empty()
    } else {
        crate::text::trim_spec(ts[0]) + join_trimmed(ts.subrange(1, ts.len() as int))
    }
}

proof fn lemma_join_plain_step(ts: Seq<Seq<char>>, i: int)
    requires
        0 <= i < ts.len(),
    ensures
        join_plain(ts.subrange(0, i + 1)) == join_plain(ts.subrange(0, i)) + ts[i],
    decreases i,
{
    if i == 0 {
        let single = ts.subrange(0, 1);
        assert(single.len() == 1);
        assert(single[0] == ts[0]);
        assert(single.subrange(1, 1) =~= Seq::<Seq<char>>::empty());
        assert(join_plain(single) == single[0] + join_plain(single.subrange(1, 1)));
        assert(join_plain(single) =~= ts[0]);
        assert(join_plain(ts.subrange(0, 0)) + ts[0] =~= ts[0]);
    } else {
        let rest = ts.subrange(1, ts.len() as int);
        lemma_join_plain_step(rest, i - 1);
        assert(rest.subrange(0, i) =~= ts.subrange(0, i + 1).subrange(1, i + 1));
        assert(rest.subrange(0, i) =~= ts.subrange(1, i + 1));
        assert(rest.subrange(0, i - 1) =~= ts.subrange(1, i));
        assert(rest[i - 1] == ts[i]);
        let front1 = ts.subrange(0, i + 1);
        assert(front1[0] == ts[0]);
        assert(front1.subrange(1, front1.len() as int) =~= ts.subrange(1, i + 1));
        assert(join_plain(front1) == ts[0] + join_plain(ts.subrange(1, i + 1)));
        let front0 = ts.subrange(0, i);
        assert(front0[0] == ts[0]);
        assert(front0.subrange(1, front0.len() as int) =~= ts.subrange(1, i));
        assert(join_plain(front0) == ts[0] + join_plain(ts.subrange(1, i)));
        assert(join_plain(front1) =~= join_plain(front0) + ts[i]);
    }
}

proof fn lemma_join_trimmed_step(ts: Seq<Seq<char>>, i: int)
    requires
        0 <= i < ts.len(),
    ensures
        join_trimmed(ts.subrange(0, i + 1)) == join_trimmed(ts.subrange(0, i))
            + crate::text::trim_spec(ts[i]),
    decreases i,
{
    if i == 0 {
        let single = ts.subrange(0, 1);
        assert(single.len() == 1);
        assert(single[0] == ts[0]);
        assert(single.subrange(1, 1) =~= Seq::<Seq<char>>::empty());
        assert(join_trimmed(single) == crate::text::trim_spec(single[0]) + join_trimmed(
            single.subrange(1, 1),
        ));
        assert(join_trimmed(single) =~= crate::text::trim_spec(ts[0]));
        assert(join_trimmed(ts.subrange(0, 0)) + crate::text::trim_spec(ts[0])
            =~= crate::text::trim_spec(ts[0]));
    } else {
        let rest = ts.subrange(1, ts.len() as int);
        lemma_join_trimmed_step(rest, i - 1);
        assert(rest.subrange(0, i) =~= ts.subrange(1, i + 1));
        assert(rest.subrange(0, i - 1) =~= ts.subrange(1, i));
        assert(rest[i - 1] == ts[i]);
        let front1 = ts.subrange(0, i + 1);
        assert(front1[0] == ts[0]);
        assert(front1.subrange(1, front1.len() as int) =~= ts.subrange(1, i + 1));
        assert(join_trimmed(front1) == crate::text::trim_spec(ts[0]) + join_trimmed(
            ts.subrange(1, i + 1),
        ));
        let front0 = ts.subrange(0, i);
        assert(front0[0] == ts[0]);
        assert(front0.subrange(1, front0.len() as int) =~= ts.subrange(1, i));
        assert(join_trimmed(front0) == crate::text::trim_spec(ts[0]) + join_trimmed(
            ts.subrange(1, i),
        ));
        assert(join_trimmed(front1) =~= join_trimmed(front0) + crate::text::trim_spec(ts[i]));
    }
}

/// Concatenate the texts as they stand.
#[verifier::loop_isolation(false)]
pub fn join_texts_plain(texts: &Vec<String>) -> (r: String)
    ensures
        r@ == join_plain(str_views(texts@)),
{
    let mut out = String::new();
    let n = texts.len();
    proof {
        assert(str_views(texts@).subrange(0, 0) =~= Seq::<Seq<char>>::empty());
    }
    let mut i: usize = 0;
    while i < n
        invariant
            0 <= i <= n,
            out@ == join_plain(str_views(texts@).subrange(0, i as int)),
        decreases n - i,
    {
        out.append(texts[i].as_str());
        proof {
            lemma_join_plain_step(str_views(texts@), i as int);
        }
        i = i + 1;
    }
    proof {
        assert(str_views(texts@).subrange(0, n as int) =~= str_views(texts@));
    }
    out
}

/// Concatenate the texts, trimming each first.
#[verifier::loop_isolation(false)]
pub fn join_texts_trimmed(texts: &Vec<String>) -> (r: String)
    ensures
        r@ == join_trimmed(str_views(texts@)),
{
    let mut out = String::new();
    let n = texts.len();
    proof {
        assert(str_views(texts@).subrange(0, 0) =~= Seq::<Seq<char>>::empty());
    }
    let mut i: usize = 0;
    while i < n
        invariant
            0 <= i <= n,
            out@ == join_trimmed(str_views(texts@).subrange(0, i as int)),
        decreases n - i,
    {
        out.append(crate::text::trim(texts[i].as_str()));
        proof {
            lemma_join_trimmed_step(str_views(texts@), i as int);
        }
        i = i + 1;
    }
    proof {
        assert(str_views(texts@).subrange(0, n as int) =~= str_views(texts@));
    }
    out
}


} // verus!

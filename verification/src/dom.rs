//! Parsed documents and what an agent reads of them: elements found by CSS
//! selector and addressed by numbered handles, their text and HTML, the
//! readable text of a page and its semantic tree.
use vstd::prelude::*;
use crate::html::{
    css_error, css_scoped_matches, debug_quoted, debug_str, document_events, element_inner_html,
    created_before, html_events, inner_html_at, node_created_before, parsed_created_before, json_node_info, node_info_json, parse_html, parsed_document, scoped_matches, selector_error, to_upper,
    upper_str,
};
use crate::text::{
    chars_of, int_decimal, join_with, norm, norm_chars, norm_str, push_all, push_int, push_str,
    str_eq, string_from_chars, trim, trim_chars, trunc, trunc_str,
};
use crate::tree::{
    EventModel, NodeData, NodeKind, TreeModel, build_tree, descendants, element_name,
    get_element_name, is_node, model, push_descendants, push_subtree_text, subtree_text, tree_of,
    tree_wf, children_descendants, is_child_pos, attr_of, get_attr,
};
use crate::urls::{result_view, joined_url, opt_view, parsed_url_serialization, url_join, url_serialization};

verus! {

/// A parsed document: the document itself, the tree the library reads of it,
/// the nodes handed out as numbered handles, and its base URL.
pub struct Doc {
    html: scraper::Html,
    kinds: Vec<NodeData>,
    children: Vec<Vec<usize>>,
    handles: Vec<usize>,
    url: Option<String>,
}

#[verifier::ext_equal]
pub struct DocModel {
    pub events: Seq<EventModel>,
    /// Whether the node at one position was created before the node at
    /// another, as the parser created them.
    pub created: spec_fn(int, int) -> bool,
    pub tree: TreeModel,
    pub handles: Seq<usize>,
    pub url: Option<Seq<char>>,
}

impl View for Doc {
    type V = DocModel;

    closed spec fn view(&self) -> DocModel {
        DocModel {
            events: html_events(self.html),
            created: |i: int, j: int| created_before(self.html, i, j),
            tree: model(self.kinds@, self.children@),
            handles: self.handles@,
            url: opt_view(self.url),
        }
    }
}

/// The tree is the one the document's walk describes, and every handle is a
/// node of it.
pub open spec fn doc_wf(d: DocModel) -> bool {
    &&& d.tree == tree_of(d.events)
    &&& tree_wf(d.tree)
    &&& d.tree.kinds.len() <= usize::MAX
    &&& forall|k: int| 0 <= k < d.handles.len() ==> (#[trigger] d.handles[k]) < d.tree.kinds.len()
}

/// The documents parsed in a session, addressed by their position.
pub struct DocStore {
    docs: Vec<Doc>,
}

impl View for DocStore {
    type V = Seq<DocModel>;

    closed spec fn view(&self) -> Seq<DocModel> {
        self.docs@.map_values(|d: Doc| d@)
    }
}

impl DocStore {
    /// Every document of the store is well formed.
    pub open spec fn wf(&self) -> bool {
        forall|i: int| 0 <= i < self@.len() ==> doc_wf(#[trigger] self@[i])
    }

    /// A store holding no document.
    pub fn new() -> (s: DocStore)
        ensures
            s.wf(),
            s@ == Seq::<DocModel>::empty(),
    {
        let s = DocStore { docs: Vec::new() };
        assert(s@ =~= Seq::<DocModel>::empty());
        s
    }
}

/// The document that `parse` adds for `html` with base URL `base`.
pub open spec fn parsed_doc(html: Seq<char>, base: Option<Seq<char>>) -> DocModel {
    DocModel {
        events: parsed_document(html),
        created: |i: int, j: int| parsed_created_before(html, i, j),
        tree: tree_of(parsed_document(html)),
        handles: seq![],
        url: match base {
            Some(b) => parsed_url_serialization(b),
            None => None,
        },
    }
}

/// Parses `html` as a document whose links resolve against `base` (ignored
/// when it is not a URL), adds it to the store and returns its id.
pub fn parse(store: &mut DocStore, html: &str, base: Option<&str>) -> (id: usize)
    requires
        old(store).wf(),
    ensures
        final(store).wf(),
        final(store)@ == old(store)@.push(
            parsed_doc(
                html@,
                match base {
                    Some(b) => Some(b@),
                    None => None,
                },
            ),
        ),
        id == old(store)@.len(),
{
    let h = parse_html(html);
    let events = document_events(&h);
    let (kinds, children) = build_tree(events);
    let url = match base {
        Some(b) => url_serialization(b),
        None => None,
    };
    let doc = Doc { html: h, kinds, children, handles: Vec::new(), url };
    assert(doc@.tree =~= tree_of(doc@.events));
    assert(doc@.tree.kinds.len() == doc.kinds.len());
    assert(doc@.created =~= (|i: int, j: int| parsed_created_before(html@, i, j)));
    let ghost old_view = store@;
    store.docs.push(doc);
    assert(store@ =~= old_view.push(doc@));
    store.docs.len() - 1
}

/// The error for a document id the store does not hold.
pub open spec fn invalid_doc() -> Seq<char> {
    "invalid document id"@
}

/// The first element child of node `i`, from its `k`-th child on.
pub open spec fn first_element_child(t: TreeModel, i: int, k: int) -> Option<int>
    decreases t.children[i].len() - k,
{
    if !is_node(t, i) || k < 0 || k >= t.children[i].len() {
        None
    } else {
        let c = t.children[i][k] as int;
        if is_child_pos(t, i, c) && element_name(t, c) is Some {
            Some(c)
        } else {
            first_element_child(t, i, k + 1)
        }
    }
}

/// The document's root element: the first element child of the document node.
pub open spec fn root_element(t: TreeModel) -> Option<int> {
    first_element_child(t, 0, 0)
}

/// The element that handle `h` addresses: the root element for a negative
/// handle, else the node registered under `h`.
pub open spec fn resolve_handle(d: DocModel, h: i32) -> Result<int, Seq<char>> {
    if h < 0 {
        match root_element(d.tree) {
            Some(r) => Ok(r),
            None => Err("html node missing"@),
        }
    } else if h as int >= d.handles.len() {
        Err("invalid node handle"@)
    } else {
        let p = d.handles[h as int] as int;
        if element_name(d.tree, p) is Some {
            Ok(p)
        } else {
            Err("not an element"@)
        }
    }
}

impl Doc {
    fn root_element_exec(&self) -> (r: Option<usize>)
        requires
            doc_wf(self@),
        ensures
            match r {
                Some(p) => root_element(self@.tree) == Some(p as int),
                None => root_element(self@.tree) is None,
            },
    {
        let ghost t = self@.tree;
        if self.kinds.len() == 0 {
            return None;
        }
        let cs = &self.children[0];
        let mut k: usize = 0;
        while k < cs.len()
            invariant
                t == model(self.kinds@, self.children@),
                self.kinds@.len() == self.children@.len(),
                self.kinds@.len() > 0,
                cs@ == t.children[0],
                k <= cs@.len(),
                root_element(t) == first_element_child(t, 0, k as int),
            decreases cs@.len() - k,
        {
            let c = cs[k];
            if 0 < c && c < self.kinds.len() {
                if get_element_name(&self.kinds, &self.children, c).is_some() {
                    return Some(c);
                }
            }
            k += 1;
        }
        None
    }

    /// The node that handle `h` addresses.
    fn elem(&self, h: i32) -> (r: Result<usize, String>)
        requires
            doc_wf(self@),
        ensures
            match r {
                Ok(p) => resolve_handle(self@, h) == Ok::<int, Seq<char>>(p as int),
                Err(e) => resolve_handle(self@, h) == Err::<int, Seq<char>>(e@),
            },
    {
        if h < 0 {
            return match self.root_element_exec() {
                Some(r) => Ok(r),
                None => Err(String::from_str("html node missing")),
            };
        }
        let hu = h as usize;
        if hu >= self.handles.len() {
            return Err(String::from_str("invalid node handle"));
        }
        let p = self.handles[hu];
        if get_element_name(&self.kinds, &self.children, p).is_some() {
            Ok(p)
        } else {
            Err(String::from_str("not an element"))
        }
    }
}

/// The text of the element that handle `h` of document `id` addresses: all
/// text below it, in document order.
pub open spec fn text_of(docs: Seq<DocModel>, id: int, h: i32) -> Result<Seq<char>, Seq<char>> {
    if !(0 <= id < docs.len()) {
        Err(invalid_doc())
    } else {
        match resolve_handle(docs[id], h) {
            Ok(p) => Ok(subtree_text(docs[id].tree, p)),
            Err(e) => Err(e),
        }
    }
}

/// The text of the element that handle `h` of document `id` addresses.
pub fn text(store: &DocStore, id: usize, h: i32) -> (r: Result<String, String>)
    requires
        store.wf(),
    ensures
        result_view(r) == text_of(store@, id as int, h),
{
    if id >= store.docs.len() {
        return Err(String::from_str("invalid document id"));
    }
    let doc = &store.docs[id];
    assert(store@[id as int] == doc@);
    let p = match doc.elem(h) {
        Ok(p) => p,
        Err(e) => return Err(e),
    };
    let mut out: Vec<char> = Vec::new();
    push_subtree_text(&doc.kinds, &doc.children, p, &mut out);
    assert(out@ =~= subtree_text(doc@.tree, p as int));
    Ok(string_from_chars(out.as_slice()))
}

/// The inner HTML of the element that handle `h` of document `id` addresses.
pub open spec fn inner_html_of(docs: Seq<DocModel>, id: int, h: i32) -> Result<Seq<char>, Seq<char>> {
    if !(0 <= id < docs.len()) {
        Err(invalid_doc())
    } else {
        match resolve_handle(docs[id], h) {
            Ok(p) => match inner_html_at(docs[id].events, p) {
                Some(s) => Ok(s),
                None => Err("not an element"@),
            },
            Err(e) => Err(e),
        }
    }
}

/// The inner HTML of the element that handle `h` of document `id` addresses.
pub fn inner_html(store: &DocStore, id: usize, h: i32) -> (r: Result<String, String>)
    requires
        store.wf(),
    ensures
        result_view(r) == inner_html_of(store@, id as int, h),
{
    if id >= store.docs.len() {
        return Err(String::from_str("invalid document id"));
    }
    let doc = &store.docs[id];
    assert(store@[id as int] == doc@);
    let p = match doc.elem(h) {
        Ok(p) => p,
        Err(e) => return Err(e),
    };
    match element_inner_html(&doc.html, p) {
        Some(s) => Ok(s),
        None => Err(String::from_str("not an element")),
    }
}

/// `href` resolved against base URL `base`; `href` unchanged when there is no
/// base or the join fails.
pub open spec fn resolve(base: Option<Seq<char>>, href: Seq<char>) -> Seq<char> {
    match base {
        Some(b) => match joined_url(b, href) {
            Ok(u) => u,
            Err(_) => href,
        },
        None => href,
    }
}

fn resolve_exec(base: &Option<String>, href: &str) -> (r: String)
    ensures
        r@ == resolve(opt_view(*base), href@),
{
    match base {
        Some(b) => match url_join(b.as_str(), href) {
            Ok(u) => u,
            Err(_) => String::from_str(href),
        },
        None => String::from_str(href),
    }
}

/// `href` resolved against the base URL of document `id`.
pub fn resolve_url(store: &DocStore, id: usize, href: &str) -> (r: Result<String, String>)
    requires
        store.wf(),
    ensures
        result_view(r) == (if id < store@.len() {
            Ok::<Seq<char>, Seq<char>>(resolve(store@[id as int].url, href@))
        } else {
            Err::<Seq<char>, Seq<char>>(invalid_doc())
        }),
{
    if id >= store.docs.len() {
        return Err(String::from_str("invalid document id"));
    }
    let doc = &store.docs[id];
    assert(store@[id as int] == doc@);
    Ok(resolve_exec(&doc.url, href))
}

} // verus!

verus! {

/// Whether each descendant of `scope` matches `sel`; empty when `sel` does
/// not parse.
pub open spec fn flags_for(d: DocModel, scope: int, sel: Seq<char>) -> Seq<bool> {
    match css_scoped_matches(d.events, scope, sel) {
        Some(f) => f,
        None => seq![],
    }
}

/// The nodes of `descs` whose flag is set, in order.
pub open spec fn matched(descs: Seq<usize>, flags: Seq<bool>) -> Seq<usize>
    decreases descs.len(),
{
    if descs.len() == 0 {
        seq![]
    } else {
        let r = matched(descs.drop_last(), flags);
        let k = descs.len() - 1;
        if k < flags.len() && flags[k] {
            r.push(descs.last())
        } else {
            r
        }
    }
}

/// The descendants of `scope` that CSS selector `sel` matches, in document
/// order.
pub open spec fn select_in(d: DocModel, scope: int, sel: Seq<char>) -> Seq<usize> {
    matched(descendants(d.tree, scope), flags_for(d, scope, sel))
}

proof fn lemma_descendants_nodes(t: TreeModel, i: int)
    ensures
        forall|k: int|
            0 <= k < descendants(t, i).len() ==> i < #[trigger] descendants(t, i)[k] && is_node(
                t,
                descendants(t, i)[k] as int,
            ),
    decreases t.kinds.len() - i, t.children[i].len() + 1,
{
    if is_node(t, i) {
        lemma_children_descendants_nodes(t, i, 0);
        assert(descendants(t, i) == children_descendants(t, i, 0));
    }
}

proof fn lemma_children_descendants_nodes(t: TreeModel, i: int, k: int)
    ensures
        forall|j: int|
            0 <= j < children_descendants(t, i, k).len() ==> i < #[trigger] children_descendants(
                t,
                i,
                k,
            )[j] && is_node(t, children_descendants(t, i, k)[j] as int),
    decreases t.kinds.len() - i, t.children[i].len() - k,
{
    if is_node(t, i) && 0 <= k < t.children[i].len() {
        let c = t.children[i][k] as int;
        lemma_children_descendants_nodes(t, i, k + 1);
        if is_child_pos(t, i, c) {
            lemma_descendants_nodes(t, c);
            let head = seq![c as usize] + descendants(t, c);
            let all = head + children_descendants(t, i, k + 1);
            assert(children_descendants(t, i, k) == all);
            assert forall|j: int| 0 <= j < all.len() implies i < #[trigger] all[j] && is_node(
                t,
                all[j] as int,
            ) by {
                if j == 0 {
                } else if j < head.len() {
                    assert(all[j] == descendants(t, c)[j - 1]);
                } else {
                    assert(all[j] == children_descendants(t, i, k + 1)[j - head.len()]);
                }
            }
        } else {
            assert(children_descendants(t, i, k) =~= children_descendants(t, i, k + 1));
        }
    }
}

proof fn lemma_matched_subset(descs: Seq<usize>, flags: Seq<bool>)
    ensures
        forall|j: int|
            0 <= j < matched(descs, flags).len() ==> exists|k: int|
                0 <= k < descs.len() && descs[k] == #[trigger] matched(descs, flags)[j],
    decreases descs.len(),
{
    if descs.len() > 0 {
        lemma_matched_subset(descs.drop_last(), flags);
        let r = matched(descs.drop_last(), flags);
        assert forall|j: int|
            0 <= j < matched(descs, flags).len() implies exists|k: int|
                0 <= k < descs.len() && descs[k] == #[trigger] matched(descs, flags)[j] by {
            if j < r.len() {
                let k = choose|k: int| 0 <= k < descs.drop_last().len() && descs.drop_last()[k] == r[j];
                assert(descs[k] == descs.drop_last()[k]);
            } else {
                assert(descs[descs.len() - 1] == matched(descs, flags)[j]);
            }
        }
    }
}

/// Every node that `select_in` finds below `scope` is a node after it.
proof fn lemma_select_in_nodes(d: DocModel, scope: int, sel: Seq<char>)
    ensures
        forall|j: int|
            0 <= j < select_in(d, scope, sel).len() ==> scope < #[trigger] select_in(d, scope, sel)[j]
                && is_node(d.tree, select_in(d, scope, sel)[j] as int),
{
    let descs = descendants(d.tree, scope);
    lemma_descendants_nodes(d.tree, scope);
    lemma_matched_subset(descs, flags_for(d, scope, sel));
    assert forall|j: int| 0 <= j < select_in(d, scope, sel).len() implies scope
        < #[trigger] select_in(d, scope, sel)[j] && is_node(
        d.tree,
        select_in(d, scope, sel)[j] as int,
    ) by {
        let k = choose|k: int| 0 <= k < descs.len() && descs[k] == select_in(d, scope, sel)[j];
        assert(descs[k] == descendants(d.tree, scope)[k]);
    }
}

impl Doc {
    /// The descendants of `scope` that `sel` matches, in document order.
    fn select(&self, scope: usize, sel: &str) -> (r: Vec<usize>)
        requires
            doc_wf(self@),
        ensures
            r@ == select_in(self@, scope as int, sel@),
    {
        let ghost d = self@;
        let flags: Vec<bool> = match scoped_matches(&self.html, scope, sel) {
            Some(f) => f,
            None => Vec::new(),
        };
        assert(flags@ == flags_for(d, scope as int, sel@));
        let mut descs: Vec<usize> = Vec::new();
        push_descendants(&self.kinds, &self.children, scope, &mut descs);
        assert(descs@ =~= descendants(d.tree, scope as int));
        let mut r: Vec<usize> = Vec::new();
        let mut k: usize = 0;
        while k < descs.len()
            invariant
                k <= descs@.len(),
                r@ == matched(descs@.take(k as int), flags@),
            decreases descs@.len() - k,
        {
            proof {
                assert(descs@.take(k + 1).drop_last() =~= descs@.take(k as int));
            }
            if k < flags.len() && flags[k] {
                r.push(descs[k]);
            }
            k += 1;
        }
        assert(descs@.take(descs@.len() as int) =~= descs@);
        r
    }
}

/// The error reported for a selector that does not parse.
pub open spec fn bad_selector_message(sel: Seq<char>, e: Seq<char>) -> Seq<char> {
    "bad selector "@ + debug_str(sel) + ": "@ + e
}

fn bad_selector(sel: &str, e: String) -> (r: String)
    ensures
        r@ == bad_selector_message(sel@, e@),
{
    let mut m = String::from_str("bad selector ");
    let q = debug_quoted(sel);
    m.append(q.as_str());
    m.append(": ");
    m.append(e.as_str());
    m
}

/// Document `d` with `nodes` registered as new handles.
pub open spec fn with_handles(d: DocModel, nodes: Seq<usize>) -> DocModel {
    DocModel { handles: d.handles + nodes, ..d }
}

/// The outcome of `query`: its result and the documents after it. The first
/// element below the one `root` addresses that `sel` matches is registered
/// and its handle returned; `-1` when none matches.
pub open spec fn query_of(docs: Seq<DocModel>, id: int, root: i32, sel: Seq<char>) -> (
    Result<i32, Seq<char>>,
    Seq<DocModel>,
) {
    match css_error(sel) {
        Some(e) => (Err(bad_selector_message(sel, e)), docs),
        None => if !(0 <= id < docs.len()) {
            (Err(invalid_doc()), docs)
        } else {
            match resolve_handle(docs[id], root) {
                Err(e) => (Err(e), docs),
                Ok(p) => {
                    let m = select_in(docs[id], p, sel);
                    if m.len() > 0 {
                        (
                            Ok(docs[id].handles.len() as i32),
                            docs.update(id, with_handles(docs[id], seq![m[0]])),
                        )
                    } else {
                        (Ok(-1i32), docs)
                    }
                },
            }
        },
    }
}

/// The view of a result holding a handle or an error string.
pub open spec fn int_result(r: Result<i32, String>) -> Result<i32, Seq<char>> {
    match r {
        Ok(v) => Ok(v),
        Err(e) => Err(e@),
    }
}

impl DocStore {
    proof fn lemma_register(&self, id: int, nodes: Seq<usize>, new_docs: Seq<DocModel>)
        requires
            self.wf(),
            0 <= id < self@.len(),
            forall|j: int|
                0 <= j < nodes.len() ==> #[trigger] nodes[j] < self@[id].tree.kinds.len(),
            new_docs == self@.update(id, with_handles(self@[id], nodes)),
        ensures
            forall|i: int| 0 <= i < new_docs.len() ==> doc_wf(#[trigger] new_docs[i]),
    {
        let d = with_handles(self@[id], nodes);
        assert forall|k: int| 0 <= k < d.handles.len() implies (#[trigger] d.handles[k])
            < d.tree.kinds.len() by {
            if k < self@[id].handles.len() {
                assert(d.handles[k] == self@[id].handles[k]);
            } else {
                assert(d.handles[k] == nodes[k - self@[id].handles.len()]);
            }
        }
        assert forall|i: int| 0 <= i < new_docs.len() implies doc_wf(#[trigger] new_docs[i]) by {
            if i != id {
                assert(new_docs[i] == self@[i]);
            }
        }
    }

    /// Registers node `p` of document `id` as a new handle and returns it.
    fn register(&mut self, id: usize, p: usize) -> (h: i32)
        requires
            old(self).wf(),
            id < old(self)@.len(),
            p < old(self)@[id as int].tree.kinds.len(),
        ensures
            final(self).wf(),
            h == old(self)@[id as int].handles.len() as i32,
            final(self)@ == old(self)@.update(
                id as int,
                with_handles(old(self)@[id as int], seq![p]),
            ),
    {
        let ghost old_view = self@;
        proof {
            self.lemma_register(
                id as int,
                seq![p],
                old_view.update(id as int, with_handles(old_view[id as int], seq![p])),
            );
        }
        let h = #[verifier::truncate] (self.docs[id].handles.len() as i32);
        self.docs[id].handles.push(p);
        assert(self.docs@[id as int]@.handles =~= old_view[id as int].handles + seq![p]);
        assert(self.docs@[id as int]@ =~= with_handles(old_view[id as int], seq![p]));
        assert(self@ =~= old_view.update(id as int, with_handles(old_view[id as int], seq![p])));
        h
    }
}

/// Finds the first element below the one handle `root` of document `id`
/// addresses that CSS selector `sel` matches, registers it and returns its
/// handle; `-1` when there is none.
pub fn query(store: &mut DocStore, id: usize, root: i32, sel: &str) -> (r: Result<i32, String>)
    requires
        old(store).wf(),
    ensures
        final(store).wf(),
        int_result(r) == query_of(old(store)@, id as int, root, sel@).0,
        final(store)@ == query_of(old(store)@, id as int, root, sel@).1,
{
    match selector_error(sel) {
        Some(e) => return Err(bad_selector(sel, e)),
        None => {},
    }
    if id >= store.docs.len() {
        return Err(String::from_str("invalid document id"));
    }
    let ghost d = store@[id as int];
    assert(store.docs@[id as int]@ == d);
    let p = match store.docs[id].elem(root) {
        Ok(p) => p,
        Err(e) => return Err(e),
    };
    let m = store.docs[id].select(p, sel);
    if m.len() > 0 {
        proof {
            lemma_select_in_nodes(d, p as int, sel@);
        }
        let h = store.register(id, m[0]);
        Ok(h)
    } else {
        Ok(-1)
    }
}

/// The JSON array of `xs`, as `serde_json::to_string` writes it.
pub open spec fn json_ints(xs: Seq<i32>) -> Seq<char> {
    seq!['['] + joined_ints(xs) + seq![']']
}

/// The decimal forms of `xs` separated by commas.
pub open spec fn joined_ints(xs: Seq<i32>) -> Seq<char>
    decreases xs.len(),
{
    if xs.len() == 0 {
        seq![]
    } else if xs.len() == 1 {
        int_decimal(xs[0] as int)
    } else {
        joined_ints(xs.drop_last()) + seq![','] + int_decimal(xs.last() as int)
    }
}

/// The handles that `n` registrations hand out after `start` earlier ones.
pub open spec fn handle_range(start: int, n: int) -> Seq<i32> {
    Seq::new(n as nat, |k: int| (start + k) as i32)
}

/// The outcome of `query_all`: every element below the one `root` addresses
/// that `sel` matches is registered, and the JSON array of their handles
/// returned.
pub open spec fn query_all_of(docs: Seq<DocModel>, id: int, root: i32, sel: Seq<char>) -> (
    Result<Seq<char>, Seq<char>>,
    Seq<DocModel>,
) {
    match css_error(sel) {
        Some(e) => (Err(bad_selector_message(sel, e)), docs),
        None => if !(0 <= id < docs.len()) {
            (Err(invalid_doc()), docs)
        } else {
            match resolve_handle(docs[id], root) {
                Err(e) => (Err(e), docs),
                Ok(p) => {
                    let m = select_in(docs[id], p, sel);
                    (
                        Ok(json_ints(handle_range(docs[id].handles.len() as int, m.len() as int))),
                        docs.update(id, with_handles(docs[id], m)),
                    )
                },
            }
        },
    }
}

/// Finds every element below the one handle `root` of document `id`
/// addresses that CSS selector `sel` matches, registers them in document
/// order and returns the JSON array of their handles.
pub fn query_all(store: &mut DocStore, id: usize, root: i32, sel: &str) -> (r: Result<
    String,
    String,
>)
    requires
        old(store).wf(),
    ensures
        final(store).wf(),
        result_view(r) == query_all_of(old(store)@, id as int, root, sel@).0,
        final(store)@ == query_all_of(old(store)@, id as int, root, sel@).1,
{
    match selector_error(sel) {
        Some(e) => return Err(bad_selector(sel, e)),
        None => {},
    }
    if id >= store.docs.len() {
        return Err(String::from_str("invalid document id"));
    }
    let ghost d = store@[id as int];
    let ghost s0 = store@;
    assert(store.docs@[id as int]@ == d);
    let p = match store.docs[id].elem(root) {
        Ok(p) => p,
        Err(e) => return Err(e),
    };
    let m = store.docs[id].select(p, sel);
    proof {
        lemma_select_in_nodes(d, p as int, sel@);
    }
    let ghost start = d.handles.len() as int;
    let mut out: Vec<char> = Vec::new();
    out.push('[');
    let mut k: usize = 0;
    while k < m.len()
        invariant
            k <= m@.len(),
            s0.len() == old(store)@.len(),
            id < s0.len(),
            d == s0[id as int],
            start == d.handles.len(),
            store.wf(),
            m@ == select_in(d, p as int, sel@),
            forall|j: int| 0 <= j < m@.len() ==> #[trigger] m@[j] < d.tree.kinds.len(),
            store@ == s0.update(id as int, with_handles(d, m@.take(k as int))),
            out@ == seq!['['] + joined_ints(handle_range(start, k as int)),
        decreases m@.len() - k,
    {
        assert(store@[id as int] == with_handles(d, m@.take(k as int)));
        let h = store.register(id, m[k]);
        assert(h == (start + k) as i32);
        if k > 0 {
            out.push(',');
        }
        push_int(h as i64, &mut out);
        proof {
            assert(handle_range(start, k + 1).drop_last() =~= handle_range(start, k as int));
            assert(m@.take(k + 1) =~= m@.take(k as int).push(m@[k as int]));
            assert(d.handles + m@.take(k as int) + seq![m@[k as int]] =~= d.handles + m@.take(k + 1));
            assert(with_handles(with_handles(d, m@.take(k as int)), seq![m@[k as int]]) =~= with_handles(
                d,
                m@.take(k + 1),
            ));
            assert(s0.update(id as int, with_handles(d, m@.take(k as int))).update(
                id as int,
                with_handles(d, m@.take(k + 1)),
            ) =~= s0.update(id as int, with_handles(d, m@.take(k + 1))));
            assert(out@ =~= seq!['['] + joined_ints(handle_range(start, k + 1)));
        }
        k += 1;
    }
    out.push(']');
    assert(m@.take(m@.len() as int) =~= m@);
    assert(out@ =~= json_ints(handle_range(start, m@.len() as int)));
    Ok(string_from_chars(out.as_slice()))
}

} // verus!

verus! {

/// Elements whose content is never shown as text.
pub open spec fn is_skipped(name: Seq<char>) -> bool {
    ||| name == "script"@
    ||| name == "style"@
    ||| name == "noscript"@
    ||| name == "template"@
    ||| name == "svg"@
    ||| name == "head"@
    ||| name == "iframe"@
}

/// Whether an element named `name` is left out of readable text and the
/// semantic tree (scripts, styles, the head and the like).
pub fn is_skipped_name(name: &str) -> (b: bool)
    ensures
        b == is_skipped(name@),
{
    str_eq(name, "script") || str_eq(name, "style") || str_eq(name, "noscript") || str_eq(
        name,
        "template",
    ) || str_eq(name, "svg") || str_eq(name, "head") || str_eq(name, "iframe")
}

/// Elements that stand on lines of their own in readable text.
pub open spec fn is_block_name(t: Seq<char>) -> bool {
    ||| t == "p"@ || t == "div"@ || t == "section"@ || t == "article"@ || t == "header"@
    ||| t == "footer"@ || t == "main"@ || t == "aside"@ || t == "nav"@ || t == "ul"@
    ||| t == "ol"@ || t == "li"@ || t == "table"@ || t == "tr"@ || t == "h1"@
    ||| t == "h2"@ || t == "h3"@ || t == "h4"@ || t == "h5"@ || t == "h6"@
    ||| t == "form"@ || t == "blockquote"@ || t == "pre"@ || t == "hr"@ || t == "dl"@
    ||| t == "dt"@ || t == "dd"@ || t == "figure"@ || t == "figcaption"@ || t == "details"@
    ||| t == "summary"@
}

/// Whether an element named `t` stands on lines of its own.
pub fn is_block(t: &str) -> (b: bool)
    ensures
        b == is_block_name(t@),
{
    str_eq(t, "p") || str_eq(t, "div") || str_eq(t, "section") || str_eq(t, "article") || str_eq(
        t,
        "header",
    ) || str_eq(t, "footer") || str_eq(t, "main") || str_eq(t, "aside") || str_eq(t, "nav")
        || str_eq(t, "ul") || str_eq(t, "ol") || str_eq(t, "li") || str_eq(t, "table") || str_eq(
        t,
        "tr",
    ) || str_eq(t, "h1") || str_eq(t, "h2") || str_eq(t, "h3") || str_eq(t, "h4") || str_eq(
        t,
        "h5",
    ) || str_eq(t, "h6") || str_eq(t, "form") || str_eq(t, "blockquote") || str_eq(t, "pre")
        || str_eq(t, "hr") || str_eq(t, "dl") || str_eq(t, "dt") || str_eq(t, "dd") || str_eq(
        t,
        "figure",
    ) || str_eq(t, "figcaption") || str_eq(t, "details") || str_eq(t, "summary")
}

/// `out` followed by a text run `s`, a space between them when `out` does
/// not already end a word.
pub open spec fn after_run(out: Seq<char>, s: Seq<char>) -> Seq<char> {
    if s.len() == 0 {
        out
    } else {
        (if out.len() > 0 && out.last() != '\n' && out.last() != ' ' {
            out.push(' ')
        } else {
            out
        }) + s
    }
}

/// `out` ended by a line break, when `b` holds and `out` holds text not
/// already ended by one.
pub open spec fn break_line(b: bool, out: Seq<char>) -> Seq<char> {
    if b && out.len() > 0 && out.last() != '\n' {
        out.push('\n')
    } else {
        out
    }
}

/// The readable text of the children of `i` from the `k`-th on, appended to
/// `out`.
pub open spec fn collect_children(t: TreeModel, i: int, k: int, out: Seq<char>) -> Seq<char>
    decreases t.kinds.len() - i, 0int, t.children[i].len() - k,
{
    if !is_node(t, i) || k < 0 || k >= t.children[i].len() {
        out
    } else {
        let c = t.children[i][k] as int;
        let next = if is_child_pos(t, i, c) {
            collect_node(t, c, out)
        } else {
            out
        };
        collect_children(t, i, k + 1, next)
    }
}

/// The readable text of node `c` appended to `out`: text runs with their
/// whitespace normalised, `<br>` as a line break, block elements on lines of
/// their own, skipped elements left out.
pub open spec fn collect_node(t: TreeModel, c: int, out: Seq<char>) -> Seq<char>
    decreases t.kinds.len() - c, 1int, 0int,
{
    if !is_node(t, c) {
        out
    } else {
        match t.kinds[c] {
            NodeKind::Text { text } => after_run(out, norm(text)),
            NodeKind::Element { name, .. } => if is_skipped(name) {
                out
            } else if name == "br"@ {
                out.push('\n')
            } else {
                let b = is_block_name(name);
                break_line(b, collect_children(t, c, 0, break_line(b, out)))
            },
            _ => out,
        }
    }
}

fn push_break(b: bool, out: &mut Vec<char>)
    ensures
        final(out)@ == break_line(b, old(out)@),
{
    if b && out.len() > 0 && out[out.len() - 1] != '\n' {
        out.push('\n');
    }
}

fn collect_children_exec(kinds: &Vec<NodeData>, children: &Vec<Vec<usize>>, i: usize, out: &mut Vec<char>)
    requires
        kinds@.len() == children@.len(),
        i < kinds@.len(),
    ensures
        final(out)@ == collect_children(model(kinds@, children@), i as int, 0, old(out)@),
    decreases kinds@.len() - i, 0int,
{
    let ghost t = model(kinds@, children@);
    let cs = &children[i];
    let mut k: usize = 0;
    while k < cs.len()
        invariant
            t == model(kinds@, children@),
            kinds@.len() == children@.len(),
            i < kinds@.len(),
            cs@ == t.children[i as int],
            k <= cs@.len(),
            collect_children(t, i as int, 0, old(out)@) == collect_children(
                t,
                i as int,
                k as int,
                out@,
            ),
        decreases cs@.len() - k,
    {
        let c = cs[k];
        if i < c && c < kinds.len() {
            collect_node_exec(kinds, children, c, out);
        }
        k += 1;
    }
}

fn collect_node_exec(kinds: &Vec<NodeData>, children: &Vec<Vec<usize>>, c: usize, out: &mut Vec<char>)
    requires
        kinds@.len() == children@.len(),
        c < kinds@.len(),
    ensures
        final(out)@ == collect_node(model(kinds@, children@), c as int, old(out)@),
    decreases kinds@.len() - c, 1int,
{
    let ghost t = model(kinds@, children@);
    assert(t.kinds[c as int] == kinds@[c as int]@);
    match &kinds[c] {
        NodeData::Text { text } => {
            let n = norm_str(text.as_str());
            if n.as_str().unicode_len() > 0 {
                if out.len() > 0 && out[out.len() - 1] != '\n' && out[out.len() - 1] != ' ' {
                    out.push(' ');
                }
                push_str(out, n.as_str());
            }
        },
        NodeData::Element { name, .. } => {
            if is_skipped_name(name.as_str()) {
            } else if str_eq(name.as_str(), "br") {
                out.push('\n');
            } else {
                let b = is_block(name.as_str());
                push_break(b, out);
                collect_children_exec(kinds, children, c, out);
                push_break(b, out);
            }
        },
        _ => {},
    }
}

/// `b` begins with `a`.
pub open spec fn extends(b: Seq<char>, a: Seq<char>) -> bool {
    a.len() <= b.len() && b.subrange(0, a.len() as int) == a
}

proof fn lemma_extends_trans(a: Seq<char>, b: Seq<char>, c: Seq<char>)
    requires
        extends(b, a),
        extends(c, b),
    ensures
        extends(c, a),
{
    assert(c.subrange(0, a.len() as int) =~= c.subrange(0, b.len() as int).subrange(
        0,
        a.len() as int,
    ));
}

proof fn lemma_break_line_extends(b: bool, out: Seq<char>)
    ensures
        extends(break_line(b, out), out),
{
    assert(break_line(b, out).subrange(0, out.len() as int) =~= out);
}

proof fn lemma_collect_children_extends(t: TreeModel, i: int, k: int, out: Seq<char>)
    ensures
        extends(collect_children(t, i, k, out), out),
    decreases t.kinds.len() - i, 0int, t.children[i].len() - k,
{
    if !is_node(t, i) || k < 0 || k >= t.children[i].len() {
        assert(out.subrange(0, out.len() as int) =~= out);
    } else {
        let c = t.children[i][k] as int;
        let next = if is_child_pos(t, i, c) {
            lemma_collect_node_extends(t, c, out);
            collect_node(t, c, out)
        } else {
            assert(out.subrange(0, out.len() as int) =~= out);
            out
        };
        lemma_collect_children_extends(t, i, k + 1, next);
        lemma_extends_trans(out, next, collect_children(t, i, k + 1, next));
    }
}

proof fn lemma_collect_node_extends(t: TreeModel, c: int, out: Seq<char>)
    ensures
        extends(collect_node(t, c, out), out),
    decreases t.kinds.len() - c, 1int, 0int,
{
    assert(out.subrange(0, out.len() as int) =~= out);
    if is_node(t, c) {
        match t.kinds[c] {
            NodeKind::Text { text } => {
                let s = norm(text);
                if s.len() > 0 {
                    let o = if out.len() > 0 && out.last() != '\n' && out.last() != ' ' {
                        out.push(' ')
                    } else {
                        out
                    };
                    assert((o + s).subrange(0, out.len() as int) =~= out);
                }
            },
            NodeKind::Element { name, .. } => if !is_skipped(name) {
                if name == "br"@ {
                    assert(out.push('\n').subrange(0, out.len() as int) =~= out);
                } else {
                    let b = is_block_name(name);
                    let o1 = break_line(b, out);
                    lemma_break_line_extends(b, out);
                    lemma_collect_children_extends(t, c, 0, o1);
                    let o2 = collect_children(t, c, 0, o1);
                    lemma_extends_trans(out, o1, o2);
                    lemma_break_line_extends(b, o2);
                    lemma_extends_trans(out, o2, break_line(b, o2));
                }
            },
            _ => {},
        }
    }
}

/// Collecting readable text only appends: the text collected before a node
/// stays as it was, at the front; and a skipped element (script, style and
/// the like) adds nothing, so none of its text reaches readable text.
pub proof fn lemma_collect_only_appends(t: TreeModel, c: int, out: Seq<char>)
    ensures
        extends(collect_node(t, c, out), out),
        (element_name(t, c) matches Some(n) && is_skipped(n)) ==> collect_node(t, c, out) == out,
{
    lemma_collect_node_extends(t, c, out);
}

/// `s` cut into the pieces between line feeds; always at least one piece.
pub open spec fn split_lines(s: Seq<char>) -> Seq<Seq<char>>
    decreases s.len(),
{
    if s.len() == 0 {
        seq![seq![]]
    } else {
        let r = split_lines(s.drop_last());
        if s.last() == '\n' {
            r.push(seq![])
        } else {
            r.update(r.len() - 1, r.last().push(s.last()))
        }
    }
}

/// The lines of `s` as `str::lines` yields them, up to a carriage return
/// before each line feed, which the trimming that follows removes anyway.
pub open spec fn lines(s: Seq<char>) -> Seq<Seq<char>> {
    let p = split_lines(s);
    if p.last().len() == 0 {
        p.drop_last()
    } else {
        p
    }
}

/// One line added to readable text: trimmed text ends with a line break; a
/// blank line adds a break only when the line before was not blank.
pub open spec fn squeeze_step(st: (Seq<char>, nat), line: Seq<char>) -> (Seq<char>, nat) {
    let l = trim(line);
    if l.len() == 0 {
        if st.1 + 1 > 1 {
            (st.0, st.1 + 1)
        } else {
            (st.0.push('\n'), st.1 + 1)
        }
    } else {
        (st.0 + l.push('\n'), 0)
    }
}

/// The lines `ls` with each trimmed and runs of blank lines squeezed to one,
/// and the number of blank lines the text ends with.
pub open spec fn squeeze(ls: Seq<Seq<char>>) -> (Seq<char>, nat)
    decreases ls.len(),
{
    if ls.len() == 0 {
        (seq![], 0)
    } else {
        squeeze_step(squeeze(ls.drop_last()), ls.last())
    }
}

/// The readable text of a document: the text below its root element, one
/// line per block, lines trimmed, runs of blank lines squeezed to one, and
/// the whole trimmed.
pub open spec fn readable_text(t: TreeModel) -> Result<Seq<char>, Seq<char>> {
    match root_element(t) {
        None => Err("html node missing"@),
        Some(r) => Ok(trim(squeeze(lines(collect_children(t, r, 0, seq![]))).0)),
    }
}

proof fn lemma_split_lines_nonempty(s: Seq<char>)
    ensures
        split_lines(s).len() >= 1,
    decreases s.len(),
{
    if s.len() > 0 {
        lemma_split_lines_nonempty(s.drop_last());
    }
}

fn squeeze_line(line: &Vec<char>, out: &mut Vec<char>, blank: &mut usize)
    requires
        *old(blank) < usize::MAX,
    ensures
        (final(out)@, *final(blank) as nat) == squeeze_step((old(out)@, *old(blank) as nat), line@),
        *final(blank) <= *old(blank) + 1,
{
    let l = trim_chars(line.as_slice());
    if l.len() == 0 {
        *blank = *blank + 1;
        if *blank > 1 {
            return;
        }
        out.push('\n');
    } else {
        *blank = 0;
        push_all(out, l.as_slice());
        out.push('\n');
        assert(out@ =~= old(out)@ + l@.push('\n'));
    }
}

/// The readable text of document `id`.
pub fn doc_text(store: &DocStore, id: usize) -> (r: Result<String, String>)
    requires
        store.wf(),
    ensures
        result_view(r) == (if id < store@.len() {
            readable_text(store@[id as int].tree)
        } else {
            Err::<Seq<char>, Seq<char>>(invalid_doc())
        }),
{
    if id >= store.docs.len() {
        return Err(String::from_str("invalid document id"));
    }
    let doc = &store.docs[id];
    assert(store@[id as int] == doc@);
    let ghost t = doc@.tree;
    let root = match doc.root_element_exec() {
        Some(r) => r,
        None => return Err(String::from_str("html node missing")),
    };
    proof {
        assert(root < t.kinds.len()) by {
            lemma_first_element_child(t, 0, 0);
        }
    }
    let mut raw: Vec<char> = Vec::new();
    collect_children_exec(&doc.kinds, &doc.children, root, &mut raw);
    let ghost rs = raw@;
    let mut out: Vec<char> = Vec::new();
    let mut blank: usize = 0;
    let mut cur: Vec<char> = Vec::new();
    let mut i: usize = 0;
    proof {
        assert(raw@.take(0) =~= Seq::<char>::empty());
        assert(split_lines(raw@.take(0)) =~= seq![Seq::<char>::empty()]);
        assert(split_lines(raw@.take(0)).drop_last() =~= Seq::<Seq<char>>::empty());
    }
    while i < raw.len()
        invariant
            i <= raw@.len(),
            blank + cur@.len() <= i,
            split_lines(raw@.take(i as int)).len() >= 1,
            (out@, blank as nat) == squeeze(split_lines(raw@.take(i as int)).drop_last()),
            cur@ == split_lines(raw@.take(i as int)).last(),
        decreases raw@.len() - i,
    {
        let c = raw[i];
        let ghost p = split_lines(raw@.take(i as int));
        proof {
            assert(raw@.take(i + 1).drop_last() =~= raw@.take(i as int));
            assert(raw@.take(i + 1).last() == c);
        }
        if c == '\n' {
            squeeze_line(&cur, &mut out, &mut blank);
            cur = Vec::new();
            proof {
                let q = split_lines(raw@.take(i + 1));
                assert(q == p.push(seq![]));
                assert(q.drop_last() =~= p);
                assert(p =~= p.drop_last().push(p.last()));
                assert(squeeze(p) == squeeze_step(squeeze(p.drop_last()), p.last()));
                assert(cur@ =~= q.last());
            }
        } else {
            cur.push(c);
            proof {
                let q = split_lines(raw@.take(i + 1));
                assert(q == p.update(p.len() - 1, p.last().push(c)));
                assert(q.drop_last() =~= p.drop_last());
                assert(cur@ =~= q.last());
            }
        }
        i += 1;
    }
    proof {
        assert(raw@.take(raw@.len() as int) =~= raw@);
    }
    if cur.len() > 0 {
        squeeze_line(&cur, &mut out, &mut blank);
        proof {
            let p = split_lines(raw@);
            assert(p =~= p.drop_last().push(p.last()));
        }
    }
    let trimmed = trim_chars(out.as_slice());
    Ok(string_from_chars(trimmed.as_slice()))
}

proof fn lemma_first_element_child(t: TreeModel, i: int, k: int)
    ensures
        first_element_child(t, i, k) matches Some(c) ==> is_node(t, c) && i < c && element_name(
            t,
            c,
        ) is Some,
    decreases t.children[i].len() - k,
{
    if is_node(t, i) && 0 <= k < t.children[i].len() {
        lemma_first_element_child(t, i, k + 1);
    }
}

} // verus!

verus! {

/// The text held, or the empty text.
pub open spec fn unwrap_or_empty(o: Option<Seq<char>>) -> Seq<char> {
    match o {
        Some(v) => v,
        None => seq![],
    }
}

/// Attribute `a` of node `i`, else attribute `b`, else the empty text.
pub open spec fn attr_or(t: TreeModel, i: int, a: Seq<char>, b: Seq<char>) -> Seq<char> {
    match attr_of(t, i, a) {
        Some(v) => v,
        None => unwrap_or_empty(attr_of(t, i, b)),
    }
}

/// The label of link `i`: its text; else its `aria-label` or `title`; else
/// the `alt` text of the first image with one inside it.
pub open spec fn link_label(d: DocModel, i: int) -> Seq<char> {
    let t = d.tree;
    let text = norm(subtree_text(t, i));
    let text = if text.len() == 0 {
        attr_or(t, i, "aria-label"@, "title"@)
    } else {
        text
    };
    if text.len() == 0 {
        let imgs = select_in(d, i, "img[alt]"@);
        if imgs.len() > 0 {
            unwrap_or_empty(attr_of(t, imgs[0] as int, "alt"@))
        } else {
            text
        }
    } else {
        text
    }
}

/// ` name="value"` for attribute `a` of node `i`, the value cut to 60
/// characters; nothing when there is no such attribute.
pub open spec fn attr_part(t: TreeModel, i: int, a: Seq<char>) -> Seq<char> {
    match attr_of(t, i, a) {
        Some(v) => " "@ + a + "="@ + debug_str(trunc(v, 60)),
        None => seq![],
    }
}

/// The line of an `input` element.
pub open spec fn input_line(t: TreeModel, i: int) -> Seq<char> {
    let ty = match attr_of(t, i, "type"@) {
        Some(v) => v,
        None => "text"@,
    };
    "input type="@ + ty + attr_part(t, i, "name"@) + attr_part(t, i, "placeholder"@) + attr_part(
        t,
        i,
        "value"@,
    ) + (if attr_of(t, i, "required"@) is Some {
        " required"@
    } else {
        seq![]
    })
}

/// The line of a `textarea` element.
pub open spec fn textarea_line(t: TreeModel, i: int) -> Seq<char> {
    "textarea"@ + attr_part(t, i, "name"@) + attr_part(t, i, "placeholder"@)
}

/// The normalised texts of the nodes of `ms`.
pub open spec fn option_texts(t: TreeModel, ms: Seq<usize>) -> Seq<Seq<char>> {
    ms.map_values(|m: usize| norm(subtree_text(t, m as int)))
}

/// The line of a `select` element: its name and its first eight options.
pub open spec fn select_line(d: DocModel, i: int) -> Seq<char> {
    let t = d.tree;
    let opts = select_in(d, i, "option"@);
    let shown = if opts.len() > 8 {
        opts.take(8)
    } else {
        opts
    };
    "select"@ + (match attr_of(t, i, "name"@) {
        Some(n) => " name="@ + debug_str(n),
        None => seq![],
    }) + " ["@ + join_with(option_texts(t, shown), " | "@) + "]"@
}

/// The line that describes interactive or leaf element `i` in the semantic
/// tree: links, buttons, form controls and images with alt text.
pub open spec fn describe_leaf(d: DocModel, i: int) -> Option<Seq<char>> {
    let t = d.tree;
    match element_name(t, i) {
        None => None,
        Some(name) => if name == "a"@ {
            match attr_of(t, i, "href"@) {
                None => None,
                Some(href) => if href.len() == 0 {
                    None
                } else {
                    Some(
                        "link "@ + debug_str(trunc(link_label(d, i), 80)) + " -> "@ + resolve(
                            d.url,
                            href,
                        ),
                    )
                },
            }
        } else if name == "button"@ {
            let text = norm(subtree_text(t, i));
            let text = if text.len() == 0 {
                attr_or(t, i, "aria-label"@, "value"@)
            } else {
                text
            };
            Some("button "@ + debug_str(trunc(text, 80)))
        } else if name == "input"@ {
            Some(input_line(t, i))
        } else if name == "textarea"@ {
            Some(textarea_line(t, i))
        } else if name == "select"@ {
            Some(select_line(d, i))
        } else if name == "img"@ {
            let alt = unwrap_or_empty(attr_of(t, i, "alt"@));
            if alt.len() == 0 {
                None
            } else {
                Some("img "@ + debug_str(trunc(alt, 80)))
            }
        } else {
            None
        },
    }
}

impl Doc {
    fn attr(&self, i: usize, name: &str) -> (r: Option<&String>)
        requires
            doc_wf(self@),
        ensures
            match r {
                Some(v) => attr_of(self@.tree, i as int, name@) == Some(v@),
                None => attr_of(self@.tree, i as int, name@) is None,
            },
    {
        get_attr(&self.kinds, &self.children, i, name)
    }

    fn attr_or(&self, i: usize, a: &str, b: &str) -> (r: String)
        requires
            doc_wf(self@),
        ensures
            r@ == attr_or(self@.tree, i as int, a@, b@),
    {
        match self.attr(i, a) {
            Some(v) => v.clone(),
            None => match self.attr(i, b) {
                Some(v) => v.clone(),
                None => String::new(),
            },
        }
    }

    fn norm_text(&self, i: usize) -> (r: String)
        requires
            doc_wf(self@),
        ensures
            r@ == norm(subtree_text(self@.tree, i as int)),
    {
        let mut out: Vec<char> = Vec::new();
        push_subtree_text(&self.kinds, &self.children, i, &mut out);
        assert(out@ =~= subtree_text(self@.tree, i as int));
        let n = norm_chars(out.as_slice());
        string_from_chars(n.as_slice())
    }

    fn attr_part(&self, i: usize, a: &str, out: &mut String)
        requires
            doc_wf(self@),
        ensures
            final(out)@ == old(out)@ + attr_part(self@.tree, i as int, a@),
    {
        match self.attr(i, a) {
            Some(v) => {
                out.append(" ");
                out.append(a);
                out.append("=");
                let tv = trunc_str(v.as_str(), 60);
                let q = debug_quoted(tv.as_str());
                out.append(q.as_str());
            },
            None => {},
        }
    }

    fn link_label(&self, i: usize) -> (r: String)
        requires
            doc_wf(self@),
        ensures
            r@ == link_label(self@, i as int),
    {
        let text = self.norm_text(i);
        let text = if text.as_str().unicode_len() == 0 {
            self.attr_or(i, "aria-label", "title")
        } else {
            text
        };
        if text.as_str().unicode_len() == 0 {
            let imgs = self.select(i, "img[alt]");
            if imgs.len() > 0 {
                match self.attr(imgs[0], "alt") {
                    Some(a) => a.clone(),
                    None => String::new(),
                }
            } else {
                text
            }
        } else {
            text
        }
    }

    fn select_line(&self, i: usize) -> (r: String)
        requires
            doc_wf(self@),
        ensures
            r@ == select_line(self@, i as int),
    {
        let ghost t = self@.tree;
        let opts = self.select(i, "option");
        let n = if opts.len() > 8 {
            8
        } else {
            opts.len()
        };
        let ghost shown = if opts@.len() > 8 {
            opts@.take(8)
        } else {
            opts@
        };
        assert(shown =~= opts@.take(n as int));
        let mut s = String::from_str("select");
        match self.attr(i, "name") {
            Some(v) => {
                s.append(" name=");
                let q = debug_quoted(v.as_str());
                s.append(q.as_str());
            },
            None => {},
        }
        s.append(" [");
        let mut joined = String::new();
        let mut k: usize = 0;
        while k < n
            invariant
                doc_wf(self@),
                t == self@.tree,
                n <= opts@.len(),
                k <= n,
                joined@ == join_with(option_texts(t, opts@.take(k as int)), " | "@),
            decreases n - k,
        {
            let txt = self.norm_text(opts[k]);
            if k > 0 {
                joined.append(" | ");
            }
            joined.append(txt.as_str());
            proof {
                assert(option_texts(t, opts@.take(k + 1)).drop_last() =~= option_texts(
                    t,
                    opts@.take(k as int),
                ));
                if k == 0 {
                    assert(option_texts(t, opts@.take(1)) =~= seq![txt@]);
                    assert(joined@ =~= txt@);
                }
            }
            k += 1;
        }
        s.append(joined.as_str());
        s.append("]");
        s
    }

    /// The line that describes element `i` in the semantic tree, if it is a
    /// leaf worth describing.
    fn describe_leaf(&self, i: usize) -> (r: Option<String>)
        requires
            doc_wf(self@),
        ensures
            opt_view(r) == describe_leaf(self@, i as int),
    {
        let ghost t = self@.tree;
        let name = match get_element_name(&self.kinds, &self.children, i) {
            Some(n) => n,
            None => return None,
        };
        if str_eq(name.as_str(), "a") {
            let href = match self.attr(i, "href") {
                Some(h) => h,
                None => return None,
            };
            if href.as_str().unicode_len() == 0 {
                return None;
            }
            let label = self.link_label(i);
            let tl = trunc_str(label.as_str(), 80);
            let mut s = String::from_str("link ");
            let q = debug_quoted(tl.as_str());
            s.append(q.as_str());
            s.append(" -> ");
            let u = resolve_exec(&self.url, href.as_str());
            s.append(u.as_str());
            Some(s)
        } else if str_eq(name.as_str(), "button") {
            let text = self.norm_text(i);
            let text = if text.as_str().unicode_len() == 0 {
                self.attr_or(i, "aria-label", "value")
            } else {
                text
            };
            let tl = trunc_str(text.as_str(), 80);
            let mut s = String::from_str("button ");
            let q = debug_quoted(tl.as_str());
            s.append(q.as_str());
            Some(s)
        } else if str_eq(name.as_str(), "input") {
            let mut s = String::from_str("input type=");
            match self.attr(i, "type") {
                Some(v) => s.append(v.as_str()),
                None => s.append("text"),
            }
            self.attr_part(i, "name", &mut s);
            self.attr_part(i, "placeholder", &mut s);
            self.attr_part(i, "value", &mut s);
            if self.attr(i, "required").is_some() {
                s.append(" required");
            }
            Some(s)
        } else if str_eq(name.as_str(), "textarea") {
            let mut s = String::from_str("textarea");
            self.attr_part(i, "name", &mut s);
            self.attr_part(i, "placeholder", &mut s);
            Some(s)
        } else if str_eq(name.as_str(), "select") {
            Some(self.select_line(i))
        } else if str_eq(name.as_str(), "img") {
            let alt = match self.attr(i, "alt") {
                Some(a) => a.clone(),
                None => String::new(),
            };
            if alt.as_str().unicode_len() == 0 {
                None
            } else {
                let tl = trunc_str(alt.as_str(), 80);
                let mut s = String::from_str("img ");
                let q = debug_quoted(tl.as_str());
                s.append(q.as_str());
                Some(s)
            }
        } else {
            None
        }
    }
}

} // verus!

verus! {

/// Elements whose text is shown as a paragraph of the semantic tree.
pub open spec fn is_text_block(t: Seq<char>) -> bool {
    ||| t == "p"@ || t == "li"@ || t == "td"@ || t == "th"@ || t == "dt"@ || t == "dd"@
    ||| t == "blockquote"@ || t == "pre"@ || t == "figcaption"@ || t == "summary"@
    ||| t == "caption"@ || t == "label"@ || t == "legend"@
}

/// Whether an element named `t` is a block of text in the semantic tree.
pub fn is_text_block_name(t: &str) -> (b: bool)
    ensures
        b == is_text_block(t@),
{
    str_eq(t, "p") || str_eq(t, "li") || str_eq(t, "td") || str_eq(t, "th") || str_eq(t, "dt")
        || str_eq(t, "dd") || str_eq(t, "blockquote") || str_eq(t, "pre") || str_eq(
        t,
        "figcaption",
    ) || str_eq(t, "summary") || str_eq(t, "caption") || str_eq(t, "label") || str_eq(
        t,
        "legend",
    )
}

/// A heading element: `h` and a digit.
pub open spec fn is_heading(name: Seq<char>) -> bool {
    name.len() == 2 && name[0] == 'h' && crate::text::is_ascii_digit(name[1])
}

/// The texts of the nodes `ms`, concatenated in order.
pub open spec fn texts_of(t: TreeModel, ms: Seq<usize>) -> Seq<char>
    decreases ms.len(),
{
    if ms.len() == 0 {
        seq![]
    } else {
        texts_of(t, ms.drop_last()) + subtree_text(t, ms.last() as int)
    }
}

/// The CSS selector of the leaves that the semantic tree lists inside headings
/// and paragraphs.
pub open spec fn leaf_selector() -> Seq<char> {
    "a[href], button, input, textarea, select, img[alt]"@
}

/// The lines of the leaves `ms`, added to `acc` in order.
pub open spec fn leaf_lines(d: DocModel, ms: Seq<usize>, acc: Seq<(usize, Seq<char>)>) -> Seq<
    (usize, Seq<char>),
>
    decreases ms.len(),
{
    if ms.len() == 0 {
        acc
    } else {
        let r = leaf_lines(d, ms.drop_last(), acc);
        match describe_leaf(d, ms.last() as int) {
            Some(line) => r.push((ms.last(), line)),
            None => r,
        }
    }
}

/// The leaves inside element `c`, described and added to `acc`.
pub open spec fn emit_leaves(d: DocModel, c: int, acc: Seq<(usize, Seq<char>)>) -> Seq<
    (usize, Seq<char>),
> {
    leaf_lines(d, select_in(d, c, leaf_selector()), acc)
}

/// The line of a `form` element: its method, upper-cased, and its action.
pub open spec fn form_line(d: DocModel, c: int) -> Seq<char> {
    let t = d.tree;
    let method = match attr_of(t, c, "method"@) {
        Some(m) => m,
        None => "get"@,
    };
    "form method="@ + upper_str(method) + (match attr_of(t, c, "action"@) {
        Some(a) => " action="@ + resolve(d.url, a),
        None => seq![],
    })
}

/// The semantic-tree lines of the children of `i` from the `k`-th on, added
/// to `acc`.
pub open spec fn walk_children(d: DocModel, i: int, k: int, acc: Seq<(usize, Seq<char>)>) -> Seq<
    (usize, Seq<char>),
>
    decreases d.tree.kinds.len() - i, 0int, d.tree.children[i].len() - k,
{
    let t = d.tree;
    if !is_node(t, i) || k < 0 || k >= t.children[i].len() {
        acc
    } else {
        let c = t.children[i][k] as int;
        let next = if is_child_pos(t, i, c) {
            walk_node(d, c, acc)
        } else {
            acc
        };
        walk_children(d, i, k + 1, next)
    }
}

/// The semantic-tree lines of element `c` added to `acc`: nothing for
/// hidden and skipped elements; one line for a leaf; a heading or paragraph
/// with its text, then the leaves inside it; a form's line then its content;
/// for any other element, its content.
pub open spec fn walk_node(d: DocModel, c: int, acc: Seq<(usize, Seq<char>)>) -> Seq<
    (usize, Seq<char>),
>
    decreases d.tree.kinds.len() - c, 1int, 0int,
{
    let t = d.tree;
    if !is_node(t, c) {
        acc
    } else {
        match element_name(t, c) {
            None => acc,
            Some(name) => if is_skipped(name) || attr_of(t, c, "aria-hidden"@) == Some("true"@) {
                acc
            } else {
                match describe_leaf(d, c) {
                    Some(line) => acc.push((c as usize, line)),
                    None => if is_heading(name) {
                        let text = norm(subtree_text(t, c));
                        let a1 = if text.len() > 0 {
                            acc.push((c as usize, name + " "@ + debug_str(trunc(text, 120))))
                        } else {
                            acc
                        };
                        emit_leaves(d, c, a1)
                    } else if is_text_block(name) {
                        let text = norm(subtree_text(t, c));
                        let links = norm(texts_of(t, select_in(d, c, "a[href]"@)));
                        let a1 = if text.len() > 0 && text != links {
                            acc.push((c as usize, "text "@ + debug_str(trunc(text, 200))))
                        } else {
                            acc
                        };
                        emit_leaves(d, c, a1)
                    } else if name == "form"@ {
                        walk_children(d, c, 0, acc.push((c as usize, form_line(d, c))))
                    } else {
                        walk_children(d, c, 0, acc)
                    },
                }
            },
        }
    }
}

/// The views of the lines of the semantic tree, each with its node.
pub open spec fn items_view(v: Seq<(usize, String)>) -> Seq<(usize, Seq<char>)> {
    v.map_values(|p: (usize, String)| (p.0, p.1@))
}

impl Doc {
    fn push_item(out: &mut Vec<(usize, String)>, c: usize, line: String)
        ensures
            items_view(final(out)@) == items_view(old(out)@).push((c, line@)),
    {
        out.push((c, line));
        assert(items_view(out@) =~= items_view(old(out)@).push((c, line@)));
    }

    fn emit_leaves(&self, c: usize, out: &mut Vec<(usize, String)>)
        requires
            doc_wf(self@),
        ensures
            items_view(final(out)@) == emit_leaves(self@, c as int, items_view(old(out)@)),
    {
        let ms = self.select(c, "a[href], button, input, textarea, select, img[alt]");
        let ghost acc = items_view(out@);
        let mut k: usize = 0;
        while k < ms.len()
            invariant
                doc_wf(self@),
                k <= ms@.len(),
                items_view(out@) == leaf_lines(self@, ms@.take(k as int), acc),
            decreases ms@.len() - k,
        {
            proof {
                assert(ms@.take(k + 1).drop_last() =~= ms@.take(k as int));
            }
            match self.describe_leaf(ms[k]) {
                Some(line) => Doc::push_item(out, ms[k], line),
                None => {},
            }
            k += 1;
        }
        assert(ms@.take(ms@.len() as int) =~= ms@);
    }

    fn links_text(&self, c: usize) -> (r: String)
        requires
            doc_wf(self@),
        ensures
            r@ == norm(texts_of(self@.tree, select_in(self@, c as int, "a[href]"@))),
    {
        let ms = self.select(c, "a[href]");
        let mut buf: Vec<char> = Vec::new();
        let mut k: usize = 0;
        while k < ms.len()
            invariant
                doc_wf(self@),
                k <= ms@.len(),
                buf@ == texts_of(self@.tree, ms@.take(k as int)),
            decreases ms@.len() - k,
        {
            proof {
                assert(ms@.take(k + 1).drop_last() =~= ms@.take(k as int));
            }
            push_subtree_text(&self.kinds, &self.children, ms[k], &mut buf);
            k += 1;
        }
        assert(ms@.take(ms@.len() as int) =~= ms@);
        let n = norm_chars(buf.as_slice());
        string_from_chars(n.as_slice())
    }

    fn form_line(&self, c: usize) -> (r: String)
        requires
            doc_wf(self@),
        ensures
            r@ == form_line(self@, c as int),
    {
        let mut s = String::from_str("form method=");
        let u = match self.attr(c, "method") {
            Some(m) => to_upper(m.as_str()),
            None => to_upper("get"),
        };
        s.append(u.as_str());
        match self.attr(c, "action") {
            Some(a) => {
                s.append(" action=");
                let r = resolve_exec(&self.url, a.as_str());
                s.append(r.as_str());
            },
            None => {},
        }
        s
    }

    fn walk_children(&self, i: usize, out: &mut Vec<(usize, String)>)
        requires
            doc_wf(self@),
            i < self@.tree.kinds.len(),
        ensures
            items_view(final(out)@) == walk_children(self@, i as int, 0, items_view(old(out)@)),
        decreases self@.tree.kinds.len() - i, 0int,
    {
        let ghost d = self@;
        let cs = &self.children[i];
        let mut k: usize = 0;
        while k < cs.len()
            invariant
                doc_wf(self@),
                d == self@,
                i < d.tree.kinds.len(),
                cs@ == d.tree.children[i as int],
                k <= cs@.len(),
                walk_children(d, i as int, 0, items_view(old(out)@)) == walk_children(
                    d,
                    i as int,
                    k as int,
                    items_view(out@),
                ),
            decreases cs@.len() - k,
        {
            let c = cs[k];
            if i < c && c < self.kinds.len() {
                self.walk_node(c, out);
            }
            k += 1;
        }
    }

    fn walk_node(&self, c: usize, out: &mut Vec<(usize, String)>)
        requires
            doc_wf(self@),
            c < self@.tree.kinds.len(),
        ensures
            items_view(final(out)@) == walk_node(self@, c as int, items_view(old(out)@)),
        decreases self@.tree.kinds.len() - c, 1int,
    {
        let name = match get_element_name(&self.kinds, &self.children, c) {
            Some(n) => n,
            None => return,
        };
        if is_skipped_name(name.as_str()) {
            return;
        }
        match self.attr(c, "aria-hidden") {
            Some(v) => {
                if str_eq(v.as_str(), "true") {
                    return;
                }
            },
            None => {},
        }
        match self.describe_leaf(c) {
            Some(line) => {
                Doc::push_item(out, c, line);
                return;
            },
            None => {},
        }
        let nv = chars_of(name.as_str());
        let heading = nv.len() == 2 && nv[0] == 'h' && '0' <= nv[1] && nv[1] <= '9';
        if heading {
            let text = self.norm_text(c);
            if text.as_str().unicode_len() > 0 {
                let mut s = name.clone();
                s.append(" ");
                let tl = trunc_str(text.as_str(), 120);
                let q = debug_quoted(tl.as_str());
                s.append(q.as_str());
                Doc::push_item(out, c, s);
            }
            self.emit_leaves(c, out);
        } else if is_text_block_name(name.as_str()) {
            let text = self.norm_text(c);
            let links = self.links_text(c);
            if text.as_str().unicode_len() > 0 && !str_eq(text.as_str(), links.as_str()) {
                let mut s = String::from_str("text ");
                let tl = trunc_str(text.as_str(), 200);
                let q = debug_quoted(tl.as_str());
                s.append(q.as_str());
                Doc::push_item(out, c, s);
            }
            self.emit_leaves(c, out);
        } else if str_eq(name.as_str(), "form") {
            let line = self.form_line(c);
            Doc::push_item(out, c, line);
            self.walk_children(c, out);
        } else {
            self.walk_children(c, out);
        }
    }
}

} // verus!

verus! {

/// The most lines the semantic tree lists.
pub const MAX_TREE_ITEMS: usize = 500;

/// The header line of the base URL.
pub open spec fn url_part(d: DocModel) -> Seq<char> {
    match d.url {
        Some(u) => "url: "@ + u + "\n"@,
        None => seq![],
    }
}

/// The node of `ms` (not empty) that was created first, as `created`
/// orders them: a scan that keeps the node it holds unless the next one was
/// created before it.
pub open spec fn earliest(created: spec_fn(int, int) -> bool, ms: Seq<usize>) -> usize
    decreases ms.len(),
{
    if ms.len() <= 1 {
        ms[0]
    } else {
        let e = earliest(created, ms.drop_last());
        if created(ms.last() as int, e as int) {
            ms.last()
        } else {
            e
        }
    }
}

proof fn lemma_earliest_in(created: spec_fn(int, int) -> bool, ms: Seq<usize>)
    requires
        ms.len() > 0,
    ensures
        exists|k: int| 0 <= k < ms.len() && ms[k] == earliest(created, ms),
    decreases ms.len(),
{
    if ms.len() > 1 {
        lemma_earliest_in(created, ms.drop_last());
        let k = choose|k: int| 0 <= k < ms.drop_last().len() && ms.drop_last()[k] == earliest(
            created,
            ms.drop_last(),
        );
        assert(ms[k] == ms.drop_last()[k]);
        assert(ms[ms.len() - 1] == ms.last());
    } else {
        assert(ms[0] == earliest(created, ms));
    }
}

/// The header line of the title: the normalised text of the `title` element
/// below the root element that the parser created first (the first that
/// `scraper::Html::select` visits), when it has any text.
pub open spec fn title_part(d: DocModel, r: int) -> Seq<char> {
    let ts = select_in(d, r, "title"@);
    if ts.len() > 0 {
        let s = norm(subtree_text(d.tree, earliest(d.created, ts) as int));
        if s.len() > 0 {
            "title: "@ + s + "\n"@
        } else {
            seq![]
        }
    } else {
        seq![]
    }
}

/// Where the semantic tree starts: the `body` element below the root element
/// that the parser created first, else the root element.
pub open spec fn tree_start(d: DocModel, r: int) -> int {
    let bs = select_in(d, r, "body"@);
    if bs.len() > 0 {
        earliest(d.created, bs) as int
    } else {
        r
    }
}

/// The lines of `items`, each numbered with the handle it is registered
/// under, handles counting up from `start`.
pub open spec fn numbered(items: Seq<(usize, Seq<char>)>, start: int) -> Seq<char>
    decreases items.len(),
{
    if items.len() == 0 {
        seq![]
    } else {
        numbered(items.drop_last(), start) + "["@ + int_decimal(
            ((start + items.len() - 1) as i32) as int,
        ) + "] "@ + items.last().1 + "\n"@
    }
}

/// The nodes the lines of the semantic tree describe, in order.
pub open spec fn item_nodes(items: Seq<(usize, Seq<char>)>) -> Seq<usize> {
    items.map_values(|p: (usize, Seq<char>)| p.0)
}

/// The lines of the semantic tree of a document with root element `r`.
pub open spec fn tree_items(d: DocModel, r: int) -> Seq<(usize, Seq<char>)> {
    walk_children(d, tree_start(d, r), 0, seq![])
}

/// The lines of the semantic tree that are listed: the first
/// `MAX_TREE_ITEMS`.
pub open spec fn tree_kept(d: DocModel, r: int) -> Seq<(usize, Seq<char>)> {
    let items = tree_items(d, r);
    if items.len() > 500 {
        items.take(500)
    } else {
        items
    }
}

/// The outcome of `tree`: the semantic tree of document `id` and the
/// documents after it. Its lines are numbered with the handles under which
/// their elements are registered; past `MAX_TREE_ITEMS` lines a last line
/// counts what was left out.
pub open spec fn tree_text_of(docs: Seq<DocModel>, id: int) -> (
    Result<Seq<char>, Seq<char>>,
    Seq<DocModel>,
) {
    if !(0 <= id < docs.len()) {
        (Err(invalid_doc()), docs)
    } else {
        let d = docs[id];
        match root_element(d.tree) {
            None => (Err("html node missing"@), docs),
            Some(r) => {
                let items = tree_items(d, r);
                let kept = tree_kept(d, r);
                let text = url_part(d) + title_part(d, r) + numbered(kept, d.handles.len() as int)
                    + (if items.len() > 500 {
                    "... (+"@ + crate::text::decimal((items.len() - 500) as nat) + " more)\n"@
                } else {
                    seq![]
                });
                (Ok(text), docs.update(id, with_handles(d, item_nodes(kept))))
            },
        }
    }
}

/// Every item of `acc` names an element of the tree.
pub open spec fn items_in(d: DocModel, acc: Seq<(usize, Seq<char>)>) -> bool {
    forall|j: int|
        0 <= j < acc.len() ==> (#[trigger] acc[j]).0 < d.tree.kinds.len() && element_name(
            d.tree,
            acc[j].0 as int,
        ) is Some
}

proof fn lemma_push_in(d: DocModel, acc: Seq<(usize, Seq<char>)>, c: usize, line: Seq<char>)
    requires
        items_in(d, acc),
        c < d.tree.kinds.len(),
        element_name(d.tree, c as int) is Some,
    ensures
        items_in(d, acc.push((c, line))),
{
    let a = acc.push((c, line));
    assert forall|j: int| 0 <= j < a.len() implies (#[trigger] a[j]).0 < d.tree.kinds.len()
        && element_name(d.tree, a[j].0 as int) is Some by {
        if j < acc.len() {
            assert(a[j] == acc[j]);
        }
    }
}

proof fn lemma_walk_children_nodes(d: DocModel, i: int, k: int, acc: Seq<(usize, Seq<char>)>)
    requires
        doc_wf(d),
        items_in(d, acc),
    ensures
        items_in(d, walk_children(d, i, k, acc)),
    decreases d.tree.kinds.len() - i, 0int, d.tree.children[i].len() - k,
{
    let t = d.tree;
    if is_node(t, i) && 0 <= k < t.children[i].len() {
        let c = t.children[i][k] as int;
        if is_child_pos(t, i, c) {
            lemma_walk_node_nodes(d, c, acc);
            lemma_walk_children_nodes(d, i, k + 1, walk_node(d, c, acc));
        } else {
            lemma_walk_children_nodes(d, i, k + 1, acc);
        }
    }
}

proof fn lemma_leaf_lines_nodes(d: DocModel, ms: Seq<usize>, acc: Seq<(usize, Seq<char>)>)
    requires
        items_in(d, acc),
        forall|j: int| 0 <= j < ms.len() ==> #[trigger] ms[j] < d.tree.kinds.len(),
    ensures
        items_in(d, leaf_lines(d, ms, acc)),
    decreases ms.len(),
{
    if ms.len() > 0 {
        lemma_leaf_lines_nodes(d, ms.drop_last(), acc);
        let r = leaf_lines(d, ms.drop_last(), acc);
        assert(ms.last() == ms[ms.len() - 1]);
        match describe_leaf(d, ms.last() as int) {
            Some(line) => lemma_push_in(d, r, ms.last(), line),
            None => {},
        }
    }
}

proof fn lemma_emit_leaves_nodes(d: DocModel, c: int, acc: Seq<(usize, Seq<char>)>)
    requires
        items_in(d, acc),
    ensures
        items_in(d, emit_leaves(d, c, acc)),
{
    lemma_select_in_nodes(d, c, leaf_selector());
    let ms = select_in(d, c, leaf_selector());
    assert forall|j: int| 0 <= j < ms.len() implies #[trigger] ms[j] < d.tree.kinds.len() by {
        assert(is_node(d.tree, ms[j] as int));
    }
    lemma_leaf_lines_nodes(d, ms, acc);
}

proof fn lemma_walk_node_nodes(d: DocModel, c: int, acc: Seq<(usize, Seq<char>)>)
    requires
        doc_wf(d),
        items_in(d, acc),
    ensures
        items_in(d, walk_node(d, c, acc)),
    decreases d.tree.kinds.len() - c, 1int, 0int,
{
    let t = d.tree;
    if is_node(t, c) {
        match element_name(t, c) {
            None => {},
            Some(name) => if is_skipped(name) || attr_of(t, c, "aria-hidden"@) == Some("true"@) {
            } else {
                match describe_leaf(d, c) {
                    Some(line) => {
                        lemma_push_in(d, acc, c as usize, line);
                    },
                    None => if is_heading(name) {
                        let text = norm(subtree_text(t, c));
                        let line = name + " "@ + debug_str(trunc(text, 120));
                        lemma_push_in(d, acc, c as usize, line);
                        let a1 = if text.len() > 0 {
                            acc.push((c as usize, line))
                        } else {
                            acc
                        };
                        lemma_emit_leaves_nodes(d, c, a1);
                    } else if is_text_block(name) {
                        let text = norm(subtree_text(t, c));
                        let links = norm(texts_of(t, select_in(d, c, "a[href]"@)));
                        let line = "text "@ + debug_str(trunc(text, 200));
                        lemma_push_in(d, acc, c as usize, line);
                        let a1 = if text.len() > 0 && text != links {
                            acc.push((c as usize, line))
                        } else {
                            acc
                        };
                        lemma_emit_leaves_nodes(d, c, a1);
                    } else if name == "form"@ {
                        lemma_push_in(d, acc, c as usize, form_line(d, c));
                        lemma_walk_children_nodes(d, c, 0, acc.push((c as usize, form_line(d, c))));
                    } else {
                        lemma_walk_children_nodes(d, c, 0, acc);
                    },
                }
            },
        }
    }
}

impl Doc {
    /// The node of `ms` (not empty) that the parser created first.
    fn earliest(&self, ms: &Vec<usize>) -> (e: usize)
        requires
            ms@.len() > 0,
        ensures
            e == earliest(self@.created, ms@),
    {
        let mut best = ms[0];
        let mut k: usize = 1;
        proof {
            assert(ms@.take(1) =~= seq![ms@[0]]);
        }
        while k < ms.len()
            invariant
                1 <= k <= ms@.len(),
                best == earliest(self@.created, ms@.take(k as int)),
            decreases ms@.len() - k,
        {
            proof {
                assert(ms@.take(k + 1).drop_last() =~= ms@.take(k as int));
                assert(ms@.take(k + 1).last() == ms@[k as int]);
            }
            if node_created_before(&self.html, ms[k], best) {
                best = ms[k];
            }
            k += 1;
        }
        assert(ms@.take(ms@.len() as int) =~= ms@);
        best
    }

    fn title_part(&self, r: usize) -> (s: String)
        requires
            doc_wf(self@),
        ensures
            s@ == title_part(self@, r as int),
    {
        let ts = self.select(r, "title");
        if ts.len() > 0 {
            let s = self.norm_text(self.earliest(&ts));
            if s.as_str().unicode_len() > 0 {
                let mut h = String::from_str("title: ");
                h.append(s.as_str());
                h.append("\n");
                h
            } else {
                String::new()
            }
        } else {
            String::new()
        }
    }
}

/// The semantic tree of document `id`: its URL and title, then one numbered
/// line per interactive or textual element, each registered under the handle
/// it is numbered with.
pub fn tree(store: &mut DocStore, id: usize) -> (r: Result<String, String>)
    requires
        old(store).wf(),
    ensures
        final(store).wf(),
        result_view(r) == tree_text_of(old(store)@, id as int).0,
        final(store)@ == tree_text_of(old(store)@, id as int).1,
{
    if id >= store.docs.len() {
        return Err(String::from_str("invalid document id"));
    }
    let ghost s0 = store@;
    let ghost d = store@[id as int];
    assert(store.docs@[id as int]@ == d);
    let r = match store.docs[id].root_element_exec() {
        Some(r) => r,
        None => return Err(String::from_str("html node missing")),
    };
    proof {
        lemma_first_element_child(d.tree, 0, 0);
    }
    let mut out: Vec<char> = Vec::new();
    match &store.docs[id].url {
        Some(u) => {
            push_str(&mut out, "url: ");
            push_str(&mut out, u.as_str());
            push_str(&mut out, "\n");
        },
        None => {},
    }
    let title = store.docs[id].title_part(r);
    push_str(&mut out, title.as_str());
    let bodies = store.docs[id].select(r, "body");
    let start = if bodies.len() > 0 {
        store.docs[id].earliest(&bodies)
    } else {
        r
    };
    proof {
        lemma_select_in_nodes(d, r as int, "body"@);
        if bodies@.len() > 0 {
            lemma_earliest_in(d.created, bodies@);
            let k = choose|k: int| 0 <= k < bodies@.len() && bodies@[k] == earliest(d.created, bodies@);
            assert(is_node(d.tree, bodies@[k] as int));
        }
    }
    let mut items: Vec<(usize, String)> = Vec::new();
    assert(items_view(items@) =~= Seq::<(usize, Seq<char>)>::empty());
    store.docs[id].walk_children(start, &mut items);
    let ghost all = walk_children(d, start as int, 0, seq![]);
    proof {
        lemma_walk_children_nodes(d, start as int, 0, seq![]);
        assert(items_in(d, all));
    }
    let n = if items.len() > MAX_TREE_ITEMS {
        MAX_TREE_ITEMS
    } else {
        items.len()
    };
    let ghost kept = if all.len() > 500 {
        all.take(500)
    } else {
        all
    };
    assert(kept =~= all.take(n as int));
    let ghost start_h = d.handles.len() as int;
    let ghost prefix = out@;
    let mut k: usize = 0;
    while k < n
        invariant
            n <= items@.len(),
            items_view(items@) == all,
            kept == all.take(n as int),
            forall|j: int| 0 <= j < all.len() ==> (#[trigger] all[j]).0 < d.tree.kinds.len(),
            k <= n,
            id < s0.len(),
            d == s0[id as int],
            start_h == d.handles.len(),
            store.wf(),
            store@ == s0.update(id as int, with_handles(d, item_nodes(kept.take(k as int)))),
            out@ == prefix + numbered(kept.take(k as int), start_h),
        decreases n - k,
    {
        assert(store@[id as int] == with_handles(d, item_nodes(kept.take(k as int))));
        assert(items_view(items@)[k as int] == all[k as int]);
        let h = store.register(id, items[k].0);
        assert(h == (start_h + k) as i32);
        push_str(&mut out, "[");
        push_int(h as i64, &mut out);
        push_str(&mut out, "] ");
        push_str(&mut out, items[k].1.as_str());
        push_str(&mut out, "\n");
        proof {
            let kk = kept.take(k + 1);
            assert(kk.drop_last() =~= kept.take(k as int));
            assert(kk.last() == all[k as int]);
            assert(out@ =~= prefix + numbered(kk, start_h));
            assert(item_nodes(kk) =~= item_nodes(kept.take(k as int)).push(items@[k as int].0));
            assert(d.handles + item_nodes(kept.take(k as int)) + seq![items@[k as int].0]
                =~= d.handles + item_nodes(kk));
            assert(with_handles(with_handles(d, item_nodes(kept.take(k as int))), seq![items@[k as int].0])
                =~= with_handles(d, item_nodes(kk)));
            assert(s0.update(id as int, with_handles(d, item_nodes(kept.take(k as int)))).update(
                id as int,
                with_handles(d, item_nodes(kk)),
            ) =~= s0.update(id as int, with_handles(d, item_nodes(kk))));
        }
        k += 1;
    }
    if items.len() > MAX_TREE_ITEMS {
        push_str(&mut out, "... (+");
        crate::text::push_decimal((items.len() - MAX_TREE_ITEMS) as u64, &mut out);
        push_str(&mut out, " more)\n");
    }
    assert(kept.take(n as int) =~= kept);
    assert(all.len() == items@.len());
    assert(out@ =~= tree_text_of(s0, id as int).0->Ok_0);
    Ok(string_from_chars(out.as_slice()))
}

} // verus!

verus! {

/// The name and value of each attribute, in order.
pub open spec fn attr_pairs(attrs: Seq<crate::tree::AttrModel>) -> Seq<(Seq<char>, Seq<char>)> {
    attrs.map_values(|a: crate::tree::AttrModel| (a.name, a.value))
}

/// The JSON description of the element that handle `h` of document `id`
/// addresses: its tag name and its attributes.
pub open spec fn node_info_of(docs: Seq<DocModel>, id: int, h: i32) -> Result<Seq<char>, Seq<char>> {
    if !(0 <= id < docs.len()) {
        Err(invalid_doc())
    } else {
        match resolve_handle(docs[id], h) {
            Ok(p) => match docs[id].tree.kinds[p] {
                NodeKind::Element { name, attrs, .. } => Ok(json_node_info(name, attr_pairs(attrs))),
                _ => Err("not an element"@),
            },
            Err(e) => Err(e),
        }
    }
}

/// The JSON description (tag name and attributes) of the element that
/// handle `h` of document `id` addresses.
pub fn node_info(store: &DocStore, id: usize, h: i32) -> (r: Result<String, String>)
    requires
        store.wf(),
    ensures
        result_view(r) == node_info_of(store@, id as int, h),
{
    if id >= store.docs.len() {
        return Err(String::from_str("invalid document id"));
    }
    let doc = &store.docs[id];
    assert(store@[id as int] == doc@);
    let p = match doc.elem(h) {
        Ok(p) => p,
        Err(e) => return Err(e),
    };
    proof {
        lemma_first_element_child(doc@.tree, 0, 0);
        assert(p < doc@.tree.kinds.len());
        assert(doc@.tree.kinds[p as int] == doc.kinds@[p as int]@);
    }
    match &doc.kinds[p] {
        NodeData::Element { name, attrs, .. } => {
            let mut pairs: Vec<(String, String)> = Vec::new();
            let mut k: usize = 0;
            while k < attrs.len()
                invariant
                    k <= attrs@.len(),
                    crate::html::pairs_view(pairs@) == attr_pairs(
                        attrs@.map_values(|a: crate::tree::Attr| a@),
                    ).take(k as int),
                decreases attrs@.len() - k,
            {
                let ghost av = attrs@.map_values(|a: crate::tree::Attr| a@);
                assert(av[k as int] == attrs@[k as int]@);
                let a0 = attrs[k].0.clone();
                let a1 = attrs[k].1.clone();
                assert(a0@ == av[k as int].name && a1@ == av[k as int].value);
                let ghost before = pairs@;
                pairs.push((a0, a1));
                assert(pairs@ == before.push((a0, a1)));
                assert(crate::html::pairs_view(pairs@) =~= crate::html::pairs_view(before).push(
                    (a0@, a1@),
                ));
                assert(attr_pairs(av).take(k + 1) =~= attr_pairs(av).take(k as int).push(
                    attr_pairs(av)[k as int],
                ));
                assert(crate::html::pairs_view(pairs@) =~= attr_pairs(
                    attrs@.map_values(|a: crate::tree::Attr| a@),
                ).take(k + 1));
                k += 1;
            }
            assert(attr_pairs(attrs@.map_values(|a: crate::tree::Attr| a@)).take(
                attrs@.len() as int,
            ) =~= attr_pairs(attrs@.map_values(|a: crate::tree::Attr| a@)));
            Ok(node_info_json(name.as_str(), &pairs))
        },
        _ => Err(String::from_str("not an element")),
    }
}

} // verus!

verus! {

/// Registering more nodes never changes what an earlier handle addresses, nor
/// the document's tree and base URL.
pub proof fn lemma_registration_keeps_handles(d: DocModel, nodes: Seq<usize>, h: i32)
    requires
        h < d.handles.len(),
    ensures
        resolve_handle(with_handles(d, nodes), h) == resolve_handle(d, h),
        with_handles(d, nodes).tree == d.tree,
        with_handles(d, nodes).url == d.url,
{
    if h >= 0 {
        assert(with_handles(d, nodes).handles[h as int] == d.handles[h as int]);
    }
}

/// The lines of the semantic tree all describe elements.
pub proof fn lemma_tree_items_are_elements(d: DocModel, r: int)
    requires
        doc_wf(d),
    ensures
        items_in(d, tree_items(d, r)),
{
    lemma_walk_children_nodes(d, tree_start(d, r), 0, seq![]);
}

/// The numbers of the semantic tree are handles: after `tree`, the handle a
/// line is numbered with addresses the element the line describes.
pub proof fn lemma_tree_numbers_are_handles(docs: Seq<DocModel>, id: int, k: int)
    requires
        0 <= id < docs.len(),
        doc_wf(docs[id]),
        tree_text_of(docs, id).0 is Ok,
        0 <= k < tree_kept(docs[id], root_element(docs[id].tree)->0).len(),
        docs[id].handles.len() + k <= i32::MAX,
    ensures
        resolve_handle(tree_text_of(docs, id).1[id], (docs[id].handles.len() + k) as i32) == Ok::<
            int,
            Seq<char>,
        >(tree_kept(docs[id], root_element(docs[id].tree)->0)[k].0 as int),
{
    let d = docs[id];
    let r = root_element(d.tree)->0;
    let kept = tree_kept(d, r);
    let items = tree_items(d, r);
    lemma_tree_items_are_elements(d, r);
    assert(kept[k] == items[k]);
    let n = with_handles(d, item_nodes(kept));
    assert(tree_text_of(docs, id).1[id] == n);
    let h = (d.handles.len() + k) as i32;
    assert(h as int == d.handles.len() + k);
    assert(n.handles[h as int] == kept[k].0);
}

/// `query` hands out a handle under which it registered the first match, and
/// leaves earlier handles as they were.
pub proof fn lemma_query_registers_match(docs: Seq<DocModel>, id: int, root: i32, sel: Seq<char>)
    requires
        query_of(docs, id, root, sel).0 matches Ok(h) && h >= 0,
    ensures
        ({
            let h = query_of(docs, id, root, sel).0->Ok_0;
            let p = resolve_handle(docs[id], root)->Ok_0;
            &&& query_of(docs, id, root, sel).1[id].handles[h as int] == select_in(docs[id], p, sel)[0]
                || docs[id].handles.len() > i32::MAX
            &&& query_of(docs, id, root, sel).1[id].tree == docs[id].tree
            &&& forall|g: i32|
                g < docs[id].handles.len() ==> resolve_handle(
                    query_of(docs, id, root, sel).1[id],
                    g,
                ) == #[trigger] resolve_handle(docs[id], g)
        }),
{
    let p = resolve_handle(docs[id], root)->Ok_0;
    let m = select_in(docs[id], p, sel);
    let d = docs[id];
    assert forall|g: i32| g < d.handles.len() implies resolve_handle(
        query_of(docs, id, root, sel).1[id],
        g,
    ) == #[trigger] resolve_handle(d, g) by {
        lemma_registration_keeps_handles(d, seq![m[0]], g);
    }
    if d.handles.len() <= i32::MAX {
        let h = d.handles.len() as i32;
        assert(h as int == d.handles.len());
        assert(with_handles(d, seq![m[0]]).handles[h as int] == m[0]);
    }
}

/// `tree` lists the first `MAX_TREE_ITEMS` lines of the walk, or all of them
/// when there are fewer, and registers exactly one new handle per listed
/// line, in order; the other documents stay as they were.
pub proof fn lemma_tree_registers_listed_lines(docs: Seq<DocModel>, id: int)
    requires
        tree_text_of(docs, id).0 is Ok,
    ensures
        ({
            let r = root_element(docs[id].tree)->0;
            &&& tree_kept(docs[id], r).len() <= MAX_TREE_ITEMS
            &&& tree_kept(docs[id], r).len() == (if tree_items(docs[id], r).len() > MAX_TREE_ITEMS {
                MAX_TREE_ITEMS as int
            } else {
                tree_items(docs[id], r).len() as int
            })
            &&& tree_kept(docs[id], r) == tree_items(docs[id], r).take(
                tree_kept(docs[id], r).len() as int,
            )
            &&& tree_text_of(docs, id).1[id].handles == docs[id].handles + item_nodes(
                tree_kept(docs[id], r),
            )
            &&& tree_text_of(docs, id).1.len() == docs.len()
            &&& forall|j: int|
                0 <= j < docs.len() && j != id ==> #[trigger] tree_text_of(docs, id).1[j] == docs[j]
        }),
{
}

/// `query` finds the first of what `query_all` finds: on the same documents,
/// root and selector both fail alike, `query` answers `-1` exactly when
/// `query_all` answers the empty array, and otherwise the handle `query`
/// hands out addresses the node that the first handle `query_all` hands out
/// addresses.
pub proof fn lemma_query_is_first_of_query_all(
    docs: Seq<DocModel>,
    id: int,
    root: i32,
    sel: Seq<char>,
)
    requires
        0 <= id < docs.len() ==> docs[id].handles.len() < i32::MAX,
    ensures
        query_of(docs, id, root, sel).0 is Err <==> query_all_of(docs, id, root, sel).0 is Err,
        query_of(docs, id, root, sel).0 is Err ==> query_of(docs, id, root, sel).0->Err_0
            == query_all_of(docs, id, root, sel).0->Err_0,
        query_of(docs, id, root, sel).0 == Ok::<i32, Seq<char>>(-1i32) <==> query_all_of(
            docs,
            id,
            root,
            sel,
        ).0 == Ok::<Seq<char>, Seq<char>>("[]"@),
        (query_of(docs, id, root, sel).0 matches Ok(h) && h >= 0) ==> query_all_of(
            docs,
            id,
            root,
            sel,
        ).1[id].handles[docs[id].handles.len() as int] == query_of(docs, id, root, sel).1[id].handles[
            query_of(docs, id, root, sel).0->Ok_0 as int],
{
    reveal_strlit("[]");
    if css_error(sel) is None && 0 <= id < docs.len() {
        let d = docs[id];
        if let Ok(p) = resolve_handle(d, root) {
            let m = select_in(d, p, sel);
            let n = d.handles.len() as int;
            assert(n as i32 as int == n);
            let hs = handle_range(n, m.len() as int);
            if m.len() == 0 {
                assert(hs =~= Seq::<i32>::empty());
                assert(json_ints(hs) =~= "[]"@);
            } else {
                assert(hs.len() > 0);
                assert(json_ints(hs).len() > 2) by {
                    lemma_joined_ints_nonempty(hs);
                }
                assert(json_ints(hs) != "[]"@);
                assert(with_handles(d, m).handles[n] == m[0]);
                assert(with_handles(d, seq![m[0]]).handles[n] == m[0]);
            }
        }
    }
}

proof fn lemma_joined_ints_nonempty(xs: Seq<i32>)
    requires
        xs.len() > 0,
    ensures
        joined_ints(xs).len() > 0,
    decreases xs.len(),
{
    if xs.len() == 1 {
        assert(int_decimal(xs[0] as int).len() > 0);
    } else {
        lemma_joined_ints_nonempty(xs.drop_last());
    }
}

} // verus!

verus! {

/// `s` holds three line feeds in a row: more than one blank line.
pub open spec fn has_blank_run(s: Seq<char>) -> bool {
    exists|i: int|
        #![trigger s[i]]
        0 <= i && i + 2 < s.len() && s[i] == '\n' && s[i + 1] == '\n' && s[i + 2] == '\n'
}

spec fn no_line_feed(s: Seq<char>) -> bool {
    forall|j: int| 0 <= j < s.len() ==> #[trigger] s[j] != '\n'
}

spec fn squeeze_inv(st: (Seq<char>, nat)) -> bool {
    let out = st.0;
    &&& !has_blank_run(out)
    &&& st.1 == 0 ==> (out.len() == 0 || (out.last() == '\n' && (out.len() < 2 || out[out.len()
        - 2] != '\n')))
    &&& st.1 > 0 ==> (out.len() == 0 || out.last() == '\n')
}

proof fn lemma_split_lines_no_feed(s: Seq<char>)
    ensures
        forall|k: int| 0 <= k < split_lines(s).len() ==> no_line_feed(#[trigger] split_lines(s)[k]),
        split_lines(s).len() >= 1,
    decreases s.len(),
{
    if s.len() > 0 {
        lemma_split_lines_no_feed(s.drop_last());
        let r = split_lines(s.drop_last());
        let q = split_lines(s);
        if s.last() == '\n' {
            assert forall|k: int| 0 <= k < q.len() implies no_line_feed(#[trigger] q[k]) by {
                if k < r.len() {
                    assert(q[k] == r[k]);
                } else {
                    assert(q[k] =~= Seq::<char>::empty());
                }
            }
        } else {
            assert forall|k: int| 0 <= k < q.len() implies no_line_feed(#[trigger] q[k]) by {
                if k < r.len() - 1 {
                    assert(q[k] == r[k]);
                } else {
                    let l = r.last().push(s.last());
                    assert(q[k] == l);
                    assert(no_line_feed(r[r.len() - 1]));
                    assert forall|j: int| 0 <= j < l.len() implies #[trigger] l[j] != '\n' by {
                        if j < l.len() - 1 {
                            assert(l[j] == r[r.len() - 1][j]);
                        }
                    }
                }
            }
        }
    }
}

proof fn lemma_squeeze_step_inv(st: (Seq<char>, nat), line: Seq<char>)
    requires
        squeeze_inv(st),
        no_line_feed(line),
    ensures
        squeeze_inv(squeeze_step(st, line)),
{
    let l = trim(line);
    crate::text::lemma_trim_window(line);
    let out = st.0;
    if l.len() == 0 {
        if st.1 + 1 > 1 {
        } else {
            let n = out.push('\n');
            assert(!has_blank_run(n)) by {
                if has_blank_run(n) {
                    let i = choose|i: int|
                        #![trigger n[i]]
                        0 <= i && i + 2 < n.len() && n[i] == '\n' && n[i + 1] == '\n' && n[i + 2]
                            == '\n';
                    if i + 2 < out.len() {
                        assert(out[i] == n[i] && out[i + 1] == n[i + 1] && out[i + 2] == n[i + 2]);
                    } else {
                        assert(out[out.len() - 2] == n[i] && out[out.len() - 1] == n[i + 1]);
                    }
                }
            }
        }
    } else {
        let (a, b) = choose|a: int, b: int| 0 <= a <= b <= line.len() && l == line.subrange(a, b);
        assert(no_line_feed(l)) by {
            assert forall|j: int| 0 <= j < l.len() implies #[trigger] l[j] != '\n' by {
                assert(l[j] == line[a + j]);
            }
        }
        let tail = l.push('\n');
        let n = out + tail;
        assert(l.last() != '\n') by {
            assert(!crate::text::is_ws(l.last()));
        }
        assert(!has_blank_run(n)) by {
            if has_blank_run(n) {
                let i = choose|i: int|
                    #![trigger n[i]]
                    0 <= i && i + 2 < n.len() && n[i] == '\n' && n[i + 1] == '\n' && n[i + 2]
                        == '\n';
                if i + 2 < out.len() {
                    assert(out[i] == n[i] && out[i + 1] == n[i + 1] && out[i + 2] == n[i + 2]);
                } else if i + 2 < out.len() + l.len() {
                    assert(n[i + 2] == l[i + 2 - out.len()]);
                } else if i + 1 < out.len() + l.len() {
                    assert(n[i + 1] == l[i + 1 - out.len()]);
                } else {
                    assert(i + 2 == n.len() - 1);
                    assert(n[i + 1] == l.last());
                }
            }
        }
        assert(n.last() == '\n');
        assert(n[n.len() - 2] == l.last());
    }
}

proof fn lemma_squeeze_inv(ls: Seq<Seq<char>>)
    requires
        forall|k: int| 0 <= k < ls.len() ==> no_line_feed(#[trigger] ls[k]),
    ensures
        squeeze_inv(squeeze(ls)),
    decreases ls.len(),
{
    if ls.len() > 0 {
        assert forall|k: int| 0 <= k < ls.drop_last().len() implies no_line_feed(
            #[trigger] ls.drop_last()[k],
        ) by {
            assert(ls.drop_last()[k] == ls[k]);
        }
        lemma_squeeze_inv(ls.drop_last());
        assert(no_line_feed(ls[ls.len() - 1]));
        lemma_squeeze_step_inv(squeeze(ls.drop_last()), ls.last());
    }
}

/// Readable text never holds more than one blank line in a row.
pub proof fn lemma_readable_text_no_blank_runs(t: TreeModel)
    requires
        readable_text(t) is Ok,
    ensures
        !has_blank_run(readable_text(t)->Ok_0),
{
    let r = root_element(t)->0;
    let raw = collect_children(t, r, 0, seq![]);
    lemma_split_lines_no_feed(raw);
    let ls = lines(raw);
    assert forall|k: int| 0 <= k < ls.len() implies no_line_feed(#[trigger] ls[k]) by {
        assert(ls[k] == split_lines(raw)[k]);
    }
    lemma_squeeze_inv(ls);
    let out = squeeze(ls).0;
    crate::text::lemma_trim_window(out);
    let res = trim(out);
    let (a, b) = choose|a: int, b: int| 0 <= a <= b <= out.len() && res == out.subrange(a, b);
    if has_blank_run(res) {
        let i = choose|i: int|
            #![trigger res[i]]
            0 <= i && i + 2 < res.len() && res[i] == '\n' && res[i + 1] == '\n' && res[i + 2]
                == '\n';
        assert(out[a + i] == res[i] && out[a + i + 1] == res[i + 1] && out[a + i + 2] == res[i
            + 2]);
    }
}

} // verus!

verus! {

/// Every whitespace character of `s` other than a line feed has, on both
/// sides, a character that is not a line feed: no line of `s` begins or ends
/// with whitespace.
pub open spec fn lines_trimmed(s: Seq<char>) -> bool {
    forall|i: int|
        0 <= i < s.len() && crate::text::is_ws(#[trigger] s[i]) && s[i] != '\n' ==> 0 < i && i + 1
            < s.len() && s[i - 1] != '\n' && s[i + 1] != '\n'
}

spec fn lines_inv(out: Seq<char>) -> bool {
    &&& lines_trimmed(out)
    &&& out.len() == 0 || out.last() == '\n'
}

proof fn lemma_squeeze_step_lines(st: (Seq<char>, nat), line: Seq<char>)
    requires
        lines_inv(st.0),
        no_line_feed(line),
    ensures
        lines_inv(squeeze_step(st, line).0),
{
    let l = trim(line);
    crate::text::lemma_trim_window(line);
    let out = st.0;
    if l.len() == 0 {
        if st.1 + 1 <= 1 {
            let n = out.push('\n');
            assert forall|i: int|
                0 <= i < n.len() && crate::text::is_ws(#[trigger] n[i]) && n[i] != '\n' implies 0 < i
                && i + 1 < n.len() && n[i - 1] != '\n' && n[i + 1] != '\n' by {
                assert(i < out.len());
                assert(n[i] == out[i]);
                assert(i + 1 < out.len());
                assert(n[i - 1] == out[i - 1] && n[i + 1] == out[i + 1]);
            }
        }
    } else {
        let (a, b) = choose|a: int, b: int| 0 <= a <= b <= line.len() && l == line.subrange(a, b);
        assert(no_line_feed(l)) by {
            assert forall|j: int| 0 <= j < l.len() implies #[trigger] l[j] != '\n' by {
                assert(l[j] == line[a + j]);
            }
        }
        let n = out + l.push('\n');
        assert(squeeze_step(st, line).0 == n);
        assert forall|i: int|
            0 <= i < n.len() && crate::text::is_ws(#[trigger] n[i]) && n[i] != '\n' implies 0 < i
            && i + 1 < n.len() && n[i - 1] != '\n' && n[i + 1] != '\n' by {
            if i < out.len() {
                assert(n[i] == out[i]);
                assert(i + 1 < out.len());
                assert(n[i - 1] == out[i - 1] && n[i + 1] == out[i + 1]);
            } else if i < out.len() + l.len() {
                let j = i - out.len();
                assert(n[i] == l[j]);
                assert(j != 0);
                assert(j != l.len() - 1);
                assert(n[i - 1] == l[j - 1]);
                assert(n[i + 1] == l[j + 1]);
            } else {
                assert(n[i] == '\n');
            }
        }
    }
}

proof fn lemma_squeeze_lines(ls: Seq<Seq<char>>)
    requires
        forall|k: int| 0 <= k < ls.len() ==> no_line_feed(#[trigger] ls[k]),
    ensures
        lines_inv(squeeze(ls).0),
    decreases ls.len(),
{
    if ls.len() > 0 {
        assert forall|k: int| 0 <= k < ls.drop_last().len() implies no_line_feed(
            #[trigger] ls.drop_last()[k],
        ) by {
            assert(ls.drop_last()[k] == ls[k]);
        }
        lemma_squeeze_lines(ls.drop_last());
        assert(no_line_feed(ls[ls.len() - 1]));
        lemma_squeeze_step_lines(squeeze(ls.drop_last()), ls.last());
    }
}

/// Readable text has no whitespace at either end, and no line of it begins
/// or ends with whitespace.
pub proof fn lemma_readable_text_trimmed(t: TreeModel)
    requires
        readable_text(t) is Ok,
    ensures
        readable_text(t)->Ok_0.len() > 0 ==> !crate::text::is_ws(readable_text(t)->Ok_0[0])
            && !crate::text::is_ws(readable_text(t)->Ok_0.last()),
        lines_trimmed(readable_text(t)->Ok_0),
{
    let r = root_element(t)->0;
    let raw = collect_children(t, r, 0, seq![]);
    lemma_split_lines_no_feed(raw);
    let ls = lines(raw);
    assert forall|k: int| 0 <= k < ls.len() implies no_line_feed(#[trigger] ls[k]) by {
        assert(ls[k] == split_lines(raw)[k]);
    }
    lemma_squeeze_lines(ls);
    let out = squeeze(ls).0;
    crate::text::lemma_trim_window(out);
    let s = trim(out);
    assert(s == readable_text(t)->Ok_0);
    let (a, b) = choose|a: int, b: int| 0 <= a <= b <= out.len() && s == out.subrange(a, b);
    assert forall|i: int|
        0 <= i < s.len() && crate::text::is_ws(#[trigger] s[i]) && s[i] != '\n' implies 0 < i && i
        + 1 < s.len() && s[i - 1] != '\n' && s[i + 1] != '\n' by {
        assert(s[i] == out[a + i]);
        assert(i != 0);
        assert(i != s.len() - 1);
        assert(s[i - 1] == out[a + i - 1]);
        assert(s[i + 1] == out[a + i + 1]);
    }
}

} // verus!

verus! {

/// Each of the block element names is a block name, not skipped, and not `br`.
proof fn lemma_block_name_collects(n: Seq<char>)
    requires
        (n == "p"@ || n == "div"@ || n == "section"@ || n
            == "article"@ || n == "header"@ || n == "footer"@ || n == "main"@ || n == "aside"@ || n
            == "nav"@ || n == "ul"@ || n == "ol"@ || n == "li"@ || n == "table"@ || n == "tr"@ || n
            == "h1"@ || n == "h2"@ || n == "h3"@ || n == "h4"@ || n == "h5"@ || n == "h6"@ || n
            == "form"@ || n == "blockquote"@ || n == "pre"@ || n == "hr"@ || n == "dl"@ || n
            == "dt"@ || n == "dd"@ || n == "figure"@ || n == "figcaption"@ || n == "details"@ || n
            == "summary"@),
    ensures
        is_block_name(n),
        !is_skipped(n),
        n != "br"@,
{
    reveal_strlit("script");
    reveal_strlit("style");
    reveal_strlit("noscript");
    reveal_strlit("template");
    reveal_strlit("svg");
    reveal_strlit("head");
    reveal_strlit("iframe");
    reveal_strlit("br");
    reveal_strlit("p");
    reveal_strlit("div");
    reveal_strlit("section");
    reveal_strlit("article");
    reveal_strlit("header");
    reveal_strlit("footer");
    reveal_strlit("main");
    reveal_strlit("aside");
    reveal_strlit("nav");
    reveal_strlit("ul");
    reveal_strlit("ol");
    reveal_strlit("li");
    reveal_strlit("table");
    reveal_strlit("tr");
    reveal_strlit("h1");
    reveal_strlit("h2");
    reveal_strlit("h3");
    reveal_strlit("h4");
    reveal_strlit("h5");
    reveal_strlit("h6");
    reveal_strlit("form");
    reveal_strlit("blockquote");
    reveal_strlit("pre");
    reveal_strlit("hr");
    reveal_strlit("dl");
    reveal_strlit("dt");
    reveal_strlit("dd");
    reveal_strlit("figure");
    reveal_strlit("figcaption");
    reveal_strlit("details");
    reveal_strlit("summary");
    assert("script"@.len() == 6);
    assert("style"@.len() == 5);
    assert("noscript"@.len() == 8);
    assert("template"@.len() == 8);
    assert("svg"@.len() == 3);
    assert("head"@.len() == 4);
    assert("iframe"@.len() == 6);
    assert("br"@.len() == 2);
    if n == "p"@ {
        assert("p"@.len() == 1);
        assert("p"@ != "script"@);
        assert("p"@ != "style"@);
        assert("p"@ != "noscript"@);
        assert("p"@ != "template"@);
        assert("p"@ != "svg"@);
        assert("p"@ != "head"@);
        assert("p"@ != "iframe"@);
        assert("p"@ != "br"@);
        assert(is_block_name("p"@));
    } else if n == "div"@ {
        assert("div"@.len() == 3);
        assert("div"@ != "script"@);
        assert("div"@ != "style"@);
        assert("div"@ != "noscript"@);
        assert("div"@ != "template"@);
        assert("div"@[0] == 'd' && "svg"@[0] == 's');
        assert("div"@ != "svg"@);
        assert("div"@ != "head"@);
        assert("div"@ != "iframe"@);
        assert("div"@ != "br"@);
        assert(is_block_name("div"@));
    } else if n == "section"@ {
        assert("section"@.len() == 7);
        assert("section"@ != "script"@);
        assert("section"@ != "style"@);
        assert("section"@ != "noscript"@);
        assert("section"@ != "template"@);
        assert("section"@ != "svg"@);
        assert("section"@ != "head"@);
        assert("section"@ != "iframe"@);
        assert("section"@ != "br"@);
        assert(is_block_name("section"@));
    } else if n == "article"@ {
        assert("article"@.len() == 7);
        assert("article"@ != "script"@);
        assert("article"@ != "style"@);
        assert("article"@ != "noscript"@);
        assert("article"@ != "template"@);
        assert("article"@ != "svg"@);
        assert("article"@ != "head"@);
        assert("article"@ != "iframe"@);
        assert("article"@ != "br"@);
        assert(is_block_name("article"@));
    } else if n == "header"@ {
        assert("header"@.len() == 6);
        assert("header"@[0] == 'h' && "script"@[0] == 's');
        assert("header"@ != "script"@);
        assert("header"@ != "style"@);
        assert("header"@ != "noscript"@);
        assert("header"@ != "template"@);
        assert("header"@ != "svg"@);
        assert("header"@ != "head"@);
        assert("header"@[0] == 'h' && "iframe"@[0] == 'i');
        assert("header"@ != "iframe"@);
        assert("header"@ != "br"@);
        assert(is_block_name("header"@));
    } else if n == "footer"@ {
        assert("footer"@.len() == 6);
        assert("footer"@[0] == 'f' && "script"@[0] == 's');
        assert("footer"@ != "script"@);
        assert("footer"@ != "style"@);
        assert("footer"@ != "noscript"@);
        assert("footer"@ != "template"@);
        assert("footer"@ != "svg"@);
        assert("footer"@ != "head"@);
        assert("footer"@[0] == 'f' && "iframe"@[0] == 'i');
        assert("footer"@ != "iframe"@);
        assert("footer"@ != "br"@);
        assert(is_block_name("footer"@));
    } else if n == "main"@ {
        assert("main"@.len() == 4);
        assert("main"@ != "script"@);
        assert("main"@ != "style"@);
        assert("main"@ != "noscript"@);
        assert("main"@ != "template"@);
        assert("main"@ != "svg"@);
        assert("main"@[0] == 'm' && "head"@[0] == 'h');
        assert("main"@ != "head"@);
        assert("main"@ != "iframe"@);
        assert("main"@ != "br"@);
        assert(is_block_name("main"@));
    } else if n == "aside"@ {
        assert("aside"@.len() == 5);
        assert("aside"@ != "script"@);
        assert("aside"@[0] == 'a' && "style"@[0] == 's');
        assert("aside"@ != "style"@);
        assert("aside"@ != "noscript"@);
        assert("aside"@ != "template"@);
        assert("aside"@ != "svg"@);
        assert("aside"@ != "head"@);
        assert("aside"@ != "iframe"@);
        assert("aside"@ != "br"@);
        assert(is_block_name("aside"@));
    } else if n == "nav"@ {
        assert("nav"@.len() == 3);
        assert("nav"@ != "script"@);
        assert("nav"@ != "style"@);
        assert("nav"@ != "noscript"@);
        assert("nav"@ != "template"@);
        assert("nav"@[0] == 'n' && "svg"@[0] == 's');
        assert("nav"@ != "svg"@);
        assert("nav"@ != "head"@);
        assert("nav"@ != "iframe"@);
        assert("nav"@ != "br"@);
        assert(is_block_name("nav"@));
    } else if n == "ul"@ {
        assert("ul"@.len() == 2);
        assert("ul"@ != "script"@);
        assert("ul"@ != "style"@);
        assert("ul"@ != "noscript"@);
        assert("ul"@ != "template"@);
        assert("ul"@ != "svg"@);
        assert("ul"@ != "head"@);
        assert("ul"@ != "iframe"@);
        assert("ul"@[0] == 'u' && "br"@[0] == 'b');
        assert("ul"@ != "br"@);
        assert(is_block_name("ul"@));
    } else if n == "ol"@ {
        assert("ol"@.len() == 2);
        assert("ol"@ != "script"@);
        assert("ol"@ != "style"@);
        assert("ol"@ != "noscript"@);
        assert("ol"@ != "template"@);
        assert("ol"@ != "svg"@);
        assert("ol"@ != "head"@);
        assert("ol"@ != "iframe"@);
        assert("ol"@[0] == 'o' && "br"@[0] == 'b');
        assert("ol"@ != "br"@);
        assert(is_block_name("ol"@));
    } else if n == "li"@ {
        assert("li"@.len() == 2);
        assert("li"@ != "script"@);
        assert("li"@ != "style"@);
        assert("li"@ != "noscript"@);
        assert("li"@ != "template"@);
        assert("li"@ != "svg"@);
        assert("li"@ != "head"@);
        assert("li"@ != "iframe"@);
        assert("li"@[0] == 'l' && "br"@[0] == 'b');
        assert("li"@ != "br"@);
        assert(is_block_name("li"@));
    } else if n == "table"@ {
        assert("table"@.len() == 5);
        assert("table"@ != "script"@);
        assert("table"@[0] == 't' && "style"@[0] == 's');
        assert("table"@ != "style"@);
        assert("table"@ != "noscript"@);
        assert("table"@ != "template"@);
        assert("table"@ != "svg"@);
        assert("table"@ != "head"@);
        assert("table"@ != "iframe"@);
        assert("table"@ != "br"@);
        assert(is_block_name("table"@));
    } else if n == "tr"@ {
        assert("tr"@.len() == 2);
        assert("tr"@ != "script"@);
        assert("tr"@ != "style"@);
        assert("tr"@ != "noscript"@);
        assert("tr"@ != "template"@);
        assert("tr"@ != "svg"@);
        assert("tr"@ != "head"@);
        assert("tr"@ != "iframe"@);
        assert("tr"@[0] == 't' && "br"@[0] == 'b');
        assert("tr"@ != "br"@);
        assert(is_block_name("tr"@));
    } else if n == "h1"@ {
        assert("h1"@.len() == 2);
        assert("h1"@ != "script"@);
        assert("h1"@ != "style"@);
        assert("h1"@ != "noscript"@);
        assert("h1"@ != "template"@);
        assert("h1"@ != "svg"@);
        assert("h1"@ != "head"@);
        assert("h1"@ != "iframe"@);
        assert("h1"@[0] == 'h' && "br"@[0] == 'b');
        assert("h1"@ != "br"@);
        assert(is_block_name("h1"@));
    } else if n == "h2"@ {
        assert("h2"@.len() == 2);
        assert("h2"@ != "script"@);
        assert("h2"@ != "style"@);
        assert("h2"@ != "noscript"@);
        assert("h2"@ != "template"@);
        assert("h2"@ != "svg"@);
        assert("h2"@ != "head"@);
        assert("h2"@ != "iframe"@);
        assert("h2"@[0] == 'h' && "br"@[0] == 'b');
        assert("h2"@ != "br"@);
        assert(is_block_name("h2"@));
    } else if n == "h3"@ {
        assert("h3"@.len() == 2);
        assert("h3"@ != "script"@);
        assert("h3"@ != "style"@);
        assert("h3"@ != "noscript"@);
        assert("h3"@ != "template"@);
        assert("h3"@ != "svg"@);
        assert("h3"@ != "head"@);
        assert("h3"@ != "iframe"@);
        assert("h3"@[0] == 'h' && "br"@[0] == 'b');
        assert("h3"@ != "br"@);
        assert(is_block_name("h3"@));
    } else if n == "h4"@ {
        assert("h4"@.len() == 2);
        assert("h4"@ != "script"@);
        assert("h4"@ != "style"@);
        assert("h4"@ != "noscript"@);
        assert("h4"@ != "template"@);
        assert("h4"@ != "svg"@);
        assert("h4"@ != "head"@);
        assert("h4"@ != "iframe"@);
        assert("h4"@[0] == 'h' && "br"@[0] == 'b');
        assert("h4"@ != "br"@);
        assert(is_block_name("h4"@));
    } else if n == "h5"@ {
        assert("h5"@.len() == 2);
        assert("h5"@ != "script"@);
        assert("h5"@ != "style"@);
        assert("h5"@ != "noscript"@);
        assert("h5"@ != "template"@);
        assert("h5"@ != "svg"@);
        assert("h5"@ != "head"@);
        assert("h5"@ != "iframe"@);
        assert("h5"@[0] == 'h' && "br"@[0] == 'b');
        assert("h5"@ != "br"@);
        assert(is_block_name("h5"@));
    } else if n == "h6"@ {
        assert("h6"@.len() == 2);
        assert("h6"@ != "script"@);
        assert("h6"@ != "style"@);
        assert("h6"@ != "noscript"@);
        assert("h6"@ != "template"@);
        assert("h6"@ != "svg"@);
        assert("h6"@ != "head"@);
        assert("h6"@ != "iframe"@);
        assert("h6"@[0] == 'h' && "br"@[0] == 'b');
        assert("h6"@ != "br"@);
        assert(is_block_name("h6"@));
    } else if n == "form"@ {
        assert("form"@.len() == 4);
        assert("form"@ != "script"@);
        assert("form"@ != "style"@);
        assert("form"@ != "noscript"@);
        assert("form"@ != "template"@);
        assert("form"@ != "svg"@);
        assert("form"@[0] == 'f' && "head"@[0] == 'h');
        assert("form"@ != "head"@);
        assert("form"@ != "iframe"@);
        assert("form"@ != "br"@);
        assert(is_block_name("form"@));
    } else if n == "blockquote"@ {
        assert("blockquote"@.len() == 10);
        assert("blockquote"@ != "script"@);
        assert("blockquote"@ != "style"@);
        assert("blockquote"@ != "noscript"@);
        assert("blockquote"@ != "template"@);
        assert("blockquote"@ != "svg"@);
        assert("blockquote"@ != "head"@);
        assert("blockquote"@ != "iframe"@);
        assert("blockquote"@ != "br"@);
        assert(is_block_name("blockquote"@));
    } else if n == "pre"@ {
        assert("pre"@.len() == 3);
        assert("pre"@ != "script"@);
        assert("pre"@ != "style"@);
        assert("pre"@ != "noscript"@);
        assert("pre"@ != "template"@);
        assert("pre"@[0] == 'p' && "svg"@[0] == 's');
        assert("pre"@ != "svg"@);
        assert("pre"@ != "head"@);
        assert("pre"@ != "iframe"@);
        assert("pre"@ != "br"@);
        assert(is_block_name("pre"@));
    } else if n == "hr"@ {
        assert("hr"@.len() == 2);
        assert("hr"@ != "script"@);
        assert("hr"@ != "style"@);
        assert("hr"@ != "noscript"@);
        assert("hr"@ != "template"@);
        assert("hr"@ != "svg"@);
        assert("hr"@ != "head"@);
        assert("hr"@ != "iframe"@);
        assert("hr"@[0] == 'h' && "br"@[0] == 'b');
        assert("hr"@ != "br"@);
        assert(is_block_name("hr"@));
    } else if n == "dl"@ {
        assert("dl"@.len() == 2);
        assert("dl"@ != "script"@);
        assert("dl"@ != "style"@);
        assert("dl"@ != "noscript"@);
        assert("dl"@ != "template"@);
        assert("dl"@ != "svg"@);
        assert("dl"@ != "head"@);
        assert("dl"@ != "iframe"@);
        assert("dl"@[0] == 'd' && "br"@[0] == 'b');
        assert("dl"@ != "br"@);
        assert(is_block_name("dl"@));
    } else if n == "dt"@ {
        assert("dt"@.len() == 2);
        assert("dt"@ != "script"@);
        assert("dt"@ != "style"@);
        assert("dt"@ != "noscript"@);
        assert("dt"@ != "template"@);
        assert("dt"@ != "svg"@);
        assert("dt"@ != "head"@);
        assert("dt"@ != "iframe"@);
        assert("dt"@[0] == 'd' && "br"@[0] == 'b');
        assert("dt"@ != "br"@);
        assert(is_block_name("dt"@));
    } else if n == "dd"@ {
        assert("dd"@.len() == 2);
        assert("dd"@ != "script"@);
        assert("dd"@ != "style"@);
        assert("dd"@ != "noscript"@);
        assert("dd"@ != "template"@);
        assert("dd"@ != "svg"@);
        assert("dd"@ != "head"@);
        assert("dd"@ != "iframe"@);
        assert("dd"@[0] == 'd' && "br"@[0] == 'b');
        assert("dd"@ != "br"@);
        assert(is_block_name("dd"@));
    } else if n == "figure"@ {
        assert("figure"@.len() == 6);
        assert("figure"@[0] == 'f' && "script"@[0] == 's');
        assert("figure"@ != "script"@);
        assert("figure"@ != "style"@);
        assert("figure"@ != "noscript"@);
        assert("figure"@ != "template"@);
        assert("figure"@ != "svg"@);
        assert("figure"@ != "head"@);
        assert("figure"@[0] == 'f' && "iframe"@[0] == 'i');
        assert("figure"@ != "iframe"@);
        assert("figure"@ != "br"@);
        assert(is_block_name("figure"@));
    } else if n == "figcaption"@ {
        assert("figcaption"@.len() == 10);
        assert("figcaption"@ != "script"@);
        assert("figcaption"@ != "style"@);
        assert("figcaption"@ != "noscript"@);
        assert("figcaption"@ != "template"@);
        assert("figcaption"@ != "svg"@);
        assert("figcaption"@ != "head"@);
        assert("figcaption"@ != "iframe"@);
        assert("figcaption"@ != "br"@);
        assert(is_block_name("figcaption"@));
    } else if n == "details"@ {
        assert("details"@.len() == 7);
        assert("details"@ != "script"@);
        assert("details"@ != "style"@);
        assert("details"@ != "noscript"@);
        assert("details"@ != "template"@);
        assert("details"@ != "svg"@);
        assert("details"@ != "head"@);
        assert("details"@ != "iframe"@);
        assert("details"@ != "br"@);
        assert(is_block_name("details"@));
    } else if n == "summary"@ {
        assert("summary"@.len() == 7);
        assert("summary"@ != "script"@);
        assert("summary"@ != "style"@);
        assert("summary"@ != "noscript"@);
        assert("summary"@ != "template"@);
        assert("summary"@ != "svg"@);
        assert("summary"@ != "head"@);
        assert("summary"@ != "iframe"@);
        assert("summary"@ != "br"@);
        assert(is_block_name("summary"@));
    }
}

/// A block element's readable text stands on lines of its own: collected
/// after text that does not end a line, it first breaks the line; and what
/// it leaves, when anything, ends with a line break. The block elements are
/// `p`, `div`, `section`, `article`, `header`, `footer`, `main`, `aside`,
/// `nav`, `ul`, `ol`, `li`, `table`, `tr`, the headings `h1` to `h6`, `form`,
/// `blockquote`, `pre`, `hr`, `dl`, `dt`, `dd`, `figure`, `figcaption`,
/// `details` and `summary`.
pub proof fn lemma_blocks_stand_on_their_own_lines(t: TreeModel, c: int, out: Seq<char>)
    requires
        element_name(t, c) matches Some(n) && (n == "p"@ || n == "div"@ || n == "section"@ || n
            == "article"@ || n == "header"@ || n == "footer"@ || n == "main"@ || n == "aside"@ || n
            == "nav"@ || n == "ul"@ || n == "ol"@ || n == "li"@ || n == "table"@ || n == "tr"@ || n
            == "h1"@ || n == "h2"@ || n == "h3"@ || n == "h4"@ || n == "h5"@ || n == "h6"@ || n
            == "form"@ || n == "blockquote"@ || n == "pre"@ || n == "hr"@ || n == "dl"@ || n
            == "dt"@ || n == "dd"@ || n == "figure"@ || n == "figcaption"@ || n == "details"@ || n
            == "summary"@),
    ensures
        collect_node(t, c, out).len() > 0 ==> collect_node(t, c, out).last() == '\n',
        out.len() > 0 && out.last() != '\n' ==> collect_node(t, c, out).len() > out.len()
            && collect_node(t, c, out)[out.len() as int] == '\n',
{
    let n = element_name(t, c)->0;
    lemma_block_name_collects(n);
    assert(is_block_name(n));
    assert(!is_skipped(n));
    assert(n != "br"@);
    let o1 = break_line(true, out);
    lemma_break_line_extends(true, out);
    lemma_collect_children_extends(t, c, 0, o1);
    let x = collect_children(t, c, 0, o1);
    lemma_break_line_extends(true, x);
    let r = break_line(true, x);
    assert(r == collect_node(t, c, out));
    if out.len() > 0 && out.last() != '\n' {
        assert(o1[out.len() as int] == '\n');
        assert(x.subrange(0, o1.len() as int)[out.len() as int] == '\n');
        assert(r.subrange(0, x.len() as int)[out.len() as int] == '\n');
    }
}

/// A link with an address whose own text, `aria-label` and `title` give no
/// label is labelled with the alt text of the first image with alt text
/// inside it, and left with an empty label when there is no such image.
pub proof fn lemma_image_labels_link(d: DocModel, i: int)
    requires
        element_name(d.tree, i) == Some("a"@),
        attr_of(d.tree, i, "href"@) matches Some(h) && h.len() > 0,
        norm(subtree_text(d.tree, i)).len() == 0,
        match attr_of(d.tree, i, "aria-label"@) {
            Some(v) => v.len() == 0,
            None => match attr_of(d.tree, i, "title"@) {
                Some(w) => w.len() == 0,
                None => true,
            },
        },
    ensures
        ({
            let imgs = select_in(d, i, "img[alt]"@);
            let label = if imgs.len() > 0 {
                match attr_of(d.tree, imgs[0] as int, "alt"@) {
                    Some(a) => a,
                    None => Seq::<char>::empty(),
                }
            } else {
                Seq::<char>::empty()
            };
            describe_leaf(d, i) == Some(
                "link "@ + debug_str(trunc(label, 80)) + " -> "@ + resolve(
                    d.url,
                    attr_of(d.tree, i, "href"@)->0,
                ),
            )
        }),
{
    let t = d.tree;
    assert(norm(subtree_text(t, i)) =~= Seq::<char>::empty());
    assert(attr_or(t, i, "aria-label"@, "title"@) =~= Seq::<char>::empty());
}

} // verus!

verus! {

/// What `script`, `style`, `noscript`, `template`, `svg`, `head` and
/// `iframe` elements hold is shown nowhere: they add nothing to readable
/// text nor to the semantic tree.
pub proof fn lemma_skipped_elements_show_nothing(
    d: DocModel,
    c: int,
    out: Seq<char>,
    acc: Seq<(usize, Seq<char>)>,
)
    requires
        element_name(d.tree, c) matches Some(n) && (n == "script"@ || n == "style"@ || n
            == "noscript"@ || n == "template"@ || n == "svg"@ || n == "head"@ || n == "iframe"@),
    ensures
        collect_node(d.tree, c, out) == out,
        walk_node(d, c, acc) == acc,
{
}

/// An element hidden with `aria-hidden="true"` adds nothing to the semantic
/// tree, nor does anything inside it.
pub proof fn lemma_hidden_elements_are_not_listed(d: DocModel, c: int, acc: Seq<(usize, Seq<char>)>)
    requires
        attr_of(d.tree, c, "aria-hidden"@) == Some("true"@),
    ensures
        walk_node(d, c, acc) == acc,
{
}

/// A `br` element adds exactly one line feed to readable text.
pub proof fn lemma_br_breaks_the_line(t: TreeModel, c: int, out: Seq<char>)
    requires
        element_name(t, c) == Some("br"@),
    ensures
        collect_node(t, c, out) == out.push('\n'),
{
    reveal_strlit("br");
    reveal_strlit("script");
    reveal_strlit("style");
    reveal_strlit("noscript");
    reveal_strlit("template");
    reveal_strlit("svg");
    reveal_strlit("head");
    reveal_strlit("iframe");
    assert("br"@.len() == 2);
    assert("script"@.len() == 6);
    assert("style"@.len() == 5);
    assert("noscript"@.len() == 8);
    assert("template"@.len() == 8);
    assert("svg"@.len() == 3);
    assert("head"@.len() == 4);
    assert("iframe"@.len() == 6);
    assert(!is_skipped("br"@));
}

} // verus!

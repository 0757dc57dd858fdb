//! The document tree the library reads: nodes in document order, each with
//! its children, built from the open/close events of a depth-first walk.
use vstd::prelude::*;

verus! {

/// An attribute of an element: its local name, value and namespace URI
/// (empty for none).
pub struct Attr(pub String, pub String, pub String);

/// The view of an `Attr`.
pub struct AttrModel {
    pub name: Seq<char>,
    pub value: Seq<char>,
    pub ns: Seq<char>,
}

impl View for Attr {
    type V = AttrModel;

    open spec fn view(&self) -> AttrModel {
        AttrModel {
            name: self.0@,
            value: self.1@,
            ns: self.2@,
        }
    }
}

/// What a node of the document is.
pub enum NodeData {
    /// An element with its local name, namespace URI and attributes.
    Element { name: String, ns: String, attrs: Vec<Attr> },
    Text { text: String },
    Comment { text: String },
    /// The document itself, a doctype, a fragment or a processing instruction.
    Other,
}

/// The view of a `NodeData`.
pub enum NodeKind {
    Element { name: Seq<char>, ns: Seq<char>, attrs: Seq<AttrModel> },
    Text { text: Seq<char> },
    Comment { text: Seq<char> },
    Other,
}

impl View for NodeData {
    type V = NodeKind;

    open spec fn view(&self) -> NodeKind {
        match self {
            NodeData::Element { name, ns, attrs } => NodeKind::Element {
                name: name@,
                ns: ns@,
                attrs: attrs@.map_values(|a: Attr| a@),
            },
            NodeData::Text { text } => NodeKind::Text { text: text@ },
            NodeData::Comment { text } => NodeKind::Comment { text: text@ },
            NodeData::Other => NodeKind::Other,
        }
    }
}

/// A step of a depth-first walk: a node is entered, or the node entered last
/// and not yet left is left.
pub enum TreeEvent {
    Open(NodeData),
    Close,
}

/// The view of a `TreeEvent`.
pub enum EventModel {
    Open(NodeKind),
    Close,
}

impl View for TreeEvent {
    type V = EventModel;

    open spec fn view(&self) -> EventModel {
        match self {
            TreeEvent::Open(d) => EventModel::Open(d@),
            TreeEvent::Close => EventModel::Close,
        }
    }
}

/// Nodes in the order they are entered, and the positions of each node's
/// children.
pub struct TreeModel {
    pub kinds: Seq<NodeKind>,
    pub children: Seq<Seq<usize>>,
}

/// Every child of a node comes after it, and every position is a node.
pub open spec fn tree_wf(t: TreeModel) -> bool {
    &&& t.kinds.len() == t.children.len()
    &&& forall|i: int, j: int|
        #![trigger t.children[i][j]]
        0 <= i < t.children.len() && 0 <= j < t.children[i].len() ==> i < t.children[i][j]
            < t.kinds.len()
}

/// The tree built so far from a prefix of the events, and the path of
/// nodes that are open.
pub struct BuildState {
    pub kinds: Seq<NodeKind>,
    pub children: Seq<Seq<usize>>,
    pub open: Seq<usize>,
}

/// The state after one more event: an opened node becomes the next node
/// and a child of the innermost open one; a close ends the innermost.
pub open spec fn build_step(st: BuildState, ev: EventModel) -> BuildState {
    match ev {
        EventModel::Open(k) => {
            let p = st.kinds.len() as usize;
            let children = if st.open.len() > 0 {
                let par = st.open.last() as int;
                st.children.update(par, st.children[par].push(p))
            } else {
                st.children
            };
            BuildState { kinds: st.kinds.push(k), children: children.push(seq![]), open: st.open.push(p) }
        },
        EventModel::Close => if st.open.len() > 0 {
            BuildState { kinds: st.kinds, children: st.children, open: st.open.drop_last() }
        } else {
            st
        },
    }
}

/// The state after all of `events`.
pub open spec fn build_state(events: Seq<EventModel>) -> BuildState
    decreases events.len(),
{
    if events.len() == 0 {
        BuildState { kinds: seq![], children: seq![], open: seq![] }
    } else {
        build_step(build_state(events.drop_last()), events.last())
    }
}

/// The tree that a walk's events describe: each entered node becomes the
/// next node, and a child of the innermost node entered and not left.
pub open spec fn tree_of(events: Seq<EventModel>) -> TreeModel {
    let st = build_state(events);
    TreeModel { kinds: st.kinds, children: st.children }
}

/// The tree built so far is well formed and the open path names nodes
/// of it.
pub open spec fn state_wf(st: BuildState) -> bool {
    &&& tree_wf(TreeModel { kinds: st.kinds, children: st.children })
    &&& forall|k: int| 0 <= k < st.open.len() ==> #[trigger] st.open[k] < st.kinds.len()
}

proof fn lemma_build_step_wf(st: BuildState, ev: EventModel)
    requires
        state_wf(st),
        st.kinds.len() < usize::MAX,
    ensures
        state_wf(build_step(st, ev)),
        build_step(st, ev).kinds.len() <= st.kinds.len() + 1,
{
    let n = build_step(st, ev);
    match ev {
        EventModel::Open(k) => {
            let p = st.kinds.len() as usize;
            let t = TreeModel { kinds: n.kinds, children: n.children };
            assert forall|i: int, j: int|
                0 <= i < t.children.len() && 0 <= j < t.children[i].len() implies i
                < #[trigger] t.children[i][j] < t.kinds.len() by {
                if i < st.children.len() {
                    if st.open.len() > 0 && i == st.open.last() {
                        if j < st.children[i].len() {
                            assert(t.children[i][j] == st.children[i][j]);
                        } else {
                            assert(t.children[i][j] == p);
                            assert(st.open[st.open.len() - 1] < st.kinds.len());
                        }
                    } else {
                        assert(t.children[i][j] == st.children[i][j]);
                    }
                }
            }
            assert forall|k: int| 0 <= k < n.open.len() implies #[trigger] n.open[k]
                < n.kinds.len() by {
                if k < st.open.len() {
                    assert(n.open[k] == st.open[k]);
                }
            }
        },
        EventModel::Close => {
            assert forall|k: int| 0 <= k < n.open.len() implies #[trigger] n.open[k]
                < n.kinds.len() by {
                assert(n.open[k] == st.open[k]);
            }
        },
    }
}

/// Building from any events keeps the state well formed.
pub proof fn lemma_build_wf(events: Seq<EventModel>)
    requires
        events.len() <= usize::MAX,
    ensures
        state_wf(build_state(events)),
        build_state(events).kinds.len() <= events.len(),
        tree_wf(tree_of(events)),
    decreases events.len(),
{
    if events.len() > 0 {
        lemma_build_wf(events.drop_last());
        lemma_build_step_wf(build_state(events.drop_last()), events.last());
    }
}

/// The views of node data.
pub open spec fn kinds_view(v: Seq<NodeData>) -> Seq<NodeKind> {
    v.map_values(|d: NodeData| d@)
}

/// The views of child lists.
pub open spec fn children_view(v: Seq<Vec<usize>>) -> Seq<Seq<usize>> {
    v.map_values(|c: Vec<usize>| c@)
}

/// The views of walk events.
pub open spec fn events_view(v: Seq<TreeEvent>) -> Seq<EventModel> {
    v.map_values(|e: TreeEvent| e@)
}

/// Builds the tree that `events` describe.
pub fn build_tree(events: Vec<TreeEvent>) -> (r: (Vec<NodeData>, Vec<Vec<usize>>))
    ensures
        kinds_view(r.0@) == tree_of(events_view(events@)).kinds,
        children_view(r.1@) == tree_of(events_view(events@)).children,
        tree_wf(tree_of(events_view(events@))),
{
    let ghost evs = events_view(events@);
    assert(evs.len() == events.len());
    let mut kinds: Vec<NodeData> = Vec::new();
    let mut children: Vec<Vec<usize>> = Vec::new();
    let mut open: Vec<usize> = Vec::new();
    let ghost mut i: int = 0;
    proof {
        lemma_build_wf(evs);
    }
    for ev in it: events
        invariant
            evs == events_view(it.seq()),
            evs.len() <= usize::MAX,
            i == it.index(),
            0 <= i <= evs.len(),
            kinds_view(kinds@) == build_state(evs.take(i)).kinds,
            children_view(children@) == build_state(evs.take(i)).children,
            open@ == build_state(evs.take(i)).open,
            state_wf(build_state(evs.take(i))),
            build_state(evs.take(i)).kinds.len() <= i,
    {
        proof {
            assert(evs.take(i + 1).drop_last() =~= evs.take(i));
            assert(evs.take(i + 1).last() == ev@);
            lemma_build_step_wf(build_state(evs.take(i)), ev@);
        }
        let ghost before = build_state(evs.take(i));
        match ev {
            TreeEvent::Open(d) => {
                let p = kinds.len();
                if open.len() > 0 {
                    let par = open[open.len() - 1];
                    children[par].push(p);
                    assert(children_view(children@) =~= before.children.update(
                        par as int,
                        before.children[par as int].push(p),
                    ));
                }
                kinds.push(d);
                children.push(Vec::new());
                open.push(p);
                assert(kinds_view(kinds@) =~= build_state(evs.take(i + 1)).kinds);
                assert(children_view(children@) =~= build_state(evs.take(i + 1)).children);
                assert(open@ =~= build_state(evs.take(i + 1)).open);
            },
            TreeEvent::Close => {
                if open.len() > 0 {
                    open.pop();
                    assert(open@ =~= build_state(evs.take(i + 1)).open);
                }
            },
        }
        proof {
            i = i + 1;
        }
    }
    assert(evs.take(evs.len() as int) =~= evs);
    (kinds, children)
}

} // verus!

verus! {

/// The tree that node data and child lists describe.
pub open spec fn model(kinds: Seq<NodeData>, children: Seq<Vec<usize>>) -> TreeModel {
    TreeModel { kinds: kinds_view(kinds), children: children_view(children) }
}

/// Node `i` is a node of `t`.
pub open spec fn is_node(t: TreeModel, i: int) -> bool {
    0 <= i < t.kinds.len() && i < t.children.len()
}

/// `c` may be walked into as a child of `i`: it comes after `i` and is a node.
pub open spec fn is_child_pos(t: TreeModel, i: int, c: int) -> bool {
    i < c && is_node(t, c)
}

/// The text of node `i`: its own text when it is a text node, else the texts
/// of its descendants in document order.
pub open spec fn subtree_text(t: TreeModel, i: int) -> Seq<char>
    decreases t.kinds.len() - i, t.children[i].len() + 1,
{
    if !is_node(t, i) {
        seq![]
    } else {
        match t.kinds[i] {
            NodeKind::Text { text } => text,
            _ => children_text(t, i, 0),
        }
    }
}

/// The texts of the children of `i` from the `k`-th on.
pub open spec fn children_text(t: TreeModel, i: int, k: int) -> Seq<char>
    decreases t.kinds.len() - i, t.children[i].len() - k,
{
    if !is_node(t, i) || k < 0 || k >= t.children[i].len() {
        seq![]
    } else {
        let c = t.children[i][k] as int;
        (if is_child_pos(t, i, c) {
            subtree_text(t, c)
        } else {
            seq![]
        }) + children_text(t, i, k + 1)
    }
}

/// The descendants of `i` in document order, `i` itself excluded.
pub open spec fn descendants(t: TreeModel, i: int) -> Seq<usize>
    decreases t.kinds.len() - i, t.children[i].len() + 1,
{
    if !is_node(t, i) {
        seq![]
    } else {
        children_descendants(t, i, 0)
    }
}

/// The children of `i` from the `k`-th on, each followed by its descendants.
pub open spec fn children_descendants(t: TreeModel, i: int, k: int) -> Seq<usize>
    decreases t.kinds.len() - i, t.children[i].len() - k,
{
    if !is_node(t, i) || k < 0 || k >= t.children[i].len() {
        seq![]
    } else {
        let c = t.children[i][k] as int;
        (if is_child_pos(t, i, c) {
            seq![c as usize] + descendants(t, c)
        } else {
            seq![]
        }) + children_descendants(t, i, k + 1)
    }
}

/// Appends the text of node `i` to `out`.
pub fn push_subtree_text(
    kinds: &Vec<NodeData>,
    children: &Vec<Vec<usize>>,
    i: usize,
    out: &mut Vec<char>,
)
    requires
        kinds@.len() == children@.len(),
    ensures
        final(out)@ == old(out)@ + subtree_text(model(kinds@, children@), i as int),
    decreases kinds@.len() - i,
{
    let ghost t = model(kinds@, children@);
    if i >= kinds.len() {
        return;
    }
    match &kinds[i] {
        NodeData::Text { text } => {
            crate::text::push_str(out, text.as_str());
            return;
        },
        _ => {},
    }
    assert(!(t.kinds[i as int] is Text));
    let ghost o = out@;
    let cs = &children[i];
    let mut k: usize = 0;
    while k < cs.len()
        invariant
            t == model(kinds@, children@),
            kinds@.len() == children@.len(),
            i < kinds@.len(),
            cs@ == t.children[i as int],
            k <= cs@.len(),
            o + children_text(t, i as int, 0) == out@ + children_text(t, i as int, k as int),
        decreases cs@.len() - k,
    {
        let c = cs[k];
        if i < c && c < kinds.len() {
            push_subtree_text(kinds, children, c, out);
        }
        k += 1;
    }
    assert(out@ =~= o + children_text(t, i as int, 0));
}

/// Appends the descendants of node `i` to `out`.
pub fn push_descendants(
    kinds: &Vec<NodeData>,
    children: &Vec<Vec<usize>>,
    i: usize,
    out: &mut Vec<usize>,
)
    requires
        kinds@.len() == children@.len(),
    ensures
        final(out)@ == old(out)@ + descendants(model(kinds@, children@), i as int),
    decreases kinds@.len() - i,
{
    let ghost t = model(kinds@, children@);
    if i >= kinds.len() {
        return;
    }
    let ghost o = out@;
    let cs = &children[i];
    let mut k: usize = 0;
    while k < cs.len()
        invariant
            t == model(kinds@, children@),
            kinds@.len() == children@.len(),
            i < kinds@.len(),
            cs@ == t.children[i as int],
            k <= cs@.len(),
            o + children_descendants(t, i as int, 0) == out@ + children_descendants(
                t,
                i as int,
                k as int,
            ),
        decreases cs@.len() - k,
    {
        let c = cs[k];
        if i < c && c < kinds.len() {
            out.push(c);
            push_descendants(kinds, children, c, out);
        }
        k += 1;
    }
    assert(out@ =~= o + children_descendants(t, i as int, 0));
}

/// The value of the first attribute of `attrs` with local name `name` and no
/// namespace: the attribute that `scraper::node::Element::attr` looks up.
pub open spec fn find_attr(attrs: Seq<AttrModel>, name: Seq<char>) -> Option<Seq<char>>
    decreases attrs.len(),
{
    if attrs.len() == 0 {
        None
    } else if attrs[0].name == name && attrs[0].ns.len() == 0 {
        Some(attrs[0].value)
    } else {
        find_attr(attrs.drop_first(), name)
    }
}

/// The value of attribute `name` of node `i`, when `i` is an element that has one.
pub open spec fn attr_of(t: TreeModel, i: int, name: Seq<char>) -> Option<Seq<char>> {
    if !is_node(t, i) {
        None
    } else {
        match t.kinds[i] {
            NodeKind::Element { attrs, .. } => find_attr(attrs, name),
            _ => None,
        }
    }
}

/// The local name of node `i` when it is an element.
pub open spec fn element_name(t: TreeModel, i: int) -> Option<Seq<char>> {
    if !is_node(t, i) {
        None
    } else {
        match t.kinds[i] {
            NodeKind::Element { name, .. } => Some(name),
            _ => None,
        }
    }
}

/// The value of attribute `name` of node `i`.
pub fn get_attr<'a>(kinds: &'a Vec<NodeData>, children: &Vec<Vec<usize>>, i: usize, name: &str) -> (r:
    Option<&'a String>)
    requires
        kinds@.len() == children@.len(),
    ensures
        match r {
            Some(v) => attr_of(model(kinds@, children@), i as int, name@) == Some(v@),
            None => attr_of(model(kinds@, children@), i as int, name@) is None,
        },
{
    if i >= kinds.len() {
        return None;
    }
    match &kinds[i] {
        NodeData::Element { attrs, .. } => {
            let ghost av = attrs@.map_values(|a: Attr| a@);
            assert(model(kinds@, children@).kinds[i as int] == kinds@[i as int]@);
            assert(attr_of(model(kinds@, children@), i as int, name@) == find_attr(av, name@));
            assert(av.skip(0) =~= av);
            let mut k: usize = 0;
            while k < attrs.len()
                invariant
                    k <= attrs@.len(),
                    attr_of(model(kinds@, children@), i as int, name@) == find_attr(av, name@),
                    av == attrs@.map_values(|a: Attr| a@),
                    find_attr(av, name@) == find_attr(av.skip(k as int), name@),
                decreases attrs@.len() - k,
            {
                proof {
                    assert(av.skip(k as int).drop_first() =~= av.skip(k + 1));
                    assert(av.skip(k as int)[0] == av[k as int]);
                }
                if crate::text::str_eq(attrs[k].0.as_str(), name) && attrs[k].2.as_str().is_empty() {
                    return Some(&attrs[k].1);
                }
                k += 1;
            }
            assert(av.skip(k as int) =~= Seq::<AttrModel>::empty());
            None
        },
        _ => None,
    }
}

/// The local name of node `i` when it is an element.
pub fn get_element_name<'a>(kinds: &'a Vec<NodeData>, children: &Vec<Vec<usize>>, i: usize) -> (r:
    Option<&'a String>)
    requires
        kinds@.len() == children@.len(),
    ensures
        match r {
            Some(v) => element_name(model(kinds@, children@), i as int) == Some(v@),
            None => element_name(model(kinds@, children@), i as int) is None,
        },
{
    if i >= kinds.len() {
        return None;
    }
    match &kinds[i] {
        NodeData::Element { name, .. } => Some(name),
        _ => None,
    }
}

} // verus!

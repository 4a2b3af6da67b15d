//! A router whose nodes stand in one flat list, each at the index of its id.
//!
//! Lenses move over the nodes along paths with file-system semantics, as in the
//! tree router, and are told by their handlers when they arrive or give up.

use vstd::prelude::*;
use vstd::string::{StringExecFns, StringSliceAdditionalSpecFns};
use vstd::utf8::{encode_utf8, decode_utf8, valid_utf8, is_char_boundary, encode_utf8_valid_utf8,
    encode_utf8_decode_utf8, is_char_boundary_start_end_of_seq};
use crate::text::{slash_at, dot_slash_at, dot_dot_slash_at, skip_slashes, segment_end, lemma_skip_slashes_bounds,
    lemma_segment_end_bounds, is_slash_at, is_dot_slash_at, is_dot_dot_slash_at, skip_slashes_from,
    segment_end_from, str_eq_bytes, str_eq, lemma_encode_injective};
use crate::router::{lemma_ascii_boundary, lemma_skip_slashes_boundary, lemma_boundary_in_rest};
use crate::router::lens::{StateModel, LensModel};
use crate::router::update::offset_ok;

verus! {

pub struct Router {
    pub lenses: RouterLenses,
    pub nodes: RouterNodes,
}

/// One step of a lens along its path.
pub enum PathItem {
    /// `/`: go to the root.
    ToRoot,
    /// `./`: stay at the current node.
    ToSelf,
    /// `../`: go to the parent of the current node.
    ToSuper,
    /// `name`: go to the child with that name.
    ToNode(usize),
    /// The path cannot be followed.
    Error(String),
    /// The path has been followed to its end.
    End,
}

/// One step of a lens, as a value of logic.
pub enum FlatStep {
    ToRoot,
    ToSelf,
    ToSuper,
    ToNode(usize),
    /// The node the lens stands at is not in the list.
    NoCurrent,
    /// No child of the current node has the name between the two offsets.
    NotFound(int, int),
    End,
}

/// Whether slot `i` holds a child of `cur` whose name is encoded as `name`.
pub open spec fn slot_is_child(nodes: Seq<Option<Node>>, cur: Node, name: Seq<u8>, i: int) -> bool {
    &&& 0 <= i < nodes.len()
    &&& nodes[i] matches Some(n) && encode_utf8(n.name@) == name && n.parent == Some(cur.id)
}

/// The first slot from `i` on that holds a child of `cur` named `name`.
pub open spec fn first_child_from(nodes: Seq<Option<Node>>, cur: Node, name: Seq<u8>, i: int) -> Option<int>
    decreases nodes.len() - i,
{
    if i < 0 || i >= nodes.len() {
        None
    } else if slot_is_child(nodes, cur, name, i) {
        Some(i)
    } else {
        first_child_from(nodes, cur, name, i + 1)
    }
}

/// The next step of a lens at `src` towards the path whose UTF-8 bytes are `b`,
/// read from offset `off`, and the offset after it.
pub open spec fn flat_step(nodes: Seq<Option<Node>>, b: Seq<u8>, off: int, src: Seq<usize>) -> (FlatStep, int) {
    if off == 0 && slash_at(b, 0) && src.len() > 0 {
        (FlatStep::ToSuper, off)
    } else if off == 0 && slash_at(b, 0) {
        (FlatStep::ToRoot, 1)
    } else if off == 0 && dot_slash_at(b, 0) {
        (FlatStep::ToSelf, 2)
    } else if off == 0 && dot_dot_slash_at(b, 0) {
        (FlatStep::ToSuper, 3)
    } else if off == b.len() {
        (FlatStep::End, off)
    } else {
        let s = skip_slashes(b, off);
        let cur = if src.len() > 0 { src.last() as int } else { 0 };
        if dot_slash_at(b, s) {
            (FlatStep::ToSelf, s + 2)
        } else if dot_dot_slash_at(b, s) {
            (FlatStep::ToSuper, s + 3)
        } else if nodes[cur] is None {
            (FlatStep::NoCurrent, s)
        } else {
            let e = segment_end(b, s);
            match first_child_from(nodes, nodes[cur]->0, b.subrange(s, e), 0) {
                Some(i) => (FlatStep::ToNode(nodes[i]->0.id), e),
                None => (FlatStep::NotFound(s, e), s),
            }
        }
    }
}

pub proof fn lemma_first_child_from(nodes: Seq<Option<Node>>, cur: Node, name: Seq<u8>, i: int)
    requires
        0 <= i,
    ensures
        match first_child_from(nodes, cur, name, i) {
            Some(j) => i <= j < nodes.len() && slot_is_child(nodes, cur, name, j)
                && forall|k: int| i <= k < j ==> !slot_is_child(nodes, cur, name, k),
            None => forall|k: int| i <= k < nodes.len() ==> !slot_is_child(nodes, cur, name, k),
        },
    decreases nodes.len() - i,
{
    if i < nodes.len() && !slot_is_child(nodes, cur, name, i) {
        lemma_first_child_from(nodes, cur, name, i + 1);
    }
}

pub struct Node {
    pub parent: Option<usize>,
    pub name: String,
    pub id: usize,
}

impl Node {
    /// Nodes of this router do nothing with events yet.
    pub fn on_event(&mut self, event: &mut EventWrapper)
        ensures
            *final(self) == *old(self),
            *final(event) == *old(event),
    {
    }

    pub fn is_child_of(&self, parent: &Node) -> (r: bool)
        ensures
            r == (self.parent == Some(parent.id)),
    {
        match self.parent {
            Some(id) => id == parent.id,
            None => false,
        }
    }

    pub fn is_named(&self, name: &str) -> (r: bool)
        ensures
            r == (self.name@ == name@),
    {
        str_eq(self.name.as_str(), name)
    }
}

/// The index of the first node with the given name.
pub open spec fn first_named_from(nodes: Seq<Option<Node>>, name: Seq<char>, i: int) -> Option<int>
    decreases nodes.len() - i,
{
    if i < 0 || i >= nodes.len() {
        None
    } else if nodes[i] matches Some(n) && n.name@ == name {
        Some(i)
    } else {
        first_named_from(nodes, name, i + 1)
    }
}

pub struct RouterNodes {
    nodes: Vec<Option<Node>>,
}

impl RouterNodes {
    /// The slots of the list, in order.
    pub closed spec fn spec_nodes(&self) -> Seq<Option<Node>> {
        self.nodes@
    }

    /// A list holding only the root: node 0, named "root", without parent.
    pub fn new() -> (r: RouterNodes)
        ensures
            r.spec_nodes().len() == 1,
            r.spec_nodes()[0] matches Some(n) && n.id == 0 && n.parent is None && n.name@ == "root"@,
    {
        let root_node = Some(Node { id: 0, parent: None, name: String::from_str("root") });
        let mut nodes = Vec::new();
        nodes.push(root_node);
        RouterNodes { nodes }
    }

    pub fn get_mut_node_by_id(&mut self, id: usize) -> (r: Option<&mut Node>)
        ensures
            match r {
                Some(n) => id < old(self).spec_nodes().len() && old(self).spec_nodes()[id as int] == Some(*n)
                    && final(self).spec_nodes() == old(self).spec_nodes().update(id as int, Some(*final(n))),
                None => (id >= old(self).spec_nodes().len() || old(self).spec_nodes()[id as int] is None)
                    && final(self).spec_nodes() == old(self).spec_nodes(),
            },
    {
        if id >= self.nodes.len() {
            return None;
        }
        match &mut self.nodes[id] {
            Some(node) => Some(node),
            None => None,
        }
    }

    /// The slot of the given id, or an empty one past the end of the list.
    pub fn get_node_by_id(&self, id: usize) -> (r: &Option<Node>)
        ensures
            *r == if id < self.spec_nodes().len() { self.spec_nodes()[id as int] } else { None },
    {
        if id < self.nodes.len() {
            &self.nodes[id]
        } else {
            &None
        }
    }

    /// The id of the first node with the given name.
    pub fn get_node_id(&self, name: &str) -> (r: Option<usize>)
        ensures
            r == match first_named_from(self.spec_nodes(), name@, 0) {
                Some(i) => Some(i as usize),
                None => None::<usize>,
            },
    {
        let mut i: usize = 0;
        while i < self.nodes.len()
            invariant
                i <= self.nodes@.len(),
                first_named_from(self.spec_nodes(), name@, 0) == first_named_from(self.spec_nodes(), name@, i as int),
            decreases self.nodes@.len() - i,
        {
            match &self.nodes[i] {
                Some(node) => {
                    if str_eq(node.name.as_str(), name) {
                        return Some(i);
                    }
                },
                None => {},
            }
            i = i + 1;
        }
        None
    }

    /// Appends a node to the list.
    fn push(&mut self, node: Node)
        ensures
            final(self).spec_nodes() == old(self).spec_nodes().push(Some(node)),
    {
        self.nodes.push(Some(node));
    }

    /// The number of slots.
    fn len(&self) -> (r: usize)
        ensures
            r == self.spec_nodes().len(),
    {
        self.nodes.len()
    }
}

pub struct Lens {
    pub name: String,
    pub path: Vec<usize>,
    pub state: LensState,
}

pub struct RouterLenses {
    lenses: Vec<Lens>,
    handlers: Vec<Box<dyn LensHandler>>,
}

impl RouterLenses {
    pub closed spec fn spec_lenses(&self) -> Seq<Lens> {
        self.lenses@
    }

    pub closed spec fn spec_handler_count(&self) -> nat {
        self.handlers@.len()
    }

    pub fn new() -> (r: RouterLenses)
        ensures
            r.spec_lenses().len() == 0,
            r.spec_handler_count() == 0,
    {
        RouterLenses { lenses: Vec::new(), handlers: Vec::new() }
    }

    pub fn get_mut_lens_by_id(&mut self, id: usize) -> (r: Option<&mut Lens>)
        ensures
            match r {
                Some(l) => id < old(self).spec_lenses().len() && *l == old(self).spec_lenses()[id as int]
                    && final(self).spec_lenses() == old(self).spec_lenses().update(id as int, *final(l))
                    && final(self).spec_handler_count() == old(self).spec_handler_count(),
                None => id >= old(self).spec_lenses().len() && final(self).spec_lenses() == old(self).spec_lenses()
                    && final(self).spec_handler_count() == old(self).spec_handler_count(),
            },
    {
        if id < self.lenses.len() {
            Some(&mut self.lenses[id])
        } else {
            None
        }
    }
}

/// The logic of a lens: told of events, it answers with the lens's next state.
pub trait LensHandler {
    fn on_event(&mut self, event: &mut EventWrapper, lens: &Lens) -> LensState;
}

/// A handler that ignores every event.
pub struct NullLensHandler {}

impl LensHandler for NullLensHandler {
    fn on_event(&mut self, event: &mut EventWrapper, lens: &Lens) -> (r: LensState)
        ensures
            r is Idle,
    {
        LensState::Idle
    }
}

#[derive(Clone)]
pub enum LensState {
    Idle,
    Moving(String, usize),
    Destruction,
}

impl View for LensState {
    type V = StateModel;

    open spec fn view(&self) -> StateModel {
        match self {
            LensState::Idle => StateModel::Idle,
            LensState::Moving(p, o) => StateModel::Moving(p@, *o),
            LensState::Destruction => StateModel::Destruction,
        }
    }
}

impl PartialEq for LensState {
    /// States are equal when they are of the same kind.
    fn eq(&self, other: &LensState) -> (r: bool) {
        match (self, other) {
            (LensState::Idle, LensState::Idle) => true,
            (LensState::Moving(_, _), LensState::Moving(_, _)) => true,
            (LensState::Destruction, LensState::Destruction) => true,
            _ => false,
        }
    }
}

impl vstd::std_specs::cmp::PartialEqSpecImpl for LensState {
    open spec fn obeys_eq_spec() -> bool {
        true
    }

    open spec fn eq_spec(&self, other: &LensState) -> bool {
        match (self, other) {
            (LensState::Idle, LensState::Idle) => true,
            (LensState::Moving(_, _), LensState::Moving(_, _)) => true,
            (LensState::Destruction, LensState::Destruction) => true,
            _ => false,
        }
    }
}

/// Tells a lens that its move is over.
#[derive(PartialEq, Eq, Structural, Copy, Clone, Debug)]
pub enum LensMoveEvent {
    Finished,
    Aborted,
}

impl Event for LensMoveEvent {
    fn is_passive(&self) -> (r: bool)
        ensures
            !r,
    {
        false
    }
}

/// An event that can be sent through the router towards a lens.
pub trait Event {
    /// If an event is passive, it can be fired at its destination regardless of
    /// what state the lens is in.
    fn is_passive(&self) -> bool;
}

pub enum EventPhase {
    /// The event is being wrapped in a `EventWrapper`.
    Creation,
    /// The event is flowing towards its destination.
    Propagation,
    /// The event is being evaluated by its destination.
    Action,
    /// The event is flowing back towards its source.
    Bubbling,
}

/// Wraps an event as it is processed by the router.
pub struct EventWrapper<'a> {
    /// The event being processed.
    pub event: &'a dyn Event,
    phase: EventPhase,
    /// Can the event flow towards its destination?
    can_propagate: bool,
    /// Can the event be evaluated by its destination?
    can_default: bool,
    /// Can the event flow back towards its source?
    can_bubble: bool,
}

impl<'a> EventWrapper<'a> {
    pub closed spec fn spec_can_propagate(&self) -> bool {
        self.can_propagate
    }

    pub closed spec fn spec_can_default(&self) -> bool {
        self.can_default
    }

    pub closed spec fn spec_can_bubble(&self) -> bool {
        self.can_bubble
    }

    /// Prevents the event from being evaluated by its destination.
    pub fn prevent_default(&mut self)
        ensures
            final(self).spec_can_propagate() == old(self).spec_can_propagate(),
            !final(self).spec_can_default(),
            final(self).spec_can_bubble() == old(self).spec_can_bubble(),
    {
        self.can_default = false;
    }

    /// Stops the flow of the event toward its destination.
    pub fn stop_propagation(&mut self)
        ensures
            !final(self).spec_can_propagate(),
            final(self).spec_can_default() == old(self).spec_can_default(),
            final(self).spec_can_bubble() == old(self).spec_can_bubble(),
    {
        self.can_propagate = false;
    }

    /// Stops the flow of the event back towards its source.
    pub fn stop_bubbling(&mut self)
        ensures
            final(self).spec_can_propagate() == old(self).spec_can_propagate(),
            final(self).spec_can_default() == old(self).spec_can_default(),
            !final(self).spec_can_bubble(),
    {
        self.can_bubble = false;
    }
}

} // verus!

verus! {

/// One update of one lens: its path and state after it, and the event it is told
/// when it stopped moving. A lens that stands nowhere starts moving to the root.
pub open spec fn flat_lens_step(nodes: Seq<Option<Node>>, path: Seq<usize>, st: StateModel) -> (Seq<usize>, StateModel, Option<
    LensMoveEvent,
>) {
    let st1 = if path.len() == 0 { StateModel::Moving(seq!['/'], 0) } else { st };
    match st1 {
        StateModel::Moving(p, o) => {
            let (step, o2) = flat_step(nodes, encode_utf8(p), o as int, path);
            let path2 = match step {
                FlatStep::ToRoot => seq![0usize],
                FlatStep::ToSuper => if path.len() > 0 { path.drop_last() } else { path },
                FlatStep::ToNode(x) => path.push(x),
                _ => path,
            };
            let done = match step {
                FlatStep::NoCurrent => Some(LensMoveEvent::Aborted),
                FlatStep::NotFound(_, _) => Some(LensMoveEvent::Aborted),
                FlatStep::End => Some(LensMoveEvent::Finished),
                _ => None,
            };
            (path2, if done is Some { StateModel::Idle } else { StateModel::Moving(p, o2 as usize) }, done)
        },
        _ => (path, st1, None),
    }
}

/// Whether every node of the list is stored at an index of the list, and every
/// lens stands on indices of the list and reads its path at a character boundary.
pub open spec fn flat_ready(nodes: Seq<Option<Node>>, lenses: Seq<Lens>) -> bool {
    &&& nodes.len() >= 1
    &&& forall|i: int| 0 <= i < nodes.len() && (#[trigger] nodes[i]) is Some ==> nodes[i]->0.id < nodes.len()
    &&& forall|i: int|
        0 <= i < lenses.len() ==> {
            &&& forall|j: int| 0 <= j < (#[trigger] lenses[i]).path@.len() ==> lenses[i].path@[j] < nodes.len()
            &&& offset_ok(lenses[i].state@)
        }
}

/// What `update` makes of router `a`: `b`, returning `r`.
pub open spec fn flat_updated(a: Router, b: Router, r: bool) -> bool {
    let (stepped, events) = flat_advance(
        a.nodes.spec_nodes(),
        a.lenses.spec_lenses().map_values(|l: Lens| flat_model(l)),
    );
    let ls = b.lenses.spec_lenses().map_values(|l: Lens| flat_model(l));
    &&& b.nodes.spec_nodes() == a.nodes.spec_nodes()
    &&& b.lenses.spec_handler_count() == a.lenses.spec_handler_count()
    &&& r == (ls.len() == 0)
    &&& forall|i: int| 0 <= i < ls.len() ==> !((#[trigger] ls[i]).state is Destruction)
    &&& events.len() == 0 ==> ls == flat_retained(stepped)
}

impl Router {
    pub fn new() -> (r: Router)
        ensures
            r.lenses.spec_lenses().len() == 0,
            r.nodes.spec_nodes().len() == 1,
    {
        Router { lenses: RouterLenses::new(), nodes: RouterNodes::new() }
    }

    /// Adds a lens named `name`, standing nowhere and idle, configured by
    /// `constructor`; its handler ignores every event.
    pub fn new_lens<F: Fn(&mut Lens)>(&mut self, name: &str, constructor: &F)
        requires
            forall|l: &mut Lens| #[trigger] constructor.requires((l,)),
        ensures
            final(self).lenses.spec_lenses().len() == old(self).lenses.spec_lenses().len() + 1,
            forall|i: int| 0 <= i < old(self).lenses.spec_lenses().len() ==> #[trigger] final(self).lenses.spec_lenses()[i]
                == old(self).lenses.spec_lenses()[i],
            final(self).nodes.spec_nodes() == old(self).nodes.spec_nodes(),
    {
        let mut lens = Lens { name: String::from_str(name), path: Vec::new(), state: LensState::Idle };
        constructor(&mut lens);
        self.lenses.lenses.push(lens);
        let handler: Box<dyn LensHandler> = Box::new(NullLensHandler {});
        self.lenses.handlers.push(handler);
    }

    /// Adds a node named `name` under `parent` (the root where none is given),
    /// configured by `constructor`. It is meant to take the next index as id.
    pub fn new_node<F: Fn(&mut Node)>(&mut self, name: &str, parent: Option<usize>, constructor: &F)
        requires
            forall|n: &mut Node| #[trigger] constructor.requires((n,)),
        ensures
            final(self).nodes.spec_nodes().len() == old(self).nodes.spec_nodes().len() + 1,
            final(self).nodes.spec_nodes().drop_last() == old(self).nodes.spec_nodes(),
            final(self).nodes.spec_nodes().last() is Some,
            final(self).lenses == old(self).lenses,
    {
        let parent = match parent {
            Some(p) => Some(p),
            None => Some(0),
        };
        let id = self.nodes.len();
        let mut node = Node { id, parent, name: String::from_str(name) };
        constructor(&mut node);
        self.nodes.push(node);
        assert(self.nodes.spec_nodes().drop_last() =~= old(self).nodes.spec_nodes());
    }

    /// Resolves the next step of a lens at `src_path` towards `dst_path`, read from
    /// `dst_off`, which moves past what the step reads.
    fn path_next(nodes: &RouterNodes, dst_path: &str, dst_off: &mut usize, src_path: &[usize]) -> (r: PathItem)
        requires
            *old(dst_off) <= dst_path.spec_bytes().len(),
            is_char_boundary(dst_path.spec_bytes(), *old(dst_off) as int),
            nodes.spec_nodes().len() >= 1,
            src_path@.len() > 0 ==> src_path@.last() < nodes.spec_nodes().len(),
        ensures
            ({
                let (step, o) = flat_step(nodes.spec_nodes(), dst_path.spec_bytes(), *old(dst_off) as int, src_path@);
                &&& *final(dst_off) == o
                &&& match step {
                    FlatStep::ToRoot => r is ToRoot,
                    FlatStep::ToSelf => r is ToSelf,
                    FlatStep::ToSuper => r is ToSuper,
                    FlatStep::ToNode(id) => r == PathItem::ToNode(id),
                    FlatStep::NoCurrent => r matches PathItem::Error(m) && m@ == "Could not resolve current."@,
                    FlatStep::NotFound(s, e) => r matches PathItem::Error(m) && m@ == "Could not find node: "@
                        + decode_utf8(dst_path.spec_bytes().subrange(s, e)),
                    FlatStep::End => r is End,
                }
            }),
    {
        let b = dst_path.as_bytes();
        let ghost bs = dst_path.spec_bytes();
        let ghost off0 = *dst_off as int;
        proof {
            encode_utf8_valid_utf8(dst_path@);
        }
        if *dst_off == 0 {
            if is_slash_at(b, 0) {
                if src_path.len() > 0 {
                    return PathItem::ToSuper;
                }
                *dst_off = *dst_off + 1;
                return PathItem::ToRoot;
            }
            if is_dot_slash_at(b, 0) {
                *dst_off = *dst_off + 2;
                return PathItem::ToSelf;
            }
            if is_dot_dot_slash_at(b, 0) {
                *dst_off = *dst_off + 3;
                return PathItem::ToSuper;
            }
        }
        if *dst_off == b.len() {
            return PathItem::End;
        }
        let start = skip_slashes_from(b, *dst_off);
        proof {
            lemma_skip_slashes_bounds(bs, *dst_off as int);
            lemma_skip_slashes_boundary(bs, *dst_off as int);
        }
        *dst_off = start;
        if is_dot_slash_at(b, start) {
            *dst_off = start + 2;
            return PathItem::ToSelf;
        }
        if is_dot_dot_slash_at(b, start) {
            *dst_off = start + 3;
            return PathItem::ToSuper;
        }
        let cur_index = if src_path.len() > 0 { src_path[src_path.len() - 1] } else { 0 };
        let current = match &nodes.nodes[cur_index] {
            Some(x) => x,
            None => {
                return PathItem::Error(String::from_str("Could not resolve current."));
            },
        };
        let end = segment_end_from(b, start);
        proof {
            lemma_segment_end_bounds(bs, start as int);
            lemma_first_child_from(nodes.spec_nodes(), *current, bs.subrange(start as int, end as int), 0);
        }
        let ghost name = bs.subrange(start as int, end as int);
        let ghost found = match first_child_from(nodes.spec_nodes(), *current, name, 0) {
            Some(k) => (FlatStep::ToNode(nodes.spec_nodes()[k]->0.id), end as int),
            None => (FlatStep::NotFound(start as int, end as int), start as int),
        };
        assert(flat_step(nodes.spec_nodes(), bs, off0, src_path@) == found);
        let mut i: usize = 0;
        while i < nodes.nodes.len()
            invariant
                i <= nodes.spec_nodes().len(),
                start <= end <= bs.len(),
                b@ == bs,
                *dst_off == start,
                name == bs.subrange(start as int, end as int),
                flat_step(nodes.spec_nodes(), bs, off0, src_path@) == found,
                off0 == *old(dst_off),
                bs == dst_path.spec_bytes(),
                found == match first_child_from(nodes.spec_nodes(), *current, name, 0) {
                    Some(k) => (FlatStep::ToNode(nodes.spec_nodes()[k]->0.id), end as int),
                    None => (FlatStep::NotFound(start as int, end as int), start as int),
                },
                first_child_from(nodes.spec_nodes(), *current, name, 0) == first_child_from(
                    nodes.spec_nodes(),
                    *current,
                    name,
                    i as int,
                ),
            decreases nodes.spec_nodes().len() - i,
        {
            match &nodes.nodes[i] {
                Some(node) => {
                    if str_eq_bytes(node.name.as_str(), b, start, end) && node.is_child_of(current) {
                        *dst_off = end;
                        assert(slot_is_child(nodes.spec_nodes(), *current, name, i as int));
                        assert(first_child_from(nodes.spec_nodes(), *current, name, i as int) == Some(i as int));
                        assert(nodes.spec_nodes()[i as int] == Some(*node));
                        return PathItem::ToNode(node.id);
                    }
                },
                None => {},
            }
            i = i + 1;
        }
        proof {
            lemma_boundary_in_rest(bs, start as int, end as int);
        }
        let (_, rest) = dst_path.split_at(start);
        let (name_str, _) = rest.split_at(end - start);
        proof {
            assert(encode_utf8(name_str@) =~= bs.subrange(start as int, end as int));
            encode_utf8_decode_utf8(name_str@);
        }
        let mut msg = String::from_str("Could not find node: ");
        msg.append(name_str);
        PathItem::Error(msg)
    }
}


/// What a lens is, as a value of logic.
pub open spec fn flat_model(l: Lens) -> LensModel {
    LensModel { name: l.name@, path: l.path@, path_str: Seq::empty(), state: l.state@ }
}

/// One update of all lenses, in order: the lenses after it and the events they
/// are told (by index).
pub open spec fn flat_advance(nodes: Seq<Option<Node>>, ls: Seq<LensModel>) -> (Seq<LensModel>, Seq<(usize, LensMoveEvent)>)
    decreases ls.len(),
{
    if ls.len() == 0 {
        (Seq::empty(), Seq::empty())
    } else {
        let (a, le) = flat_advance(nodes, ls.drop_last());
        let l = ls.last();
        let (p2, s2, done) = flat_lens_step(nodes, l.path, l.state);
        (
            a.push(LensModel { name: l.name, path: p2, path_str: l.path_str, state: s2 }),
            match done {
                Some(d) => le.push(((ls.len() - 1) as usize, d)),
                None => le,
            },
        )
    }
}

/// The lenses that are not being destroyed.
pub open spec fn flat_retained(ls: Seq<LensModel>) -> Seq<LensModel>
    decreases ls.len(),
{
    if ls.len() == 0 {
        Seq::empty()
    } else {
        let r = flat_retained(ls.drop_last());
        if ls.last().state is Destruction {
            r
        } else {
            r.push(ls.last())
        }
    }
}

impl Router {
    /// Fires an event at a lens: it flows along the lens's path, is handed to the
    /// lens's handler, and flows back. A lens receives an event only when it is
    /// idle, unless the event is passive; an idle lens takes the state its handler
    /// returns.
    fn fire_event_at_lens_id<E: Event>(&mut self, lens_id: usize, event: &E)
        ensures
            final(self).nodes.spec_nodes() == old(self).nodes.spec_nodes(),
            final(self).lenses.spec_handler_count() == old(self).lenses.spec_handler_count(),
            final(self).lenses.spec_lenses().len() == old(self).lenses.spec_lenses().len(),
            forall|i: int|
                0 <= i < old(self).lenses.spec_lenses().len() && i != lens_id
                    ==> #[trigger] final(self).lenses.spec_lenses()[i] == old(self).lenses.spec_lenses()[i],
            lens_id < old(self).lenses.spec_lenses().len() ==> {
                let a = final(self).lenses.spec_lenses()[lens_id as int];
                let b = old(self).lenses.spec_lenses()[lens_id as int];
                &&& a.name == b.name
                &&& a.path == b.path
                &&& !(b.state is Idle) ==> a.state == b.state
            },
    {
        if lens_id >= self.lenses.lenses.len() || lens_id >= self.lenses.handlers.len() {
            return;
        }
        if !event.is_passive() {
            if self.lenses.lenses[lens_id].state != LensState::Idle {
                return;
            }
        }
        let mut event_wrapper = EventWrapper {
            event,
            phase: EventPhase::Creation,
            can_propagate: true,
            can_default: true,
            can_bubble: true,
        };
        event_wrapper.phase = EventPhase::Propagation;
        let mut i: usize = 0;
        while i < self.lenses.lenses[lens_id].path.len()
            invariant
                self.lenses == old(self).lenses,
                self.nodes.spec_nodes() == old(self).nodes.spec_nodes(),
                lens_id < self.lenses.lenses@.len(),
            decreases self.lenses.lenses@[lens_id as int].path@.len() - i,
        {
            let node_id = self.lenses.lenses[lens_id].path[i];
            match self.nodes.get_mut_node_by_id(node_id) {
                Some(n) => n.on_event(&mut event_wrapper),
                None => {},
            }
            assert(self.nodes.spec_nodes() =~= old(self).nodes.spec_nodes());
            if !event_wrapper.can_propagate {
                break;
            }
            i = i + 1;
        }
        let new_state = if event_wrapper.can_default {
            event_wrapper.phase = EventPhase::Action;
            let lens = &self.lenses.lenses[lens_id];
            let handler = &mut self.lenses.handlers[lens_id];
            handler.on_event(&mut event_wrapper, lens)
        } else {
            LensState::Idle
        };
        if event_wrapper.can_bubble {
            event_wrapper.phase = EventPhase::Bubbling;
            let mut j: usize = self.lenses.lenses[lens_id].path.len();
            while j > 0
                invariant
                    self.lenses.lenses@ == old(self).lenses.lenses@,
                    self.lenses.handlers@.len() == old(self).lenses.handlers@.len(),
                    self.nodes.spec_nodes() == old(self).nodes.spec_nodes(),
                    lens_id < self.lenses.lenses@.len(),
                    j <= self.lenses.lenses@[lens_id as int].path@.len(),
                decreases j,
            {
                let node_id = self.lenses.lenses[lens_id].path[j - 1];
                match self.nodes.get_mut_node_by_id(node_id) {
                    Some(n) => n.on_event(&mut event_wrapper),
                    None => {},
                }
                assert(self.nodes.spec_nodes() =~= old(self).nodes.spec_nodes());
                if !event_wrapper.can_bubble {
                    break;
                }
                j = j - 1;
            }
        }
        if self.lenses.lenses[lens_id].state != LensState::Idle {
            return;
        }
        self.lenses.lenses[lens_id].state = new_state;
    }

    /// Fires an event at the first lens with the given name, if any.
    pub fn fire_event_at_lens<E: Event>(&mut self, target: &str, event: &E)
        ensures
            final(self).nodes.spec_nodes() == old(self).nodes.spec_nodes(),
            final(self).lenses.spec_lenses().len() == old(self).lenses.spec_lenses().len(),
            final(self).lenses.spec_handler_count() == old(self).lenses.spec_handler_count(),
            forall|i: int|
                0 <= i < old(self).lenses.spec_lenses().len() ==> {
                    let a = #[trigger] final(self).lenses.spec_lenses()[i];
                    let b = old(self).lenses.spec_lenses()[i];
                    &&& a.name == b.name
                    &&& a.path == b.path
                    &&& (!(b.state is Idle) || b.name@ != target@) ==> a.state == b.state
                },
    {
        let mut i: usize = 0;
        while i < self.lenses.lenses.len()
            invariant
                i <= self.lenses.lenses@.len(),
                *self == *old(self),
                forall|k: int| 0 <= k < i ==> self.lenses.lenses@[k].name@ != target@,
            decreases self.lenses.lenses@.len() - i,
        {
            if str_eq(self.lenses.lenses[i].name.as_str(), target) {
                self.fire_event_at_lens_id(i, event);
                return;
            }
            i = i + 1;
        }
    }

    /// Moves every lens one step, as `flat_lens_step` says; tells the lenses that
    /// stopped moving (last first); then removes the lenses being destroyed.
    /// Returns whether no lens is left.
    pub fn update(&mut self) -> (r: bool)
        requires
            flat_ready(old(self).nodes.spec_nodes(), old(self).lenses.spec_lenses()),
        ensures
            flat_updated(*old(self), *final(self), r),
    {
        let ghost nodes0 = self.nodes.spec_nodes();
        let ghost ls0 = self.lenses.spec_lenses().map_values(|l: Lens| flat_model(l));
        let ghost (stepped, events0) = flat_advance(nodes0, ls0);
        let mut events: Vec<(usize, LensMoveEvent)> = Vec::new();
        let mut pos: usize = 0;
        while pos < self.lenses.lenses.len()
            invariant
                self.nodes == old(self).nodes,
                nodes0 == self.nodes.spec_nodes(),
                flat_ready(nodes0, old(self).lenses.spec_lenses()),
                ls0 == old(self).lenses.spec_lenses().map_values(|l: Lens| flat_model(l)),
                pos <= ls0.len(),
                self.lenses.lenses@.len() == ls0.len(),
                self.lenses.handlers@.len() == old(self).lenses.handlers@.len(),
                forall|i: int| pos <= i < ls0.len() ==> #[trigger] self.lenses.lenses@[i] == old(self).lenses.spec_lenses()[i],
                ({
                    let (a, le) = flat_advance(nodes0, ls0.take(pos as int));
                    &&& self.lenses.lenses@.map_values(|l: Lens| flat_model(l)).take(pos as int) == a
                    &&& events@ == le
                }),
            decreases ls0.len() - pos,
        {
            let ghost before = self.lenses.lenses@;
            let ghost l0 = flat_model(before[pos as int]);
            proof {
                assert(ls0[pos as int] == l0);
                assert(ls0.take(pos + 1).drop_last() =~= ls0.take(pos as int));
                assert(ls0.take(pos + 1).last() == l0);
            }
            Router::advance_lens(&self.nodes, &mut self.lenses.lenses[pos], pos, &mut events);
            proof {
                let (a, le) = flat_advance(nodes0, ls0.take(pos as int));
                let after = self.lenses.lenses@.map_values(|l: Lens| flat_model(l));
                let (p2, s2, done) = flat_lens_step(nodes0, l0.path, l0.state);
                assert(after.take(pos + 1) =~= a.push(LensModel { name: l0.name, path: p2, path_str: l0.path_str, state: s2 }));
                assert forall|i: int| pos + 1 <= i < ls0.len() implies #[trigger] self.lenses.lenses@[i] == old(self).lenses.spec_lenses()[i] by {
                    assert(self.lenses.lenses@[i] == before[i]);
                }
            }
            pos = pos + 1;
        }
        proof {
            assert(ls0.take(ls0.len() as int) =~= ls0);
            assert(self.lenses.lenses@.map_values(|l: Lens| flat_model(l)) =~= self.lenses.lenses@.map_values(|l: Lens| flat_model(l)).take(ls0.len() as int));
        }
        let ghost lenses1 = self.lenses.lenses@;
        while events.len() > 0
            invariant
                self.nodes.spec_nodes() == old(self).nodes.spec_nodes(),
                self.lenses.handlers@.len() == old(self).lenses.handlers@.len(),
                self.lenses.lenses@.len() == ls0.len(),
                events0.len() == 0 ==> self.lenses.lenses@ == lenses1,
                events@.len() <= events0.len(),
            decreases events@.len(),
        {
            match events.pop() {
                Some((p, event)) => {
                    self.fire_event_at_lens_id(p, &event);
                },
                None => {},
            }
        }
        self.retain_lenses();
        self.lenses.lenses.len() == 0
    }

    /// Whether the router is in a state `update` can work on: every node is
    /// stored at an index of the list, and every lens stands on indices of the
    /// list and reads its path (if moving) at a character boundary.
    pub fn is_ready(&self) -> (r: bool)
        ensures
            r == flat_ready(self.nodes.spec_nodes(), self.lenses.spec_lenses()),
    {
        let nodes = &self.nodes.nodes;
        let lenses = &self.lenses.lenses;
        if nodes.len() < 1 {
            return false;
        }
        let mut i: usize = 0;
        while i < nodes.len()
            invariant
                i <= nodes@.len(),
                nodes == &self.nodes.nodes,
                forall|j: int| 0 <= j < i && (#[trigger] nodes@[j]) is Some ==> nodes@[j]->0.id < nodes@.len(),
            decreases nodes@.len() - i,
        {
            match &nodes[i] {
                Some(n) => {
                    if n.id >= nodes.len() {
                        return false;
                    }
                },
                None => {},
            }
            i = i + 1;
        }
        let mut l: usize = 0;
        while l < lenses.len()
            invariant
                l <= lenses@.len(),
                nodes == &self.nodes.nodes,
                lenses == &self.lenses.lenses,
                forall|x: int|
                    0 <= x < l ==> {
                        &&& forall|j: int| 0 <= j < (#[trigger] lenses@[x]).path@.len() ==> lenses@[x].path@[j] < nodes@.len()
                        &&& offset_ok(lenses@[x].state@)
                    },
            decreases lenses@.len() - l,
        {
            let lens = &lenses[l];
            let mut j: usize = 0;
            while j < lens.path.len()
                invariant
                    j <= lens.path@.len(),
                    l < lenses@.len(),
                    *lens == lenses@[l as int],
                    nodes == &self.nodes.nodes,
                    lenses == &self.lenses.lenses,
                    forall|y: int| 0 <= y < j ==> lens.path@[y] < nodes@.len(),
                decreases lens.path@.len() - j,
            {
                if lens.path[j] >= nodes.len() {
                    assert(lenses@[l as int].path@[j as int] >= nodes@.len());
                    return false;
                }
                j = j + 1;
            }
            match &lens.state {
                LensState::Moving(p, o) => {
                    let s = p.as_str();
                    proof {
                        encode_utf8_valid_utf8(s@);
                    }
                    let len = s.as_bytes().len();
                    if !(*o <= len && s.is_char_boundary(*o)) {
                        return false;
                    }
                },
                _ => {},
            }
            l = l + 1;
        }
        true
    }

    /// Updates the router as `update` does when it is ready to be updated;
    /// otherwise gives `None` and changes nothing.
    pub fn try_update(&mut self) -> (r: Option<bool>)
        ensures
            r is None <==> !flat_ready(old(self).nodes.spec_nodes(), old(self).lenses.spec_lenses()),
            r is None ==> *final(self) == *old(self),
            r matches Some(x) ==> flat_updated(*old(self), *final(self), x),
    {
        if !self.is_ready() {
            return None;
        }
        let r = self.update();
        Some(r)
    }

    /// Moves one lens one step and queues the event it is told if it stopped.
    fn advance_lens(nodes: &RouterNodes, lens: &mut Lens, pos: usize, events: &mut Vec<(usize, LensMoveEvent)>)
        requires
            nodes.spec_nodes().len() >= 1,
            forall|i: int| 0 <= i < nodes.spec_nodes().len() && (#[trigger] nodes.spec_nodes()[i]) is Some
                ==> nodes.spec_nodes()[i]->0.id < nodes.spec_nodes().len(),
            forall|j: int| 0 <= j < old(lens).path@.len() ==> old(lens).path@[j] < nodes.spec_nodes().len(),
            offset_ok(old(lens).state@),
        ensures
            ({
                let (p2, s2, done) = flat_lens_step(nodes.spec_nodes(), old(lens).path@, old(lens).state@);
                &&& final(lens).name == old(lens).name
                &&& final(lens).path@ == p2
                &&& final(lens).state@ == s2
                &&& final(events)@ == match done {
                    Some(d) => old(events)@.push((pos, d)),
                    None => old(events)@,
                }
            }),
    {
        if lens.path.is_empty() {
            lens.state = LensState::Moving(String::from_str("/"), 0);
            proof {
                reveal_strlit("/");
                assert("/"@ =~= seq!['/']);
            }
        }
        if lens.state == LensState::Idle || lens.state == LensState::Destruction {
            return;
        }
        let mut st = LensState::Idle;
        std::mem::swap(&mut st, &mut lens.state);
        match st {
            LensState::Moving(path, offset) => {
                let mut offset = offset;
                proof {
                    encode_utf8_valid_utf8(path@);
                    is_char_boundary_start_end_of_seq(encode_utf8(path@));
                }
                let step = Router::path_next(nodes, path.as_str(), &mut offset, lens.path.as_slice());
                let done = match step {
                    PathItem::ToSelf => None,
                    PathItem::ToRoot => {
                        lens.path.clear();
                        lens.path.push(0);
                        None
                    },
                    PathItem::ToSuper => {
                        lens.path.pop();
                        None
                    },
                    PathItem::ToNode(x) => {
                        lens.path.push(x);
                        None
                    },
                    PathItem::Error(_) => {
                        events.push((pos, LensMoveEvent::Aborted));
                        Some(LensState::Idle)
                    },
                    PathItem::End => {
                        events.push((pos, LensMoveEvent::Finished));
                        Some(LensState::Idle)
                    },
                };
                lens.state = match done {
                    Some(s) => s,
                    None => LensState::Moving(path, offset),
                };
                proof {
                    assert(lens.path@ =~= flat_lens_step(nodes.spec_nodes(), old(lens).path@, old(lens).state@).0);
                }
            },
            _ => {},
        }
    }

    /// Removes the lenses that are being destroyed; the handlers stay.
    fn retain_lenses(&mut self)
        ensures
            final(self).lenses.spec_lenses().map_values(|l: Lens| flat_model(l)) == flat_retained(
                old(self).lenses.spec_lenses().map_values(|l: Lens| flat_model(l)),
            ),
            final(self).lenses.handlers@.len() == old(self).lenses.handlers@.len(),
            final(self).nodes.spec_nodes() == old(self).nodes.spec_nodes(),
            forall|i: int| 0 <= i < final(self).lenses.spec_lenses().len() ==> !((#[trigger] final(self).lenses.spec_lenses()[i]).state is Destruction),
    {
        let ghost ls = self.lenses.lenses@.map_values(|l: Lens| flat_model(l));
        let mut i: usize = 0;
        let ghost mut j: int = 0;
        while i < self.lenses.lenses.len()
            invariant
                0 <= j <= ls.len(),
                i == flat_retained(ls.take(j)).len(),
                self.lenses.lenses@.map_values(|l: Lens| flat_model(l)) == flat_retained(ls.take(j)) + ls.skip(j),
                self.lenses.handlers@.len() == old(self).lenses.handlers@.len(),
                self.nodes == old(self).nodes,
                forall|k: int| 0 <= k < i ==> !((#[trigger] self.lenses.lenses@[k]).state is Destruction),
            decreases ls.len() - j,
        {
            let ghost before = self.lenses.lenses@.map_values(|l: Lens| flat_model(l));
            let ghost vb = self.lenses.lenses@;
            proof {
                assert(before[i as int] == ls[j]);
                assert(ls.take(j + 1).drop_last() =~= ls.take(j));
                assert(ls.take(j + 1).last() == ls[j]);
            }
            if self.lenses.lenses[i].state != LensState::Destruction {
                i = i + 1;
                proof {
                    assert(self.lenses.lenses@.map_values(|l: Lens| flat_model(l)) =~= flat_retained(ls.take(j + 1)) + ls.skip(j + 1));
                }
            } else {
                self.lenses.lenses.remove(i);
                proof {
                    assert(self.lenses.lenses@.map_values(|l: Lens| flat_model(l)) =~= before.remove(i as int));
                    assert(self.lenses.lenses@.map_values(|l: Lens| flat_model(l)) =~= flat_retained(ls.take(j + 1)) + ls.skip(j + 1));
                    assert forall|k: int| 0 <= k < i implies !((#[trigger] self.lenses.lenses@[k]).state is Destruction) by {
                        assert(self.lenses.lenses@[k] == vb[k]);
                    }
                }
            }
            proof {
                j = j + 1;
            }
        }
        proof {
            assert(ls.take(j) =~= ls);
            assert(self.lenses.lenses@.map_values(|l: Lens| flat_model(l)) =~= flat_retained(ls));
        }
    }
}

} // verus!

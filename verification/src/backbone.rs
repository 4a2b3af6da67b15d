//! The backbone: the application as a tree of nodes with handlers, over which one
//! location moves and into which events are fired.
//!
//! The location is a path of nodes, changed by moving along a path string with
//! file-system semantics (`/` the root, `name` a child, `./` the current node,
//! `../` its parent), one step per update.

use vstd::prelude::*;
use vstd::string::{StringExecFns, StringSliceAdditionalSpecFns};
use vstd::utf8::{encode_utf8, decode_utf8, valid_utf8, is_char_boundary, encode_utf8_valid_utf8,
    encode_utf8_decode_utf8, is_char_boundary_start_end_of_seq};
use rustc_hash::FxHashMap;
use std::any::TypeId;
use crate::text::{slash_at, dot_slash_at, dot_dot_slash_at, skip_slashes, segment_end, lemma_skip_slashes_bounds,
    lemma_segment_end_bounds, is_slash_at, is_dot_slash_at, is_dot_dot_slash_at, skip_slashes_from,
    segment_end_from, str_eq_bytes, lemma_encode_injective};
use crate::router::{lemma_ascii_boundary, lemma_skip_slashes_boundary, lemma_boundary_in_rest};
use crate::fxmap::{fx_new, fx_get, fx_get_mut, fx_keys, fx_insert, fx_contains};

pub mod comps;

verus! {

/// A reference to a node in the backbone, that may not exist.
#[derive(PartialEq, Eq, Structural, Hash, Clone, Copy, Debug)]
pub struct NodeId {
    inner: usize,
}

impl NodeId {
    /// The number the id stands for.
    pub closed spec fn spec_inner(&self) -> usize {
        self.inner
    }

    pub fn new(id: usize) -> (r: Self)
        ensures
            r.spec_inner() == id,
    {
        Self { inner: id }
    }

    pub fn get_inner(&self) -> (r: usize)
        ensures
            r == self.spec_inner(),
    {
        self.inner
    }
}

/// Ids are equal exactly when the numbers they stand for are.
pub proof fn lemma_node_id_eq(a: NodeId, b: NodeId)
    ensures
        (a == b) <==> (a.spec_inner() == b.spec_inner()),
{
}

/// A node of the backbone: its own id, a name and the id of its parent.
pub struct Node {
    id: NodeId,
    name: String,
    parent: NodeId,
}

impl Node {
    pub closed spec fn spec_id(&self) -> usize {
        self.id.inner
    }

    pub closed spec fn spec_name(&self) -> Seq<char> {
        self.name@
    }

    pub closed spec fn spec_parent(&self) -> usize {
        self.parent.inner
    }

    pub fn new(id: NodeId, name: &str, parent: NodeId) -> (r: Self)
        ensures
            r.spec_id() == id.spec_inner(),
            r.spec_name() == name@,
            r.spec_parent() == parent.spec_inner(),
    {
        Self { id, name: String::from_str(name), parent }
    }

    pub fn get_id(&self) -> (r: NodeId)
        ensures
            r.spec_inner() == self.spec_id(),
    {
        self.id
    }

    pub fn get_parent_id(&self) -> (r: NodeId)
        ensures
            r.spec_inner() == self.spec_parent(),
    {
        self.parent
    }

    pub fn get_name(&self) -> (r: &str)
        ensures
            r@ == self.spec_name(),
    {
        self.name.as_str()
    }
}

/// The numbers of the ids along a path.
pub open spec fn path_ids(p: Seq<NodeId>) -> Seq<usize> {
    p.map_values(|n: NodeId| n.spec_inner())
}

/// The nodes of a backbone, by the number of their id.
pub type Nodes = FxHashMap<usize, Node>;

/// An intended change to the backbone's location.
pub enum PathChange {
    /// `/`
    ToRoot,
    /// `./`
    ToSelf,
    /// `../`
    ToSuper,
    /// `NAME`
    ToNode(NodeId),
    /// Completion: failure.
    Error(String),
    /// Completion: success.
    End,
}

/// A change of location, as a value of logic.
pub enum Change {
    ToRoot,
    ToSelf,
    ToSuper,
    /// A child of the current node with the name between the two offsets.
    ToChild(int, int),
    NoCurrent,
    NotFound(int, int),
    End,
}

/// Whether node `k` is a child of node `cur` whose name is encoded as `name`.
pub open spec fn is_named_child(nodes: Map<usize, Node>, cur: usize, name: Seq<u8>, k: usize) -> bool {
    &&& nodes.contains_key(k)
    &&& encode_utf8(nodes[k].spec_name()) == name
    &&& nodes[k].spec_parent() == nodes[cur].spec_id()
}

/// Whether `cur` has a child whose name is encoded as `name`.
pub open spec fn has_named_child(nodes: Map<usize, Node>, cur: usize, name: Seq<u8>) -> bool {
    exists|k: usize| #[trigger] is_named_child(nodes, cur, name, k)
}

/// Whether `id` is the id of a child of `cur` whose name is encoded as `name`.
pub open spec fn child_target(nodes: Map<usize, Node>, cur: usize, name: Seq<u8>, id: usize) -> bool {
    exists|k: usize| #[trigger] is_named_child(nodes, cur, name, k) && nodes[k].spec_id() == id
}

/// The next change of a location at `src` towards the path whose UTF-8 bytes are
/// `b`, read from offset `off`, and the offset after it. As in a file system,
/// slashes that end the path end the move.
pub open spec fn path_change(nodes: Map<usize, Node>, b: Seq<u8>, off: int, src: Seq<usize>) -> (Change, int) {
    if src.len() == 0 {
        (Change::ToRoot, off)
    } else if off == 0 && slash_at(b, 0) && src.len() > 1 {
        (Change::ToSuper, off)
    } else if off == 0 && dot_slash_at(b, 0) {
        (Change::ToSelf, 2)
    } else if off == 0 && dot_dot_slash_at(b, 0) {
        (Change::ToSuper, 3)
    } else {
        let o = if off == 0 && slash_at(b, 0) { 1 } else { off };
        if o == b.len() {
            (Change::End, o)
        } else {
            let s = skip_slashes(b, o);
            if s == b.len() {
                (Change::End, s)
            } else if dot_slash_at(b, s) {
                (Change::ToSelf, s + 2)
            } else if dot_dot_slash_at(b, s) {
                (Change::ToSuper, s + 3)
            } else if !nodes.contains_key(src.last()) {
                (Change::NoCurrent, s)
            } else {
                let e = segment_end(b, s);
                if has_named_child(nodes, src.last(), b.subrange(s, e)) {
                    (Change::ToChild(s, e), e)
                } else {
                    (Change::NotFound(s, e), s)
                }
            }
        }
    }
}

/// Computes the change of location a backbone at `src_path` makes towards
/// `dst_path`, read from `dst_offset`, which moves past what the change reads.
/// Where several children of the current node bear the name, one of them is taken.
pub fn update_path(nodes: &Nodes, dst_path: &str, dst_offset: &mut usize, src_path: &[NodeId]) -> (r: PathChange)
    requires
        *old(dst_offset) <= dst_path.spec_bytes().len(),
        is_char_boundary(dst_path.spec_bytes(), *old(dst_offset) as int),
    ensures
        ({
            let (change, o) = path_change(nodes@, dst_path.spec_bytes(), *old(dst_offset) as int, path_ids(src_path@));
            &&& *final(dst_offset) == o
            &&& match change {
                Change::ToRoot => r is ToRoot,
                Change::ToSelf => r is ToSelf,
                Change::ToSuper => r is ToSuper,
                Change::ToChild(s, e) => r matches PathChange::ToNode(id) && child_target(
                    nodes@,
                    path_ids(src_path@).last(),
                    dst_path.spec_bytes().subrange(s, e),
                    id.spec_inner(),
                ),
                Change::NoCurrent => r matches PathChange::Error(m) && m@ == "Could not resolve current."@,
                Change::NotFound(s, e) => r matches PathChange::Error(m) && m@ == "Could not find node: "@
                    + decode_utf8(dst_path.spec_bytes().subrange(s, e)),
                Change::End => r is End,
            }
        }),
{
    let b = dst_path.as_bytes();
    let ghost bs = dst_path.spec_bytes();
    let ghost off0 = *dst_offset as int;
    let ghost src = path_ids(src_path@);
    proof {
        encode_utf8_valid_utf8(dst_path@);
    }
    if src_path.len() == 0 {
        return PathChange::ToRoot;
    }
    if *dst_offset == 0 {
        if is_slash_at(b, 0) {
            if src_path.len() > 1 {
                return PathChange::ToSuper;
            }
            *dst_offset = *dst_offset + 1;
            proof {
                lemma_ascii_boundary(bs, 0);
            }
        }
        if is_dot_slash_at(b, 0) {
            *dst_offset = *dst_offset + 2;
            return PathChange::ToSelf;
        }
        if is_dot_dot_slash_at(b, 0) {
            *dst_offset = *dst_offset + 3;
            return PathChange::ToSuper;
        }
    }
    if *dst_offset == b.len() {
        return PathChange::End;
    }
    let start = skip_slashes_from(b, *dst_offset);
    proof {
        lemma_skip_slashes_bounds(bs, *dst_offset as int);
        lemma_skip_slashes_boundary(bs, *dst_offset as int);
    }
    *dst_offset = start;
    if start == b.len() {
        return PathChange::End;
    }
    if is_dot_slash_at(b, start) {
        *dst_offset = start + 2;
        return PathChange::ToSelf;
    }
    if is_dot_dot_slash_at(b, start) {
        *dst_offset = start + 3;
        return PathChange::ToSuper;
    }
    let current_id = src_path[src_path.len() - 1].get_inner();
    let current = match fx_get(nodes, current_id) {
        Some(x) => x,
        None => {
            return PathChange::Error(String::from_str("Could not resolve current."));
        },
    };
    let end = segment_end_from(b, start);
    proof {
        lemma_segment_end_bounds(bs, start as int);
    }
    let ghost name = bs.subrange(start as int, end as int);
    let ghost cur = src.last();
    assert(cur == current_id);
    let ghost found = if has_named_child(nodes@, cur, name) {
        (Change::ToChild(start as int, end as int), end as int)
    } else {
        (Change::NotFound(start as int, end as int), start as int)
    };
    assert(path_change(nodes@, bs, off0, src) == found);
    let keys = fx_keys(nodes);
    let mut next: Option<&Node> = None;
    let mut i: usize = 0;
    while i < keys.len()
        invariant
            i <= keys@.len(),
            forall|k: usize| #[trigger] keys@.contains(k) <==> nodes@.contains_key(k),
            start <= end <= b@.len(),
            b@ == bs,
            *dst_offset == start,
            name == bs.subrange(start as int, end as int),
            path_change(nodes@, bs, off0, src) == found,
            found == if has_named_child(nodes@, cur, name) {
                (Change::ToChild(start as int, end as int), end as int)
            } else {
                (Change::NotFound(start as int, end as int), start as int)
            },
            nodes@.contains_key(cur),
            *current == nodes@[cur],
            match next {
                Some(n) => exists|k: usize| #[trigger] is_named_child(nodes@, cur, name, k) && *n == nodes@[k],
                None => forall|j: int| 0 <= j < i ==> !#[trigger] is_named_child(nodes@, cur, name, keys@[j]),
            },
        decreases keys@.len() - i,
    {
        match fx_get(nodes, keys[i]) {
            Some(node) => {
                if str_eq_bytes(node.get_name(), b, start, end) && node.get_parent_id() == current.get_id() {
                    next = Some(node);
                    assert(is_named_child(nodes@, cur, name, keys@[i as int]));
                }
            },
            None => {
                assert(keys@.contains(keys@[i as int]));
            },
        }
        i = i + 1;
    }
    match next {
        None => {
            proof {
                assert forall|k: usize| !#[trigger] is_named_child(nodes@, cur, name, k) by {
                    if is_named_child(nodes@, cur, name, k) {
                        assert(keys@.contains(k));
                        let j = keys@.index_of(k);
                        assert(keys@[j] == k);
                    }
                }
                lemma_boundary_in_rest(bs, start as int, end as int);
            }
            let (_, rest) = dst_path.split_at(start);
            let (name_str, _) = rest.split_at(end - start);
            proof {
                assert(encode_utf8(name_str@) =~= bs.subrange(start as int, end as int));
                encode_utf8_decode_utf8(name_str@);
            }
            let mut msg = String::from_str("Could not find node: ");
            msg.append(name_str);
            PathChange::Error(msg)
        },
        Some(node) => {
            *dst_offset = end;
            let id = node.get_id();
            proof {
                let k = choose|k: usize| #[trigger] is_named_child(nodes@, cur, name, k) && *node == nodes@[k];
                assert(is_named_child(nodes@, src.last(), bs.subrange(start as int, end as int), k));
                assert(nodes@[k].spec_id() == id.spec_inner());
                assert(child_target(nodes@, cur, name, id.spec_inner()));
            }
            PathChange::ToNode(id)
        },
    }
}

/// The state of the backbone's location.
pub enum State {
    Idle,
    Move(String, usize),
    Stop(Option<String>),
    Fire(Box<dyn Event>),
}

/// The kind of a state, and what a move or a stop carries.
pub enum StateKind {
    Idle,
    Move(Seq<char>, usize),
    Stop(Option<Seq<char>>),
    Fire,
}

impl State {
    pub open spec fn kind(&self) -> StateKind {
        match self {
            State::Idle => StateKind::Idle,
            State::Move(p, o) => StateKind::Move(p@, *o),
            State::Stop(r) => StateKind::Stop(
                match r {
                    Some(s) => Some(s@),
                    None => None,
                },
            ),
            State::Fire(_) => StateKind::Fire,
        }
    }

    /// Whether another state may take this one's place: only when idle.
    pub fn can_replace(&self) -> (r: bool)
        ensures
            r == (self.kind() is Idle),
    {
        match self {
            State::Idle => true,
            State::Move(_, _) => false,
            State::Stop(_) => false,
            State::Fire(_) => false,
        }
    }
}

/// Whether two states are of the same kind.
pub open spec fn same_state_kind(a: StateKind, b: StateKind) -> bool {
    match (a, b) {
        (StateKind::Idle, StateKind::Idle) => true,
        (StateKind::Move(_, _), StateKind::Move(_, _)) => true,
        (StateKind::Stop(_), StateKind::Stop(_)) => true,
        (StateKind::Fire, StateKind::Fire) => true,
        _ => false,
    }
}

impl PartialEq for State {
    /// States are equal when they are of the same kind.
    fn eq(&self, other: &State) -> (r: bool) {
        match (self, other) {
            (State::Idle, State::Idle) => true,
            (State::Move(_, _), State::Move(_, _)) => true,
            (State::Stop(_), State::Stop(_)) => true,
            (State::Fire(_), State::Fire(_)) => true,
            _ => false,
        }
    }
}

impl vstd::std_specs::cmp::PartialEqSpecImpl for State {
    open spec fn obeys_eq_spec() -> bool {
        true
    }

    open spec fn eq_spec(&self, other: &State) -> bool {
        same_state_kind(self.kind(), other.kind())
    }
}

/// An event that can be fired into the backbone.
pub trait Event {
    /// If an event is passive, it can be fired regardless of what state the
    /// backbone is in.
    fn is_passive(&self) -> (r: bool)
        default_ensures
            !r,
    {
        false
    }

    fn get_type_name(&self) -> &'static str;
}


/// The phase of an event as it is processed.
#[derive(PartialEq, Eq, Structural, Hash, Clone, Copy, Debug)]
pub enum Phase {
    /// The event is being wrapped in a `Wrapper`.
    Creation,
    /// The event is flowing towards its destination.
    Propagation,
    /// The event is being evaluated by its destination.
    Action,
    /// The event is flowing back towards its source.
    Bubbling,
}

/// How deep events fired in answer to events are followed.
pub const MAX_EVENT_DEPTH: usize = 10;

/// Wraps an event as it is processed by the backbone.
pub struct Wrapper<'a> {
    /// The event being processed.
    pub event: &'a dyn Event,
    phase: Phase,
    /// Can the event flow towards its destination?
    can_propagate: bool,
    /// Can the event be evaluated by its destination?
    can_default: bool,
    /// Can the event flow back towards its source?
    can_bubble: bool,
    /// What state should the backbone jump to afterwards?
    new_state: State,
}

impl<'a> Wrapper<'a> {
    pub closed spec fn spec_phase(&self) -> Phase {
        self.phase
    }

    pub closed spec fn spec_can_propagate(&self) -> bool {
        self.can_propagate
    }

    pub closed spec fn spec_can_default(&self) -> bool {
        self.can_default
    }

    pub closed spec fn spec_can_bubble(&self) -> bool {
        self.can_bubble
    }

    pub closed spec fn spec_new_state(&self) -> StateKind {
        self.new_state.kind()
    }

    /// A wrapper at the event's creation: free to flow both ways, and asking for
    /// no new state.
    pub fn new(event: &'a dyn Event) -> (r: Self)
        ensures
            r.spec_phase() == Phase::Creation,
            r.spec_can_propagate(),
            r.spec_can_default(),
            r.spec_can_bubble(),
            r.spec_new_state() is Idle,
    {
        Self { event, phase: Phase::Creation, can_propagate: true, can_default: true, can_bubble: true, new_state: State::Idle }
    }

    /// Prevents the event from being evaluated by its destination.
    pub fn prevent_default(&mut self)
        ensures
            final(self).spec_phase() == old(self).spec_phase(),
            final(self).spec_can_propagate() == old(self).spec_can_propagate(),
            !final(self).spec_can_default(),
            final(self).spec_can_bubble() == old(self).spec_can_bubble(),
            final(self).spec_new_state() == old(self).spec_new_state(),
    {
        self.can_default = false;
    }

    /// Stops the flow of the event toward its destination.
    pub fn stop_propagation(&mut self)
        ensures
            final(self).spec_phase() == old(self).spec_phase(),
            !final(self).spec_can_propagate(),
            final(self).spec_can_default() == old(self).spec_can_default(),
            final(self).spec_can_bubble() == old(self).spec_can_bubble(),
            final(self).spec_new_state() == old(self).spec_new_state(),
    {
        self.can_propagate = false;
    }

    /// Stops the flow of the event back towards its source.
    pub fn stop_bubbling(&mut self)
        ensures
            final(self).spec_phase() == old(self).spec_phase(),
            final(self).spec_can_propagate() == old(self).spec_can_propagate(),
            final(self).spec_can_default() == old(self).spec_can_default(),
            !final(self).spec_can_bubble(),
            final(self).spec_new_state() == old(self).spec_new_state(),
    {
        self.can_bubble = false;
    }

    pub fn get_phase(&self) -> (r: Phase)
        ensures
            r == self.spec_phase(),
    {
        self.phase
    }

    /// Asks for the state the backbone should jump to afterwards.
    pub fn new_state(&mut self, state: State)
        ensures
            final(self).spec_phase() == old(self).spec_phase(),
            final(self).spec_can_propagate() == old(self).spec_can_propagate(),
            final(self).spec_can_default() == old(self).spec_can_default(),
            final(self).spec_can_bubble() == old(self).spec_can_bubble(),
            final(self).spec_new_state() == state.kind(),
    {
        self.new_state = state;
    }

    /// The state asked for so far, in full.
    pub closed spec fn spec_asked(&self) -> State {
        self.new_state
    }

    /// The event being processed.
    pub closed spec fn spec_event(&self) -> &'a dyn Event {
        self.event
    }

    /// Stops the event altogether: no flow either way, and no evaluation.
    pub fn stop(&mut self)
        ensures
            final(self).spec_event() == old(self).spec_event(),
            final(self).spec_asked() == old(self).spec_asked(),
            final(self).spec_phase() == old(self).spec_phase(),
            !final(self).spec_can_propagate(),
            !final(self).spec_can_default(),
            !final(self).spec_can_bubble(),
            final(self).spec_new_state() == old(self).spec_new_state(),
    {
        self.can_propagate = false;
        self.can_default = false;
        self.can_bubble = false;
    }

    /// The state asked for so far.
    pub fn get_new_state(&self) -> (r: &State)
        ensures
            r.kind() == self.spec_new_state(),
    {
        &self.new_state
    }

    /// Takes out the event the handlers asked to fire in answer to this one, at
    /// nesting `depth`, leaving a request for no new state. Nothing is taken, and
    /// nothing changes, when no event was asked for or when events are already
    /// nested deeper than `MAX_EVENT_DEPTH`.
    pub fn take_next_event(&mut self, depth: usize) -> (r: Option<Box<dyn Event>>)
        ensures
            (old(self).spec_asked() matches State::Fire(e) && depth <= MAX_EVENT_DEPTH) ==> {
                &&& r == Some(old(self).spec_asked()->Fire_0)
                &&& final(self).spec_asked() is Idle
                &&& final(self).spec_event() == old(self).spec_event()
                &&& final(self).spec_phase() == old(self).spec_phase()
                &&& final(self).spec_can_propagate() == old(self).spec_can_propagate()
                &&& final(self).spec_can_default() == old(self).spec_can_default()
                &&& final(self).spec_can_bubble() == old(self).spec_can_bubble()
            },
            !(old(self).spec_asked() is Fire && depth <= MAX_EVENT_DEPTH) ==> r is None && *final(self) == *old(self),
    {
        if depth > MAX_EVENT_DEPTH {
            return None;
        }
        let is_fire = match &self.new_state {
            State::Fire(_) => true,
            _ => false,
        };
        if !is_fire {
            return None;
        }
        let mut s = State::Idle;
        std::mem::swap(&mut s, &mut self.new_state);
        match s {
            State::Fire(e) => Some(e),
            _ => None,
        }
    }

    /// Passes up the state that an event fired in answer to this one asked for:
    /// where it asked for one, this event asks for it in place of its own.
    pub fn pass_up(&mut self, sub_state: State)
        ensures
            sub_state.kind() is Idle ==> *final(self) == *old(self),
            !(sub_state.kind() is Idle) ==> {
                &&& final(self).spec_asked() == sub_state
                &&& final(self).spec_event() == old(self).spec_event()
                &&& final(self).spec_phase() == old(self).spec_phase()
                &&& final(self).spec_can_propagate() == old(self).spec_can_propagate()
                &&& final(self).spec_can_default() == old(self).spec_can_default()
                &&& final(self).spec_can_bubble() == old(self).spec_can_bubble()
            },
    {
        if sub_state == State::Idle {
            return;
        }
        self.new_state = sub_state;
    }

    /// Takes the state asked for so far, leaving a request for no new state.
    pub fn take_new_state(&mut self) -> (r: State)
        ensures
            r.kind() == old(self).spec_new_state(),
            final(self).spec_new_state() is Idle,
            final(self).spec_phase() == old(self).spec_phase(),
            final(self).spec_can_propagate() == old(self).spec_can_propagate(),
            final(self).spec_can_default() == old(self).spec_can_default(),
            final(self).spec_can_bubble() == old(self).spec_can_bubble(),
    {
        let mut s = State::Idle;
        std::mem::swap(&mut s, &mut self.new_state);
        s
    }

    fn set_phase(&mut self, phase: Phase)
        ensures
            final(self).spec_phase() == phase,
            final(self).event == old(self).event,
            final(self).spec_can_propagate() == old(self).spec_can_propagate(),
            final(self).spec_can_default() == old(self).spec_can_default(),
            final(self).spec_can_bubble() == old(self).spec_can_bubble(),
            final(self).spec_new_state() == old(self).spec_new_state(),
    {
        self.phase = phase;
    }
}

/// A path of the backbone.
pub type Path = Vec<NodeId>;

/// A limited view of the backbone, that only allows changing components, for
/// event processing.
pub struct Context<'a> {
    pub target: NodeId,
    pub current: NodeId,
    pub nodes: &'a Nodes,
    pub comps: &'a mut comps::Comps,
    pub path: &'a Path,
    pub path_str: &'a str,
}

/// Whether `b` is the wrapper `a` moved to phase `p`, and otherwise the same.
pub closed spec fn phase_set(a: Wrapper, b: Wrapper, p: Phase) -> bool {
    &&& b.spec_phase() == p
    &&& b.event == a.event
    &&& b.spec_can_propagate() == a.spec_can_propagate()
    &&& b.spec_can_default() == a.spec_can_default()
    &&& b.spec_can_bubble() == a.spec_can_bubble()
    &&& b.spec_new_state() == a.spec_new_state()
}

/// A node-handler is the 'brain' of a node: all user logic and state for a node
/// is owned by its handler.
pub trait Handler {
    /// Called when the node receives an event.
    fn on_event(&mut self, event: &mut Wrapper, context: &mut Context);
}


/// The string of a path: a slash and a name for every node after the first, or a
/// lone slash for a path of one node.
pub open spec fn tail_names(nodes: Map<usize, Node>, ids: Seq<usize>) -> Seq<char>
    decreases ids.len(),
{
    if ids.len() <= 1 {
        Seq::empty()
    } else {
        tail_names(nodes, ids.drop_last()) + seq!['/'] + nodes[ids.last()].spec_name()
    }
}

/// The string of a path of at least one node.
pub open spec fn path_string(nodes: Map<usize, Node>, ids: Seq<usize>) -> Seq<char> {
    if ids.len() <= 1 { seq!['/'] } else { tail_names(nodes, ids) }
}

/// The string of a location: nothing where the location is empty, else the
/// string of its path.
pub open spec fn location_string(nodes: Map<usize, Node>, ids: Seq<usize>) -> Seq<char> {
    if ids.len() == 0 { Seq::empty() } else { path_string(nodes, ids) }
}

/// Adding nodes leaves the names along a path of older nodes as they were.
pub proof fn lemma_tail_names_grow(a: Map<usize, Node>, b: Map<usize, Node>, ids: Seq<usize>)
    requires
        forall|i: int| 0 <= i < ids.len() ==> a.contains_key(#[trigger] ids[i]),
        forall|k: usize| #[trigger] a.contains_key(k) ==> b.contains_key(k) && b[k] == a[k],
    ensures
        tail_names(a, ids) == tail_names(b, ids),
        location_string(a, ids) == location_string(b, ids),
    decreases ids.len(),
{
    if ids.len() > 1 {
        lemma_tail_names_grow(a, b, ids.drop_last());
        assert(a.contains_key(ids[ids.len() - 1]));
    }
}

/// Whether every node of a path but the first is in the tree.
pub open spec fn tail_resolves(nodes: Map<usize, Node>, ids: Seq<usize>) -> bool {
    forall|i: int| 1 <= i < ids.len() ==> nodes.contains_key(#[trigger] ids[i])
}

/// The actual backbone instance that binds everything together.
pub struct Backbone {
    /// The id of the root node.
    root_id: NodeId,
    /// Counter for new node ids.
    counter: usize,
    /// The nodes, by the number of their id.
    nodes: Nodes,
    /// The components of the nodes.
    comps: comps::Comps,
    /// The handlers of the nodes, by the number of their id.
    handlers: FxHashMap<usize, Box<dyn Handler>>,
    path: Path,
    path_str: String,
    state: State,
    /// Every handing of an event to a handler so far, in order: the node, the
    /// phase, and whether the event still flowed on in that phase afterwards.
    handed: Ghost<Seq<(usize, Phase, bool)>>,
}

/// Creates a new backbone instance.
pub fn new() -> (r: Backbone)
    ensures
        r.wf(),
        r.spec_path().len() == 0,
        r.spec_state() is Idle,
        r.spec_nodes().dom() == set![0usize],
{
    Backbone::new()
}

impl Backbone {
    pub closed spec fn spec_root(&self) -> usize {
        self.root_id.inner
    }

    pub closed spec fn spec_counter(&self) -> usize {
        self.counter
    }

    pub closed spec fn spec_nodes(&self) -> Map<usize, Node> {
        self.nodes@
    }

    pub closed spec fn spec_path(&self) -> Seq<usize> {
        path_ids(self.path@)
    }

    pub closed spec fn spec_path_str(&self) -> Seq<char> {
        self.path_str@
    }

    pub closed spec fn spec_state(&self) -> StateKind {
        self.state.kind()
    }

    /// The nodes that have a handler.
    pub closed spec fn spec_handled(&self) -> Set<usize> {
        self.handlers@.dom()
    }

    /// The components of the nodes, by the number of their id.
    pub closed spec fn spec_comps(&self) -> Map<usize, FxHashMap<TypeId, Box<dyn comps::Component>>> {
        self.comps@
    }

    /// Every handing of an event to a handler so far, in order: the node, the
    /// phase, and whether the event still flowed on in that phase afterwards.
    pub closed spec fn spec_handed(&self) -> Seq<(usize, Phase, bool)> {
        self.handed@
    }

    /// The handlers of the nodes, by the number of their id.
    pub closed spec fn spec_handlers(&self) -> Map<usize, Box<dyn Handler>> {
        self.handlers@
    }

    /// Whether no node of the location has a handler.
    pub open spec fn location_unhandled(&self) -> bool {
        forall|i: int| 0 <= i < self.spec_path().len() ==> !self.spec_handled().contains(#[trigger] self.spec_path()[i])
    }

    /// The backbone is consistent: the root is node 0, its own parent; every node
    /// is stored under its id; every other node's parent is an older node; the
    /// counter is past every id; the location is on nodes of the tree and its
    /// string describes it; and a move reads its path at a character boundary.
    pub closed spec fn wf(&self) -> bool {
        let n = self.nodes@;
        &&& self.root_id.inner == 0
        &&& n.contains_key(0)
        &&& n[0].parent.inner == 0
        &&& forall|k: usize| #[trigger] n.contains_key(k) ==> n[k].id.inner == k && k <= self.counter
        &&& forall|k: usize| #[trigger] n.contains_key(k) && k != 0 ==> n[k].parent.inner < k && n.contains_key(n[k].parent.inner)
        &&& forall|i: int| 0 <= i < self.path@.len() ==> n.contains_key(#[trigger] self.path@[i].inner)
        &&& forall|k: usize| #[trigger] self.handlers@.contains_key(k) ==> n.contains_key(k)
        &&& self.path_str@ == location_string(n, path_ids(self.path@))
        &&& self.state.kind() matches StateKind::Move(p, o) ==> o <= encode_utf8(p).len() && is_char_boundary(
            encode_utf8(p),
            o as int,
        )
    }

    /// A well-formed backbone's nodes form a tree hanging from the root.
    pub proof fn lemma_wf_tree(&self)
        requires
            self.wf(),
        ensures
            comps::tree_ok(self.spec_nodes()),
    {
    }

    /// The nodes on a well-formed backbone's location exist.
    pub proof fn lemma_wf_path(&self)
        requires
            self.wf(),
        ensures
            forall|i: int| 0 <= i < self.spec_path().len() ==> self.spec_nodes().contains_key(#[trigger] self.spec_path()[i]),
    {
    }

    /// The move the next update makes, if it makes one: the change of location and
    /// the offset after it.
    pub open spec fn next_move(&self) -> Option<(Change, int)> {
        let st = if self.spec_path().len() == 0 && self.spec_state() is Idle {
            StateKind::Move(seq!['/'], 0)
        } else {
            self.spec_state()
        };
        match st {
            StateKind::Move(p, o) => Some(path_change(self.spec_nodes(), encode_utf8(p), o as int, self.spec_path())),
            _ => None,
        }
    }

    pub fn new() -> (r: Self)
        ensures
            r.wf(),
            r.spec_root() == 0,
            r.spec_counter() == 0,
            r.spec_nodes().dom() == set![0usize],
            r.spec_nodes()[0].spec_id() == 0,
            r.spec_nodes()[0].spec_parent() == 0,
            r.spec_nodes()[0].spec_name() == Seq::<char>::empty(),
            r.spec_path().len() == 0,
            r.spec_path_str() == Seq::<char>::empty(),
            r.spec_state() is Idle,
    {
        let root_id = NodeId::new(0);
        let root = Node::new(root_id, "", root_id);
        proof {
            reveal_strlit("");
        }
        let mut nodes = fx_new();
        let comps = fx_new();
        let handlers = fx_new();
        fx_insert(&mut nodes, 0, root);
        assert(nodes@.dom() =~= set![0usize]);
        let r = Self {
            root_id,
            counter: 0,
            nodes,
            comps,
            handlers,
            path: Vec::new(),
            path_str: String::new(),
            state: State::Idle,
            handed: Ghost(Seq::empty()),
        };
        assert(r.spec_path() =~= Seq::<usize>::empty());
        r
    }

    /// Starts a move along `path`, if the backbone is idle; fails otherwise.
    pub fn location_set(&mut self, path: &str) -> (r: Result<(), ()>)
        requires
            old(self).wf(),
        ensures
            final(self).wf(),
            r is Ok <==> old(self).spec_state() is Idle,
            r is Ok ==> final(self).spec_state() == StateKind::Move(path@, 0),
            r is Err ==> final(self).spec_state() == old(self).spec_state(),
            final(self).spec_nodes() == old(self).spec_nodes(),
            final(self).spec_path() == old(self).spec_path(),
            final(self).spec_path_str() == old(self).spec_path_str(),
            final(self).spec_counter() == old(self).spec_counter(),
            final(self).spec_root() == old(self).spec_root(),
            final(self).spec_comps() == old(self).spec_comps(),
            final(self).spec_handlers() == old(self).spec_handlers(),
    {
        if self.state.can_replace() {
            self.state = State::Move(String::from_str(path), 0);
            proof {
                encode_utf8_valid_utf8(path@);
                is_char_boundary_start_end_of_seq(encode_utf8(path@));
            }
            Ok(())
        } else {
            Err(())
        }
    }

    pub fn location_get(&self) -> (r: &Vec<NodeId>)
        ensures
            path_ids(r@) == self.spec_path(),
    {
        &self.path
    }

    /// The node the backbone stands at, if any.
    pub fn location_get_node(&self) -> (r: Option<NodeId>)
        ensures
            match r {
                Some(id) => self.spec_path().len() > 0 && id.spec_inner() == self.spec_path().last(),
                None => self.spec_path().len() == 0,
            },
    {
        if self.path.len() > 0 {
            Some(self.path[self.path.len() - 1])
        } else {
            None
        }
    }

    pub fn location_get_str(&self) -> (r: &str)
        ensures
            r@ == self.spec_path_str(),
            self.wf() ==> r@ == location_string(self.spec_nodes(), self.spec_path()),
    {
        self.path_str.as_str()
    }

    pub fn get_state(&self) -> (r: &State)
        ensures
            r.kind() == self.spec_state(),
    {
        &self.state
    }

    /// Stops the backbone: its updates do nothing from now on.
    pub fn stop(&mut self)
        requires
            old(self).wf(),
        ensures
            final(self).wf(),
            final(self).spec_state() == StateKind::Stop(None),
            final(self).spec_nodes() == old(self).spec_nodes(),
            final(self).spec_path() == old(self).spec_path(),
            final(self).spec_path_str() == old(self).spec_path_str(),
    {
        self.state = State::Stop(None);
    }

    pub fn root_get_id(&self) -> (r: NodeId)
        ensures
            r.spec_inner() == self.spec_root(),
    {
        self.root_id
    }

    pub fn root_get(&self) -> (r: &Node)
        requires
            self.wf(),
        ensures
            *r == self.spec_nodes()[self.spec_root()],
    {
        fx_get(&self.nodes, self.root_id.get_inner()).unwrap()
    }

    /// Adds a node named `name` under `parent`, with an optional handler, and
    /// returns its id: one past the last id given out. Fails when the parent is not
    /// in the tree.
    pub fn node_new(&mut self, parent: NodeId, name: &str, handler: Option<Box<dyn Handler>>) -> (r: Result<NodeId, ()>)
        requires
            old(self).wf(),
            old(self).spec_counter() < usize::MAX,
        ensures
            final(self).wf(),
            r is Err <==> !old(self).spec_nodes().contains_key(parent.spec_inner()),
            r is Err ==> final(self).spec_nodes() == old(self).spec_nodes() && final(self).spec_counter() == old(self).spec_counter(),
            r matches Ok(id) ==> {
                &&& id.spec_inner() == old(self).spec_counter() + 1
                &&& final(self).spec_counter() == id.spec_inner()
                &&& final(self).spec_nodes().dom() == old(self).spec_nodes().dom().insert(id.spec_inner())
                &&& forall|k: usize| #[trigger] old(self).spec_nodes().contains_key(k) ==> final(self).spec_nodes()[k] == old(self).spec_nodes()[k]
                &&& final(self).spec_nodes()[id.spec_inner()].spec_id() == id.spec_inner()
                &&& final(self).spec_nodes()[id.spec_inner()].spec_name() == name@
                &&& final(self).spec_nodes()[id.spec_inner()].spec_parent() == parent.spec_inner()
            },
            final(self).spec_path() == old(self).spec_path(),
            final(self).spec_path_str() == old(self).spec_path_str(),
            final(self).spec_state() == old(self).spec_state(),
            final(self).spec_root() == old(self).spec_root(),
            final(self).spec_comps() == old(self).spec_comps(),
            r is Err ==> final(self).spec_handlers() == old(self).spec_handlers(),
            r matches Ok(id) ==> !old(self).spec_nodes().contains_key(id.spec_inner()),
            r matches Ok(id) ==> match handler {
                Some(h) => final(self).spec_handlers() == old(self).spec_handlers().insert(id.spec_inner(), h),
                None => final(self).spec_handlers() == old(self).spec_handlers() && !final(self).spec_handled().contains(
                    id.spec_inner(),
                ),
            },
    {
        if !fx_contains(&self.nodes, parent.get_inner()) {
            return Err(());
        }
        self.counter = self.counter + 1;
        let node_id = NodeId::new(self.counter);
        let node = Node::new(node_id, name, parent);
        fx_insert(&mut self.nodes, node_id.get_inner(), node);
        match handler {
            Some(handler) => {
                fx_insert(&mut self.handlers, node_id.get_inner(), handler);
            },
            None => {},
        }
        proof {
            assert forall|k: usize| #[trigger] self.nodes@.contains_key(k) && k != 0 implies self.nodes@[k].parent.inner < k
                && self.nodes@.contains_key(self.nodes@[k].parent.inner) by {
                if k != node_id.inner {
                    assert(old(self).nodes@.contains_key(k));
                }
            }
            let ids = path_ids(self.path@);
            assert forall|i: int| 0 <= i < ids.len() implies old(self).nodes@.contains_key(#[trigger] ids[i]) by {
                assert(ids[i] == self.path@[i].inner);
            }
            lemma_tail_names_grow(old(self).nodes@, self.nodes@, ids);
        }
        Ok(node_id)
    }

    /// The string of a path: `/` and the name of every node after the first, in
    /// order, or `/` alone for a path of one node. Fails if a node after the first
    /// is not in the tree.
    pub fn path_to_string(&self, path: &[NodeId]) -> (r: Result<String, ()>)
        requires
            path@.len() >= 1,
        ensures
            match r {
                Ok(s) => tail_resolves(self.spec_nodes(), path_ids(path@)) && s@ == path_string(
                    self.spec_nodes(),
                    path_ids(path@),
                ),
                Err(_) => !tail_resolves(self.spec_nodes(), path_ids(path@)),
            },
    {
        let ghost ids = path_ids(path@);
        let mut path_str = String::new();
        let mut i: usize = 1;
        while i < path.len()
            invariant
                1 <= i <= path@.len(),
                ids == path_ids(path@),
                tail_resolves(self.spec_nodes(), ids.take(i as int)),
                path_str@ == tail_names(self.spec_nodes(), ids.take(i as int)),
            decreases path@.len() - i,
        {
            match fx_get(&self.nodes, path[i].get_inner()) {
                Some(node) => {
                    path_str.append("/");
                    path_str.append(node.name.as_str());
                    proof {
                        reveal_strlit("/");
                        assert(ids.take(i + 1).drop_last() =~= ids.take(i as int));
                        assert(ids.take(i + 1).last() == ids[i as int]);
                        assert(path_str@ =~= tail_names(self.spec_nodes(), ids.take(i + 1)));
                        assert forall|j: int| 1 <= j < i + 1 implies self.spec_nodes().contains_key(#[trigger] ids.take(i + 1)[j]) by {
                            if j < i {
                                assert(ids.take(i + 1)[j] == ids.take(i as int)[j]);
                            }
                        }
                    }
                },
                None => {
                    assert(!tail_resolves(self.spec_nodes(), ids)) by {
                        assert(!self.spec_nodes().contains_key(ids[i as int]));
                    }
                    return Err(());
                },
            }
            i = i + 1;
        }
        proof {
            assert(ids.take(path@.len() as int) =~= ids);
        }
        if path_str.as_str().is_empty() && path.len() > 0 {
            path_str.append("/");
            proof {
                reveal_strlit("/");
                if path@.len() > 1 {
                    assert(tail_names(self.spec_nodes(), ids).len() > 0);
                }
            }
        }
        proof {
            if path@.len() > 1 {
                assert(tail_names(self.spec_nodes(), ids).len() > 0);
            }
        }
        Ok(path_str)
    }

    /// Updates the backbone as `update` does, unless that update would step up
    /// from the root, which leaves no location to describe: then it gives `None`
    /// and changes nothing.
    pub fn try_update(&mut self) -> (r: Option<bool>)
        requires
            old(self).wf(),
        ensures
            final(self).wf(),
            r is None <==> (old(self).next_move() matches Some(m) && m.0 is ToSuper && old(self).spec_path().len() <= 1),
            r is None ==> *final(self) == *old(self),
            r matches Some(x) ==> update_done(*old(self), *final(self), x),
    {
        let up_from_root = if self.path.len() <= 1 {
            let mut offset: usize = 0;
            let change = if self.path.len() == 0 && self.state.can_replace() {
                proof {
                    reveal_strlit("/");
                    assert("/"@ =~= seq!['/']);
                    encode_utf8_valid_utf8(seq!['/']);
                    is_char_boundary_start_end_of_seq(encode_utf8(seq!['/']));
                }
                Some(update_path(&self.nodes, "/", &mut offset, self.path.as_slice()))
            } else {
                match &self.state {
                    State::Move(p, o) => {
                        offset = *o;
                        Some(update_path(&self.nodes, p.as_str(), &mut offset, self.path.as_slice()))
                    },
                    _ => None,
                }
            };
            match change {
                Some(PathChange::ToSuper) => true,
                _ => false,
            }
        } else {
            false
        };
        if up_from_root {
            return None;
        }
        let r = self.update();
        Some(r)
    }


    /// One update: nothing while stopped (returns `false`); otherwise, a backbone
    /// standing nowhere and idle starts moving to the root, and a moving backbone
    /// makes the next change of its move (`path_change`). A change that alters the
    /// length of the location rebuilds its string. A failed move stops the
    /// backbone with the reason; a finished one leaves it idle. Returns `true`.
    pub fn update(&mut self) -> (r: bool)
        requires
            old(self).wf(),
            old(self).next_move() matches Some(m) && m.0 is ToSuper ==> old(self).spec_path().len() > 1,
        ensures
            final(self).wf(),
            r == !(old(self).spec_state() is Stop),
            final(self).spec_nodes() == old(self).spec_nodes(),
            final(self).spec_counter() == old(self).spec_counter(),
            (old(self).spec_state() is Stop || old(self).next_move() is None) ==> {
                &&& final(self).spec_path() == old(self).spec_path()
                &&& final(self).spec_path_str() == old(self).spec_path_str()
                &&& final(self).spec_state() == old(self).spec_state()
            },
            !(old(self).spec_state() is Stop) ==> (old(self).next_move() matches Some(m) ==> updated(
                *old(self),
                *final(self),
                m.0,
                m.1,
            )),
    {
        match self.state {
            State::Stop(_) => {
                return false;
            },
            _ => {},
        }
        if self.path.len() == 0 && self.state.can_replace() {
            self.state = State::Move(String::from_str("/"), 0);
            proof {
                reveal_strlit("/");
                assert("/"@ =~= seq!['/']);
                encode_utf8_valid_utf8(seq!['/']);
                is_char_boundary_start_end_of_seq(encode_utf8(seq!['/']));
            }
        }
        let ghost p0 = self.spec_path();
        let mut st = State::Idle;
        std::mem::swap(&mut st, &mut self.state);
        match st {
            State::Move(path_s, offset) => {
                let mut offset = offset;
                let ghost b = encode_utf8(path_s@);
                let ghost o0 = offset as int;
                proof {
                    encode_utf8_valid_utf8(path_s@);
                    lemma_change_offset(self.nodes@, b, o0, p0);
                }
                let step = update_path(&self.nodes, path_s.as_str(), &mut offset, self.path.as_slice());
                let old_len = self.path.len();
                let new_state = match step {
                    PathChange::ToRoot => {
                        self.path.clear();
                        self.path.push(self.root_id);
                        None
                    },
                    PathChange::ToSelf => None,
                    PathChange::ToSuper => {
                        self.path.pop();
                        None
                    },
                    PathChange::ToNode(id) => {
                        self.path.push(id);
                        None
                    },
                    PathChange::Error(reason) => {
                        let mut msg = String::from_str("Failed to change path: ");
                        msg.append(reason.as_str());
                        Some(State::Stop(Some(msg)))
                    },
                    PathChange::End => Some(State::Idle),
                };
                proof {
                    let p = self.spec_path();
                    if p.len() == p0.len() + 1 {
                        assert(p.drop_last() =~= p0);
                    }
                    if p.len() + 1 == p0.len() {
                        assert(p =~= p0.drop_last());
                    }
                    if path_change(self.nodes@, b, o0, p0).0 is ToRoot {
                        assert(p =~= seq![0usize]);
                    }
                    assert forall|i: int| 0 <= i < self.path@.len() implies self.nodes@.contains_key(#[trigger] self.path@[i].inner) by {
                        if i < p0.len() && i < old_len {
                            assert(self.path@[i] == old(self).path@[i] || p.len() == 1);
                        }
                        match path_change(self.nodes@, b, o0, p0).0 {
                            Change::ToChild(s, e) => {
                                if i == p0.len() {
                                    let k = choose|k: usize| #[trigger] is_named_child(self.nodes@, p0.last(), b.subrange(s, e), k)
                                        && self.nodes@[k].spec_id() == self.path@[i].inner;
                                    assert(self.nodes@.contains_key(k));
                                }
                            },
                            _ => {},
                        }
                    }
                }
                if old_len != self.path.len() {
                    self.path_str = self.path_to_string(self.path.as_slice()).expect("Failed to resolve path");
                }
                self.state = match new_state {
                    Some(s) => s,
                    None => State::Move(path_s, offset),
                };
                proof {
                    reveal_strlit("Failed to change path: ");
                }
            },
            other => {
                self.state = other;
            },
        }
        true
    }

    /// Takes the state an event asked for: nothing happens when it asked for none,
    /// or when the backbone is not idle.
    pub fn apply_event_state(&mut self, new_state: State)
        requires
            old(self).wf(),
            new_state.kind() matches StateKind::Move(p, o) ==> o <= encode_utf8(p).len() && is_char_boundary(
                encode_utf8(p),
                o as int,
            ),
        ensures
            final(self).wf(),
            final(self).spec_state() == if !(new_state.kind() is Idle) && old(self).spec_state() is Idle {
                new_state.kind()
            } else {
                old(self).spec_state()
            },
            final(self).spec_nodes() == old(self).spec_nodes(),
            final(self).spec_path() == old(self).spec_path(),
            final(self).spec_path_str() == old(self).spec_path_str(),
    {
        if new_state == State::Idle {
            return;
        }
        if self.state.can_replace() {
            self.state = new_state;
        }
    }

    /// Whether an event may be fired now: it is passive, or the backbone is idle.
    pub fn accepts_event(&self, passive: bool) -> (r: bool)
        ensures
            r == (passive || self.spec_state() is Idle),
    {
        passive || self.state == State::Idle
    }

    /// Takes the state an event asked for, as `apply_event_state` does, when what
    /// it asks for can be taken: a move must start at a character boundary of its
    /// path. Returns whether it could; if not, nothing changes.
    pub fn hand_over_state(&mut self, new_state: State) -> (r: bool)
        requires
            old(self).wf(),
        ensures
            final(self).wf(),
            r == (new_state.kind() matches StateKind::Move(p, o) ==> o <= encode_utf8(p).len() && is_char_boundary(
                encode_utf8(p),
                o as int,
            )),
            final(self).spec_state() == if r && !(new_state.kind() is Idle) && old(self).spec_state() is Idle {
                new_state.kind()
            } else {
                old(self).spec_state()
            },
            final(self).spec_nodes() == old(self).spec_nodes(),
            final(self).spec_path() == old(self).spec_path(),
            final(self).spec_path_str() == old(self).spec_path_str(),
    {
        let ok = match &new_state {
            State::Move(path, offset) => {
                proof {
                    encode_utf8_valid_utf8(path@);
                }
                path.as_str().is_char_boundary(*offset)
            },
            _ => true,
        };
        if !ok {
            return false;
        }
        self.apply_event_state(new_state);
        true
    }

    /// Hands an event to the handlers along the location: down to the node the
    /// backbone stands at (propagation), to its handler (action), and back up
    /// (bubbling), as the wrapper allows. Returns `false`, doing nothing, when the
    /// backbone stands nowhere.
    pub fn fire_event_phases(&mut self, event: &mut Wrapper) -> (r: bool)
        requires
            old(self).wf(),
        ensures
            final(self).wf(),
            r == (old(self).spec_path().len() > 0),
            final(self).spec_nodes() == old(self).spec_nodes(),
            final(self).spec_path() == old(self).spec_path(),
            final(self).spec_path_str() == old(self).spec_path_str(),
            final(self).spec_state() == old(self).spec_state(),
            final(self).spec_counter() == old(self).spec_counter(),
            old(self).spec_path().len() == 0 ==> *final(event) == *old(event) && final(self).spec_handed()
                == old(self).spec_handed(),
            old(self).spec_path().len() > 0 ==> exists|tp: Seq<(usize, Phase, bool)>, ta: Seq<(usize, Phase, bool)>, tb: Seq<(usize, Phase, bool)>|
                #[trigger] handed_phases(old(self).spec_path(), old(self).spec_handled(), tp, ta, tb)
                    && final(self).spec_handed() == old(self).spec_handed() + tp + ta + tb
                    && (old(event).spec_can_propagate() ==> handed_along(old(self).spec_path(), old(self).spec_handled(), Phase::Propagation, tp))
                    && (final(event).spec_can_bubble() ==> handed_along(
                    target_first(old(self).spec_path()),
                    old(self).spec_handled(),
                    Phase::Bubbling,
                    tb,
                )),
    {
        if self.path.len() == 0 {
            return false;
        }
        let ghost h0 = self.spec_handed();
        let ghost hd = self.spec_handled();
        let ghost path = self.spec_path();
        let ghost ev0 = *event;
        let target_id = self.path[self.path.len() - 1];
        assert(target_id.spec_inner() == path.last());
        self.fire_event_propagate(event, target_id);
        let ghost h1 = self.spec_handed();
        let ghost ev1 = *event;
        self.fire_event_action(event, target_id);
        let ghost h2 = self.spec_handed();
        let ghost ev2 = *event;
        self.fire_event_bubbling(event, target_id);
        proof {
            let tp = if ev0.spec_can_propagate() {
                choose|t: Seq<(usize, Phase, bool)>| #[trigger] handed_along(path, hd, Phase::Propagation, t) && h1 == h0 + t
            } else {
                Seq::empty()
            };
            assert(h1 =~= h0 + tp);
            let ta = if ev1.spec_can_default() && hd.contains(path.last()) {
                seq![(path.last(), Phase::Action, false)]
            } else {
                Seq::empty()
            };
            assert(h2 =~= h1 + ta);
            let tb = if ev2.spec_can_bubble() {
                choose|t: Seq<(usize, Phase, bool)>| #[trigger] handed_along(target_first(path), hd, Phase::Bubbling, t) && self.spec_handed() == h2 + t
            } else {
                Seq::empty()
            };
            assert(self.spec_handed() =~= h2 + tb);
            assert(self.spec_handed() =~= h0 + tp + ta + tb);
            assert(handed_phases(path, hd, tp, ta, tb));
        }
        true
    }

    /// The propagation phase: the event goes to the handler of every node of the
    /// location, from the root down, until one stops its propagation.
    fn fire_event_propagate(&mut self, event: &mut Wrapper, target_id: NodeId)
        requires
            old(self).wf(),
        ensures
            final(self).wf(),
            final(self).nodes@ == old(self).nodes@,
            final(self).path@ == old(self).path@,
            final(self).path_str@ == old(self).path_str@,
            final(self).state.kind() == old(self).state.kind(),
            final(self).counter == old(self).counter,
            final(self).root_id == old(self).root_id,
            final(self).spec_handled() == old(self).spec_handled(),
            !old(event).spec_can_propagate() ==> *final(event) == *old(event),
            old(event).spec_can_propagate() && old(self).location_unhandled() ==> phase_set(
                *old(event),
                *final(event),
                Phase::Propagation,
            ),
            !old(event).spec_can_propagate() ==> final(self).spec_handed() == old(self).spec_handed(),
            old(event).spec_can_propagate() ==> exists|t: Seq<(usize, Phase, bool)>|
                #[trigger] handed_along(old(self).spec_path(), old(self).spec_handled(), Phase::Propagation, t)
                    && final(self).spec_handed() == old(self).spec_handed() + t,
    {
        if !event.can_propagate {
            return;
        }
        event.set_phase(Phase::Propagation);
        let ghost e0 = *event;
        let ghost ord = old(self).spec_path();
        let ghost hd = old(self).spec_handled();
        let ghost mut tt: Seq<(usize, Phase, bool)> = Seq::empty();
        proof {
            assert forall|rest: Seq<(usize, Phase, bool)>| #[trigger] handed_along(ord.skip(0), hd, Phase::Propagation, rest)
                implies handed_along(ord, hd, Phase::Propagation, tt + rest) by {
                assert(ord.skip(0) =~= ord);
                assert(tt + rest =~= rest);
            }
        }
        let mut i: usize = 0;
        loop
            invariant_except_break
                event.spec_can_propagate(),
                forall|rest: Seq<(usize, Phase, bool)>| #[trigger] handed_along(ord.skip(i as int), hd, Phase::Propagation, rest)
                    ==> handed_along(ord, hd, Phase::Propagation, tt + rest),
            invariant
                    i <= self.path@.len(),
                    ord == old(self).spec_path(),
                    hd == old(self).spec_handled(),
                    self.spec_handed() == old(self).spec_handed() + tt,
                    self.spec_handled() == old(self).spec_handled(),
                    phase_set(*old(event), e0, Phase::Propagation),
                    old(self).location_unhandled() ==> *event == e0,
                    self.wf(),
                    self.nodes@ == old(self).nodes@,
                    self.path@ == old(self).path@,
                    self.path_str@ == old(self).path_str@,
                    self.state.kind() == old(self).state.kind(),
                    self.counter == old(self).counter,
                    self.root_id == old(self).root_id,
            ensures
                handed_along(ord, hd, Phase::Propagation, tt),
            decreases self.path@.len() - i,
        {
            if i >= self.path.len() {
                proof {
                    let none = Seq::<(usize, Phase, bool)>::empty();
                    assert(ord.skip(i as int).len() == 0);
                    assert(handed_along(ord.skip(i as int), hd, Phase::Propagation, none));
                    assert(tt + none =~= tt);
                }
                break;
            }
            let node_id = self.path[i];
            assert(old(self).spec_path()[i as int] == node_id.spec_inner());
            assert(old(self).location_unhandled() ==> !self.spec_handled().contains(node_id.spec_inner()));
            let ghost c = i as int;
            self.hand_to(node_id, target_id, event, Ghost(Phase::Propagation));
            let ghost flag = event.spec_can_propagate();
            proof {
                if hd.contains(node_id.spec_inner()) {
                    let e = (ord[c], Phase::Propagation, flag);
                    if flag {
                        assert forall|rest: Seq<(usize, Phase, bool)>| #[trigger] handed_along(ord.skip(c + 1), hd, Phase::Propagation, rest)
                            implies handed_along(ord, hd, Phase::Propagation, tt.push(e) + rest) by {
                            lemma_along_handled(ord, hd, Phase::Propagation, c, flag, rest);
                            assert(tt + (seq![e] + rest) =~= tt.push(e) + rest);
                        }
                    } else {
                        let none = Seq::<(usize, Phase, bool)>::empty();
                        lemma_along_handled(ord, hd, Phase::Propagation, c, flag, none);
                        assert(seq![e] + none =~= seq![e]);
                        assert(tt + seq![e] =~= tt.push(e));
                    }
                    tt = tt.push(e);
                    assert(self.spec_handed() =~= old(self).spec_handed() + tt);
                } else {
                    assert forall|rest: Seq<(usize, Phase, bool)>| #[trigger] handed_along(ord.skip(c + 1), hd, Phase::Propagation, rest)
                        implies handed_along(ord, hd, Phase::Propagation, tt + rest) by {
                        lemma_along_unhandled(ord, hd, Phase::Propagation, c, rest);
                    }
                }
            }
            if !event.can_propagate {
                break;
            }
            i = i + 1;
        }
    }

    /// The action phase: the event goes to the handler of the node the backbone
    /// stands at, unless its default action was prevented.
    fn fire_event_action(&mut self, event: &mut Wrapper, target_id: NodeId)
        requires
            old(self).wf(),
        ensures
            final(self).wf(),
            final(self).nodes@ == old(self).nodes@,
            final(self).path@ == old(self).path@,
            final(self).path_str@ == old(self).path_str@,
            final(self).state.kind() == old(self).state.kind(),
            final(self).counter == old(self).counter,
            final(self).root_id == old(self).root_id,
            final(self).spec_handled() == old(self).spec_handled(),
            !old(event).spec_can_default() ==> *final(event) == *old(event),
            old(event).spec_can_default() && !old(self).spec_handled().contains(target_id.spec_inner()) ==> phase_set(
                *old(event),
                *final(event),
                Phase::Action,
            ),
            final(self).spec_handed() == old(self).spec_handed() + if old(event).spec_can_default()
                && old(self).spec_handled().contains(target_id.spec_inner()) {
                seq![(target_id.spec_inner(), Phase::Action, false)]
            } else {
                Seq::empty()
            },
    {
        if !event.can_default {
            return;
        }
        event.set_phase(Phase::Action);
        self.hand_to(target_id, target_id, event, Ghost(Phase::Action));
        proof {
            if old(self).spec_handled().contains(target_id.spec_inner()) {
                assert(self.spec_handed() =~= old(self).spec_handed() + seq![(target_id.spec_inner(), Phase::Action, false)]);
            } else {
                assert(self.spec_handed() =~= old(self).spec_handed() + Seq::<(usize, Phase, bool)>::empty());
            }
        }
    }

    /// The bubbling phase: the event goes to the handler of every node of the
    /// location, from the node the backbone stands at up, until one stops it.
    fn fire_event_bubbling(&mut self, event: &mut Wrapper, target_id: NodeId)
        requires
            old(self).wf(),
        ensures
            final(self).wf(),
            final(self).nodes@ == old(self).nodes@,
            final(self).path@ == old(self).path@,
            final(self).path_str@ == old(self).path_str@,
            final(self).state.kind() == old(self).state.kind(),
            final(self).counter == old(self).counter,
            final(self).root_id == old(self).root_id,
            final(self).spec_handled() == old(self).spec_handled(),
            !old(event).spec_can_bubble() ==> *final(event) == *old(event),
            old(event).spec_can_bubble() && old(self).location_unhandled() ==> phase_set(
                *old(event),
                *final(event),
                Phase::Bubbling,
            ),
            !old(event).spec_can_bubble() ==> final(self).spec_handed() == old(self).spec_handed(),
            old(event).spec_can_bubble() ==> exists|t: Seq<(usize, Phase, bool)>|
                #[trigger] handed_along(target_first(old(self).spec_path()), old(self).spec_handled(), Phase::Bubbling, t)
                    && final(self).spec_handed() == old(self).spec_handed() + t,
    {
        if !event.can_bubble {
            return;
        }
        event.set_phase(Phase::Bubbling);
        let ghost e0 = *event;
        let ghost ord = target_first(old(self).spec_path());
        let ghost hd = old(self).spec_handled();
        let ghost mut tt: Seq<(usize, Phase, bool)> = Seq::empty();
        proof {
            assert forall|rest: Seq<(usize, Phase, bool)>| #[trigger] handed_along(ord.skip(0), hd, Phase::Bubbling, rest)
                implies handed_along(ord, hd, Phase::Bubbling, tt + rest) by {
                assert(ord.skip(0) =~= ord);
                assert(tt + rest =~= rest);
            }
        }
        let mut j: usize = self.path.len();
        loop
            invariant_except_break
                event.spec_can_bubble(),
                forall|rest: Seq<(usize, Phase, bool)>| #[trigger] handed_along(ord.skip(self.path@.len() - j), hd, Phase::Bubbling, rest)
                    ==> handed_along(ord, hd, Phase::Bubbling, tt + rest),
            invariant
                j <= self.path@.len(),
                ord == target_first(old(self).spec_path()),
                hd == old(self).spec_handled(),
                self.spec_handed() == old(self).spec_handed() + tt,
                self.spec_handled() == old(self).spec_handled(),
                phase_set(*old(event), e0, Phase::Bubbling),
                old(self).location_unhandled() ==> *event == e0,
                self.wf(),
                self.nodes@ == old(self).nodes@,
                self.path@ == old(self).path@,
                self.path_str@ == old(self).path_str@,
                self.state.kind() == old(self).state.kind(),
                self.counter == old(self).counter,
                self.root_id == old(self).root_id,
            ensures
                handed_along(ord, hd, Phase::Bubbling, tt),
            decreases j,
        {
            if j == 0 {
                proof {
                    let none = Seq::<(usize, Phase, bool)>::empty();
                    assert(ord.skip(self.path@.len() - j).len() == 0);
                    assert(handed_along(ord.skip(self.path@.len() - j), hd, Phase::Bubbling, none));
                    assert(tt + none =~= tt);
                }
                break;
            }
            let node_id = self.path[j - 1];
            assert(old(self).spec_path()[j - 1] == node_id.spec_inner());
            assert(old(self).location_unhandled() ==> !self.spec_handled().contains(node_id.spec_inner()));
            let ghost c = self.path@.len() - j;
            proof {
                assert(ord[c] == node_id.spec_inner());
            }
            self.hand_to(node_id, target_id, event, Ghost(Phase::Bubbling));
            let ghost flag = event.spec_can_bubble();
            proof {
                if hd.contains(node_id.spec_inner()) {
                    let e = (ord[c], Phase::Bubbling, flag);
                    if flag {
                        assert forall|rest: Seq<(usize, Phase, bool)>| #[trigger] handed_along(ord.skip(c + 1), hd, Phase::Bubbling, rest)
                            implies handed_along(ord, hd, Phase::Bubbling, tt.push(e) + rest) by {
                            lemma_along_handled(ord, hd, Phase::Bubbling, c, flag, rest);
                            assert(tt + (seq![e] + rest) =~= tt.push(e) + rest);
                        }
                    } else {
                        let none = Seq::<(usize, Phase, bool)>::empty();
                        lemma_along_handled(ord, hd, Phase::Bubbling, c, flag, none);
                        assert(seq![e] + none =~= seq![e]);
                        assert(tt + seq![e] =~= tt.push(e));
                    }
                    tt = tt.push(e);
                    assert(self.spec_handed() =~= old(self).spec_handed() + tt);
                } else {
                    assert forall|rest: Seq<(usize, Phase, bool)>| #[trigger] handed_along(ord.skip(c + 1), hd, Phase::Bubbling, rest)
                        implies handed_along(ord, hd, Phase::Bubbling, tt + rest) by {
                        lemma_along_unhandled(ord, hd, Phase::Bubbling, c, rest);
                    }
                }
            }
            if !event.can_bubble {
                break;
            }
            j = j - 1;
            proof {
                assert(self.path@.len() - j == c + 1);
                assert(ord.skip(self.path@.len() - j) == ord.skip(c + 1));
            }
        }
    }

    fn hand_to(&mut self, current: NodeId, target: NodeId, event: &mut Wrapper, Ghost(ph): Ghost<Phase>)
        requires
            old(self).wf(),
        ensures
            old(self).spec_handled().contains(current.spec_inner()) ==> final(self).spec_handed()
                == old(self).spec_handed().push((current.spec_inner(), ph, flows_on(ph, *final(event)))),
            !old(self).spec_handled().contains(current.spec_inner()) ==> final(self).spec_handed()
                == old(self).spec_handed(),
            final(self).wf(),
            final(self).nodes@ == old(self).nodes@,
            final(self).path@ == old(self).path@,
            final(self).path_str@ == old(self).path_str@,
            final(self).state.kind() == old(self).state.kind(),
            final(self).counter == old(self).counter,
            final(self).root_id == old(self).root_id,
            final(self).spec_handled() == old(self).spec_handled(),
            !old(self).spec_handled().contains(current.spec_inner()) ==> *final(event) == *old(event)
                && final(self).comps == old(self).comps && final(self).handlers@ == old(self).handlers@
                && final(self).state == old(self).state,
    {
        match fx_get_mut(&mut self.handlers, current.get_inner()) {
            Some(handler) => {
                let mut context = Context {
                    target,
                    current,
                    nodes: &self.nodes,
                    comps: &mut self.comps,
                    path: &self.path,
                    path_str: self.path_str.as_str(),
                };
                handler.on_event(event, &mut context);
                proof {
                    self.handed@ = self.handed@.push((current.spec_inner(), ph, flows_on(ph, *event)));
                }
            },
            None => {},
        }
    }
}


/// Whether the event still flows on in phase `ph` by the wrapper `w`: for the
/// propagation and the bubbling, whether it may go on; in the action, it ends.
pub open spec fn flows_on(ph: Phase, w: Wrapper) -> bool {
    match ph {
        Phase::Propagation => w.spec_can_propagate(),
        Phase::Bubbling => w.spec_can_bubble(),
        _ => false,
    }
}

/// Whether `t` are the handings of an event in phase `ph` to the handlers of the
/// nodes `order`, one after another: each node with a handler (in `handled`) in
/// turn is handed the event, until a handler stops its flow.
pub open spec fn handed_along(order: Seq<usize>, handled: Set<usize>, ph: Phase, t: Seq<(usize, Phase, bool)>) -> bool
    decreases order.len(),
{
    if order.len() == 0 {
        t.len() == 0
    } else if !handled.contains(order[0]) {
        handed_along(order.drop_first(), handled, ph, t)
    } else {
        &&& t.len() > 0
        &&& t[0].0 == order[0]
        &&& t[0].1 == ph
        &&& if t[0].2 {
            handed_along(order.drop_first(), handled, ph, t.drop_first())
        } else {
            t.len() == 1
        }
    }
}

/// A node without a handler is passed over.
pub proof fn lemma_along_unhandled(order: Seq<usize>, handled: Set<usize>, ph: Phase, c: int, rest: Seq<(usize, Phase, bool)>)
    requires
        0 <= c < order.len(),
        !handled.contains(order[c]),
        handed_along(order.skip(c + 1), handled, ph, rest),
    ensures
        handed_along(order.skip(c), handled, ph, rest),
{
    assert(order.skip(c).drop_first() =~= order.skip(c + 1));
}

/// A node with a handler is handed the event, and the rest follow if it still
/// flows on.
pub proof fn lemma_along_handled(
    order: Seq<usize>,
    handled: Set<usize>,
    ph: Phase,
    c: int,
    flag: bool,
    rest: Seq<(usize, Phase, bool)>,
)
    requires
        0 <= c < order.len(),
        handled.contains(order[c]),
        flag ==> handed_along(order.skip(c + 1), handled, ph, rest),
        !flag ==> rest.len() == 0,
    ensures
        handed_along(order.skip(c), handled, ph, seq![(order[c], ph, flag)] + rest),
{
    let t = seq![(order[c], ph, flag)] + rest;
    assert(order.skip(c).drop_first() =~= order.skip(c + 1));
    assert(t.drop_first() =~= rest);
    assert(order.skip(c)[0] == order[c]);
}

/// Whether `tp`, `ta` and `tb` are what firing an event along the location `path`
/// hands to the handlers (those of the nodes in `handled`) in its three phases:
/// in the propagation the nodes from the root down, in the action the node the
/// location ends at, in the bubbling the nodes from there up to the root, each
/// phase as far as the event flows in it (or not at all).
pub open spec fn handed_phases(
    path: Seq<usize>,
    handled: Set<usize>,
    tp: Seq<(usize, Phase, bool)>,
    ta: Seq<(usize, Phase, bool)>,
    tb: Seq<(usize, Phase, bool)>,
) -> bool {
    &&& tp.len() == 0 || handed_along(path, handled, Phase::Propagation, tp)
    &&& ta.len() == 0 || (handled.contains(path.last()) && ta == seq![(path.last(), Phase::Action, false)])
    &&& tb.len() == 0 || handed_along(target_first(path), handled, Phase::Bubbling, tb)
}

/// In a handing along `order`, every handing is in phase `ph`, to a node with a
/// handler, and all but the last let the event flow on.
pub proof fn law_handed_along_shape(order: Seq<usize>, handled: Set<usize>, ph: Phase, t: Seq<(usize, Phase, bool)>)
    requires
        handed_along(order, handled, ph, t),
    ensures
        forall|i: int| 0 <= i < t.len() ==> (#[trigger] t[i]).1 == ph && handled.contains(t[i].0),
        forall|i: int| 0 <= i < t.len() - 1 ==> (#[trigger] t[i]).2,
    decreases order.len(),
{
    if order.len() > 0 {
        if !handled.contains(order[0]) {
            law_handed_along_shape(order.drop_first(), handled, ph, t);
        } else if t[0].2 {
            law_handed_along_shape(order.drop_first(), handled, ph, t.drop_first());
            assert forall|i: int| 0 < i < t.len() implies (#[trigger] t[i]) == t.drop_first()[i - 1] by {}
        }
    }
}

/// In a handing along `order`, the first node handed the event is the first node
/// of `order` with a handler.
pub proof fn law_handed_along_first(order: Seq<usize>, handled: Set<usize>, ph: Phase, t: Seq<(usize, Phase, bool)>, k: int)
    requires
        handed_along(order, handled, ph, t),
        0 <= k < order.len(),
        handled.contains(order[k]),
        forall|j: int| 0 <= j < k ==> !handled.contains(#[trigger] order[j]),
    ensures
        t.len() > 0,
        t[0].0 == order[k],
    decreases k,
{
    if k > 0 {
        assert(!handled.contains(order[0]));
        assert forall|j: int| 0 <= j < k - 1 implies !handled.contains(#[trigger] order.drop_first()[j]) by {
            assert(order.drop_first()[j] == order[j + 1]);
        }
        law_handed_along_first(order.drop_first(), handled, ph, t, k - 1);
    }
}

/// In a handing along `order` that no handler stops, the last node handed the
/// event is the last node of `order` with a handler.
pub proof fn law_handed_along_last(order: Seq<usize>, handled: Set<usize>, ph: Phase, t: Seq<(usize, Phase, bool)>, k: int)
    requires
        handed_along(order, handled, ph, t),
        forall|i: int| 0 <= i < t.len() ==> (#[trigger] t[i]).2,
        0 <= k < order.len(),
        handled.contains(order[k]),
        forall|j: int| k < j < order.len() ==> !handled.contains(#[trigger] order[j]),
    ensures
        t.len() > 0,
        t.last().0 == order[k],
    decreases order.len(),
{
    if k > 0 {
        assert forall|j: int| k - 1 < j < order.len() - 1 implies !handled.contains(#[trigger] order.drop_first()[j]) by {
            assert(order.drop_first()[j] == order[j + 1]);
        }
        if !handled.contains(order[0]) {
            law_handed_along_last(order.drop_first(), handled, ph, t, k - 1);
        } else {
            assert(t[0].2);
            assert forall|i: int| 0 <= i < t.drop_first().len() implies (#[trigger] t.drop_first()[i]).2 by {
                assert(t.drop_first()[i] == t[i + 1]);
            }
            law_handed_along_last(order.drop_first(), handled, ph, t.drop_first(), k - 1);
        }
    } else {
        assert forall|j: int| 0 <= j < order.len() - 1 implies !handled.contains(#[trigger] order.drop_first()[j]) by {
            assert(order.drop_first()[j] == order[j + 1]);
        }
        assert(t[0].2);
        lemma_handed_along_none(order.drop_first(), handled, ph, t.drop_first());
    }
}

/// Along nodes without handlers nothing is handed.
pub proof fn lemma_handed_along_none(order: Seq<usize>, handled: Set<usize>, ph: Phase, t: Seq<(usize, Phase, bool)>)
    requires
        handed_along(order, handled, ph, t),
        forall|j: int| 0 <= j < order.len() ==> !handled.contains(#[trigger] order[j]),
    ensures
        t.len() == 0,
    decreases order.len(),
{
    if order.len() > 0 {
        assert forall|j: int| 0 <= j < order.len() - 1 implies !handled.contains(#[trigger] order.drop_first()[j]) by {
            assert(order.drop_first()[j] == order[j + 1]);
        }
        lemma_handed_along_none(order.drop_first(), handled, ph, t);
    }
}

/// Firing an event hands it, in its bubbling, first to the handler of the node the
/// location ends at, and (where no handler stops it) last to the root's: it
/// bubbles from the target up to the root. In its propagation it goes first to
/// the root's handler and (where no handler stops it) last to the target's.
pub proof fn law_phases_order(
    path: Seq<usize>,
    handled: Set<usize>,
    tp: Seq<(usize, Phase, bool)>,
    ta: Seq<(usize, Phase, bool)>,
    tb: Seq<(usize, Phase, bool)>,
)
    requires
        path.len() > 0,
        handed_phases(path, handled, tp, ta, tb),
    ensures
        tb.len() > 0 && handled.contains(path.last()) ==> tb[0].0 == path.last(),
        tb.len() > 0 && handled.contains(path[0]) && (forall|i: int| 0 <= i < tb.len() ==> (#[trigger] tb[i]).2)
            ==> tb.last().0 == path[0],
        forall|i: int| 0 <= i < tb.len() ==> (#[trigger] tb[i]).1 == Phase::Bubbling,
        tp.len() > 0 && handled.contains(path[0]) ==> tp[0].0 == path[0],
        tp.len() > 0 && handled.contains(path.last()) && (forall|i: int| 0 <= i < tp.len() ==> (#[trigger] tp[i]).2)
            ==> tp.last().0 == path.last(),
        forall|i: int| 0 <= i < tp.len() ==> (#[trigger] tp[i]).1 == Phase::Propagation,
        ta.len() > 0 ==> ta == seq![(path.last(), Phase::Action, false)],
{
    let rev = target_first(path);
    let n = path.len() as int;
    if tb.len() > 0 {
        law_handed_along_shape(rev, handled, Phase::Bubbling, tb);
        if handled.contains(path.last()) {
            assert(rev[0] == path.last());
            law_handed_along_first(rev, handled, Phase::Bubbling, tb, 0);
        }
        if handled.contains(path[0]) && (forall|i: int| 0 <= i < tb.len() ==> (#[trigger] tb[i]).2) {
            assert(rev[n - 1] == path[0]);
            law_handed_along_last(rev, handled, Phase::Bubbling, tb, n - 1);
        }
    }
    if tp.len() > 0 {
        law_handed_along_shape(path, handled, Phase::Propagation, tp);
        if handled.contains(path[0]) {
            law_handed_along_first(path, handled, Phase::Propagation, tp, 0);
        }
        if handled.contains(path.last()) && (forall|i: int| 0 <= i < tp.len() ==> (#[trigger] tp[i]).2) {
            law_handed_along_last(path, handled, Phase::Propagation, tp, n - 1);
        }
    }
}

/// The nodes of a location from the one it stands at up to the root.
pub open spec fn target_first(path: Seq<usize>) -> Seq<usize> {
    Seq::new(path.len(), |k: int| path[path.len() - 1 - k])
}

/// What `update` makes of backbone `a`: `b`, returning `r`.
pub open spec fn update_done(a: Backbone, b: Backbone, r: bool) -> bool {
    &&& r == !(a.spec_state() is Stop)
    &&& b.spec_nodes() == a.spec_nodes()
    &&& b.spec_counter() == a.spec_counter()
    &&& (a.spec_state() is Stop || a.next_move() is None) ==> {
        &&& b.spec_path() == a.spec_path()
        &&& b.spec_path_str() == a.spec_path_str()
        &&& b.spec_state() == a.spec_state()
    }
    &&& !(a.spec_state() is Stop) ==> (a.next_move() matches Some(m) ==> updated(a, b, m.0, m.1))
}

/// How an update that makes `change` (reading up to `o`) turns `a` into `b`.
pub open spec fn updated(a: Backbone, b: Backbone, change: Change, o: int) -> bool {
    let p = a.spec_path();
    let q = b.spec_path();
    let mv = if p.len() == 0 && a.spec_state() is Idle { StateKind::Move(seq!['/'], 0) } else { a.spec_state() };
    let chars = mv->Move_0;
    let bytes = encode_utf8(chars);
    &&& match change {
        Change::ToRoot => q == seq![0usize],
        Change::ToSuper => q == p.drop_last(),
        Change::ToChild(s, e) => q.len() == p.len() + 1 && q.drop_last() == p && child_target(
            a.spec_nodes(),
            p.last(),
            bytes.subrange(s, e),
            q.last(),
        ),
        _ => q == p,
    }
    &&& b.spec_path_str() == if q.len() != p.len() { path_string(a.spec_nodes(), q) } else { a.spec_path_str() }
    &&& b.spec_state() == match change {
        Change::NoCurrent => StateKind::Stop(Some("Failed to change path: "@ + "Could not resolve current."@)),
        Change::NotFound(s, e) => StateKind::Stop(
            Some("Failed to change path: "@ + ("Could not find node: "@ + decode_utf8(bytes.subrange(s, e)))),
        ),
        Change::End => StateKind::Idle,
        _ => StateKind::Move(chars, o as usize),
    }
}

/// In every well-formed backbone (and every operation keeps it so) the string of
/// the location describes the location: empty where the backbone stands nowhere,
/// `/` at the root, and `/` and the names along the path otherwise.
pub proof fn law_location_string(b: &Backbone)
    requires
        b.wf(),
    ensures
        b.spec_path_str() == location_string(b.spec_nodes(), b.spec_path()),
{
}

/// A change reads its path up to a place where a character starts.
pub proof fn lemma_change_offset(nodes: Map<usize, Node>, b: Seq<u8>, off: int, src: Seq<usize>)
    requires
        valid_utf8(b),
        0 <= off <= b.len(),
        is_char_boundary(b, off),
    ensures
        0 <= path_change(nodes, b, off, src).1 <= b.len(),
        is_char_boundary(b, path_change(nodes, b, off, src).1),
{
    is_char_boundary_start_end_of_seq(b);
    if src.len() == 0 {
    } else if off == 0 && slash_at(b, 0) && src.len() > 1 {
    } else if off == 0 && dot_slash_at(b, 0) {
        lemma_ascii_boundary(b, 0);
        lemma_ascii_boundary(b, 1);
    } else if off == 0 && dot_dot_slash_at(b, 0) {
        lemma_ascii_boundary(b, 0);
        lemma_ascii_boundary(b, 1);
        lemma_ascii_boundary(b, 2);
    } else {
        let o = if off == 0 && slash_at(b, 0) { 1 } else { off };
        if off == 0 && slash_at(b, 0) {
            lemma_ascii_boundary(b, 0);
        }
        if o != b.len() {
            let s = skip_slashes(b, o);
            lemma_skip_slashes_bounds(b, o);
            lemma_skip_slashes_boundary(b, o);
            lemma_segment_end_bounds(b, s);
            crate::router::lemma_segment_end_boundary(b, s);
            if dot_slash_at(b, s) {
                lemma_ascii_boundary(b, s);
                lemma_ascii_boundary(b, s + 1);
            } else if dot_dot_slash_at(b, s) {
                lemma_ascii_boundary(b, s);
                lemma_ascii_boundary(b, s + 1);
                lemma_ascii_boundary(b, s + 2);
            }
        }
    }
}

} // verus!

//! Lenses: named, movable pointers into the routing tree, and their handlers.

use vstd::prelude::*;
use super::event;
use super::node;
use super::comp;
use crate::text::str_eq;
use std::any::TypeId;

verus! {

/// The state of a lens, as a value of logic.
pub enum StateModel {
    Idle,
    Moving(Seq<char>, usize),
    Destruction,
}

/// What a lens is, as a value of logic.
pub struct LensModel {
    pub name: Seq<char>,
    pub path: Seq<usize>,
    pub path_str: Seq<char>,
    pub state: StateModel,
}

/// Represents a movable pointer into the routing-tree.
pub struct Lens {
    /// The unique name of this lens.
    pub name: String,
    /// The current location of this lens in the routing-tree.
    pub path: Vec<usize>,
    /// The current location of this lens in the routing-tree, as a string.
    pub path_str: String,
    /// The state of the lens.
    pub state: State,
}

impl View for Lens {
    type V = LensModel;

    open spec fn view(&self) -> LensModel {
        LensModel { name: self.name@, path: self.path@, path_str: self.path_str@, state: self.state@ }
    }
}

/// The owner of all lenses and their handlers.
pub struct Lenses {
    /// Collection of all lenses residing in the routing-tree.
    pub lenses: Vec<Lens>,
    /// Collection of handlers for individual lenses.
    pub handlers: Vec<Box<dyn Handler>>,
}

/// The index of the first lens in `ls` with the given name.
pub open spec fn lens_named_from(ls: Seq<LensModel>, name: Seq<char>, i: int) -> Option<int>
    decreases ls.len() - i,
{
    if i < 0 || i >= ls.len() {
        None
    } else if ls[i].name == name {
        Some(i)
    } else {
        lens_named_from(ls, name, i + 1)
    }
}

/// The index of the first lens in `ls` with the given name.
pub open spec fn lens_named(ls: Seq<LensModel>, name: Seq<char>) -> Option<int> {
    lens_named_from(ls, name, 0)
}

/// The models of a list of lenses.
pub open spec fn lens_models(ls: Seq<Lens>) -> Seq<LensModel> {
    ls.map_values(|l: Lens| l@)
}

pub proof fn lemma_lens_named_from(ls: Seq<LensModel>, name: Seq<char>, i: int)
    requires
        0 <= i,
    ensures
        match lens_named_from(ls, name, i) {
            Some(j) => i <= j < ls.len() && ls[j].name == name && forall|k: int| i <= k < j ==> ls[k].name != name,
            None => forall|k: int| i <= k < ls.len() ==> ls[k].name != name,
        },
    decreases ls.len() - i,
{
    if i < ls.len() && ls[i].name != name {
        lemma_lens_named_from(ls, name, i + 1);
    }
}

impl Lenses {
    /// Creates a new empty collection of lenses.
    pub fn new() -> (r: Lenses)
        ensures
            r.lenses@.len() == 0,
            r.handlers@.len() == 0,
    {
        Lenses { lenses: Vec::new(), handlers: Vec::new() }
    }

    /// Returns a reference to a lens given its internal ID.
    pub fn get_lens_by_id(&mut self, id: usize) -> (r: Option<&Lens>)
        ensures
            *final(self) == *old(self),
            match r {
                Some(l) => id < old(self).lenses@.len() && *l == old(self).lenses@[id as int],
                None => id >= old(self).lenses@.len(),
            },
    {
        if id < self.lenses.len() {
            Some(&self.lenses[id])
        } else {
            None
        }
    }

    /// Returns a mutable reference to a lens given its internal ID.
    pub fn get_mut_lens_by_id(&mut self, id: usize) -> (r: Option<&mut Lens>)
        ensures
            match r {
                Some(l) => id < old(self).lenses@.len() && *l == old(self).lenses@[id as int]
                    && final(self).lenses@ == old(self).lenses@.update(id as int, *final(l))
                    && final(self).handlers@ == old(self).handlers@,
                None => id >= old(self).lenses@.len() && *final(self) == *old(self),
            },
    {
        if id < self.lenses.len() {
            Some(&mut self.lenses[id])
        } else {
            None
        }
    }

    /// Index of the first lens with the given name.
    fn position_by_name(&self, name: &str) -> (r: Option<usize>)
        ensures
            match r {
                Some(i) => lens_named(lens_models(self.lenses@), name@) == Some(i as int),
                None => lens_named(lens_models(self.lenses@), name@) is None,
            },
    {
        let ghost ls = lens_models(self.lenses@);
        let mut i: usize = 0;
        while i < self.lenses.len()
            invariant
                i <= self.lenses@.len(),
                ls == lens_models(self.lenses@),
                lens_named(ls, name@) == lens_named_from(ls, name@, i as int),
            decreases self.lenses@.len() - i,
        {
            if str_eq(self.lenses[i].name.as_str(), name) {
                return Some(i);
            }
            i = i + 1;
        }
        None
    }

    /// Returns a reference to the first lens with the given name.
    pub fn get_lens_by_name(&mut self, name: &str) -> (r: Option<&Lens>)
        ensures
            *final(self) == *old(self),
            match r {
                Some(l) => lens_named(lens_models(old(self).lenses@), name@) matches Some(i)
                    && *l == old(self).lenses@[i],
                None => lens_named(lens_models(old(self).lenses@), name@) is None,
            },
    {
        proof {
            lemma_lens_named_from(lens_models(self.lenses@), name@, 0);
        }
        match self.position_by_name(name) {
            Some(i) => Some(&self.lenses[i]),
            None => None,
        }
    }

    /// Returns a mutable reference to the first lens with the given name.
    pub fn get_mut_lens_by_name(&mut self, name: &str) -> (r: Option<&mut Lens>)
        ensures
            match r {
                Some(l) => lens_named(lens_models(old(self).lenses@), name@) matches Some(i)
                    && *l == old(self).lenses@[i]
                    && final(self).lenses@ == old(self).lenses@.update(i, *final(l))
                    && final(self).handlers@ == old(self).handlers@,
                None => lens_named(lens_models(old(self).lenses@), name@) is None && *final(self) == *old(
                    self,
                ),
            },
    {
        proof {
            lemma_lens_named_from(lens_models(self.lenses@), name@, 0);
        }
        match self.position_by_name(name) {
            Some(i) => Some(&mut self.lenses[i]),
            None => None,
        }
    }
}

/// A lens-handler is effectively the 'brain' of a lens. All user-logic and -state
/// for a lens is owned by the handler.
pub trait Handler {
    /// Called when the lens receives an event. Returns a new state for the lens.
    /// (The event a wrapper carries cannot be changed from outside this crate.)
    fn on_event(&mut self, event: &mut event::Wrapper, context: &mut Context) -> (r: State)
        requires
            old(event).spec_phase() == event::Phase::Action,
        ensures
            final(event).spec_kind() == old(event).spec_kind(),
    ;
}

/// This is a lens-handler that doesn't do anything, ignoring all events.
pub struct NullHandler {}

impl Handler for NullHandler {
    fn on_event(&mut self, event: &mut event::Wrapper, context: &mut Context) -> (r: State)
        ensures
            r == State::Idle,
    {
        State::Idle
    }
}

/// What a handler sees of the router: its lens, and the nodes.
pub struct Context<'a> {
    pub lens: &'a Lens,
    pub nodes: &'a mut node::Nodes,
}

impl<'a> Context<'a> {
    pub fn new<'b>(lens: &'b Lens, nodes: &'b mut node::Nodes) -> (r: Context<'b>)
        ensures
            *r.lens == *lens,
            *r.nodes == *old(nodes),
    {
        Context { lens, nodes }
    }

    pub fn get_lens_name(&self) -> (r: &str)
        ensures
            r@ == self.lens.name@,
    {
        self.lens.name.as_str()
    }

    pub fn get_lens_state(&self) -> (r: &State)
        ensures
            *r == self.lens.state,
    {
        &self.lens.state
    }

    /// The node the lens stands at: the last one of its path.
    pub fn get_lensed_node_id(&self) -> (r: Option<usize>)
        ensures
            r == (if self.lens.path@.len() > 0 { Some(self.lens.path@.last()) } else { None::<usize> }),
    {
        if self.lens.path.len() > 0 {
            Some(self.lens.path[self.lens.path.len() - 1])
        } else {
            None
        }
    }

    pub fn get_lensed_node(&self) -> (r: Option<&node::Node>)
        ensures
            match r {
                Some(n) => self.lens.path@.len() > 0 && old(self.nodes).nodes@.contains_key(self.lens.path@.last())
                    && *n == old(self.nodes).nodes@[self.lens.path@.last()],
                None => self.lens.path@.len() == 0 || !old(self.nodes).nodes@.contains_key(self.lens.path@.last()),
            },
    {
        match self.get_lensed_node_id() {
            Some(node_id) => self.nodes.get_node_by_id(node_id),
            None => None,
        }
    }

    pub fn get_lensed_node_name(&self) -> (r: Option<&str>)
        ensures
            match r {
                Some(n) => self.lens.path@.len() > 0 && old(self.nodes).nodes@.contains_key(self.lens.path@.last())
                    && n@ == old(self.nodes).nodes@[self.lens.path@.last()].name@,
                None => self.lens.path@.len() == 0 || !old(self.nodes).nodes@.contains_key(self.lens.path@.last()),
            },
    {
        match self.get_lensed_node_id() {
            Some(node_id) => match self.nodes.get_node_by_id(node_id) {
                Some(node) => Some(node.name.as_str()),
                None => None,
            },
            None => None,
        }
    }

    pub fn get_path(&self) -> (r: &[usize])
        ensures
            r@ == self.lens.path@,
    {
        self.lens.path.as_slice()
    }

    pub fn get_path_str(&self) -> (r: &str)
        ensures
            r@ == self.lens.path_str@,
    {
        self.lens.path_str.as_str()
    }

    /// The component of the given type at the lensed node or, failing that, at
    /// the nearest of its ancestors that holds one.
    pub fn get_component(&self, component_type_id: TypeId) -> (r: Option<&Box<dyn comp::Component>>)
        requires
            self.lens.path@.len() > 0 ==> self.nodes.lookup_ends(self.lens.path@.last()),
        ensures
            self.lens.path@.len() == 0 ==> r is None,
            self.lens.path@.len() > 0 ==> match old(self.nodes).component_owner(self.lens.path@.last(), component_type_id) {
                Some(o) => r matches Some(c) && *c == old(self.nodes).comps.comps@[o]@[component_type_id]
                    && old(self.nodes).holds(o, component_type_id),
                None => r is None,
            },
    {
        match self.get_lensed_node_id() {
            Some(node_id) => self.nodes.get_node_component(node_id, component_type_id),
            None => None,
        }
    }

    /// Mutable access to the component `get_component` finds.
    pub fn get_mut_component(&mut self, component_type_id: TypeId) -> (r: Option<&mut Box<dyn comp::Component>>)
        requires
            old(self).lens.path@.len() > 0 ==> old(self).nodes.lookup_ends(old(self).lens.path@.last()),
        ensures
            *final(self).lens == *old(self).lens,
            final(self).nodes.nodes@ == old(self).nodes.nodes@,
            final(self).nodes.next_id == old(self).nodes.next_id,
            old(self).lens.path@.len() == 0 ==> r is None && final(self).nodes.comps.comps@ == old(self).nodes.comps.comps@,
            old(self).lens.path@.len() > 0 ==> match old(self).nodes.component_owner(old(self).lens.path@.last(), component_type_id) {
                Some(o) => r matches Some(c) && *c == old(self).nodes.comps.comps@[o]@[component_type_id]
                    && final(self).nodes.comps.comps@ == old(self).nodes.comps.comps@.insert(
                        o,
                        final(self).nodes.comps.comps@[o],
                    ) && final(self).nodes.comps.comps@[o]@.dom() == old(self).nodes.comps.comps@[o]@.dom()
                    && final(self).nodes.comps.comps@[o]@.remove(component_type_id) == old(
                        self,
                    ).nodes.comps.comps@[o]@.remove(component_type_id)
                    && old(self).nodes.holds(o, component_type_id),
                None => r is None && final(self).nodes.comps.comps@ == old(self).nodes.comps.comps@,
            },
    {
        match self.get_lensed_node_id() {
            Some(node_id) => self.nodes.get_mut_node_component(node_id, component_type_id),
            None => None,
        }
    }

    /// Events cannot be fired from a context; this does nothing.
    pub fn fire_event(&mut self)
        ensures
            *final(self).lens == *old(self).lens,
            *final(self).nodes == *old(self).nodes,
    {
    }
}

/// The state of a lens within the router structure. Two states are equal when
/// they are of the same kind, whatever they carry.
#[derive(Clone)]
pub enum State {
    /// The lens is idling at a node, doing its thing.
    Idle,
    /// The lens is moving around the router towards another node: the path it
    /// moves along, and how far along it has read.
    Moving(String, usize),
    /// The lens is requesting that it'd be destroyed as soon as possible.
    Destruction,
}

impl View for State {
    type V = StateModel;

    open spec fn view(&self) -> StateModel {
        match self {
            State::Idle => StateModel::Idle,
            State::Moving(p, o) => StateModel::Moving(p@, *o),
            State::Destruction => StateModel::Destruction,
        }
    }
}

/// Whether two states are of the same kind.
pub open spec fn same_kind(a: StateModel, b: StateModel) -> bool {
    match (a, b) {
        (StateModel::Idle, StateModel::Idle) => true,
        (StateModel::Moving(_, _), StateModel::Moving(_, _)) => true,
        (StateModel::Destruction, StateModel::Destruction) => true,
        _ => false,
    }
}

impl PartialEq for State {
    fn eq(&self, other: &State) -> (r: bool) {
        match (self, other) {
            (State::Idle, State::Idle) => true,
            (State::Moving(_, _), State::Moving(_, _)) => true,
            (State::Destruction, State::Destruction) => true,
            _ => false,
        }
    }
}

impl vstd::std_specs::cmp::PartialEqSpecImpl for State {
    open spec fn obeys_eq_spec() -> bool {
        true
    }

    open spec fn eq_spec(&self, other: &State) -> bool {
        same_kind(self@, other@)
    }
}

/// Event that is fired repeatedly while a lens moves.
#[derive(PartialEq, Eq, Structural, Copy, Clone, Debug)]
pub enum MoveEvent {
    /// Fired when a lens enters a node.
    EnterNode,
    /// Fired when a lens leaves a node.
    LeaveNode,
}

impl event::Event for MoveEvent {
    open spec fn move_kind(&self) -> Option<MoveEvent> {
        Some(*self)
    }

    open spec fn passive(&self) -> bool {
        false
    }

    fn is_passive(&self) -> (r: bool)
        ensures
            !r,
    {
        false
    }

    fn as_move_event(&self) -> (r: Option<MoveEvent>) {
        Some(*self)
    }
}

/// Event that is fired when a lens finishes moving.
#[derive(PartialEq, Eq, Structural, Copy, Clone, Debug)]
pub enum MoveCompletionEvent {
    /// The lens successfully reached its destination.
    Finished,
    /// The lens failed to reach its destination.
    Aborted,
}

impl event::Event for MoveCompletionEvent {
    open spec fn move_kind(&self) -> Option<MoveEvent> {
        None
    }

    open spec fn passive(&self) -> bool {
        false
    }

    fn is_passive(&self) -> (r: bool)
        ensures
            !r,
    {
        false
    }

    fn as_move_event(&self) -> (r: Option<MoveEvent>) {
        None
    }
}

} // verus!

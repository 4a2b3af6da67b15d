//! Events, and how the router delivers them to lenses and nodes.

use vstd::prelude::*;
use super::lens;
use super::lens::{MoveEvent, State, StateModel, Context, lens_named, lens_named_from, lens_models, lemma_lens_named_from};
use super::node;
use crate::fxmap::fx_contains;
use crate::text::str_eq;

verus! {

/// An event that can be sent through the router towards various destinations.
pub trait Event {
    /// What the event tells a node about a lens moving, if anything.
    spec fn move_kind(&self) -> Option<MoveEvent>;

    /// Whether the event is passive.
    spec fn passive(&self) -> bool;

    /// If an event is passive, it can be fired at its destination regardless of
    /// what state the lens is in.
    fn is_passive(&self) -> (r: bool)
        ensures
            r == self.passive(),
    ;

    /// The lens movement the event stands for, if it is one.
    fn as_move_event(&self) -> (r: Option<MoveEvent>)
        ensures
            r == self.move_kind(),
    ;
}

#[derive(PartialEq, Eq, Structural, Copy, Clone, Debug)]
pub enum Phase {
    /// The event is being wrapped in a `Wrapper`.
    Creation,
    /// The event is flowing towards its destination.
    Propagation,
    /// The event is being evaluated by its destination.
    Action,
    /// The event is flowing back towards its source.
    Bubbling,
}

/// Wraps an event as it is processed by the router.
pub struct Wrapper<'a> {
    /// The event being processed.
    pub event: &'a dyn Event,
    /// The lens movement the event stands for, if it is one.
    kind: Option<MoveEvent>,
    phase: Phase,
    /// Can the event flow towards its destination?
    can_propagate: bool,
    /// Can the event be evaluated by its destination?
    can_default: bool,
    /// Can the event flow back towards its source?
    can_bubble: bool,
}

impl<'a> Wrapper<'a> {
    /// The lens movement the wrapped event stands for, if it is one.
    pub closed spec fn spec_kind(&self) -> Option<MoveEvent> {
        self.kind
    }

    /// The lens movement the wrapped event stands for, if it is one.
    pub fn move_kind(&self) -> (r: Option<MoveEvent>)
        ensures
            r == self.spec_kind(),
    {
        self.kind
    }

    pub closed spec fn spec_phase(&self) -> Phase {
        self.phase
    }

    pub closed spec fn spec_can_propagate(&self) -> bool {
        self.can_propagate
    }

    pub closed spec fn spec_can_default(&self) -> bool {
        self.can_default
    }

    pub closed spec fn spec_can_bubble(&self) -> bool {
        self.can_bubble
    }

    /// A wrapper for an event that is handed straight to its destination, with no
    /// flow towards it or back.
    /// (`kind` is what the event reports of itself.)
    pub(crate) fn for_action(event: &'a dyn Event, kind: Option<MoveEvent>) -> (r: Wrapper<'a>)
        ensures
            r.spec_kind() == kind,
            r.spec_phase() == Phase::Action,
            !r.spec_can_propagate(),
            r.spec_can_default(),
            !r.spec_can_bubble(),
    {
        Wrapper { event, kind, phase: Phase::Action, can_propagate: false, can_default: true, can_bubble: false }
    }

    /// A wrapper for an event at its creation, free to flow both ways.
    /// (`kind` is what the event reports of itself.)
    pub(crate) fn created(event: &'a dyn Event, kind: Option<MoveEvent>) -> (r: Wrapper<'a>)
        ensures
            r.spec_kind() == kind,
            r.spec_phase() == Phase::Creation,
            r.spec_can_propagate(),
            r.spec_can_default(),
            r.spec_can_bubble(),
    {
        Wrapper { event, kind, phase: Phase::Creation, can_propagate: true, can_default: true, can_bubble: true }
    }

    pub(crate) fn set_phase(&mut self, phase: Phase)
        ensures
            final(self).spec_kind() == old(self).spec_kind(),
            final(self).spec_phase() == phase,
            final(self).spec_can_propagate() == old(self).spec_can_propagate(),
            final(self).spec_can_default() == old(self).spec_can_default(),
            final(self).spec_can_bubble() == old(self).spec_can_bubble(),
    {
        self.phase = phase;
    }

    pub(crate) fn can_propagate(&self) -> (r: bool)
        ensures
            r == self.spec_can_propagate(),
    {
        self.can_propagate
    }

    pub(crate) fn can_default(&self) -> (r: bool)
        ensures
            r == self.spec_can_default(),
    {
        self.can_default
    }

    pub(crate) fn can_bubble(&self) -> (r: bool)
        ensures
            r == self.spec_can_bubble(),
    {
        self.can_bubble
    }

    /// Prevents the event from being evaluated by its destination.
    pub fn prevent_default(&mut self)
        ensures
            final(self).spec_kind() == old(self).spec_kind(),
            final(self).spec_phase() == old(self).spec_phase(),
            final(self).spec_can_propagate() == old(self).spec_can_propagate(),
            !final(self).spec_can_default(),
            final(self).spec_can_bubble() == old(self).spec_can_bubble(),
    {
        self.can_default = false;
    }

    /// Stops the flow of the event toward its destination.
    pub fn stop_propagation(&mut self)
        ensures
            final(self).spec_kind() == old(self).spec_kind(),
            final(self).spec_phase() == old(self).spec_phase(),
            !final(self).spec_can_propagate(),
            final(self).spec_can_default() == old(self).spec_can_default(),
            final(self).spec_can_bubble() == old(self).spec_can_bubble(),
    {
        self.can_propagate = false;
    }

    /// Stops the flow of the event back towards its source.
    pub fn stop_bubbling(&mut self)
        ensures
            final(self).spec_kind() == old(self).spec_kind(),
            final(self).spec_phase() == old(self).spec_phase(),
            final(self).spec_can_propagate() == old(self).spec_can_propagate(),
            final(self).spec_can_default() == old(self).spec_can_default(),
            !final(self).spec_can_bubble(),
    {
        self.can_bubble = false;
    }
}

} // verus!

verus! {

/// Whether a lens can be handed an event: it is there, it has a handler, and it
/// stands somewhere in the tree.
pub open spec fn deliverable(lenses: &lens::Lenses, lens_id: usize) -> bool {
    &&& lens_id < lenses.lenses@.len()
    &&& lens_id < lenses.handlers@.len()
    &&& lenses.lenses@[lens_id as int].path@.len() > 0
}

/// Whether a lens receives an event that is passive or not: it is deliverable,
/// and it is idle or the event is passive.
pub open spec fn receives(lenses: &lens::Lenses, lens_id: usize, passive: bool) -> bool {
    &&& deliverable(lenses, lens_id)
    &&& (passive || lenses.lenses@[lens_id as int].state is Idle)
}

/// Whether a node whose count is `count` can be told of the move `kind`.
fn count_can_move(count: usize, kind: Option<MoveEvent>) -> (r: bool)
    ensures
        r == node::can_move(count, kind),
{
    match kind {
        Some(MoveEvent::EnterNode) => count < usize::MAX,
        Some(MoveEvent::LeaveNode) => count > 0,
        None => true,
    }
}

/// Gives a lens the state its handler answered if the lens is idle; a lens that
/// is not idle keeps its state.
pub fn settle_state(lens: &mut lens::Lens, answer: State)
    ensures
        final(lens).name == old(lens).name,
        final(lens).path == old(lens).path,
        final(lens).path_str == old(lens).path_str,
        final(lens).state == (if old(lens).state is Idle { answer } else { old(lens).state }),
{
    if lens.state != State::Idle {
        return;
    }
    lens.state = answer;
}

impl super::Router {
    /// Fires a single event at the first lens with the given name, if any.
    pub fn fire_event_at_lens<E: Event>(&mut self, target: &str, event: &E)
        ensures
            final(self).lenses.lenses@.len() == old(self).lenses.lenses@.len(),
            final(self).lenses.handlers@.len() == old(self).lenses.handlers@.len(),
            match lens_named(lens_models(old(self).lenses.lenses@), target@) {
                Some(i) => lens_fired(old(self).lenses.lenses@, final(self).lenses.lenses@, i as usize)
                    && (forall|j: int| 0 <= j < old(self).lenses.handlers@.len() && j != i
                        ==> #[trigger] final(self).lenses.handlers@[j] == old(self).lenses.handlers@[j]),
                None => final(self).lenses.lenses@ == old(self).lenses.lenses@
                    && final(self).lenses.handlers@ == old(self).lenses.handlers@,
            },
            match lens_named(lens_models(old(self).lenses.lenses@), target@) {
                Some(i) => !receives(&old(self).lenses, i as usize, event.passive()) ==> final(self).nodes.nodes@
                    == old(self).nodes.nodes@ && final(self).lenses.handlers@ == old(self).lenses.handlers@,
                None => final(self).nodes.nodes@ == old(self).nodes.nodes@,
            },
    {
        proof {
            lemma_lens_named_from(lens_models(self.lenses.lenses@), target@, 0);
        }
        let mut i: usize = 0;
        let ghost ls = lens_models(self.lenses.lenses@);
        while i < self.lenses.lenses.len()
            invariant
                i <= self.lenses.lenses@.len(),
                *self == *old(self),
                ls == lens_models(self.lenses.lenses@),
                lens_named(ls, target@) == lens_named_from(ls, target@, i as int),
            decreases self.lenses.lenses@.len() - i,
        {
            if str_eq(self.lenses.lenses[i].name.as_str(), target) {
                self.fire_event_at_lens_id(i, event);
                return;
            }
            i = i + 1;
        }
    }

    /// Fires a single event at a single lens: the event flows along the lens's path
    /// to the lens (propagation), is handed to its handler in the action phase, and
    /// flows back (bubbling). A lens receives an event only when it stands
    /// somewhere and is idle, unless the event is passive. The nodes on the way
    /// count a lens moving in or out when the event is such a move; a node whose
    /// count cannot take the move (a lens leaving a node that counts none) is left
    /// as it is. The lens then takes its handler's answer as `settle_state` says.
    pub fn fire_event_at_lens_id<E: Event>(&mut self, lens_id: usize, event: &E)
        ensures
            lens_fired(old(self).lenses.lenses@, final(self).lenses.lenses@, lens_id),
            final(self).lenses.handlers@.len() == old(self).lenses.handlers@.len(),
            forall|i: int| 0 <= i < old(self).lenses.handlers@.len() && i != lens_id
                ==> #[trigger] final(self).lenses.handlers@[i] == old(self).lenses.handlers@[i],
            !receives(&old(self).lenses, lens_id, event.passive()) ==> final(self).lenses.lenses@
                == old(self).lenses.lenses@ && final(self).nodes.nodes@ == old(self).nodes.nodes@
                && final(self).lenses.handlers@ == old(self).lenses.handlers@,
    {
        if lens_id >= self.lenses.lenses.len() || lens_id >= self.lenses.handlers.len() {
            return;
        }
        if !event.is_passive() {
            if self.lenses.lenses[lens_id].state != State::Idle {
                return;
            }
        }
        if self.lenses.lenses[lens_id].path.len() == 0 {
            return;
        }
        let ghost lenses0 = self.lenses.lenses@;
        let kind = event.as_move_event();
        let mut event_wrapper = Wrapper::created(event, kind);
        event_wrapper.set_phase(Phase::Propagation);
        let mut i: usize = 0;
        while i < self.lenses.lenses[lens_id].path.len()
            invariant
                self.lenses.lenses@ == lenses0,
                lens_id < lenses0.len(),
                lens_id < self.lenses.handlers@.len(),
                self.lenses.handlers@ == old(self).lenses.handlers@,
                event_wrapper.spec_kind() == kind,
            decreases self.lenses.lenses@[lens_id as int].path@.len() - i,
        {
            let node_id = self.lenses.lenses[lens_id].path[i];
            let (node, comps) = self.nodes.get_mut_node_with_comps_by_id(node_id);
            match node {
                Some(node) => {
                    if count_can_move(node.lens_count, kind) {
                        node.on_event(comps, &mut event_wrapper);
                    }
                },
                None => {},
            }
            if !event_wrapper.can_propagate() {
                break;
            }
            i = i + 1;
        }
        let new_state = if event_wrapper.can_default() {
            event_wrapper.set_phase(Phase::Action);
            let lens = &self.lenses.lenses[lens_id];
            let handler = &mut self.lenses.handlers[lens_id];
            let mut context = Context::new(lens, &mut self.nodes);
            handler.on_event(&mut event_wrapper, &mut context)
        } else {
            State::Idle
        };
        let ghost handlers1 = self.lenses.handlers@;
        if event_wrapper.can_bubble() {
            event_wrapper.set_phase(Phase::Bubbling);
            let mut j: usize = self.lenses.lenses[lens_id].path.len();
            while j > 0
                invariant
                    self.lenses.lenses@ == lenses0,
                    lens_id < lenses0.len(),
                    self.lenses.handlers@ == handlers1,
                    event_wrapper.spec_kind() == kind,
                    j <= lenses0[lens_id as int].path@.len(),
                decreases j,
            {
                let node_id = self.lenses.lenses[lens_id].path[j - 1];
                let (node, comps) = self.nodes.get_mut_node_with_comps_by_id(node_id);
                match node {
                    Some(node) => {
                        if count_can_move(node.lens_count, kind) {
                            node.on_event(comps, &mut event_wrapper);
                        }
                    },
                    None => {},
                }
                if !event_wrapper.can_bubble() {
                    break;
                }
                j = j - 1;
            }
        }
        settle_state(&mut self.lenses.lenses[lens_id], new_state);
    }

    /// Hands an event straight to a lens's handler, in the action phase, ignoring
    /// the normal event flow and what the handler returns. Returns whether the lens
    /// received it: it is there, has a handler, and is idle or the event is passive.
    pub fn trigger_event_at_lens_id<E: Event>(&mut self, lens_id: usize, event: &E) -> (r: bool)
        ensures
            final(self).lenses.lenses@ == old(self).lenses.lenses@,
            final(self).lenses.handlers@.len() == old(self).lenses.handlers@.len(),
            forall|i: int| 0 <= i < old(self).lenses.handlers@.len() && i != lens_id
                ==> #[trigger] final(self).lenses.handlers@[i] == old(self).lenses.handlers@[i],
            r == (lens_id < old(self).lenses.lenses@.len() && lens_id < old(self).lenses.handlers@.len() && (
            event.passive() || old(self).lenses.lenses@[lens_id as int].state is Idle)),
            !r ==> final(self).nodes.nodes@ == old(self).nodes.nodes@ && final(self).nodes.comps.comps@
                == old(self).nodes.comps.comps@ && final(self).lenses.handlers@ == old(self).lenses.handlers@,
    {
        if lens_id >= self.lenses.lenses.len() || lens_id >= self.lenses.handlers.len() {
            return false;
        }
        if !event.is_passive() {
            if self.lenses.lenses[lens_id].state != State::Idle {
                return false;
            }
        }
        let mut wrapper = Wrapper::for_action(event, event.as_move_event());
        let lens = &self.lenses.lenses[lens_id];
        let handler = &mut self.lenses.handlers[lens_id];
        let mut context = Context::new(lens, &mut self.nodes);
        let _ = handler.on_event(&mut wrapper, &mut context);
        true
    }

    /// Hands an event straight to a node, ignoring the normal event flow. Returns
    /// whether the node is in the tree.
    pub fn trigger_event_at_node_id<E: Event>(&mut self, node_id: usize, event: &E) -> (r: bool)
        requires
            old(self).nodes.nodes@.contains_key(node_id) ==> node::can_move(
                old(self).nodes.nodes@[node_id].lens_count,
                event.move_kind(),
            ),
        ensures
            r == old(self).nodes.nodes@.contains_key(node_id),
            final(self).lenses == old(self).lenses,
            final(self).nodes.next_id == old(self).nodes.next_id,
            final(self).nodes.comps.comps@.dom() == old(self).nodes.comps.comps@.dom(),
            final(self).nodes.nodes@.dom() == old(self).nodes.nodes@.dom(),
            forall|k: usize| k != node_id && #[trigger] old(self).nodes.nodes@.contains_key(k)
                ==> final(self).nodes.nodes@[k] == old(self).nodes.nodes@[k],
            r ==> node::moved(old(self).nodes.nodes@[node_id], final(self).nodes.nodes@[node_id], event.move_kind()),
            !r ==> *final(self) == *old(self),
    {
        if !fx_contains(&self.nodes.nodes, node_id) {
            return false;
        }
        let (node, comps) = self.nodes.get_mut_node_with_comps_by_id(node_id);
        match node {
            Some(node) => {
                let mut wrapper = Wrapper::for_action(event, event.as_move_event());
                node.on_event(comps, &mut wrapper);
                true
            },
            None => false,
        }
    }

    /// Fires a single event at a single node, given a path. Nodes do not receive
    /// events this way yet: nothing happens.
    pub fn fire_event_at_node<E: Event>(&mut self, path: &str, event: &E)
        ensures
            final(self).lenses == old(self).lenses,
            final(self).nodes == old(self).nodes,
    {
    }
}

/// Whether firing an event at lens `lens_id` turned `before` into `after`: no lens
/// but that one changes, and that one only in its state, and only from idle.
pub open spec fn lens_fired(before: Seq<lens::Lens>, after: Seq<lens::Lens>, lens_id: usize) -> bool {
    &&& after.len() == before.len()
    &&& forall|i: int| 0 <= i < before.len() && i != lens_id ==> #[trigger] after[i] == before[i]
    &&& lens_id < before.len() ==> {
        &&& after[lens_id as int].name == before[lens_id as int].name
        &&& after[lens_id as int].path == before[lens_id as int].path
        &&& after[lens_id as int].path_str == before[lens_id as int].path_str
        &&& !(before[lens_id as int].state is Idle) ==> after[lens_id as int].state == before[lens_id as int].state
    }
}

} // verus!

//! Components: bundles of user logic and state attached to nodes.

use vstd::prelude::*;
use rustc_hash::FxHashMap;
use std::any::TypeId;
use super::node::Nodes;
use crate::fxmap::{fx_new, fx_insert, fx_contains, fx_get, fx_get_mut, fx_type_get, fx_type_get_mut, fx_type_insert};

verus! {

/// The components of one node, by the type they were attached under.
pub type NodeComponents = FxHashMap<TypeId, Box<dyn Component>>;

/// Container for all components bound to nodes.
pub struct Components {
    /// Collection of collections of components.
    pub comps: FxHashMap<usize, NodeComponents>,
}

impl Components {
    /// Creates a new empty container for components.
    pub fn new() -> (r: Components)
        ensures
            r.comps@.dom() == Set::<usize>::empty(),
    {
        Components { comps: fx_new() }
    }
}

/// Why a component could not be reached.
#[derive(PartialEq, Eq, Structural, Copy, Clone, Debug)]
pub enum ComponentAccessError {
    /// No component of the type was found from the node upwards (or the lens
    /// stands nowhere, then `node_id` is 0).
    NodeNotFound { node_id: usize },
}

/// A component is a bundle of user-logic and -state attached to a node, that can
/// be loaded and unloaded depending on the residence of lenses.
pub trait Component {
    /// Returns a engine internal (no i18n) name for the components type.
    fn get_type_name(&self) -> &'static str;

    /// This function is called when the component is attached to a node.
    fn on_attachment(&mut self, node_id: usize);

    /// This function is called when the component is detached from a node.
    /// Should not happen unless a component is replaced.
    fn on_detachment(&mut self, node_id: usize);

    fn on_load(&mut self);

    fn on_unload(&mut self);
}

impl Nodes {
    /// Whether node `id` holds a component attached under type `t`.
    pub open spec fn holds(&self, id: usize, t: TypeId) -> bool {
        self.comps.comps@.contains_key(id) && self.comps.comps@[id]@.contains_key(t)
    }

    /// Whether the walk from `id` up the parents reaches a node without parent
    /// within `fuel` steps.
    pub open spec fn top_within(&self, id: usize, fuel: nat) -> bool
        decreases fuel,
    {
        match self.parent_of(id) {
            None => true,
            Some(p) => fuel > 0 && self.top_within(p, (fuel - 1) as nat),
        }
    }

    /// Where a search for a component of type `t` that starts at `id` ends, if it
    /// ends within `fuel` steps up the tree: `Some(Some(owner))` at the first node
    /// (from `id` upwards) that holds one, `Some(None)` at a node without parent.
    pub open spec fn owner_within(&self, id: usize, t: TypeId, fuel: nat) -> Option<Option<usize>>
        decreases fuel,
    {
        if self.holds(id, t) {
            Some(Some(id))
        } else {
            match self.parent_of(id) {
                None => Some(None),
                Some(p) => if fuel == 0 {
                    None
                } else {
                    self.owner_within(p, t, (fuel - 1) as nat)
                },
            }
        }
    }

    /// Whether the walk from `id` up the parents ends.
    pub open spec fn lookup_ends(&self, id: usize) -> bool {
        exists|fuel: nat| #[trigger] self.top_within(id, fuel)
    }

    /// The nearest node, from `id` up the parents, that holds a component of type `t`.
    pub open spec fn component_owner(&self, id: usize, t: TypeId) -> Option<usize> {
        self.owner_within(id, t, choose|fuel: nat| #[trigger] self.top_within(id, fuel))->0
    }

    /// A walk that reaches the top within `fuel` steps decides the search within them.
    pub proof fn lemma_top_within_owner(&self, id: usize, t: TypeId, fuel: nat)
        requires
            self.top_within(id, fuel),
        ensures
            self.owner_within(id, t, fuel) is Some,
        decreases fuel,
    {
        if !self.holds(id, t) {
            if let Some(p) = self.parent_of(id) {
                self.lemma_top_within_owner(p, t, (fuel - 1) as nat);
            }
        }
    }

    /// The nearest node from `node_id` upwards that holds a component of type `t`.
    fn find_component_owner(&self, node_id: usize, t: TypeId) -> (r: Option<usize>)
        requires
            self.lookup_ends(node_id),
        ensures
            r == self.component_owner(node_id, t),
            r matches Some(o) ==> self.holds(o, t),
    {
        let ghost fuel = choose|f: nat| #[trigger] self.top_within(node_id, f);
        proof {
            self.lemma_top_within_owner(node_id, t, fuel);
        }
        let ghost target = self.owner_within(node_id, t, fuel);
        let mut current = node_id;
        let ghost mut left: nat = fuel;
        loop
            invariant
                self.owner_within(current, t, left) == target,
                self.top_within(current, left),
                target == Some(self.component_owner(node_id, t)),
            decreases left,
        {
            let here = match fx_get(&self.comps.comps, current) {
                Some(components) => match fx_type_get(components, t) {
                    Some(_) => true,
                    None => false,
                },
                None => false,
            };
            if here {
                return Some(current);
            }
            match self.get_node_parent_id(current) {
                Some(next_id) => {
                    current = next_id;
                    proof {
                        left = (left - 1) as nat;
                    }
                },
                None => {
                    return None;
                },
            }
        }
    }

    /// Attaches a component under the given type to a node, replacing (and
    /// detaching) one attached under that type before. The component is told of
    /// the attachment. Always succeeds.
    pub fn set_node_component(
        &mut self,
        node_id: usize,
        component_type_id: TypeId,
        component: Box<dyn Component>,
    ) -> (r: bool)
        ensures
            r,
            final(self).nodes@ == old(self).nodes@,
            final(self).next_id == old(self).next_id,
            final(self).comps.comps@.dom() == old(self).comps.comps@.dom().insert(node_id),
            forall|k: usize| k != node_id && #[trigger] old(self).comps.comps@.contains_key(k)
                ==> final(self).comps.comps@[k] == old(self).comps.comps@[k],
            old(self).comps.comps@.contains_key(node_id) ==> final(self).comps.comps@[node_id]@.dom()
                == old(self).comps.comps@[node_id]@.dom().insert(component_type_id),
            !old(self).comps.comps@.contains_key(node_id) ==> final(self).comps.comps@[node_id]@.dom()
                == set![component_type_id],
    {
        if !fx_contains(&self.comps.comps, node_id) {
            let mut new_components: NodeComponents = fx_new();
            assert(new_components@.dom() =~= Set::<TypeId>::empty());
            fx_type_insert(&mut new_components, component_type_id, component);
            assert(new_components@.dom() =~= set![component_type_id]);
            match fx_type_get_mut(&mut new_components, component_type_id) {
                Some(c) => c.on_attachment(node_id),
                None => {},
            }
            assert(new_components@.dom() =~= set![component_type_id]);
            fx_insert(&mut self.comps.comps, node_id, new_components);
            return true;
        }
        match fx_get_mut(&mut self.comps.comps, node_id) {
            Some(components) => {
                match fx_type_insert(components, component_type_id, component) {
                    Some(mut old) => old.on_detachment(node_id),
                    None => {},
                }
                match fx_type_get_mut(components, component_type_id) {
                    Some(c) => c.on_attachment(node_id),
                    None => {},
                }
            },
            None => {},
        }
        assert(self.comps.comps@.dom() =~= old(self).comps.comps@.dom().insert(node_id));
        true
    }

    /// Borrow the component of the given type from the given node, or else from
    /// the nearest of its ancestors that holds one.
    pub fn get_node_component(&self, node_id: usize, component_type: TypeId) -> (r: Option<&Box<dyn Component>>)
        requires
            self.lookup_ends(node_id),
        ensures
            match self.component_owner(node_id, component_type) {
                Some(o) => r matches Some(c) && *c == self.comps.comps@[o]@[component_type]
                    && self.holds(o, component_type),
                None => r is None,
            },
    {
        match self.find_component_owner(node_id, component_type) {
            Some(owner) => match fx_get(&self.comps.comps, owner) {
                Some(components) => match fx_type_get(components, component_type) {
                    Some(boxed) => Some(boxed),
                    None => None,
                },
                None => None,
            },
            None => None,
        }
    }

    /// Mutably borrow the component `get_node_component` finds.
    pub fn get_mut_node_component(&mut self, node_id: usize, component_type: TypeId) -> (r: Option<&mut Box<dyn Component>>)
        requires
            old(self).lookup_ends(node_id),
        ensures
            final(self).nodes@ == old(self).nodes@,
            final(self).next_id == old(self).next_id,
            match r {
                Some(c) => old(self).component_owner(node_id, component_type) matches Some(o)
                    && old(self).holds(o, component_type)
                    && *c == old(self).comps.comps@[o]@[component_type]
                    && final(self).comps.comps@ == old(self).comps.comps@.insert(o, final(self).comps.comps@[o])
                    && final(self).comps.comps@[o]@.dom() == old(self).comps.comps@[o]@.dom()
                    && final(self).comps.comps@[o]@.remove(component_type) == old(self).comps.comps@[o]@.remove(
                        component_type,
                    ),
                None => old(self).component_owner(node_id, component_type) is None
                    && final(self).comps.comps@ == old(self).comps.comps@,
            },
    {
        match self.find_component_owner(node_id, component_type) {
            Some(owner) => match fx_get_mut(&mut self.comps.comps, owner) {
                Some(components) => match fx_type_get_mut(components, component_type) {
                    Some(boxed) => Some(boxed),
                    None => None,
                },
                None => None,
            },
            None => None,
        }
    }
}

} // verus!

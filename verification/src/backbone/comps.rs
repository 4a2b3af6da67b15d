//! Components: bundles of user logic and state attached to the backbone's nodes.

use vstd::prelude::*;
use rustc_hash::FxHashMap;
use std::any::TypeId;
use super::{Backbone, NodeId, Node, Handler};
use crate::fxmap::{fx_new, fx_get, fx_get_mut, fx_insert, fx_contains, fx_type_get, fx_type_get_mut, fx_type_insert};

verus! {

/// The components of the nodes, by node and by the type they were attached under.
pub type Comps = FxHashMap<usize, FxHashMap<TypeId, Box<dyn Component>>>;

/// Errors that may occur when accessing components.
#[derive(PartialEq, Eq, Structural, Copy, Clone, Debug)]
pub enum ComponentAccessError {
    PathIsNull,
    DoesNotExist,
    CantDowncast,
}

/// The first node from `id` upwards whose components include one of type `t`:
/// the walk goes from each node to its parent and ends at a node that is its own
/// parent (the root).
pub open spec fn comp_owner(nodes: Map<usize, Node>, comps: Map<usize, FxHashMap<TypeId, Box<dyn Component>>>, id: usize, t: TypeId) -> Option<usize>
    decreases id,
{
    if comps.contains_key(id) && comps[id]@.contains_key(t) {
        Some(id)
    } else if nodes.contains_key(id) && nodes[id].spec_parent() < id {
        comp_owner(nodes, comps, nodes[id].spec_parent(), t)
    } else {
        None
    }
}

/// Every node other than the root hangs below a node with a smaller number, and
/// the root is its own parent.
pub open spec fn tree_ok(nodes: Map<usize, Node>) -> bool {
    forall|k: usize| #[trigger] nodes.contains_key(k) ==> {
        ||| nodes[k].spec_parent() == k
        ||| (nodes[k].spec_parent() < k && nodes.contains_key(nodes[k].spec_parent()))
    }
}

/// How a lookup answers for the owner it was after: with a component held by that
/// owner under the type, or with `DoesNotExist` where no node has one.
pub open spec fn found_as(
    owner: Option<usize>,
    comps: Map<usize, FxHashMap<TypeId, Box<dyn Component>>>,
    t: TypeId,
    r: Result<&Box<dyn Component>, ComponentAccessError>,
) -> bool {
    match owner {
        Some(o) => comps[o]@.contains_key(t) && (r matches Ok(c) && *c == comps[o]@[t]),
        None => r == Err::<&Box<dyn Component>, _>(ComponentAccessError::DoesNotExist),
    }
}

/// `found_as` for a mutable lookup.
pub open spec fn found_mut_as(
    owner: Option<usize>,
    comps: Map<usize, FxHashMap<TypeId, Box<dyn Component>>>,
    t: TypeId,
    r: Result<&mut Box<dyn Component>, ComponentAccessError>,
) -> bool {
    match owner {
        Some(o) => comps[o]@.contains_key(t) && (r matches Ok(c) && *c == comps[o]@[t]),
        None => r matches Err(e) && e == ComponentAccessError::DoesNotExist,
    }
}

/// Walks from a node towards the root and returns the first component of the
/// given type on the way.
fn get_component<'a>(nodes: &'a super::Nodes, comps: &'a Comps, node_id: NodeId, component_type: TypeId) -> (r: Result<&'a Box<dyn Component>, ComponentAccessError>)
    requires
        tree_ok(nodes@),
        nodes@.contains_key(node_id.spec_inner()),
    ensures
        found_as(comp_owner(nodes@, comps@, node_id.spec_inner(), component_type), comps@, component_type, r),
{
    let mut current = node_id.get_inner();
    loop
        invariant
            tree_ok(nodes@),
            nodes@.contains_key(current),
            comp_owner(nodes@, comps@, node_id.spec_inner(), component_type)
                == comp_owner(nodes@, comps@, current, component_type),
        decreases current,
    {
        match fx_get(comps, current) {
            Some(node_comps) => match fx_type_get(node_comps, component_type) {
                Some(comp) => {
                    return Ok(comp);
                },
                None => {},
            },
            None => {},
        }
        let node_parent_id = fx_get(nodes, current).unwrap().get_parent_id().get_inner();
        if current == node_parent_id {
            return Err(ComponentAccessError::DoesNotExist);
        }
        current = node_parent_id;
    }
}

/// `get_component` with mutable access to what it finds.
fn get_component_mut<'a>(nodes: &'a super::Nodes, comps: &'a mut Comps, node_id: NodeId, component_type: TypeId) -> (r: Result<&'a mut Box<dyn Component>, ComponentAccessError>)
    requires
        tree_ok(nodes@),
        nodes@.contains_key(node_id.spec_inner()),
    ensures
        final(comps)@.dom() == old(comps)@.dom(),
        found_mut_as(comp_owner(nodes@, old(comps)@, node_id.spec_inner(), component_type), old(comps)@, component_type, r),
{
    let mut current = node_id.get_inner();
    let ghost owner = comp_owner(nodes@, comps@, node_id.spec_inner(), component_type);
    loop
        invariant
            tree_ok(nodes@),
            nodes@.contains_key(current),
            comps@ == old(comps)@,
            owner == comp_owner(nodes@, comps@, current, component_type),
            owner == comp_owner(nodes@, old(comps)@, node_id.spec_inner(), component_type),
        decreases current,
    {
        let has = match fx_get(comps, current) {
            Some(node_comps) => match fx_type_get(node_comps, component_type) {
                Some(_) => true,
                None => false,
            },
            None => false,
        };
        if has {
            let node_comps = fx_get_mut(comps, current).unwrap();
            let comp = fx_type_get_mut(node_comps, component_type).unwrap();
            return Ok(comp);
        }
        let node_parent_id = fx_get(nodes, current).unwrap().get_parent_id().get_inner();
        if current == node_parent_id {
            return Err(ComponentAccessError::DoesNotExist);
        }
        current = node_parent_id;
    }
}

impl<'a> super::Context<'a> {
    /// The component of type `component_type` from the first node, from the node
    /// the event is at upwards, that has one.
    pub fn component_get(&self, component_type: TypeId) -> (r: Result<&Box<dyn Component>, ComponentAccessError>)
        requires
            tree_ok(self.nodes@),
            self.nodes@.contains_key(self.current.spec_inner()),
        ensures
            found_as(comp_owner(self.nodes@, old(self.comps)@, self.current.spec_inner(), component_type), old(self.comps)@, component_type, r),
    {
        get_component(self.nodes, self.comps, self.current, component_type)
    }

    /// The component of type `component_type` from the first node, from the given
    /// one upwards, that has one.
    pub fn component_get_by_node(&self, node_id: NodeId, component_type: TypeId) -> (r: Result<&Box<dyn Component>, ComponentAccessError>)
        requires
            tree_ok(self.nodes@),
            self.nodes@.contains_key(node_id.spec_inner()),
        ensures
            found_as(comp_owner(self.nodes@, old(self.comps)@, node_id.spec_inner(), component_type), old(self.comps)@, component_type, r),
    {
        get_component(self.nodes, self.comps, node_id, component_type)
    }

    /// Mutable access to the component that `component_get` finds.
    pub fn component_get_mut(&mut self, component_type: TypeId) -> (r: Result<&mut Box<dyn Component>, ComponentAccessError>)
        requires
            tree_ok(old(self).nodes@),
            old(self).nodes@.contains_key(old(self).current.spec_inner()),
        ensures
            final(self).comps@.dom() == old(self).comps@.dom(),
            found_mut_as(comp_owner(old(self).nodes@, old(self).comps@, old(self).current.spec_inner(), component_type), old(self).comps@, component_type, r),
    {
        get_component_mut(self.nodes, self.comps, self.current, component_type)
    }

    /// Mutable access to the component that `component_get_by_node` finds.
    pub fn component_get_mut_by_node(&mut self, node_id: NodeId, component_type: TypeId) -> (r: Result<&mut Box<dyn Component>, ComponentAccessError>)
        requires
            tree_ok(old(self).nodes@),
            old(self).nodes@.contains_key(node_id.spec_inner()),
        ensures
            final(self).comps@.dom() == old(self).comps@.dom(),
            found_mut_as(comp_owner(old(self).nodes@, old(self).comps@, node_id.spec_inner(), component_type), old(self).comps@, component_type, r),
    {
        get_component_mut(self.nodes, self.comps, node_id, component_type)
    }
}

impl Backbone {

    /// Sets the handler of the root node.
    pub fn set_root_node_handler(&mut self, handler: Box<dyn Handler>)
        requires
            old(self).wf(),
        ensures
            final(self).wf(),
            final(self).spec_nodes() == old(self).spec_nodes(),
            final(self).spec_path() == old(self).spec_path(),
            final(self).spec_path_str() == old(self).spec_path_str(),
            final(self).spec_state() == old(self).spec_state(),
            final(self).spec_comps() == old(self).spec_comps(),
            final(self).spec_handled() == old(self).spec_handled().insert(old(self).spec_root()),
    {
        fx_insert(&mut self.handlers, self.root_id.get_inner(), handler);
    }

    /// The component of type `component_type` from the first node, from the
    /// location's last node upwards, that has one.
    pub fn component_get(&self, component_type: TypeId) -> (r: Result<&Box<dyn Component>, ComponentAccessError>)
        requires
            self.wf(),
        ensures
            self.spec_path().len() == 0 ==> r == Err::<&Box<dyn Component>, _>(ComponentAccessError::PathIsNull),
            self.spec_path().len() > 0 ==> found_as(
                comp_owner(self.spec_nodes(), self.spec_comps(), self.spec_path().last(), component_type),
                self.spec_comps(),
                component_type,
                r,
            ),
    {
        let start_id = match self.location_get_node() {
            Some(x) => x,
            None => return Err(ComponentAccessError::PathIsNull),
        };
        proof {
            self.lemma_wf_tree();
            self.lemma_wf_path();
        }
        get_component(&self.nodes, &self.comps, start_id, component_type)
    }

    /// The component of type `component_type` from the first node, from the given
    /// one upwards, that has one.
    pub fn component_get_by_node(&self, node_id: NodeId, component_type: TypeId) -> (r: Result<&Box<dyn Component>, ComponentAccessError>)
        requires
            self.wf(),
            self.spec_nodes().contains_key(node_id.spec_inner()),
        ensures
            found_as(
                comp_owner(self.spec_nodes(), self.spec_comps(), node_id.spec_inner(), component_type),
                self.spec_comps(),
                component_type,
                r,
            ),
    {
        proof {
            self.lemma_wf_tree();
        }
        get_component(&self.nodes, &self.comps, node_id, component_type)
    }

    /// Mutable access to the component that `component_get` finds.
    pub fn component_get_mut(&mut self, component_type: TypeId) -> (r: Result<&mut Box<dyn Component>, ComponentAccessError>)
        requires
            old(self).wf(),
        ensures
            final(self).wf(),
            final(self).spec_nodes() == old(self).spec_nodes(),
            final(self).spec_path() == old(self).spec_path(),
            final(self).spec_path_str() == old(self).spec_path_str(),
            final(self).spec_state() == old(self).spec_state(),
            final(self).spec_comps().dom() == old(self).spec_comps().dom(),
            old(self).spec_path().len() == 0 ==> (r matches Err(e) && e == ComponentAccessError::PathIsNull),
            old(self).spec_path().len() > 0 ==> found_mut_as(
                comp_owner(old(self).spec_nodes(), old(self).spec_comps(), old(self).spec_path().last(), component_type),
                old(self).spec_comps(),
                component_type,
                r,
            ),
    {
        let start_id = match self.location_get_node() {
            Some(x) => x,
            None => return Err(ComponentAccessError::PathIsNull),
        };
        proof {
            self.lemma_wf_tree();
            self.lemma_wf_path();
        }
        get_component_mut(&self.nodes, &mut self.comps, start_id, component_type)
    }

    /// Mutable access to the component that `component_get_by_node` finds.
    pub fn component_get_mut_by_node(&mut self, node_id: NodeId, component_type: TypeId) -> (r: Result<&mut Box<dyn Component>, ComponentAccessError>)
        requires
            old(self).wf(),
            old(self).spec_nodes().contains_key(node_id.spec_inner()),
        ensures
            final(self).wf(),
            final(self).spec_nodes() == old(self).spec_nodes(),
            final(self).spec_path() == old(self).spec_path(),
            final(self).spec_path_str() == old(self).spec_path_str(),
            final(self).spec_state() == old(self).spec_state(),
            final(self).spec_comps().dom() == old(self).spec_comps().dom(),
            found_mut_as(
                comp_owner(old(self).spec_nodes(), old(self).spec_comps(), node_id.spec_inner(), component_type),
                old(self).spec_comps(),
                component_type,
                r,
            ),
    {
        proof {
            self.lemma_wf_tree();
        }
        get_component_mut(&self.nodes, &mut self.comps, node_id, component_type)
    }

    /// Attaches a component under the given type to a node, replacing (and
    /// detaching) one attached under that type before; the component is told of
    /// the attachment.
    pub fn node_component_attach(&mut self, node_id: NodeId, component_type: TypeId, component: Box<dyn Component>)
        requires
            old(self).wf(),
            old(self).spec_nodes().contains_key(node_id.spec_inner()),
        ensures
            final(self).wf(),
            final(self).spec_nodes() == old(self).spec_nodes(),
            final(self).spec_path() == old(self).spec_path(),
            final(self).spec_path_str() == old(self).spec_path_str(),
            final(self).spec_state() == old(self).spec_state(),
            final(self).spec_comps().dom() == old(self).spec_comps().dom().insert(node_id.spec_inner()),
            final(self).spec_comps()[node_id.spec_inner()]@.contains_key(component_type),
    {
        let id = node_id.get_inner();
        if !fx_contains(&self.comps, id) {
            let empty: FxHashMap<TypeId, Box<dyn Component>> = fx_new();
            fx_insert(&mut self.comps, id, empty);
        }
        let comps = fx_get_mut(&mut self.comps, id).unwrap();
        let mut component = component;
        match fx_type_insert(comps, component_type, component) {
            Some(mut old) => old.on_detachment(node_id),
            None => {},
        }
        match fx_type_get_mut(comps, component_type) {
            Some(c) => c.on_attachment(node_id),
            None => {},
        }
    }
}

/// A component is a bundle of user-logic and -state attached to a node.
pub trait Component {
    /// Returns an engine internal (no i18n) name for the components type.
    fn get_type_name(&self) -> &'static str;

    /// This function is called when the component is attached to a node.
    fn on_attachment(&mut self, node_id: NodeId);

    /// This function is called when the component is detached from a node.
    fn on_detachment(&mut self, node_id: NodeId);

    /// This function is called when the attached-to node is entered.
    fn on_load(&mut self);

    /// This function is called when the attached-to node is exited.
    fn on_unload(&mut self);
}

/// A component for wrapping objects that can not implement `Component`.
pub struct WrapperComponent<T> {
    pub name: &'static str,
    pub inner: Box<T>,
}

impl<T> WrapperComponent<T> {
    pub fn new(name: &'static str, object: T) -> (r: Self)
        ensures
            r.name == name,
            *r.inner == object,
    {
        Self { name, inner: Box::new(object) }
    }
}

impl<T> Component for WrapperComponent<T> {
    fn get_type_name(&self) -> (r: &'static str)
        ensures
            r == self.name,
    {
        self.name
    }

    fn on_attachment(&mut self, node_id: NodeId) {
    }

    fn on_detachment(&mut self, node_id: NodeId) {
    }

    fn on_load(&mut self) {
    }

    fn on_unload(&mut self) {
    }
}

} // verus!

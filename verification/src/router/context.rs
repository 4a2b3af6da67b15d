//! A context whose component lookups report why they failed.

use vstd::prelude::*;
use std::any::TypeId;
use super::node;
use super::comp;
use super::lens;

verus! {

/// What a lens sees of the router: the lens, and the nodes.
pub struct Context<'a> {
    pub lens: &'a lens::Lens,
    pub nodes: &'a mut node::Nodes,
}

impl<'a> Context<'a> {
    pub fn new<'b>(lens: &'b lens::Lens, nodes: &'b mut node::Nodes) -> (r: Context<'b>)
        ensures
            *r.lens == *lens,
            *r.nodes == *old(nodes),
    {
        Context { lens, nodes }
    }

    pub fn get_lens_name(&self) -> (r: &str)
        ensures
            r@ == self.lens.name@,
    {
        self.lens.name.as_str()
    }

    pub fn get_lens_state(&self) -> (r: &lens::State)
        ensures
            *r == self.lens.state,
    {
        &self.lens.state
    }

    /// The node the lens stands at: the last one of its path.
    pub fn get_lensed_node_id(&self) -> (r: Option<usize>)
        ensures
            r == (if self.lens.path@.len() > 0 { Some(self.lens.path@.last()) } else { None::<usize> }),
    {
        if self.lens.path.len() > 0 {
            Some(self.lens.path[self.lens.path.len() - 1])
        } else {
            None
        }
    }

    pub fn get_lensed_node(&self) -> (r: Option<&node::Node>)
        ensures
            match r {
                Some(n) => self.lens.path@.len() > 0 && old(self.nodes).nodes@.contains_key(self.lens.path@.last())
                    && *n == old(self.nodes).nodes@[self.lens.path@.last()],
                None => self.lens.path@.len() == 0 || !old(self.nodes).nodes@.contains_key(self.lens.path@.last()),
            },
    {
        match self.get_lensed_node_id() {
            Some(node_id) => self.nodes.get_node_by_id(node_id),
            None => None,
        }
    }

    pub fn get_lensed_node_name(&self) -> (r: Option<&str>)
        ensures
            match r {
                Some(n) => self.lens.path@.len() > 0 && old(self.nodes).nodes@.contains_key(self.lens.path@.last())
                    && n@ == old(self.nodes).nodes@[self.lens.path@.last()].name@,
                None => self.lens.path@.len() == 0 || !old(self.nodes).nodes@.contains_key(self.lens.path@.last()),
            },
    {
        match self.get_lensed_node_id() {
            Some(node_id) => match self.nodes.get_node_by_id(node_id) {
                Some(node) => Some(node.name.as_str()),
                None => None,
            },
            None => None,
        }
    }

    pub fn get_path(&self) -> (r: &[usize])
        ensures
            r@ == self.lens.path@,
    {
        self.lens.path.as_slice()
    }

    pub fn get_path_str(&self) -> (r: &str)
        ensures
            r@ == self.lens.path_str@,
    {
        self.lens.path_str.as_str()
    }

    /// The component of the given type at the lensed node or the nearest ancestor
    /// that holds components; an error names the lensed node (0 where the lens
    /// stands nowhere).
    pub fn get_component(&self, component_type_id: TypeId) -> (r: Result<&Box<dyn comp::Component>, comp::ComponentAccessError>)
        requires
            self.lens.path@.len() > 0 ==> self.nodes.lookup_ends(self.lens.path@.last()),
        ensures
            self.lens.path@.len() == 0 ==> r == Err::<&Box<dyn comp::Component>, _>(
                (comp::ComponentAccessError::NodeNotFound { node_id: 0 }),
            ),
            self.lens.path@.len() > 0 ==> match old(self.nodes).component_owner(self.lens.path@.last(), component_type_id) {
                Some(o) => r matches Ok(c) && *c == old(self.nodes).comps.comps@[o]@[component_type_id]
                    && old(self.nodes).holds(o, component_type_id),
                None => r == Err::<&Box<dyn comp::Component>, _>(
                    (comp::ComponentAccessError::NodeNotFound { node_id: self.lens.path@.last() }),
                ),
            },
    {
        match self.get_lensed_node_id() {
            Some(node_id) => match self.nodes.get_node_component(node_id, component_type_id) {
                Some(c) => Ok(c),
                None => Err(comp::ComponentAccessError::NodeNotFound { node_id }),
            },
            None => Err(comp::ComponentAccessError::NodeNotFound { node_id: 0 }),
        }
    }

    /// Mutable access to the component `get_component` finds.
    pub fn get_mut_component(&mut self, component_type_id: TypeId) -> (r: Result<
        &mut Box<dyn comp::Component>,
        comp::ComponentAccessError,
    >)
        requires
            old(self).lens.path@.len() > 0 ==> old(self).nodes.lookup_ends(old(self).lens.path@.last()),
        ensures
            *final(self).lens == *old(self).lens,
            final(self).nodes.nodes@ == old(self).nodes.nodes@,
            final(self).nodes.comps.comps@.dom() == old(self).nodes.comps.comps@.dom(),
            old(self).lens.path@.len() == 0 ==> (r matches Err(e) && e == (comp::ComponentAccessError::NodeNotFound {
                node_id: 0,
            })),
            old(self).lens.path@.len() > 0 ==> match old(self).nodes.component_owner(old(self).lens.path@.last(), component_type_id) {
                Some(o) => r matches Ok(c) && *c == old(self).nodes.comps.comps@[o]@[component_type_id]
                    && final(self).nodes.comps.comps@ == old(self).nodes.comps.comps@.insert(
                        o,
                        final(self).nodes.comps.comps@[o],
                    ) && final(self).nodes.comps.comps@[o]@.dom() == old(self).nodes.comps.comps@[o]@.dom()
                    && final(self).nodes.comps.comps@[o]@.remove(component_type_id) == old(
                        self,
                    ).nodes.comps.comps@[o]@.remove(component_type_id)
                    && old(self).nodes.holds(o, component_type_id),
                None => (r matches Err(e) && e == (comp::ComponentAccessError::NodeNotFound {
                    node_id: old(self).lens.path@.last(),
                })) && final(self).nodes.comps.comps@ == old(self).nodes.comps.comps@,
            },
    {
        match self.get_lensed_node_id() {
            Some(node_id) => match self.nodes.get_mut_node_component(node_id, component_type_id) {
                Some(c) => Ok(c),
                None => Err(comp::ComponentAccessError::NodeNotFound { node_id }),
            },
            None => Err(comp::ComponentAccessError::NodeNotFound { node_id: 0 }),
        }
    }
}

} // verus!

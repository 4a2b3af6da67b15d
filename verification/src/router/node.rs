//! The nodes of the routing tree.

use vstd::prelude::*;
use vstd::string::StringExecFns;
use rustc_hash::FxHashMap;
use std::any::TypeId;
use super::lens::MoveEvent;
use super::comp;
use super::event;
use crate::fxmap::{fx_new, fx_insert, fx_get, fx_get_mut, fx_type_keys, fx_type_get_mut};
use crate::text::str_eq;

verus! {

/// Represents a single named unique node in the routing-tree.
pub struct Node {
    pub parent: Option<usize>,
    pub name: String,
    pub id: usize,
    /// How many lenses stand at (or pass through) this node.
    pub lens_count: usize,
}

/// The lens count after a node learns of a move (or of no move).
pub open spec fn moved_count(count: usize, kind: Option<MoveEvent>) -> int {
    match kind {
        Some(MoveEvent::EnterNode) => count + 1,
        Some(MoveEvent::LeaveNode) => count - 1,
        None => count as int,
    }
}

/// Whether a node can take the move an event stands for without its lens count
/// leaving the range of `usize`.
pub open spec fn can_move(count: usize, kind: Option<MoveEvent>) -> bool {
    &&& kind == Some(MoveEvent::EnterNode) ==> count < usize::MAX
    &&& kind == Some(MoveEvent::LeaveNode) ==> count > 0
}

/// Whether `after` is `before` after learning of a move (or of no move).
pub open spec fn moved(before: Node, after: Node, kind: Option<MoveEvent>) -> bool {
    &&& after.id == before.id
    &&& after.parent == before.parent
    &&& after.name == before.name
    &&& after.lens_count == moved_count(before.lens_count, kind)
}

impl Node {
    /// Creates a new node to be inserted into the routing-tree.
    pub fn new(id: usize, parent: Option<usize>, name: &str) -> (r: Node)
        ensures
            r.id == id,
            r.parent == parent,
            r.name@ == name@,
            r.lens_count == 0,
    {
        Node { id, parent, name: String::from_str(name), lens_count: 0 }
    }

    /// Acts upon a received event: a lens entering the node counts up, one leaving
    /// counts down. When that changes the count, every component of the node is
    /// told: unloaded when no lens is left, loaded otherwise. Other events are ignored.
    pub fn on_event(
        &mut self,
        components: Option<&mut FxHashMap<TypeId, Box<dyn comp::Component>>>,
        event: &mut event::Wrapper,
    )
        requires
            can_move(old(self).lens_count, old(event).spec_kind()),
        ensures
            final(self).id == old(self).id,
            final(self).parent == old(self).parent,
            final(self).name == old(self).name,
            final(self).lens_count == moved_count(old(self).lens_count, old(event).spec_kind()),
            *final(event) == *old(event),
            components matches Some(c) ==> final(c)@.dom() == c@.dom(),
    {
        let kind = event.move_kind();
        let old_lens_count = self.lens_count;
        match kind {
            Some(MoveEvent::EnterNode) => {
                self.lens_count = self.lens_count + 1;
            },
            Some(MoveEvent::LeaveNode) => {
                self.lens_count = self.lens_count - 1;
            },
            None => {},
        }
        if old_lens_count != self.lens_count {
            match components {
                Some(components) => {
                    let load = self.lens_count != 0;
                    let keys = fx_type_keys(components);
                    let ghost dom = components@.dom();
                    let mut i: usize = 0;
                    while i < keys.len()
                        invariant
                            i <= keys@.len(),
                            components@.dom() == dom,
                        decreases keys@.len() - i,
                    {
                        match fx_type_get_mut(components, keys[i]) {
                            Some(component) => {
                                if load {
                                    component.on_load();
                                } else {
                                    component.on_unload();
                                }
                            },
                            None => {},
                        }
                        proof {
                            assert(components@.dom() =~= dom);
                        }
                        i = i + 1;
                    }
                },
                None => {},
            }
        }
    }

    /// Test if this node is a child of the given node.
    pub fn is_child_of(&self, parent: &Node) -> (r: bool)
        ensures
            r == (self.parent == Some(parent.id)),
    {
        match self.parent {
            Some(id) => id == parent.id,
            None => false,
        }
    }

    /// Test if this node has the given specific name.
    pub fn is_named(&self, name: &str) -> (r: bool)
        ensures
            r == (self.name@ == name@),
    {
        str_eq(self.name.as_str(), name)
    }
}

impl PartialEq for Node {
    /// Nodes are equal when their ids are.
    fn eq(&self, other: &Node) -> (r: bool) {
        self.id == other.id
    }
}

impl vstd::std_specs::cmp::PartialEqSpecImpl for Node {
    open spec fn obeys_eq_spec() -> bool {
        true
    }

    open spec fn eq_spec(&self, other: &Node) -> bool {
        self.id == other.id
    }
}

/// The names along a path after its first node, each after a slash.
pub open spec fn path_names(nodes: Map<usize, Node>, path: Seq<usize>) -> Seq<char>
    decreases path.len(),
{
    if path.len() <= 1 {
        Seq::empty()
    } else {
        path_names(nodes, path.drop_last()) + seq!['/'] + nodes[path.last()].name@
    }
}

/// Whether every node of a path is in the tree.
pub open spec fn path_resolves(nodes: Map<usize, Node>, path: Seq<usize>) -> bool {
    forall|i: int| 0 <= i < path.len() ==> nodes.contains_key(#[trigger] path[i])
}

/// The string of a path, as in a file system: the names of the nodes below the
/// first (the root), each after a slash; a lone slash for the root itself.
pub open spec fn path_string(nodes: Map<usize, Node>, path: Seq<usize>) -> Seq<char> {
    if path.len() <= 1 {
        seq!['/']
    } else {
        path_names(nodes, path)
    }
}

/// Container for all nodes and components.
pub struct Nodes {
    /// Owner of all nodes and thus the routing-tree.
    pub nodes: FxHashMap<usize, Node>,
    /// Container for node components.
    pub comps: comp::Components,
    /// Auto-incrementing counter for the next unique node-id.
    pub next_id: usize,
}

impl Nodes {
    /// The parent of a node, if it is in the tree and has one.
    pub open spec fn parent_of(&self, id: usize) -> Option<usize> {
        if self.nodes@.contains_key(id) {
            self.nodes@[id].parent
        } else {
            None
        }
    }

    /// Effectively creates a new routing tree holding only its root: node 0, named
    /// "" and without parent.
    pub fn new() -> (r: Nodes)
        ensures
            r.nodes@.dom() == set![0usize],
            r.nodes@[0].id == 0,
            r.nodes@[0].parent is None,
            r.nodes@[0].name@ == Seq::<char>::empty(),
            r.nodes@[0].lens_count == 0,
            r.next_id == 1,
            r.comps.comps@.dom() == Set::<usize>::empty(),
    {
        let root_node = Node { id: 0, parent: None, name: String::new(), lens_count: 0 };
        let mut nodes = fx_new();
        fx_insert(&mut nodes, 0, root_node);
        assert(nodes@.dom() =~= set![0usize]);
        Nodes { nodes, next_id: 1, comps: comp::Components::new() }
    }

    /// Returns the next unique node-id.
    pub fn next_id(&mut self) -> (r: usize)
        requires
            old(self).next_id < usize::MAX,
        ensures
            r == old(self).next_id,
            final(self).next_id == old(self).next_id + 1,
            final(self).nodes@ == old(self).nodes@,
            final(self).comps.comps@ == old(self).comps.comps@,
    {
        let id = self.next_id;
        self.next_id = self.next_id + 1;
        id
    }

    /// Returns a formatted string representing the given path: a slash, then the
    /// names of the nodes along it. Fails if a node of the path is not in the tree.
    pub fn get_path_as_string(&self, path: &[usize]) -> (r: Result<String, ()>)
        ensures
            match r {
                Ok(s) => path_resolves(self.nodes@, path@) && s@ == path_string(self.nodes@, path@),
                Err(_) => !path_resolves(self.nodes@, path@),
            },
    {
        let mut path_str = String::new();
        let mut i: usize = 0;
        while i < path.len()
            invariant
                i <= path@.len(),
                path_resolves(self.nodes@, path@.take(i as int)),
                path_str@ == path_names(self.nodes@, path@.take(i as int)),
            decreases path@.len() - i,
        {
            match self.get_node_by_id(path[i]) {
                Some(node) => {
                    if i > 0 {
                        path_str.append("/");
                        path_str.append(node.name.as_str());
                    }
                    proof {
                        reveal_strlit("/");
                        assert(path@.take(i + 1).drop_last() =~= path@.take(i as int));
                        assert(path@.take(i + 1).last() == path@[i as int]);
                        if i > 0 {
                            assert(path_str@ =~= path_names(self.nodes@, path@.take(i + 1)));
                        }
                        assert(forall|j: int| 0 <= j < i + 1 ==> #[trigger] path@.take(i + 1)[j] == path@.take(i as int).push(path@[i as int])[j]);
                    }
                },
                None => {
                    assert(!path_resolves(self.nodes@, path@)) by {
                        assert(!self.nodes@.contains_key(path@[i as int]));
                    }
                    return Err(());
                },
            }
            i = i + 1;
        }
        assert(path@.take(path@.len() as int) =~= path@);
        if path.len() <= 1 {
            path_str.append("/");
            proof {
                reveal_strlit("/");
                assert(path_str@ =~= seq!['/']);
            }
        }
        Ok(path_str)
    }

    /// Mutably borrow the node with the given id.
    pub fn get_mut_node_by_id(&mut self, id: usize) -> (r: Option<&mut Node>)
        ensures
            match r {
                Some(n) => old(self).nodes@.contains_key(id) && *n == old(self).nodes@[id]
                    && final(self).nodes@ == old(self).nodes@.insert(id, *final(n))
                    && final(self).comps == old(self).comps && final(self).next_id == old(self).next_id,
                None => !old(self).nodes@.contains_key(id) && final(self).nodes@ == old(self).nodes@
                    && final(self).comps == old(self).comps && final(self).next_id == old(self).next_id,
            },
    {
        let r = fx_get_mut(&mut self.nodes, id);
        r
    }

    /// Mutably borrow the node (and its components) with the given id.
    pub fn get_mut_node_with_comps_by_id(&mut self, id: usize) -> (r: (
        Option<&mut Node>,
        Option<&mut FxHashMap<TypeId, Box<dyn comp::Component>>>,
    ))
        ensures
            final(self).next_id == old(self).next_id,
            match r.0 {
                Some(n) => old(self).nodes@.contains_key(id) && *n == old(self).nodes@[id]
                    && final(self).nodes@ == old(self).nodes@.insert(id, *final(n)),
                None => !old(self).nodes@.contains_key(id) && final(self).nodes@ == old(self).nodes@,
            },
            match r.1 {
                Some(c) => old(self).comps.comps@.contains_key(id) && *c == old(self).comps.comps@[id]
                    && final(self).comps.comps@ == old(self).comps.comps@.insert(id, *final(c)),
                None => !old(self).comps.comps@.contains_key(id) && final(self).comps.comps@
                    == old(self).comps.comps@,
            },
    {
        (fx_get_mut(&mut self.nodes, id), fx_get_mut(&mut self.comps.comps, id))
    }

    /// Borrow the node with the given id.
    pub fn get_node_by_id(&self, id: usize) -> (r: Option<&Node>)
        ensures
            match r {
                Some(n) => self.nodes@.contains_key(id) && *n == self.nodes@[id],
                None => !self.nodes@.contains_key(id),
            },
    {
        fx_get(&self.nodes, id)
    }

    /// Get the id of the parent of the given node.
    pub fn get_node_parent_id(&self, node_id: usize) -> (r: Option<usize>)
        ensures
            r == self.parent_of(node_id),
    {
        match fx_get(&self.nodes, node_id) {
            Some(node) => match node.parent {
                Some(parent) => Some(parent),
                None => None,
            },
            None => None,
        }
    }
}

} // verus!

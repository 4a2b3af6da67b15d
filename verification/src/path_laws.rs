//! What moving along a path does, in the terms of the path's bytes: in each of
//! the two routers and in the backbone, `../` goes up to the parent, `./` stays,
//! a name goes down to the child of that name, and the end of the path ends the
//! move, as in a file system.

use vstd::prelude::*;
use vstd::utf8::encode_utf8;
use crate::text::{slash, lemma_skip_slashes_at, lemma_segment_end_at};
use crate::router::{siblings_unique, ids_match};
use crate::router::node::Node;
use crate::router::lens::{LensModel, StateModel, MoveEvent, MoveCompletionEvent};
use crate::router::update::lens_step;
use crate::flat_router::{flat_lens_step, slot_is_child};
use crate::flat_router::Node as FlatNode;
use crate::flat_router::LensMoveEvent;
use crate::backbone::{Backbone, StateKind, update_done, is_named_child};

verus! {

/// Whether, reading the bytes `b` from offset `o`, the next thing read starts at
/// `s`: the bytes in between are slashes and the one at `s` is none; at the very
/// start of a path nothing is skipped.
pub open spec fn reads_at(b: Seq<u8>, o: int, s: int) -> bool {
    &&& 0 <= o <= s < b.len()
    &&& forall|j: int| o <= j < s ==> b[j] == 0x2fu8
    &&& b[s] != 0x2fu8
    &&& o == 0 ==> s == 0
}

/// Whether `../` stands at byte `s` of `b`.
pub open spec fn up_at(b: Seq<u8>, s: int) -> bool {
    s + 3 <= b.len() && b[s] == 0x2eu8 && b[s + 1] == 0x2eu8 && b[s + 2] == 0x2fu8
}

/// Whether `./` stands at byte `s` of `b`.
pub open spec fn here_at(b: Seq<u8>, s: int) -> bool {
    s + 2 <= b.len() && b[s] == 0x2eu8 && b[s + 1] == 0x2fu8
}

/// Whether the bytes from `s` up to `e` are one name of a path: no slash among
/// them, a slash or the end after them, and neither `.` nor `..`.
pub open spec fn name_at(b: Seq<u8>, s: int, e: int) -> bool {
    &&& 0 <= s < e <= b.len()
    &&& forall|j: int| s <= j < e ==> b[j] != 0x2fu8
    &&& e == b.len() || b[e] == 0x2fu8
    &&& b.subrange(s, e) != seq![0x2eu8]
    &&& b.subrange(s, e) != seq![0x2eu8, 0x2eu8]
}

/// A name is neither `./` nor `../`.
pub proof fn lemma_name_not_dots(b: Seq<u8>, s: int, e: int)
    requires
        name_at(b, s, e),
    ensures
        !(s + 2 <= b.len() && b[s] == crate::text::dot() && b[s + 1] == slash()),
        !(s + 3 <= b.len() && b[s] == crate::text::dot() && b[s + 1] == crate::text::dot() && b[s + 2] == slash()),
{
    if s + 2 <= b.len() && b[s] == 0x2eu8 && b[s + 1] == 0x2fu8 {
        if e > s + 1 {
            assert(b[s + 1] != 0x2fu8);
        }
        assert(b.subrange(s, e) =~= seq![0x2eu8]);
    }
    if s + 3 <= b.len() && b[s] == 0x2eu8 && b[s + 1] == 0x2eu8 && b[s + 2] == 0x2fu8 {
        if e > s + 2 {
            assert(b[s + 2] != 0x2fu8);
        }
        if e == s + 1 {
            assert(b[s + 1] == 0x2fu8);
        }
        assert(b.subrange(s, e) =~= seq![0x2eu8, 0x2eu8]);
    }
}

/// A lens of the tree router that stands somewhere and reads `../` next goes up
/// one node: its path loses its last node, that node is told the lens left it,
/// and the lens reads on after the `../`.
pub proof fn law_router_up(nodes: Map<usize, Node>, l: LensModel, p: Seq<char>, o: usize, s: int)
    requires
        l.path.len() > 0,
        l.state == StateModel::Moving(p, o),
        reads_at(encode_utf8(p), o as int, s),
        up_at(encode_utf8(p), s),
    ensures
        lens_step(nodes, l).0.path == l.path.drop_last(),
        lens_step(nodes, l).1 == seq![(l.path.last(), MoveEvent::LeaveNode)],
        lens_step(nodes, l).2 is None,
        lens_step(nodes, l).0.state == StateModel::Moving(p, (s + 3) as usize),
{
    let b = encode_utf8(p);
    if o > 0 {
        lemma_skip_slashes_at(b, o as int, s);
    }
}

/// A lens of the tree router that stands somewhere and reads `./` next stays
/// where it is, tells no node anything, and reads on after the `./`.
pub proof fn law_router_here(nodes: Map<usize, Node>, l: LensModel, p: Seq<char>, o: usize, s: int)
    requires
        l.path.len() > 0,
        l.state == StateModel::Moving(p, o),
        reads_at(encode_utf8(p), o as int, s),
        here_at(encode_utf8(p), s),
    ensures
        lens_step(nodes, l).0.path == l.path,
        lens_step(nodes, l).1 == Seq::<(usize, MoveEvent)>::empty(),
        lens_step(nodes, l).2 is None,
        lens_step(nodes, l).0.state == StateModel::Moving(p, (s + 2) as usize),
{
    let b = encode_utf8(p);
    if o > 0 {
        lemma_skip_slashes_at(b, o as int, s);
    }
}

/// A lens of the tree router that stands at a node of a consistent tree and reads
/// a name next goes down to the child of that node with that name: its path gains
/// the child, the child is told the lens entered it, and the lens reads on after
/// the name.
pub proof fn law_router_down(nodes: Map<usize, Node>, l: LensModel, p: Seq<char>, o: usize, s: int, e: int, k: usize)
    requires
        ids_match(nodes),
        siblings_unique(nodes),
        l.path.len() > 0,
        nodes.contains_key(l.path.last()),
        l.state == StateModel::Moving(p, o),
        reads_at(encode_utf8(p), o as int, s),
        name_at(encode_utf8(p), s, e),
        nodes.contains_key(k),
        nodes[k].parent == Some(nodes[l.path.last()].id),
        encode_utf8(nodes[k].name@) == encode_utf8(p).subrange(s, e),
    ensures
        lens_step(nodes, l).0.path == l.path.push(k),
        lens_step(nodes, l).1 == seq![(k, MoveEvent::EnterNode)],
        lens_step(nodes, l).2 is None,
        lens_step(nodes, l).0.state == StateModel::Moving(p, e as usize),
{
    let b = encode_utf8(p);
    if o > 0 {
        lemma_skip_slashes_at(b, o as int, s);
    }
    lemma_segment_end_at(b, s, e);
    let name = b.subrange(s, e);
    lemma_name_not_dots(b, s, e);
    let cur = l.path.last();
    assert(crate::router::child_named(nodes, cur, name, k));
    let c = crate::router::named_child(nodes, cur, name);
    assert(crate::router::child_named(nodes, cur, name, c));
    crate::text::lemma_encode_injective(nodes[c].name@, nodes[k].name@);
    assert(nodes[c] == nodes[c]);
    assert(nodes[k] == nodes[k]);
}

/// A lens of the tree router that stands somewhere and has read its path to the
/// end stops there: it stays, becomes idle, and is told it finished.
pub proof fn law_router_end(nodes: Map<usize, Node>, l: LensModel, p: Seq<char>)
    requires
        l.path.len() > 0,
        0 < encode_utf8(p).len() <= usize::MAX,
        l.state == StateModel::Moving(p, encode_utf8(p).len() as usize),
    ensures
        lens_step(nodes, l).0.path == l.path,
        lens_step(nodes, l).1 == Seq::<(usize, MoveEvent)>::empty(),
        lens_step(nodes, l).2 == Some(MoveCompletionEvent::Finished),
        lens_step(nodes, l).0.state == StateModel::Idle,
{
}

/// A lens of the flat router that stands somewhere and reads `../` next goes up
/// one node: its path loses its last node, and it reads on after the `../`.
pub proof fn law_flat_up(nodes: Seq<Option<FlatNode>>, path: Seq<usize>, p: Seq<char>, o: usize, s: int)
    requires
        path.len() > 0,
        reads_at(encode_utf8(p), o as int, s),
        up_at(encode_utf8(p), s),
    ensures
        flat_lens_step(nodes, path, StateModel::Moving(p, o)).0 == path.drop_last(),
        flat_lens_step(nodes, path, StateModel::Moving(p, o)).1 == StateModel::Moving(p, (s + 3) as usize),
        flat_lens_step(nodes, path, StateModel::Moving(p, o)).2 is None,
{
    if o > 0 {
        lemma_skip_slashes_at(encode_utf8(p), o as int, s);
    }
}

/// A lens of the flat router that stands somewhere and reads `./` next stays
/// where it is and reads on after the `./`.
pub proof fn law_flat_here(nodes: Seq<Option<FlatNode>>, path: Seq<usize>, p: Seq<char>, o: usize, s: int)
    requires
        path.len() > 0,
        reads_at(encode_utf8(p), o as int, s),
        here_at(encode_utf8(p), s),
    ensures
        flat_lens_step(nodes, path, StateModel::Moving(p, o)).0 == path,
        flat_lens_step(nodes, path, StateModel::Moving(p, o)).1 == StateModel::Moving(p, (s + 2) as usize),
        flat_lens_step(nodes, path, StateModel::Moving(p, o)).2 is None,
{
    if o > 0 {
        lemma_skip_slashes_at(encode_utf8(p), o as int, s);
    }
}

/// A lens of the flat router that stands at a node and reads a name next goes
/// down to the only child of that node with that name: its path gains the child's
/// id, and it reads on after the name.
pub proof fn law_flat_down(
    nodes: Seq<Option<FlatNode>>,
    path: Seq<usize>,
    p: Seq<char>,
    o: usize,
    s: int,
    e: int,
    k: int,
)
    requires
        path.len() > 0,
        path.last() < nodes.len(),
        nodes[path.last() as int] is Some,
        reads_at(encode_utf8(p), o as int, s),
        name_at(encode_utf8(p), s, e),
        slot_is_child(nodes, nodes[path.last() as int]->0, encode_utf8(p).subrange(s, e), k),
        forall|j: int| j != k ==> !slot_is_child(nodes, nodes[path.last() as int]->0, encode_utf8(p).subrange(s, e), j),
    ensures
        flat_lens_step(nodes, path, StateModel::Moving(p, o)).0 == path.push(nodes[k]->0.id),
        flat_lens_step(nodes, path, StateModel::Moving(p, o)).1 == StateModel::Moving(p, e as usize),
        flat_lens_step(nodes, path, StateModel::Moving(p, o)).2 is None,
{
    let b = encode_utf8(p);
    if o > 0 {
        lemma_skip_slashes_at(b, o as int, s);
    }
    lemma_segment_end_at(b, s, e);
    lemma_name_not_dots(b, s, e);
    let cur = nodes[path.last() as int]->0;
    let name = b.subrange(s, e);
    crate::flat_router::lemma_first_child_from(nodes, cur, name, 0);
}

/// A lens of the flat router that stands somewhere and has read its path to the
/// end stops there: it stays, becomes idle, and is told it finished.
pub proof fn law_flat_end(nodes: Seq<Option<FlatNode>>, path: Seq<usize>, p: Seq<char>)
    requires
        path.len() > 0,
        0 < encode_utf8(p).len() <= usize::MAX,
    ensures
        flat_lens_step(nodes, path, StateModel::Moving(p, encode_utf8(p).len() as usize)).0 == path,
        flat_lens_step(nodes, path, StateModel::Moving(p, encode_utf8(p).len() as usize)).1 == StateModel::Idle,
        flat_lens_step(nodes, path, StateModel::Moving(p, encode_utf8(p).len() as usize)).2 == Some(
            LensMoveEvent::Finished,
        ),
{
}

/// An update of a backbone that stands somewhere and reads `../` next in the path
/// it moves along takes it up one node: its location loses its last node, and it
/// reads on after the `../`.
pub proof fn law_backbone_up(a: Backbone, b: Backbone, r: bool, p: Seq<char>, o: usize, s: int)
    requires
        update_done(a, b, r),
        a.spec_path().len() > 0,
        a.spec_state() == StateKind::Move(p, o),
        reads_at(encode_utf8(p), o as int, s),
        up_at(encode_utf8(p), s),
    ensures
        b.spec_path() == a.spec_path().drop_last(),
        b.spec_state() == StateKind::Move(p, (s + 3) as usize),
{
    if o > 0 {
        lemma_skip_slashes_at(encode_utf8(p), o as int, s);
    }
}

/// An update of a backbone that stands somewhere and reads `./` next stays where
/// it is and reads on after the `./`.
pub proof fn law_backbone_here(a: Backbone, b: Backbone, r: bool, p: Seq<char>, o: usize, s: int)
    requires
        update_done(a, b, r),
        a.spec_path().len() > 0,
        a.spec_state() == StateKind::Move(p, o),
        reads_at(encode_utf8(p), o as int, s),
        here_at(encode_utf8(p), s),
    ensures
        b.spec_path() == a.spec_path(),
        b.spec_state() == StateKind::Move(p, (s + 2) as usize),
{
    if o > 0 {
        lemma_skip_slashes_at(encode_utf8(p), o as int, s);
    }
}

/// An update of a backbone that stands at a node and reads a name next goes down
/// to a child of that node with that name, and reads on after the name.
pub proof fn law_backbone_down(a: Backbone, b: Backbone, r: bool, p: Seq<char>, o: usize, s: int, e: int, k: usize)
    requires
        update_done(a, b, r),
        a.spec_path().len() > 0,
        a.spec_nodes().contains_key(a.spec_path().last()),
        a.spec_state() == StateKind::Move(p, o),
        reads_at(encode_utf8(p), o as int, s),
        name_at(encode_utf8(p), s, e),
        is_named_child(a.spec_nodes(), a.spec_path().last(), encode_utf8(p).subrange(s, e), k),
    ensures
        b.spec_path().len() == a.spec_path().len() + 1,
        b.spec_path().drop_last() == a.spec_path(),
        exists|c: usize|
            #[trigger] is_named_child(a.spec_nodes(), a.spec_path().last(), encode_utf8(p).subrange(s, e), c)
                && a.spec_nodes()[c].spec_id() == b.spec_path().last(),
        b.spec_state() == StateKind::Move(p, e as usize),
{
    let bs = encode_utf8(p);
    if o > 0 {
        lemma_skip_slashes_at(bs, o as int, s);
    }
    lemma_segment_end_at(bs, s, e);
    lemma_name_not_dots(bs, s, e);
    assert(is_named_child(a.spec_nodes(), a.spec_path().last(), bs.subrange(s, e), k));
}

/// An update of a backbone that stands somewhere and has nothing left to read of
/// its path but slashes ends the move there: it stays and becomes idle.
pub proof fn law_backbone_end(a: Backbone, b: Backbone, r: bool, p: Seq<char>, o: usize)
    requires
        update_done(a, b, r),
        a.spec_path().len() > 0,
        a.spec_state() == StateKind::Move(p, o),
        0 < o <= encode_utf8(p).len(),
        forall|j: int| o <= j < encode_utf8(p).len() ==> encode_utf8(p)[j] == 0x2fu8,
    ensures
        b.spec_path() == a.spec_path(),
        b.spec_state() == StateKind::Idle,
{
    let bs = encode_utf8(p);
    if (o as int) < bs.len() {
        lemma_skip_slashes_to_end(bs, o as int);
    }
}

/// Only slashes from `o` to the end: `skip_slashes` reaches the end.
pub proof fn lemma_skip_slashes_to_end(b: Seq<u8>, o: int)
    requires
        0 <= o <= b.len(),
        forall|j: int| o <= j < b.len() ==> b[j] == slash(),
    ensures
        crate::text::skip_slashes(b, o) == b.len(),
    decreases b.len() - o,
{
    if o < b.len() {
        lemma_skip_slashes_to_end(b, o + 1);
    }
}

/// A lens of the tree router that stands below the root and moves along an
/// absolute path (one that starts with `/`) first climbs: it leaves the node it
/// stands at, and reads its path from the start again.
pub proof fn law_router_absolute_climbs(nodes: Map<usize, Node>, l: LensModel, p: Seq<char>)
    requires
        l.path.len() > 1,
        l.state == StateModel::Moving(p, 0),
        encode_utf8(p).len() > 0,
        encode_utf8(p)[0] == 0x2fu8,
    ensures
        lens_step(nodes, l).0.path == l.path.drop_last(),
        lens_step(nodes, l).1 == seq![(l.path.last(), MoveEvent::LeaveNode)],
        lens_step(nodes, l).2 is None,
        lens_step(nodes, l).0.state == StateModel::Moving(p, 0),
{
}

/// A lens of the tree router that stands nowhere, idle or moving, first enters the
/// root.
pub proof fn law_router_enters_tree(nodes: Map<usize, Node>, l: LensModel)
    requires
        l.path.len() == 0,
        l.state is Idle || l.state is Moving,
    ensures
        lens_step(nodes, l).0.path == seq![0usize],
        lens_step(nodes, l).1 == seq![(0usize, MoveEvent::EnterNode)],
        lens_step(nodes, l).2 is None,
{
}

/// A lens of the tree router that reads a name no child of its node bears gives
/// up: it stays, becomes idle, and is told it aborted.
pub proof fn law_router_not_found(nodes: Map<usize, Node>, l: LensModel, p: Seq<char>, o: usize, s: int, e: int)
    requires
        l.path.len() > 0,
        nodes.contains_key(l.path.last()),
        l.state == StateModel::Moving(p, o),
        reads_at(encode_utf8(p), o as int, s),
        name_at(encode_utf8(p), s, e),
        forall|k: usize|
            #![trigger nodes[k]]
            nodes.contains_key(k) && nodes[k].parent == Some(nodes[l.path.last()].id) ==> encode_utf8(nodes[k].name@)
                != encode_utf8(p).subrange(s, e),
    ensures
        lens_step(nodes, l).0.path == l.path,
        lens_step(nodes, l).1 == Seq::<(usize, MoveEvent)>::empty(),
        lens_step(nodes, l).2 == Some(MoveCompletionEvent::Aborted),
        lens_step(nodes, l).0.state == StateModel::Idle,
{
    let b = encode_utf8(p);
    if o > 0 {
        lemma_skip_slashes_at(b, o as int, s);
    }
    lemma_segment_end_at(b, s, e);
    lemma_name_not_dots(b, s, e);
    let name = b.subrange(s, e);
    assert(!crate::router::has_child_named(nodes, l.path.last(), name)) by {
        assert forall|k: usize| !#[trigger] crate::router::child_named(nodes, l.path.last(), name, k) by {
            if crate::router::child_named(nodes, l.path.last(), name, k) {
                assert(nodes[k] == nodes[k]);
            }
        }
    }
}

/// A lens of the flat router that stands somewhere and moves along an absolute
/// path first climbs: its path loses its last node, and it reads its path from the
/// start again.
pub proof fn law_flat_absolute_climbs(nodes: Seq<Option<FlatNode>>, path: Seq<usize>, p: Seq<char>)
    requires
        path.len() > 0,
        encode_utf8(p).len() > 0,
        encode_utf8(p)[0] == 0x2fu8,
    ensures
        flat_lens_step(nodes, path, StateModel::Moving(p, 0)).0 == path.drop_last(),
        flat_lens_step(nodes, path, StateModel::Moving(p, 0)).1 == StateModel::Moving(p, 0),
        flat_lens_step(nodes, path, StateModel::Moving(p, 0)).2 is None,
{
}

/// A lens of the flat router that stands nowhere enters the root, and reads on
/// along the root's path `/`.
pub proof fn law_flat_enters_tree(nodes: Seq<Option<FlatNode>>, st: StateModel)
    ensures
        flat_lens_step(nodes, Seq::empty(), st).0 == seq![0usize],
        flat_lens_step(nodes, Seq::empty(), st).2 is None,
{
    let root = seq!['/'];
    assert(root.drop_first() =~= Seq::<char>::empty());
    assert(encode_utf8(Seq::<char>::empty()) =~= Seq::<u8>::empty());
    assert(('/' as u32) == 47u32);
    assert((47u32 & 0x7F) as u8 == 47u8) by (bit_vector);
    assert(vstd::utf8::encode_scalar(47u32) =~= seq![47u8]);
    assert(encode_utf8(root) =~= seq![0x2fu8]);
}

/// A lens of the flat router that reads a name no child of its node bears gives
/// up: it stays, becomes idle, and is told it aborted.
pub proof fn law_flat_not_found(nodes: Seq<Option<FlatNode>>, path: Seq<usize>, p: Seq<char>, o: usize, s: int, e: int)
    requires
        path.len() > 0,
        path.last() < nodes.len(),
        nodes[path.last() as int] is Some,
        reads_at(encode_utf8(p), o as int, s),
        name_at(encode_utf8(p), s, e),
        forall|j: int| !slot_is_child(nodes, nodes[path.last() as int]->0, encode_utf8(p).subrange(s, e), j),
    ensures
        flat_lens_step(nodes, path, StateModel::Moving(p, o)).0 == path,
        flat_lens_step(nodes, path, StateModel::Moving(p, o)).1 == StateModel::Idle,
        flat_lens_step(nodes, path, StateModel::Moving(p, o)).2 == Some(LensMoveEvent::Aborted),
{
    let b = encode_utf8(p);
    if o > 0 {
        lemma_skip_slashes_at(b, o as int, s);
    }
    lemma_segment_end_at(b, s, e);
    lemma_name_not_dots(b, s, e);
    crate::flat_router::lemma_first_child_from(nodes, nodes[path.last() as int]->0, b.subrange(s, e), 0);
}

/// An update of a backbone that stands below the root and moves along an absolute
/// path first climbs: its location loses its last node, and it reads its path
/// from the start again.
pub proof fn law_backbone_absolute_climbs(a: Backbone, b: Backbone, r: bool, p: Seq<char>)
    requires
        update_done(a, b, r),
        a.spec_path().len() > 1,
        a.spec_state() == StateKind::Move(p, 0),
        encode_utf8(p).len() > 0,
        encode_utf8(p)[0] == 0x2fu8,
    ensures
        b.spec_path() == a.spec_path().drop_last(),
        b.spec_state() == StateKind::Move(p, 0),
{
}

/// An update of a backbone that stands nowhere, idle or moving, puts it at the
/// root.
pub proof fn law_backbone_enters_tree(a: Backbone, b: Backbone, r: bool)
    requires
        update_done(a, b, r),
        a.spec_path().len() == 0,
        a.spec_state() is Idle || a.spec_state() is Move,
    ensures
        b.spec_path() == seq![0usize],
{
}

/// An update of a backbone that reads a name no child of its node bears stops the
/// backbone where it stands, with the reason.
pub proof fn law_backbone_not_found(a: Backbone, b: Backbone, r: bool, p: Seq<char>, o: usize, s: int, e: int)
    requires
        update_done(a, b, r),
        a.spec_path().len() > 0,
        a.spec_nodes().contains_key(a.spec_path().last()),
        a.spec_state() == StateKind::Move(p, o),
        reads_at(encode_utf8(p), o as int, s),
        name_at(encode_utf8(p), s, e),
        forall|k: usize| !#[trigger] is_named_child(a.spec_nodes(), a.spec_path().last(), encode_utf8(p).subrange(s, e), k),
    ensures
        b.spec_path() == a.spec_path(),
        b.spec_state() is Stop,
{
    let bs = encode_utf8(p);
    if o > 0 {
        lemma_skip_slashes_at(bs, o as int, s);
    }
    lemma_segment_end_at(bs, s, e);
    lemma_name_not_dots(bs, s, e);
}

} // verus!

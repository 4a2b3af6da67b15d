//! Building the router, and the update that moves its lenses.

use vstd::prelude::*;
use vstd::string::{StringExecFns, StringSliceAdditionalSpecFns};
use vstd::utf8::{encode_utf8, encode_scalar, valid_utf8, is_char_boundary, encode_utf8_valid_utf8, is_char_boundary_start_end_of_seq};
use super::{Router, PathItem, Step, path_step, siblings_unique, ids_match, lemma_ascii_boundary,
    lemma_skip_slashes_boundary, lemma_segment_end_boundary, named_child, has_child_named, child_named};
use super::lens::{self, Lens, LensModel, State, StateModel, MoveEvent, MoveCompletionEvent, NullHandler,
    Handler, lens_models};
use super::node::{self, Node, Nodes, path_string, path_resolves, can_move, moved_count};
use super::event::{lens_fired};
use crate::fxmap::fx_insert;
use crate::text::{skip_slashes, segment_end, slash_at, dot_slash_at, dot_dot_slash_at, lemma_skip_slashes_bounds,
    lemma_segment_end_bounds};

verus! {

/// How often `k` occurs in `s`.
pub open spec fn occ(s: Seq<usize>, k: usize) -> nat
    decreases s.len(),
{
    if s.len() == 0 {
        0
    } else {
        occ(s.drop_last(), k) + if s.last() == k { 1nat } else { 0nat }
    }
}

/// How often `k` occurs in the paths of all lenses: how many lenses stand at or
/// pass through node `k`.
pub open spec fn lens_occ(ls: Seq<LensModel>, k: usize) -> nat
    decreases ls.len(),
{
    if ls.len() == 0 {
        0
    } else {
        lens_occ(ls.drop_last(), k) + occ(ls.last().path, k)
    }
}

/// The summed length of the paths of all lenses.
pub open spec fn total_len(ls: Seq<LensModel>) -> nat
    decreases ls.len(),
{
    if ls.len() == 0 {
        0
    } else {
        total_len(ls.drop_last()) + ls.last().path.len()
    }
}

/// How many events of the given kind are addressed to node `k`.
pub open spec fn ev_occ(evs: Seq<(usize, MoveEvent)>, kind: MoveEvent, k: usize) -> nat
    decreases evs.len(),
{
    if evs.len() == 0 {
        0
    } else {
        ev_occ(evs.drop_last(), kind, k) + if evs.last() == (k, kind) { 1nat } else { 0nat }
    }
}

/// The events of a lens leaving every node of its path, last node first.
pub open spec fn leave_events(p: Seq<usize>) -> Seq<(usize, MoveEvent)> {
    Seq::new(p.len(), |i: int| (p[p.len() - 1 - i], MoveEvent::LeaveNode))
}

/// The state a lens moves on from: an idle lens standing nowhere starts moving
/// to the root.
pub open spec fn reset_state(l: LensModel) -> StateModel {
    if l.path.len() == 0 && l.state is Idle {
        StateModel::Moving(seq!['/'], 0)
    } else {
        l.state
    }
}

/// One update of one lens: the lens after it, the events for the nodes it left
/// or entered (in order), and the event for the lens itself when it stopped.
pub open spec fn lens_step(nodes: Map<usize, Node>, l: LensModel) -> (LensModel, Seq<(usize, MoveEvent)>, Option<
    MoveCompletionEvent,
>) {
    match reset_state(l) {
        StateModel::Destruction => (
            LensModel { name: l.name, path: Seq::empty(), path_str: l.path_str, state: StateModel::Destruction },
            leave_events(l.path),
            None,
        ),
        StateModel::Idle => (
            LensModel { name: l.name, path: l.path, path_str: l.path_str, state: StateModel::Idle },
            Seq::empty(),
            None,
        ),
        StateModel::Moving(p, o) => {
            let (step, o2) = path_step(nodes, encode_utf8(p), o as int, l.path);
            let path2 = match step {
                Step::ToSuper => l.path.drop_last(),
                Step::ToNode(id) => l.path.push(id),
                _ => l.path,
            };
            let evs = match step {
                Step::ToSuper => seq![(l.path.last(), MoveEvent::LeaveNode)],
                Step::ToNode(id) => seq![(id, MoveEvent::EnterNode)],
                _ => Seq::empty(),
            };
            let done = match step {
                Step::NoCurrent => Some(MoveCompletionEvent::Aborted),
                Step::NotFound(_, _) => Some(MoveCompletionEvent::Aborted),
                Step::End => Some(MoveCompletionEvent::Finished),
                _ => None,
            };
            let state2 = if done is Some { StateModel::Idle } else { StateModel::Moving(p, o2 as usize) };
            (LensModel { name: l.name, path: path2, path_str: path_string(nodes, path2), state: state2 }, evs, done)
        },
    }
}

/// One update of all lenses, in order: the lenses after it, the events for the
/// nodes, and the events for the lenses (by index).
pub open spec fn advance_all(nodes: Map<usize, Node>, ls: Seq<LensModel>) -> (Seq<LensModel>, Seq<(usize, MoveEvent)>, Seq<
    (usize, MoveCompletionEvent),
>)
    decreases ls.len(),
{
    if ls.len() == 0 {
        (Seq::empty(), Seq::empty(), Seq::empty())
    } else {
        let (a, ne, le) = advance_all(nodes, ls.drop_last());
        let (l2, evs, done) = lens_step(nodes, ls.last());
        (
            a.push(l2),
            ne + evs,
            match done {
                Some(d) => le.push(((ls.len() - 1) as usize, d)),
                None => le,
            },
        )
    }
}

/// Whether a lens is gone after an update: it is being destroyed and stands nowhere.
pub open spec fn removable(l: LensModel) -> bool {
    l.state is Destruction && l.path.len() == 0
}

/// The lenses that stay after an update.
pub open spec fn retained(ls: Seq<LensModel>) -> Seq<LensModel>
    decreases ls.len(),
{
    if ls.len() == 0 {
        Seq::empty()
    } else {
        let r = retained(ls.drop_last());
        if removable(ls.last()) {
            r
        } else {
            r.push(ls.last())
        }
    }
}

/// The handlers that stay beside the lenses `ls` of an update: each handler goes
/// with the lens at its index.
pub open spec fn kept_handlers<H>(ls: Seq<LensModel>, hs: Seq<H>) -> Seq<H>
    decreases hs.len(),
{
    if hs.len() == 0 {
        Seq::empty()
    } else {
        let r = kept_handlers(ls, hs.drop_last());
        if hs.len() - 1 < ls.len() && removable(ls[hs.len() - 1]) {
            r
        } else {
            r.push(hs.last())
        }
    }
}

/// Whether a lens event went to index `i`.
pub open spec fn fired_at(le: Seq<(usize, MoveCompletionEvent)>, i: int) -> bool {
    exists|j: int| 0 <= j < le.len() && #[trigger] le[j].0 == i
}

/// Whether a moving lens has read its path up to a place where a character starts.
pub open spec fn offset_ok(s: StateModel) -> bool {
    s matches StateModel::Moving(p, o) ==> o <= encode_utf8(p).len() <= usize::MAX && is_char_boundary(
        encode_utf8(p),
        o as int,
    )
}

/// Whether the tree is one a lens can move in: the root is there, every node is
/// stored under its own id, and no two siblings share a name.
pub open spec fn tree_ok(nodes: Map<usize, Node>) -> bool {
    &&& nodes.contains_key(0)
    &&& ids_match(nodes)
    &&& siblings_unique(nodes)
}

/// Whether the lenses can be moved in the tree: each stands on nodes of the tree,
/// and each moving one reads its path at a character boundary.
pub open spec fn lenses_ok(nodes: Map<usize, Node>, ls: Seq<LensModel>) -> bool {
    forall|i: int|
        0 <= i < ls.len() ==> path_resolves(nodes, (#[trigger] ls[i]).path) && offset_ok(ls[i].state)
}

/// Whether every node counts exactly the lenses that stand at or pass through it.
pub open spec fn counts_match(nodes: Map<usize, Node>, ls: Seq<LensModel>) -> bool {
    forall|k: usize| #[trigger] nodes.contains_key(k) ==> nodes[k].lens_count == lens_occ(ls, k)
}

/// What `update` makes of router `a`: `b`, returning `r`.
pub open spec fn router_updated(a: Router, b: Router, r: bool) -> bool {
    let (news, nev, lev) = advance_all(a.nodes.nodes@, lens_models(a.lenses.lenses@));
    let kept = retained(news);
    let ls = lens_models(b.lenses.lenses@);
    &&& ls.len() == kept.len()
    &&& forall|i: int|
        0 <= i < kept.len() ==> {
            &&& (#[trigger] ls[i]).name == kept[i].name
            &&& ls[i].path == kept[i].path
            &&& ls[i].path_str == kept[i].path_str
            &&& ls[i].state == kept[i].state || (kept[i].state is Idle && fired_at(lev, i))
        }
    &&& r == (kept.len() == 0)
    &&& b.lenses.handlers@.len() == kept_handlers(news, a.lenses.handlers@).len()
    &&& forall|i: int|
        0 <= i < b.lenses.handlers@.len() && !fired_at(lev, i) ==> #[trigger] b.lenses.handlers@[i] == kept_handlers(
            news,
            a.lenses.handlers@,
        )[i]
    &&& a.lenses.lenses@.len() == a.lenses.handlers@.len() ==> b.lenses.handlers@.len() == b.lenses.lenses@.len()
    &&& lev.len() == 0 ==> {
        &&& b.nodes.nodes@.dom() == a.nodes.nodes@.dom()
        &&& forall|k: usize| #[trigger] a.nodes.nodes@.contains_key(k) ==> {
            &&& b.nodes.nodes@[k].id == a.nodes.nodes@[k].id
            &&& b.nodes.nodes@[k].parent == a.nodes.nodes@[k].parent
            &&& b.nodes.nodes@[k].name == a.nodes.nodes@[k].name
        }
        &&& counts_match(b.nodes.nodes@, ls)
        &&& tree_ok(b.nodes.nodes@)
        &&& lenses_ok(b.nodes.nodes@, ls)
    }
}

impl Router {
    /// Whether the router can be updated: the tree and the lenses are consistent,
    /// every node counts the lenses in it, and the counts have room to grow.
    pub open spec fn update_ready(&self) -> bool {
        let ls = lens_models(self.lenses.lenses@);
        &&& tree_ok(self.nodes.nodes@)
        &&& lenses_ok(self.nodes.nodes@, ls)
        &&& counts_match(self.nodes.nodes@, ls)
        &&& total_len(ls) + ls.len() < usize::MAX
    }
}

////////////////////////////////////////////////////////////////////////////////

pub proof fn lemma_occ_le(s: Seq<usize>, k: usize)
    ensures
        occ(s, k) <= s.len(),
    decreases s.len(),
{
    if s.len() > 0 {
        lemma_occ_le(s.drop_last(), k);
    }
}

pub proof fn lemma_lens_occ_le(ls: Seq<LensModel>, k: usize)
    ensures
        lens_occ(ls, k) <= total_len(ls),
    decreases ls.len(),
{
    if ls.len() > 0 {
        lemma_lens_occ_le(ls.drop_last(), k);
        lemma_occ_le(ls.last().path, k);
    }
}

pub proof fn lemma_occ_push(s: Seq<usize>, x: usize, k: usize)
    ensures
        occ(s.push(x), k) == occ(s, k) + if x == k { 1nat } else { 0nat },
{
    assert(s.push(x).drop_last() =~= s);
}

pub proof fn lemma_ev_occ_concat(a: Seq<(usize, MoveEvent)>, b: Seq<(usize, MoveEvent)>, kind: MoveEvent, k: usize)
    ensures
        ev_occ(a + b, kind, k) == ev_occ(a, kind, k) + ev_occ(b, kind, k),
    decreases b.len(),
{
    if b.len() == 0 {
        assert(a + b =~= a);
    } else {
        assert((a + b).drop_last() =~= a + b.drop_last());
        lemma_ev_occ_concat(a, b.drop_last(), kind, k);
    }
}

pub proof fn lemma_ev_occ_single(x: (usize, MoveEvent), kind: MoveEvent, k: usize)
    ensures
        ev_occ(seq![x], kind, k) == if x == (k, kind) { 1nat } else { 0nat },
{
    assert(seq![x].drop_last() =~= Seq::<(usize, MoveEvent)>::empty());
    assert(ev_occ(Seq::<(usize, MoveEvent)>::empty(), kind, k) == 0);
    assert(seq![x].last() == x);
}

pub proof fn lemma_leave_events(p: Seq<usize>, k: usize)
    ensures
        ev_occ(leave_events(p), MoveEvent::LeaveNode, k) == occ(p, k),
        ev_occ(leave_events(p), MoveEvent::EnterNode, k) == 0,
    decreases p.len(),
{
    if p.len() == 0 {
        assert(leave_events(p) =~= Seq::<(usize, MoveEvent)>::empty());
    } else {
        assert(leave_events(p) =~= seq![(p.last(), MoveEvent::LeaveNode)] + leave_events(p.drop_last()));
        lemma_leave_events(p.drop_last(), k);
        lemma_ev_occ_concat(seq![(p.last(), MoveEvent::LeaveNode)], leave_events(p.drop_last()), MoveEvent::LeaveNode, k);
        lemma_ev_occ_concat(seq![(p.last(), MoveEvent::LeaveNode)], leave_events(p.drop_last()), MoveEvent::EnterNode, k);
        lemma_ev_occ_single((p.last(), MoveEvent::LeaveNode), MoveEvent::LeaveNode, k);
        lemma_ev_occ_single((p.last(), MoveEvent::LeaveNode), MoveEvent::EnterNode, k);
    }
}

/// One lens step changes how often a node occurs in the lens's path exactly by
/// the events it sends that node; it leaves only nodes it stood at, and enters at
/// most one.
pub proof fn lemma_step_counts(nodes: Map<usize, Node>, l: LensModel, k: usize)
    ensures
        ({
            let (l2, evs, done) = lens_step(nodes, l);
            &&& occ(l2.path, k) + ev_occ(evs, MoveEvent::LeaveNode, k) == occ(l.path, k) + ev_occ(
                evs,
                MoveEvent::EnterNode,
                k,
            )
            &&& ev_occ(evs, MoveEvent::LeaveNode, k) <= occ(l.path, k)
            &&& ev_occ(evs, MoveEvent::EnterNode, k) <= 1
        }),
{
    let (l2, evs, done) = lens_step(nodes, l);
    assert(ev_occ(Seq::<(usize, MoveEvent)>::empty(), MoveEvent::LeaveNode, k) == 0);
    assert(ev_occ(Seq::<(usize, MoveEvent)>::empty(), MoveEvent::EnterNode, k) == 0);
    match reset_state(l) {
        StateModel::Destruction => {
            lemma_leave_events(l.path, k);
        },
        StateModel::Idle => {},
        StateModel::Moving(p, o) => {
            let (step, o2) = path_step(nodes, encode_utf8(p), o as int, l.path);
            match step {
                Step::ToSuper => {
                    assert(l.path.len() > 0);
                    lemma_ev_occ_single((l.path.last(), MoveEvent::LeaveNode), MoveEvent::LeaveNode, k);
                    lemma_ev_occ_single((l.path.last(), MoveEvent::LeaveNode), MoveEvent::EnterNode, k);
                },
                Step::ToNode(id) => {
                    lemma_occ_push(l.path, id, k);
                    lemma_ev_occ_single((id, MoveEvent::EnterNode), MoveEvent::LeaveNode, k);
                    lemma_ev_occ_single((id, MoveEvent::EnterNode), MoveEvent::EnterNode, k);
                },
                _ => {},
            }
        },
    }
}

/// One update of all lenses changes how often a node occurs in their paths exactly
/// by the events it sends that node; it leaves only nodes lenses stood at, and
/// enters a node at most once per lens.
pub proof fn lemma_advance_counts(nodes: Map<usize, Node>, ls: Seq<LensModel>, k: usize)
    ensures
        ({
            let (news, nev, lev) = advance_all(nodes, ls);
            &&& news.len() == ls.len()
            &&& lens_occ(news, k) + ev_occ(nev, MoveEvent::LeaveNode, k) == lens_occ(ls, k) + ev_occ(
                nev,
                MoveEvent::EnterNode,
                k,
            )
            &&& ev_occ(nev, MoveEvent::LeaveNode, k) <= lens_occ(ls, k)
            &&& ev_occ(nev, MoveEvent::EnterNode, k) <= ls.len()
        }),
    decreases ls.len(),
{
    if ls.len() == 0 {
        assert(ev_occ(Seq::<(usize, MoveEvent)>::empty(), MoveEvent::LeaveNode, k) == 0);
        assert(ev_occ(Seq::<(usize, MoveEvent)>::empty(), MoveEvent::EnterNode, k) == 0);
    } else {
        let (a, ne, le) = advance_all(nodes, ls.drop_last());
        let (l2, evs, done) = lens_step(nodes, ls.last());
        lemma_advance_counts(nodes, ls.drop_last(), k);
        lemma_step_counts(nodes, ls.last(), k);
        lemma_ev_occ_concat(ne, evs, MoveEvent::LeaveNode, k);
        lemma_ev_occ_concat(ne, evs, MoveEvent::EnterNode, k);
        assert(a.push(l2).drop_last() =~= a);
    }
}

/// The lenses that stay after an update stand where all of them stood.
pub proof fn lemma_retained_occ(ls: Seq<LensModel>, k: usize)
    ensures
        lens_occ(retained(ls), k) == lens_occ(ls, k),
        total_len(retained(ls)) == total_len(ls),
    decreases ls.len(),
{
    if ls.len() > 0 {
        lemma_retained_occ(ls.drop_last(), k);
        let r = retained(ls.drop_last());
        if removable(ls.last()) {
            assert(occ(ls.last().path, k) == 0);
        } else {
            assert(r.push(ls.last()).drop_last() =~= r);
        }
    }
}

/// Lenses on the same paths count the same.
pub proof fn lemma_lens_occ_same_paths(a: Seq<LensModel>, b: Seq<LensModel>, k: usize)
    requires
        a.len() == b.len(),
        forall|i: int| 0 <= i < a.len() ==> (#[trigger] a[i]).path == b[i].path,
    ensures
        lens_occ(a, k) == lens_occ(b, k),
        total_len(a) == total_len(b),
    decreases a.len(),
{
    if a.len() > 0 {
        lemma_lens_occ_same_paths(a.drop_last(), b.drop_last(), k);
        assert(a.last().path == b.last().path);
    }
}


/// A step of a lens along its path reads up to a place where a character starts.
pub proof fn lemma_step_offset(nodes: Map<usize, Node>, b: Seq<u8>, off: int, src: Seq<usize>)
    requires
        valid_utf8(b),
        0 <= off <= b.len(),
        is_char_boundary(b, off),
    ensures
        0 <= path_step(nodes, b, off, src).1 <= b.len(),
        is_char_boundary(b, path_step(nodes, b, off, src).1),
{
    is_char_boundary_start_end_of_seq(b);
    if src.len() == 0 {
    } else if off == 0 && slash_at(b, 0) && src.len() > 1 {
    } else if off == 0 && dot_slash_at(b, 0) {
        lemma_ascii_boundary(b, 0);
        lemma_ascii_boundary(b, 1);
    } else if off == 0 && dot_dot_slash_at(b, 0) {
        lemma_ascii_boundary(b, 0);
        lemma_ascii_boundary(b, 1);
        lemma_ascii_boundary(b, 2);
    } else {
        let o = if off == 0 && slash_at(b, 0) { 1 } else { off };
        if off == 0 && slash_at(b, 0) {
            lemma_ascii_boundary(b, 0);
        }
        if o != b.len() {
            let s = skip_slashes(b, o);
            lemma_skip_slashes_bounds(b, o);
            lemma_skip_slashes_boundary(b, o);
            lemma_segment_end_bounds(b, s);
            lemma_segment_end_boundary(b, s);
            if dot_slash_at(b, s) {
                lemma_ascii_boundary(b, s);
                lemma_ascii_boundary(b, s + 1);
            } else if dot_dot_slash_at(b, s) {
                lemma_ascii_boundary(b, s);
                lemma_ascii_boundary(b, s + 1);
                lemma_ascii_boundary(b, s + 2);
            }
        }
    }
}

/// A step keeps a lens on nodes of the tree, reading its path at a character boundary.
pub proof fn lemma_step_keeps_lens_ok(nodes: Map<usize, Node>, l: LensModel)
    requires
        tree_ok(nodes),
        path_resolves(nodes, l.path),
        offset_ok(l.state),
    ensures
        path_resolves(nodes, lens_step(nodes, l).0.path),
        offset_ok(lens_step(nodes, l).0.state),
{
    let (l2, evs, done) = lens_step(nodes, l);
    match reset_state(l) {
        StateModel::Destruction => {},
        StateModel::Idle => {},
        StateModel::Moving(p, o) => {
            let b = encode_utf8(p);
            encode_utf8_valid_utf8(p);
            if l.path.len() == 0 && !(l.state is Moving) {
                is_char_boundary_start_end_of_seq(b);
                assert(seq!['/'].drop_first() =~= Seq::<char>::empty());
                assert(encode_utf8(Seq::<char>::empty()) =~= Seq::<u8>::empty());
                assert(encode_scalar(seq!['/'][0] as u32).len() <= 4);
                assert(b.len() <= 4);
            }
            lemma_step_offset(nodes, b, o as int, l.path);
            let (step, o2) = path_step(nodes, b, o as int, l.path);
            match step {
                Step::ToNode(id) => {
                    assert forall|i: int| 0 <= i < l2.path.len() implies nodes.contains_key(#[trigger] l2.path[i]) by {
                        if i < l.path.len() {
                            assert(l2.path[i] == l.path[i]);
                        } else if l.path.len() == 0 {
                            assert(id == 0);
                        } else {
                            let name = b.subrange(skip_slashes(b, if o == 0 && slash_at(b, 0) { 1 } else { o as int }), segment_end(b, skip_slashes(b, if o == 0 && slash_at(b, 0) { 1 } else { o as int })));
                            assert(has_child_named(nodes, l.path.last(), name));
                            let k = named_child(nodes, l.path.last(), name);
                            assert(child_named(nodes, l.path.last(), name, k));
                        }
                    }
                },
                Step::ToSuper => {
                    assert forall|i: int| 0 <= i < l2.path.len() implies nodes.contains_key(#[trigger] l2.path[i]) by {
                        assert(l2.path[i] == l.path[i]);
                    }
                },
                _ => {},
            }
        },
    }
}

/// Every lens an update keeps stands on nodes of the tree and reads its path at
/// a character boundary.
pub proof fn lemma_advance_keeps_lenses_ok(nodes: Map<usize, Node>, ls: Seq<LensModel>)
    requires
        tree_ok(nodes),
        lenses_ok(nodes, ls),
    ensures
        lenses_ok(nodes, advance_all(nodes, ls).0),
        lenses_ok(nodes, retained(advance_all(nodes, ls).0)),
    decreases ls.len(),
{
    if ls.len() > 0 {
        let (a, ne, le) = advance_all(nodes, ls.drop_last());
        assert(lenses_ok(nodes, ls.drop_last())) by {
            assert forall|i: int| 0 <= i < ls.drop_last().len() implies path_resolves(nodes, (#[trigger] ls.drop_last()[i]).path)
                && offset_ok(ls.drop_last()[i].state) by {
                assert(ls.drop_last()[i] == ls[i]);
            }
        }
        lemma_advance_keeps_lenses_ok(nodes, ls.drop_last());
        lemma_step_keeps_lens_ok(nodes, ls.last());
        let news = advance_all(nodes, ls).0;
        assert(news == a.push(lens_step(nodes, ls.last()).0));
        assert forall|i: int| 0 <= i < news.len() implies path_resolves(nodes, (#[trigger] news[i]).path)
            && offset_ok(news[i].state) by {
            if i < a.len() {
                assert(news[i] == a[i]);
            }
        }
        lemma_retained_keeps(nodes, news);
    } else {
        lemma_retained_keeps(nodes, advance_all(nodes, ls).0);
    }
}

/// The lenses an update keeps are some of the lenses it moved.
pub proof fn lemma_retained_keeps(nodes: Map<usize, Node>, ls: Seq<LensModel>)
    requires
        lenses_ok(nodes, ls),
    ensures
        lenses_ok(nodes, retained(ls)),
    decreases ls.len(),
{
    if ls.len() > 0 {
        assert(lenses_ok(nodes, ls.drop_last())) by {
            assert forall|i: int| 0 <= i < ls.drop_last().len() implies path_resolves(nodes, (#[trigger] ls.drop_last()[i]).path)
                && offset_ok(ls.drop_last()[i].state) by {
                assert(ls.drop_last()[i] == ls[i]);
            }
        }
        lemma_retained_keeps(nodes, ls.drop_last());
        let r = retained(ls.drop_last());
        if !removable(ls.last()) {
            assert forall|i: int| 0 <= i < r.push(ls.last()).len() implies path_resolves(nodes, (#[trigger] r.push(ls.last())[i]).path)
                && offset_ok(r.push(ls.last())[i].state) by {
                if i < r.len() {
                    assert(r.push(ls.last())[i] == r[i]);
                }
            }
        }
    }
}

/// The events still to be handed out, from the front of all of them.
pub proof fn lemma_ev_occ_prefix(evs: Seq<(usize, MoveEvent)>, n: int, kind: MoveEvent, k: usize)
    requires
        0 <= n <= evs.len(),
    ensures
        ev_occ(evs.take(n), kind, k) <= ev_occ(evs, kind, k),
{
    assert(evs =~= evs.take(n) + evs.skip(n));
    lemma_ev_occ_concat(evs.take(n), evs.skip(n), kind, k);
}

/// The handlers past the last lens all stay.
pub proof fn lemma_kept_handlers_tail<H>(ls: Seq<LensModel>, hs: Seq<H>, n: int)
    requires
        ls.len() <= n <= hs.len(),
    ensures
        kept_handlers(ls, hs.take(n)) == kept_handlers(ls, hs.take(ls.len() as int)) + hs.subrange(ls.len() as int, n),
    decreases n - ls.len(),
{
    if n > ls.len() {
        lemma_kept_handlers_tail(ls, hs, n - 1);
        assert(hs.take(n).drop_last() =~= hs.take(n - 1));
        assert(hs.take(n).last() == hs[n - 1]);
        let a = hs.subrange(ls.len() as int, n);
        let b = hs.subrange(ls.len() as int, n - 1).push(hs[n - 1]);
        assert(a.len() == b.len());
        assert forall|x: int| 0 <= x < a.len() implies a[x] == b[x] by {
            if x < a.len() - 1 {
                assert(b[x] == hs.subrange(ls.len() as int, n - 1)[x]);
            }
        }
        assert(a =~= b);
    } else {
        assert(hs.subrange(ls.len() as int, n) =~= Seq::<H>::empty());
    }
}

/// Pushing an item makes a sequence one longer, and dropping it again gives the
/// sequence back.
pub proof fn lemma_push_drop_last<A>(s: Seq<A>, x: A)
    ensures
        s.push(x).len() == s.len() + 1,
        s.push(x).drop_last() == s,
{
    assert(s.push(x).drop_last() =~= s);
}

/// Only the lenses beside the handlers decide which handlers stay.
pub proof fn lemma_kept_handlers_same<H>(ls: Seq<LensModel>, ls2: Seq<LensModel>, hs: Seq<H>)
    requires
        hs.len() <= ls.len(),
        hs.len() <= ls2.len(),
        forall|i: int| 0 <= i < hs.len() ==> ls[i] == ls2[i],
    ensures
        kept_handlers(ls, hs) == kept_handlers(ls2, hs),
    decreases hs.len(),
{
    if hs.len() > 0 {
        lemma_kept_handlers_same(ls, ls2, hs.drop_last());
    }
}

/// With one handler per lens, as many handlers stay as lenses.
pub proof fn lemma_kept_handlers_len<H>(ls: Seq<LensModel>, hs: Seq<H>)
    requires
        ls.len() == hs.len(),
    ensures
        kept_handlers(ls, hs).len() == retained(ls).len(),
    decreases hs.len(),
{
    if hs.len() > 0 {
        lemma_kept_handlers_same(ls, ls.drop_last(), hs.drop_last());
        lemma_kept_handlers_len(ls.drop_last(), hs.drop_last());
    }
}

impl Router {
    /// Creates a new router: no lenses, and a tree holding only its root.
    pub fn new() -> (r: Router)
        ensures
            r.lenses.lenses@.len() == 0,
            r.lenses.handlers@.len() == 0,
            r.nodes.nodes@.dom() == set![0usize],
            r.nodes.nodes@[0].id == 0,
            r.nodes.nodes@[0].parent is None,
            r.nodes.nodes@[0].name@ == Seq::<char>::empty(),
            r.nodes.nodes@[0].lens_count == 0,
            r.nodes.next_id == 1,
            r.nodes.comps.comps@.dom() == Set::<usize>::empty(),
    {
        Router { lenses: lens::Lenses::new(), nodes: Nodes::new() }
    }

    /// Creates and attaches a new lens: named `name`, standing nowhere, idle, and
    /// then configured by `constructor`, which may give it a handler (else it gets
    /// one that does nothing). The handler is kept beside the lens.
    pub fn new_lens<F: Fn(&mut Lens) -> Option<Box<dyn Handler>>>(&mut self, name: &str, constructor: &F)
        requires
            forall|l: &mut Lens| #[trigger] constructor.requires((l,)),
        ensures
            final(self).lenses.lenses@.len() == old(self).lenses.lenses@.len() + 1,
            final(self).lenses.lenses@.drop_last() == old(self).lenses.lenses@,
            final(self).lenses.handlers@.len() == old(self).lenses.handlers@.len() + 1,
            final(self).lenses.handlers@.drop_last() == old(self).lenses.handlers@,
            final(self).nodes == old(self).nodes,
    {
        let mut lens = Lens {
            name: String::from_str(name),
            path_str: String::new(),
            path: Vec::new(),
            state: State::Idle,
        };
        let handler: Box<dyn Handler> = match constructor(&mut lens) {
            Some(h) => h,
            None => Box::new(NullHandler {}),
        };
        self.lenses.lenses.push(lens);
        let ghost before = self.lenses.handlers@;
        self.lenses.handlers.push(handler);
        proof {
            lemma_push_drop_last(before, handler);
        }
        assert(self.lenses.lenses@.drop_last() =~= old(self).lenses.lenses@);
    }

    /// Creates and attaches a new node named `name` under `parent` (the root where
    /// none is given), configured by `constructor`, and returns its id: the next
    /// unused one. The name must be unique among the node's siblings.
    pub fn new_node<F: Fn(&mut Node)>(&mut self, name: &str, parent: Option<usize>, constructor: &F) -> (r: usize)
        requires
            old(self).nodes.next_id < usize::MAX,
            forall|n: &mut Node| #[trigger] constructor.requires((n,)),
        ensures
            r == old(self).nodes.next_id,
            final(self).nodes.next_id == old(self).nodes.next_id + 1,
            final(self).lenses == old(self).lenses,
            final(self).nodes.comps.comps@ == old(self).nodes.comps.comps@,
            exists|n: Node| final(self).nodes.nodes@ == old(self).nodes.nodes@.insert(n.id, n),
    {
        let parent = match parent {
            Some(p) => Some(p),
            None => Some(0),
        };
        let id = self.nodes.next_id();
        let mut node = Node::new(id, parent, name);
        constructor(&mut node);
        let ghost n = node;
        fx_insert(&mut self.nodes.nodes, node.id, node);
        assert(self.nodes.nodes@ == old(self).nodes.nodes@.insert(n.id, n));
        id
    }

    /// Moves one lens one step, as `lens_step` says, and queues the events that
    /// step sends.
    fn advance_lens(
        nodes: &Nodes,
        lens: &mut Lens,
        lens_id: usize,
        node_events: &mut Vec<(usize, MoveEvent)>,
        lens_events: &mut Vec<(usize, MoveCompletionEvent)>,
    )
        requires
            tree_ok(nodes.nodes@),
            path_resolves(nodes.nodes@, old(lens).path@),
            offset_ok(old(lens).state@),
        ensures
            ({
                let (l2, evs, done) = lens_step(nodes.nodes@, old(lens)@);
                &&& final(lens)@ == l2
                &&& final(node_events)@ == old(node_events)@ + evs
                &&& final(lens_events)@ == match done {
                    Some(d) => old(lens_events)@.push((lens_id, d)),
                    None => old(lens_events)@,
                }
            }),
    {
        let ghost l0 = lens@;
        if lens.path.len() == 0 && lens.state == State::Idle {
            lens.state = State::Moving(String::from_str("/"), 0);
            proof {
                reveal_strlit("/");
                assert("/"@ =~= seq!['/']);
            }
        }
        assert(lens@ == LensModel { state: reset_state(l0), ..l0 });
        if lens.state == State::Destruction {
            let ghost evs0 = node_events@;
            while lens.path.len() > 0
                invariant
                    lens.name@ == l0.name,
                    lens.path_str@ == l0.path_str,
                    lens.state@ == StateModel::Destruction,
                    lens.path@.len() <= l0.path.len(),
                    lens.path@ == l0.path.take(lens.path@.len() as int),
                    node_events@ == evs0 + leave_events(l0.path).take(l0.path.len() - lens.path@.len()),
                    lens_events@ == old(lens_events)@,
                decreases lens.path@.len(),
            {
                let ghost n = lens.path@.len();
                match lens.path.pop() {
                    Some(node_id) => {
                        node_events.push((node_id, MoveEvent::LeaveNode));
                        proof {
                            assert(node_id == l0.path[n - 1]);
                            assert(leave_events(l0.path).take(l0.path.len() - n + 1) =~= leave_events(l0.path).take(
                                l0.path.len() - n,
                            ).push((node_id, MoveEvent::LeaveNode)));
                        }
                    },
                    None => {},
                }
                assert(lens.path@ =~= l0.path.take(lens.path@.len() as int));
            }
            assert(leave_events(l0.path).take(l0.path.len() as int) =~= leave_events(l0.path));
            assert(lens.path@ =~= Seq::<usize>::empty());
            return;
        }
        if lens.state == State::Idle {
            assert(node_events@ =~= old(node_events)@ + Seq::<(usize, MoveEvent)>::empty());
            return;
        }
        let mut st = State::Idle;
        std::mem::swap(&mut st, &mut lens.state);
        match st {
            State::Moving(path, offset) => {
                let mut offset = offset;
                proof {
                    encode_utf8_valid_utf8(path@);
                    if lens.path@.len() == 0 {
                        is_char_boundary_start_end_of_seq(encode_utf8(path@));
                    }
                }
                let step = Router::path_next(nodes, path.as_str(), &mut offset, lens.path.as_slice());
                let ghost p0 = lens.path@;
                let done = match step {
                    PathItem::ToSelf => None,
                    PathItem::ToSuper => {
                        let last = lens.path[lens.path.len() - 1];
                        node_events.push((last, MoveEvent::LeaveNode));
                        lens.path.pop();
                        None
                    },
                    PathItem::ToNode(move_to_id) => {
                        node_events.push((move_to_id, MoveEvent::EnterNode));
                        lens.path.push(move_to_id);
                        None
                    },
                    PathItem::Error(_) => {
                        lens_events.push((lens_id, MoveCompletionEvent::Aborted));
                        Some(State::Idle)
                    },
                    PathItem::End => {
                        lens_events.push((lens_id, MoveCompletionEvent::Finished));
                        Some(State::Idle)
                    },
                };
                proof {
                    assert(path_resolves(nodes.nodes@, lens.path@)) by {
                        assert forall|i: int| 0 <= i < lens.path@.len() implies nodes.nodes@.contains_key(
                            #[trigger] lens.path@[i],
                        ) by {
                            if i < p0.len() {
                                assert(lens.path@[i] == p0[i]);
                            }
                        }
                    }
                }
                lens.path_str = nodes.get_path_as_string(lens.path.as_slice()).expect(
                    "Failed to resolve path for lens.",
                );
                lens.state = match done {
                    Some(s) => s,
                    None => State::Moving(path, offset),
                };
                proof {
                    if lens.path@.len() == p0.len() {
                        assert(lens.path@ =~= p0);
                    }
                    assert(node_events@ =~= old(node_events)@ + lens_step(nodes.nodes@, l0).1);
                }
            },
            _ => {},
        }
    }

    /// Removes the lenses that are being destroyed and stand nowhere, each with the
    /// handler beside it.
    fn retain_lenses(&mut self)
        ensures
            lens_models(final(self).lenses.lenses@) == retained(lens_models(old(self).lenses.lenses@)),
            final(self).lenses.handlers@ == kept_handlers(lens_models(old(self).lenses.lenses@), old(self).lenses.handlers@),
            final(self).nodes == old(self).nodes,
    {
        let ghost ls = lens_models(self.lenses.lenses@);
        let ghost hs = self.lenses.handlers@;
        let mut i: usize = 0;
        let mut k: usize = 0;
        let ghost mut j: int = 0;
        while i < self.lenses.lenses.len()
            invariant
                0 <= j <= ls.len(),
                ls == lens_models(old(self).lenses.lenses@),
                hs == old(self).lenses.handlers@,
                i == retained(ls.take(j)).len(),
                lens_models(self.lenses.lenses@) == retained(ls.take(j)) + ls.skip(j),
                ({
                    let m = if j < hs.len() { j } else { hs.len() as int };
                    &&& k == kept_handlers(ls, hs.take(m)).len()
                    &&& self.lenses.handlers@ == kept_handlers(ls, hs.take(m)) + hs.skip(m)
                }),
                self.nodes == old(self).nodes,
            decreases ls.len() - j,
        {
            let ghost before = lens_models(self.lenses.lenses@);
            let ghost hb = self.lenses.handlers@;
            proof {
                assert(before[i as int] == ls[j]);
                assert(ls.take(j + 1).drop_last() =~= ls.take(j));
                assert(ls.take(j + 1).last() == ls[j]);
                if j < hs.len() {
                    assert(hs.take(j + 1).drop_last() =~= hs.take(j));
                    assert(hs.take(j + 1).last() == hs[j]);
                    assert(hb[k as int] == hs[j]);
                }
            }
            let keep = if self.lenses.lenses[i].state == State::Destruction {
                if !self.lenses.lenses[i].path.is_empty() {
                    true
                } else {
                    false
                }
            } else {
                true
            };
            if keep {
                i = i + 1;
                if k < self.lenses.handlers.len() {
                    k = k + 1;
                }
                proof {
                    assert(lens_models(self.lenses.lenses@) =~= retained(ls.take(j + 1)) + ls.skip(j + 1));
                    if j < hs.len() {
                        assert(self.lenses.handlers@ =~= kept_handlers(ls, hs.take(j + 1)) + hs.skip(j + 1));
                    }
                }
            } else {
                self.lenses.lenses.remove(i);
                if k < self.lenses.handlers.len() {
                    self.lenses.handlers.remove(k);
                }
                proof {
                    assert(lens_models(self.lenses.lenses@) =~= before.remove(i as int));
                    assert(removable(ls[j]));
                    assert(retained(ls.take(j + 1)) == retained(ls.take(j)));
                    assert(lens_models(self.lenses.lenses@) =~= retained(ls.take(j + 1)) + ls.skip(j + 1));
                    if j < hs.len() {
                        assert(self.lenses.handlers@ =~= kept_handlers(ls, hs.take(j + 1)) + hs.skip(j + 1));
                    }
                }
            }
            proof {
                j = j + 1;
            }
        }
        proof {
            assert(ls.take(j) =~= ls);
            assert(lens_models(self.lenses.lenses@) =~= retained(ls));
            if hs.len() <= ls.len() {
                assert(hs.take(hs.len() as int) =~= hs);
                assert(self.lenses.handlers@ =~= kept_handlers(ls, hs));
            } else {
                lemma_kept_handlers_tail(ls, hs, hs.len() as int);
                assert(hs.take(hs.len() as int) =~= hs);
                assert(hs.subrange(ls.len() as int, hs.len() as int) =~= hs.skip(ls.len() as int));
            }
        }
    }

    /// Updates the lenses that are moving and fires the events that come of it.
    ///
    /// Every lens takes one step (`lens_step`): an idle lens standing nowhere
    /// starts to move to the root; a lens being destroyed leaves every node of its
    /// path; another idle lens stays; a moving lens takes the next step of its path
    /// and rebuilds its path string. Then the lenses being destroyed, which now
    /// stand nowhere, are removed with their handlers, the nodes are told of the
    /// moves (last first), and the lenses that
    /// stopped moving are told so (last first, by the index each had before the
    /// removal), through their handlers. Returns whether no lens is left.
    pub fn update(&mut self) -> (r: bool)
        requires
            old(self).update_ready(),
        ensures
            router_updated(*old(self), *final(self), r),
    {
        let ghost nodes0 = self.nodes.nodes@;
        let ghost ls0 = lens_models(self.lenses.lenses@);
        let ghost hs0 = self.lenses.handlers@;
        let ghost (news, nev, lev) = advance_all(nodes0, ls0);
        let mut node_events: Vec<(usize, MoveEvent)> = Vec::new();
        let mut lens_events: Vec<(usize, MoveCompletionEvent)> = Vec::new();
        let mut lens_id: usize = 0;
        proof {
            assert(ls0.take(0) =~= Seq::<LensModel>::empty());
            assert(node_events@ =~= advance_all(nodes0, ls0.take(0)).1);
        }
        while lens_id < self.lenses.lenses.len()
            invariant
                self.nodes == old(self).nodes,
                nodes0 == self.nodes.nodes@,
                tree_ok(nodes0),
                lenses_ok(nodes0, ls0),
                lens_id <= ls0.len(),
                self.lenses.lenses@.len() == ls0.len(),
                self.lenses.handlers@ == hs0,
                ({
                    let (a, ne, le) = advance_all(nodes0, ls0.take(lens_id as int));
                    &&& lens_models(self.lenses.lenses@).take(lens_id as int) == a
                    &&& lens_models(self.lenses.lenses@).skip(lens_id as int) == ls0.skip(lens_id as int)
                    &&& node_events@ == ne
                    &&& lens_events@ == le
                }),
            decreases ls0.len() - lens_id,
        {
            let ghost before = lens_models(self.lenses.lenses@);
            let ghost vb = self.lenses.lenses@;
            proof {
                assert(before[lens_id as int] == ls0.skip(lens_id as int)[0]);
                assert(ls0.take(lens_id + 1).drop_last() =~= ls0.take(lens_id as int));
                assert(ls0.take(lens_id + 1).last() == ls0[lens_id as int]);
                assert(ls0[lens_id as int] == ls0.skip(lens_id as int)[0]);
            }
            Router::advance_lens(
                &self.nodes,
                &mut self.lenses.lenses[lens_id],
                lens_id,
                &mut node_events,
                &mut lens_events,
            );
            proof {
                let after = lens_models(self.lenses.lenses@);
                let (a, ne, le) = advance_all(nodes0, ls0.take(lens_id as int));
                assert forall|x: int| lens_id < x < ls0.len() implies after[x] == ls0[x] by {
                    assert(self.lenses.lenses@[x] == vb[x]);
                    assert(before.skip(lens_id as int)[x - lens_id] == ls0.skip(lens_id as int)[x - lens_id]);
                }
                assert(after.take(lens_id + 1) =~= a.push(lens_step(nodes0, ls0[lens_id as int]).0));
                assert(after.skip(lens_id + 1) =~= ls0.skip(lens_id + 1));
            }
            lens_id = lens_id + 1;
        }
        proof {
            assert(ls0.take(ls0.len() as int) =~= ls0);
            assert(lens_models(self.lenses.lenses@) =~= lens_models(self.lenses.lenses@).take(ls0.len() as int));
            assert forall|k: usize| #[trigger] self.nodes.nodes@.contains_key(k) implies self.nodes.nodes@[k].lens_count
                + ev_occ(node_events@, MoveEvent::EnterNode, k) == lens_occ(news, k) + ev_occ(
                node_events@,
                MoveEvent::LeaveNode,
                k,
            ) by {
                lemma_advance_counts(nodes0, ls0, k);
            }
            assert(nev.take(nev.len() as int) =~= nev);
        }
        self.retain_lenses();
        let ghost lenses1 = self.lenses.lenses@;
        let ghost kept = retained(news);
        let ghost kh = kept_handlers(news, hs0);
        proof {
            if ls0.len() == hs0.len() {
                lemma_kept_handlers_len(news, hs0);
            }
        }
        while node_events.len() > 0
            invariant
                node_events@.len() <= nev.len(),
                node_events@ == nev.take(node_events@.len() as int),
                (news, nev, lev) == advance_all(nodes0, ls0),
                self.lenses.lenses@ == lenses1,
                lens_models(lenses1) == kept,
                kept == retained(news),
                kh == kept_handlers(news, hs0),
                self.lenses.handlers@ == kh,
                lens_events@ == lev,
                total_len(ls0) + ls0.len() < usize::MAX,
                self.nodes.nodes@.dom() == nodes0.dom(),
                forall|k: usize| #[trigger] nodes0.contains_key(k) ==> {
                    &&& self.nodes.nodes@[k].id == nodes0[k].id
                    &&& self.nodes.nodes@[k].parent == nodes0[k].parent
                    &&& self.nodes.nodes@[k].name == nodes0[k].name
                },
                forall|k: usize| #[trigger] self.nodes.nodes@.contains_key(k) ==> self.nodes.nodes@[k].lens_count
                    + ev_occ(node_events@, MoveEvent::EnterNode, k) == lens_occ(news, k) + ev_occ(
                    node_events@,
                    MoveEvent::LeaveNode,
                    k,
                ),
            decreases node_events@.len(),
        {
            let ghost rem = node_events@;
            let ghost before = self.nodes.nodes@;
            match node_events.pop() {
                Some((pos, event)) => {
                    proof {
                        lemma_advance_counts(nodes0, ls0, pos);
                        lemma_ev_occ_prefix(nev, rem.len() as int, MoveEvent::EnterNode, pos);
                        lemma_ev_occ_prefix(nev, rem.len() as int, MoveEvent::LeaveNode, pos);
                        lemma_lens_occ_le(ls0, pos);
                        assert(rem.drop_last() == node_events@);
                        assert(rem.last() == (pos, event));
                        assert(node_events@ =~= nev.take(node_events@.len() as int));
                    }
                    self.trigger_event_at_node_id(pos, &event);
                    proof {
                        assert forall|k: usize| #[trigger] self.nodes.nodes@.contains_key(k) implies self.nodes.nodes@[k].lens_count
                            + ev_occ(node_events@, MoveEvent::EnterNode, k) == lens_occ(news, k) + ev_occ(
                            node_events@,
                            MoveEvent::LeaveNode,
                            k,
                        ) by {
                            assert(before.contains_key(k));
                        }
                    }
                },
                None => {},
            }
        }
        let ghost nodes2 = self.nodes.nodes@;
        proof {
            assert(node_events@ =~= Seq::<(usize, MoveEvent)>::empty());
        }
        while lens_events.len() > 0
            invariant
                lens_events@.len() <= lev.len(),
                lens_events@ == lev.take(lens_events@.len() as int),
                kept.len() == lens_models(self.lenses.lenses@).len(),
                self.lenses.handlers@.len() == kh.len(),
                forall|i: int| 0 <= i < kh.len() && !fired_at(lev, i) ==> #[trigger] self.lenses.handlers@[i] == kh[i],
                ls0.len() == hs0.len() ==> kh.len() == kept.len(),
                forall|i: int|
                    0 <= i < kept.len() ==> {
                        &&& (#[trigger] lens_models(self.lenses.lenses@)[i]).name == kept[i].name
                        &&& lens_models(self.lenses.lenses@)[i].path == kept[i].path
                        &&& lens_models(self.lenses.lenses@)[i].path_str == kept[i].path_str
                        &&& lens_models(self.lenses.lenses@)[i].state == kept[i].state || (kept[i].state is Idle && fired_at(lev, i))
                    },
                lev.len() == 0 ==> self.nodes.nodes@ == nodes2,
            decreases lens_events@.len(),
        {
            let ghost rem = lens_events@;
            let ghost before = self.lenses.lenses@;
            match lens_events.pop() {
                Some((pos, event)) => {
                    proof {
                        assert(lev[rem.len() - 1] == rem.last());
                        assert(lens_events@ =~= lev.take(lens_events@.len() as int));
                    }
                    self.fire_event_at_lens_id(pos, &event);
                    proof {
                        assert forall|i: int| 0 <= i < kept.len() implies {
                            &&& (#[trigger] lens_models(self.lenses.lenses@)[i]).name == kept[i].name
                            &&& lens_models(self.lenses.lenses@)[i].path == kept[i].path
                            &&& lens_models(self.lenses.lenses@)[i].path_str == kept[i].path_str
                            &&& lens_models(self.lenses.lenses@)[i].state == kept[i].state || (kept[i].state is Idle && fired_at(lev, i))
                        } by {
                            let bm = lens_models(before)[i];
                            assert(bm.name == kept[i].name && bm.path == kept[i].path && bm.path_str == kept[i].path_str);
                            assert(bm.state == kept[i].state || (kept[i].state is Idle && fired_at(lev, i)));
                            if i == pos {
                                assert(lev[rem.len() - 1].0 == i);
                                assert(fired_at(lev, i));
                                let b = before[i].state;
                                if !(b is Idle) {
                                    assert(self.lenses.lenses@[i].state == b);
                                }
                            } else {
                                assert(self.lenses.lenses@[i] == before[i]);
                            }
                        }
                    }
                },
                None => {},
            }
        }
        proof {
            if lev.len() == 0 {
                let fin = self.nodes.nodes@;
                let ls = lens_models(self.lenses.lenses@);
                lemma_advance_keeps_lenses_ok(nodes0, ls0);
                assert forall|i: int| 0 <= i < ls.len() implies path_resolves(fin, (#[trigger] ls[i]).path)
                    && offset_ok(ls[i].state) by {
                    assert(ls[i].path == kept[i].path);
                    assert(ls[i].state == kept[i].state);
                    assert(path_resolves(nodes0, kept[i].path));
                    assert forall|x: int| 0 <= x < ls[i].path.len() implies fin.contains_key(#[trigger] ls[i].path[x]) by {
                        assert(nodes0.contains_key(kept[i].path[x]));
                    }
                }
                assert(ids_match(fin)) by {
                    assert forall|k: usize| #[trigger] fin.contains_key(k) implies fin[k].id == k by {
                        assert(nodes0.contains_key(k));
                    }
                }
                assert(siblings_unique(fin)) by {
                    assert forall|a: usize, c: usize|
                        fin.contains_key(a) && fin.contains_key(c) && fin[a].parent is Some && fin[a].parent
                            == fin[c].parent && fin[a].name@ == fin[c].name@ implies a == c by {
                        assert(nodes0.contains_key(a) && nodes0.contains_key(c));
                        assert(nodes0[a].parent == fin[a].parent && nodes0[c].parent == fin[c].parent);
                        assert(nodes0[a].name == fin[a].name && nodes0[c].name == fin[c].name);
                    }
                }
                assert forall|k: usize| #[trigger] self.nodes.nodes@.contains_key(k) implies self.nodes.nodes@[k].lens_count
                    == lens_occ(lens_models(self.lenses.lenses@), k) by {
                    assert(ev_occ(Seq::<(usize, MoveEvent)>::empty(), MoveEvent::EnterNode, k) == 0);
                    assert(ev_occ(Seq::<(usize, MoveEvent)>::empty(), MoveEvent::LeaveNode, k) == 0);
                    lemma_retained_occ(news, k);
                    lemma_lens_occ_same_paths(kept, lens_models(self.lenses.lenses@), k);
                }
            }
        }
        self.lenses.lenses.len() == 0
    }
}

} // verus!

//! The router: a tree of nodes, over which lenses move and interact with the
//! application through a context.
//!
//! A lens moves along a path written with file-system semantics: `/` is the root,
//! `name` a child of the current node, `./` the current node and `../` its parent.
//! Each update moves every moving lens one step and tells the nodes it enters and
//! leaves; a lens that reaches its destination, or cannot, is told so.

use vstd::prelude::*;
use vstd::string::{StringExecFns, StringSliceAdditionalSpecFns};
use vstd::utf8::{
    encode_utf8,
    decode_utf8,
    valid_utf8,
    is_char_boundary,
    is_continuation_byte,
    length_of_first_scalar,
    pop_first_scalar,
    encode_utf8_valid_utf8,
    encode_utf8_decode_utf8,
    valid_utf8_split,
    is_char_boundary_start_end_of_seq,
    is_char_boundary_iff_not_is_continuation_byte,
};
use crate::text::{
    slash_at,
    dot_slash_at,
    dot_dot_slash_at,
    skip_slashes,
    segment_end,
    lemma_skip_slashes_bounds,
    lemma_segment_end_bounds,
    is_slash_at,
    is_dot_slash_at,
    is_dot_dot_slash_at,
    skip_slashes_from,
    segment_end_from,
    str_eq_bytes,
    lemma_encode_injective,
};
use crate::fxmap::{fx_get, fx_keys, fx_insert};
use node::Node;

pub mod node;
pub mod comp;
pub mod lens;
pub mod event;
pub mod update;
pub mod ready;
pub mod context;

verus! {

/// The primary container (and owner) for all lenses, nodes and their components.
pub struct Router {
    /// All of the lenses known to the router.
    pub lenses: lens::Lenses,
    /// The nodes and their components representing the routing tree.
    pub nodes: node::Nodes,
}

/// One step of a lens along its path.
pub enum PathItem {
    /// `./`: stay at the current node.
    ToSelf,
    /// `../`: go to the parent of the current node.
    ToSuper,
    /// `name`: go to the child with that name.
    ToNode(usize),
    /// The path cannot be followed.
    Error(String),
    /// The path has been followed to its end.
    End,
}

/// One step of a lens, as a value of logic.
pub enum Step {
    ToSelf,
    ToSuper,
    ToNode(usize),
    /// The node the lens stands at is not in the tree.
    NoCurrent,
    /// No child of the current node has the name between the two offsets.
    NotFound(int, int),
    End,
}

/// Whether node `k` is a child of node `cur` whose name is encoded as `name`.
pub open spec fn child_named(nodes: Map<usize, Node>, cur: usize, name: Seq<u8>, k: usize) -> bool {
    &&& nodes.contains_key(k)
    &&& encode_utf8(nodes[k].name@) == name
    &&& nodes[k].parent == Some(nodes[cur].id)
}

/// Whether `cur` has a child whose name is encoded as `name`.
pub open spec fn has_child_named(nodes: Map<usize, Node>, cur: usize, name: Seq<u8>) -> bool {
    exists|k: usize| #[trigger] child_named(nodes, cur, name, k)
}

/// The child of `cur` whose name is encoded as `name`, when there is one.
pub open spec fn named_child(nodes: Map<usize, Node>, cur: usize, name: Seq<u8>) -> usize {
    choose|k: usize| #[trigger] child_named(nodes, cur, name, k)
}

/// The next step of a lens at `src` towards the path whose UTF-8 bytes are `b`,
/// read from offset `off`, and the offset after it.
pub open spec fn path_step(nodes: Map<usize, Node>, b: Seq<u8>, off: int, src: Seq<usize>) -> (Step, int) {
    if src.len() == 0 {
        (Step::ToNode(0), off)
    } else if off == 0 && slash_at(b, 0) && src.len() > 1 {
        (Step::ToSuper, off)
    } else if off == 0 && dot_slash_at(b, 0) {
        (Step::ToSelf, 2)
    } else if off == 0 && dot_dot_slash_at(b, 0) {
        (Step::ToSuper, 3)
    } else {
        let o = if off == 0 && slash_at(b, 0) { 1 } else { off };
        if o == b.len() {
            (Step::End, o)
        } else {
            let s = skip_slashes(b, o);
            if dot_slash_at(b, s) {
                (Step::ToSelf, s + 2)
            } else if dot_dot_slash_at(b, s) {
                (Step::ToSuper, s + 3)
            } else if !nodes.contains_key(src.last()) {
                (Step::NoCurrent, s)
            } else {
                let e = segment_end(b, s);
                let name = b.subrange(s, e);
                if has_child_named(nodes, src.last(), name) {
                    (Step::ToNode(nodes[named_child(nodes, src.last(), name)].id), e)
                } else {
                    (Step::NotFound(s, e), s)
                }
            }
        }
    }
}

/// Whether no two nodes with a parent share both parent and name.
pub open spec fn siblings_unique(nodes: Map<usize, Node>) -> bool {
    forall|a: usize, c: usize|
        #![trigger nodes[a], nodes[c]]
        nodes.contains_key(a) && nodes.contains_key(c) && nodes[a].parent is Some && nodes[a].parent
            == nodes[c].parent && nodes[a].name@ == nodes[c].name@ ==> a == c
}

/// Whether every node is stored under its own id.
pub open spec fn ids_match(nodes: Map<usize, Node>) -> bool {
    forall|k: usize| #[trigger] nodes.contains_key(k) ==> nodes[k].id == k
}

/// An ASCII byte at a character boundary is followed by another boundary.
pub proof fn lemma_ascii_boundary(b: Seq<u8>, i: int)
    requires
        valid_utf8(b),
        0 <= i < b.len(),
        is_char_boundary(b, i),
        b[i] < 0x80,
    ensures
        is_char_boundary(b, i + 1),
    decreases b.len(),
{
    let w = length_of_first_scalar(b);
    let tail = pop_first_scalar(b);
    reveal_with_fuel(is_char_boundary, 2);
    if i == 0 {
        assert(w == 1);
        assert(is_char_boundary(tail, 0));
    } else {
        assert(valid_utf8(tail));
        assert(is_char_boundary(tail, i - w));
        assert(tail[i - w] == b[i]);
        lemma_ascii_boundary(tail, i - w);
    }
}

/// Skipping slashes from a boundary ends at a boundary.
pub proof fn lemma_skip_slashes_boundary(b: Seq<u8>, i: int)
    requires
        valid_utf8(b),
        0 <= i <= b.len(),
        is_char_boundary(b, i),
    ensures
        is_char_boundary(b, skip_slashes(b, i)),
    decreases b.len() - i,
{
    if i < b.len() && b[i] == 47u8 {
        lemma_ascii_boundary(b, i);
        lemma_skip_slashes_boundary(b, i + 1);
    }
}

/// The end of a segment is a boundary.
pub proof fn lemma_segment_end_boundary(b: Seq<u8>, i: int)
    requires
        valid_utf8(b),
        0 <= i <= b.len(),
    ensures
        is_char_boundary(b, segment_end(b, i)),
{
    lemma_segment_end_bounds(b, i);
    is_char_boundary_start_end_of_seq(b);
    let e = segment_end(b, i);
    if e < b.len() {
        is_char_boundary_iff_not_is_continuation_byte(b, e);
    }
}

/// The bytes of a string, cut at a boundary, still end at a boundary where the
/// whole did.
pub proof fn lemma_boundary_in_rest(b: Seq<u8>, s: int, e: int)
    requires
        valid_utf8(b),
        0 <= s <= e <= b.len(),
        is_char_boundary(b, s),
        e == b.len() || b[e] == 47u8,
    ensures
        valid_utf8(b.subrange(s, b.len() as int)),
        is_char_boundary(b.subrange(s, b.len() as int), e - s),
{
    valid_utf8_split(b, s);
    let rest = b.subrange(s, b.len() as int);
    is_char_boundary_start_end_of_seq(rest);
    if e < b.len() {
        assert(rest[e - s] == b[e]);
        is_char_boundary_iff_not_is_continuation_byte(rest, e - s);
    }
}

impl Router {
    /// Resolves the next step of a lens at `src_path` towards `dst_path`, read from
    /// `dst_off`, which moves past what the step reads.
    fn path_next(nodes: &node::Nodes, dst_path: &str, dst_off: &mut usize, src_path: &[usize]) -> (r: PathItem)
        requires
            *old(dst_off) <= dst_path.spec_bytes().len(),
            is_char_boundary(dst_path.spec_bytes(), *old(dst_off) as int),
            siblings_unique(nodes.nodes@),
        ensures
            ({
                let (step, o) = path_step(nodes.nodes@, dst_path.spec_bytes(), *old(dst_off) as int, src_path@);
                &&& *final(dst_off) == o
                &&& match step {
                    Step::ToSelf => r is ToSelf,
                    Step::ToSuper => r is ToSuper,
                    Step::ToNode(id) => r == PathItem::ToNode(id),
                    Step::NoCurrent => r matches PathItem::Error(m) && m@ == "Could not resolve current."@,
                    Step::NotFound(s, e) => r matches PathItem::Error(m) && m@ == "Could not find node: "@
                        + decode_utf8(dst_path.spec_bytes().subrange(s, e)),
                    Step::End => r is End,
                }
            }),
    {
        let b = dst_path.as_bytes();
        let ghost bs = dst_path.spec_bytes();
        let ghost off0 = *dst_off as int;
        proof {
            encode_utf8_valid_utf8(dst_path@);
        }
        if src_path.len() == 0 {
            return PathItem::ToNode(0);
        }
        if *dst_off == 0 {
            if is_slash_at(b, 0) {
                if src_path.len() > 1 {
                    return PathItem::ToSuper;
                }
                *dst_off = *dst_off + 1;
                proof {
                    lemma_ascii_boundary(bs, 0);
                }
            }
            if is_dot_slash_at(b, 0) {
                *dst_off = *dst_off + 2;
                return PathItem::ToSelf;
            }
            if is_dot_dot_slash_at(b, 0) {
                *dst_off = *dst_off + 3;
                return PathItem::ToSuper;
            }
        }
        if *dst_off == b.len() {
            return PathItem::End;
        }
        let start = skip_slashes_from(b, *dst_off);
        proof {
            lemma_skip_slashes_bounds(bs, *dst_off as int);
            lemma_skip_slashes_boundary(bs, *dst_off as int);
        }
        *dst_off = start;
        if is_dot_slash_at(b, start) {
            *dst_off = start + 2;
            return PathItem::ToSelf;
        }
        if is_dot_dot_slash_at(b, start) {
            *dst_off = start + 3;
            return PathItem::ToSuper;
        }
        let current = match fx_get(&nodes.nodes, src_path[src_path.len() - 1]) {
            Some(x) => x,
            None => {
                return PathItem::Error(String::from_str("Could not resolve current."));
            },
        };
        let end = segment_end_from(b, start);
        proof {
            lemma_segment_end_bounds(bs, start as int);
        }
        let ghost name = bs.subrange(start as int, end as int);
        let ghost cur = src_path@.last();
        let ghost found = if has_child_named(nodes.nodes@, cur, name) {
            (Step::ToNode(nodes.nodes@[named_child(nodes.nodes@, cur, name)].id), end as int)
        } else {
            (Step::NotFound(start as int, end as int), start as int)
        };
        assert(path_step(nodes.nodes@, bs, off0, src_path@) == found);
        let keys = fx_keys(&nodes.nodes);
        let mut next: Option<&Node> = None;
        let mut i: usize = 0;
        while i < keys.len()
            invariant
                i <= keys@.len(),
                keys@.no_duplicates(),
                forall|k: usize| #[trigger] keys@.contains(k) <==> nodes.nodes@.contains_key(k),
                start <= end <= b@.len(),
                b@ == bs,
                *dst_off == start,
                path_step(nodes.nodes@, bs, off0, src_path@) == found,
                found == if has_child_named(nodes.nodes@, cur, name) {
                    (Step::ToNode(nodes.nodes@[named_child(nodes.nodes@, cur, name)].id), end as int)
                } else {
                    (Step::NotFound(start as int, end as int), start as int)
                },
                name == bs.subrange(start as int, end as int),
                nodes.nodes@.contains_key(cur),
                *current == nodes.nodes@[cur],
                match next {
                    Some(n) => exists|k: usize| #[trigger] child_named(nodes.nodes@, cur, name, k) && *n == nodes.nodes@[k],
                    None => forall|j: int| 0 <= j < i ==> !#[trigger] child_named(nodes.nodes@, cur, name, keys@[j]),
                },
            decreases keys@.len() - i,
        {
            match fx_get(&nodes.nodes, keys[i]) {
                Some(node) => {
                    if str_eq_bytes(node.name.as_str(), b, start, end) && node.is_child_of(current) {
                        next = Some(node);
                        assert(child_named(nodes.nodes@, cur, name, keys@[i as int]));
                    }
                },
                None => {
                    assert(keys@.contains(keys@[i as int]));
                },
            }
            i = i + 1;
        }
        match next {
            None => {
                proof {
                    assert forall|k: usize| !#[trigger] child_named(nodes.nodes@, cur, name, k) by {
                        if child_named(nodes.nodes@, cur, name, k) {
                            assert(keys@.contains(k));
                            let j = keys@.index_of(k);
                            assert(keys@[j] == k);
                        }
                    }
                    lemma_boundary_in_rest(bs, start as int, end as int);
                }
                let (_, rest) = dst_path.split_at(start);
                let (name_str, _) = rest.split_at(end - start);
                proof {
                    assert(encode_utf8(name_str@) =~= bs.subrange(start as int, end as int));
                    encode_utf8_decode_utf8(name_str@);
                }
                let mut msg = String::from_str("Could not find node: ");
                msg.append(name_str);
                PathItem::Error(msg)
            },
            Some(node) => {
                proof {
                    let k = choose|k: usize| #[trigger] child_named(nodes.nodes@, cur, name, k) && *node == nodes.nodes@[k];
                    let c = named_child(nodes.nodes@, cur, name);
                    lemma_encode_injective(nodes.nodes@[k].name@, nodes.nodes@[c].name@);
                    assert(nodes.nodes@[k] == nodes.nodes@[c]);
                }
                *dst_off = end;
                PathItem::ToNode(node.id)
            },
        }
    }
}

} // verus!

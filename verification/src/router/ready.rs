//! Checking, before an update, that the router is in a state it can update.

use vstd::prelude::*;
use vstd::utf8::{encode_utf8, is_char_boundary, encode_utf8_valid_utf8};
use rustc_hash::FxHashMap;
use super::Router;
use super::lens::{Lens, LensModel, State, StateModel, lens_models};
use super::node::{Node, path_resolves};
use super::update::{occ, lens_occ, total_len, offset_ok, tree_ok, lenses_ok, counts_match, lemma_lens_occ_le, router_updated};
use super::{ids_match, siblings_unique};
use crate::fxmap::{fx_contains, fx_get, fx_keys};
use crate::text::str_eq;

verus! {

/// Whether two nodes would be siblings of the same name.
pub open spec fn pair_ok(nodes: Map<usize, Node>, a: usize, c: usize) -> bool {
    nodes[a].parent is Some && nodes[a].parent == nodes[c].parent && nodes[a].name@ == nodes[c].name@ ==> a == c
}

/// Whether the tree is one a lens can move in.
fn tree_is_ok(nodes: &FxHashMap<usize, Node>) -> (r: bool)
    ensures
        r == tree_ok(nodes@),
{
    if !fx_contains(nodes, 0) {
        return false;
    }
    let keys = fx_keys(nodes);
    let mut i: usize = 0;
    while i < keys.len()
        invariant
            i <= keys@.len(),
            forall|k: usize| #[trigger] keys@.contains(k) <==> nodes@.contains_key(k),
            forall|j: int| 0 <= j < i ==> nodes@[#[trigger] keys@[j]].id == keys@[j],
        decreases keys@.len() - i,
    {
        let k = keys[i];
        assert(keys@.contains(k));
        match fx_get(nodes, k) {
            Some(n) => {
                if n.id != k {
                    return false;
                }
            },
            None => {},
        }
        i = i + 1;
    }
    assert(ids_match(nodes@)) by {
        assert forall|k: usize| #[trigger] nodes@.contains_key(k) implies nodes@[k].id == k by {
            assert(keys@.contains(k));
            let j = keys@.index_of(k);
            assert(keys@[j] == k);
        }
    }
    let mut a: usize = 0;
    while a < keys.len()
        invariant
            a <= keys@.len(),
            forall|k: usize| #[trigger] keys@.contains(k) <==> nodes@.contains_key(k),
            forall|x: int, y: int|
                0 <= x < a && 0 <= y < keys@.len() ==> pair_ok(nodes@, #[trigger] keys@[x], #[trigger] keys@[y]),
        decreases keys@.len() - a,
    {
        let ka = keys[a];
        assert(keys@.contains(ka));
        let na = match fx_get(nodes, ka) {
            Some(n) => n,
            None => {
                return false;
            },
        };
        let mut c: usize = 0;
        while c < keys.len()
            invariant
                a < keys@.len(),
                c <= keys@.len(),
                ka == keys@[a as int],
                nodes@.contains_key(ka),
                *na == nodes@[ka],
                forall|k: usize| #[trigger] keys@.contains(k) <==> nodes@.contains_key(k),
                forall|x: int, y: int|
                    0 <= x < a && 0 <= y < keys@.len() ==> pair_ok(nodes@, #[trigger] keys@[x], #[trigger] keys@[y]),
                forall|y: int| 0 <= y < c ==> pair_ok(nodes@, ka, #[trigger] keys@[y]),
            decreases keys@.len() - c,
        {
            let kc = keys[c];
            assert(keys@.contains(kc));
            match fx_get(nodes, kc) {
                Some(nc) => {
                    let same_parent = match (na.parent, nc.parent) {
                        (Some(p), Some(q)) => p == q,
                        _ => false,
                    };
                    if ka != kc && same_parent && str_eq(na.name.as_str(), nc.name.as_str()) {
                        return false;
                    }
                },
                None => {},
            }
            c = c + 1;
        }
        a = a + 1;
    }
    assert(siblings_unique(nodes@)) by {
        assert forall|x: usize, y: usize|
            #![trigger nodes@[x], nodes@[y]]
            nodes@.contains_key(x) && nodes@.contains_key(y) && nodes@[x].parent is Some && nodes@[x].parent
                == nodes@[y].parent && nodes@[x].name@ == nodes@[y].name@ implies x == y by {
            assert(keys@.contains(x));
            assert(keys@.contains(y));
            let i = keys@.index_of(x);
            let j = keys@.index_of(y);
            assert(pair_ok(nodes@, keys@[i], keys@[j]));
        }
    }
    true
}

/// Whether a lens stands on nodes of the tree, and reads its path (if moving)
/// at a character boundary.
fn lens_is_ok(nodes: &FxHashMap<usize, Node>, lens: &Lens) -> (r: bool)
    ensures
        r == (path_resolves(nodes@, lens@.path) && offset_ok(lens@.state)),
{
    let mut i: usize = 0;
    while i < lens.path.len()
        invariant
            i <= lens.path@.len(),
            forall|j: int| 0 <= j < i ==> nodes@.contains_key(#[trigger] lens.path@[j]),
        decreases lens.path@.len() - i,
    {
        if !fx_contains(nodes, lens.path[i]) {
            return false;
        }
        i = i + 1;
    }
    match &lens.state {
        State::Moving(p, o) => {
            let s = p.as_str();
            proof {
                encode_utf8_valid_utf8(s@);
            }
            let len = s.as_bytes().len();
            *o <= len && s.is_char_boundary(*o)
        },
        _ => true,
    }
}

/// How often `k` occurs in `path`.
fn occurrences(path: &Vec<usize>, k: usize) -> (r: usize)
    ensures
        r == occ(path@, k),
{
    let mut n: usize = 0;
    let mut i: usize = 0;
    while i < path.len()
        invariant
            i <= path@.len(),
            n == occ(path@.subrange(0, i as int), k),
            n <= i,
        decreases path@.len() - i,
    {
        assert(path@.subrange(0, i + 1).drop_last() =~= path@.subrange(0, i as int));
        if path[i] == k {
            n = n + 1;
        }
        i = i + 1;
    }
    assert(path@.subrange(0, path@.len() as int) =~= path@);
    n
}

/// The summed length of the lenses' paths plus their count, if that stays
/// below `usize::MAX`.
fn total_len_below_max(lenses: &Vec<Lens>) -> (r: bool)
    ensures
        r == (total_len(lens_models(lenses@)) + lenses@.len() < usize::MAX),
{
    let ghost ls = lens_models(lenses@);
    let mut sum: usize = 0;
    let mut i: usize = 0;
    while i < lenses.len()
        invariant
            i <= lenses@.len(),
            ls == lens_models(lenses@),
            sum == total_len(ls.subrange(0, i as int)) + i,
            sum < usize::MAX,
        decreases lenses@.len() - i,
    {
        assert(ls.subrange(0, i + 1).drop_last() =~= ls.subrange(0, i as int));
        let len = lenses[i].path.len();
        if sum >= usize::MAX - len || sum + len >= usize::MAX - 1 {
            proof {
                lemma_total_len_prefix(ls, i + 1);
            }
            return false;
        }
        sum = sum + len + 1;
        i = i + 1;
    }
    assert(ls.subrange(0, lenses@.len() as int) =~= ls);
    true
}

/// The summed length grows with the prefix taken.
proof fn lemma_total_len_prefix(ls: Seq<LensModel>, n: int)
    requires
        0 <= n <= ls.len(),
    ensures
        total_len(ls.subrange(0, n)) + n <= total_len(ls) + ls.len(),
    decreases ls.len() - n,
{
    if n < ls.len() {
        lemma_total_len_prefix(ls, n + 1);
        assert(ls.subrange(0, n + 1).drop_last() =~= ls.subrange(0, n));
    } else {
        assert(ls.subrange(0, n) =~= ls);
    }
}

/// A prefix of the lenses has no longer paths in all than the whole.
proof fn lemma_total_len_prefix_le(ls: Seq<LensModel>, n: int)
    requires
        0 <= n <= ls.len(),
    ensures
        total_len(ls.subrange(0, n)) <= total_len(ls),
    decreases ls.len() - n,
{
    if n < ls.len() {
        lemma_total_len_prefix_le(ls, n + 1);
        assert(ls.subrange(0, n + 1).drop_last() =~= ls.subrange(0, n));
    } else {
        assert(ls.subrange(0, n) =~= ls);
    }
}

/// How many lenses stand at or pass through node `k`.
fn lens_occurrences(lenses: &Vec<Lens>, k: usize) -> (r: usize)
    requires
        total_len(lens_models(lenses@)) < usize::MAX,
    ensures
        r == lens_occ(lens_models(lenses@), k),
{
    let ghost ls = lens_models(lenses@);
    let mut n: usize = 0;
    let mut i: usize = 0;
    while i < lenses.len()
        invariant
            i <= lenses@.len(),
            ls == lens_models(lenses@),
            total_len(ls) < usize::MAX,
            n == lens_occ(ls.subrange(0, i as int), k),
        decreases lenses@.len() - i,
    {
        let ghost pre = ls.subrange(0, i + 1);
        assert(pre.drop_last() =~= ls.subrange(0, i as int));
        let c = occurrences(&lenses[i].path, k);
        proof {
            lemma_lens_occ_le(pre, k);
            lemma_total_len_prefix_le(ls, i + 1);
        }
        n = n + c;
        i = i + 1;
    }
    assert(ls.subrange(0, lenses@.len() as int) =~= ls);
    n
}

impl Router {
    /// Whether the router is in a state `update` can work on: the tree is one a
    /// lens can move in, the lenses stand in it, every node counts the lenses
    /// at it, and the counts have room to grow.
    pub fn is_ready(&self) -> (r: bool)
        ensures
            r == self.update_ready(),
    {
        let nodes = &self.nodes.nodes;
        let lenses = &self.lenses.lenses;
        let ghost ls = lens_models(lenses@);
        if !tree_is_ok(nodes) {
            return false;
        }
        if !total_len_below_max(lenses) {
            return false;
        }
        let mut i: usize = 0;
        while i < lenses.len()
            invariant
                i <= lenses@.len(),
                ls == lens_models(lenses@),
                nodes == &self.nodes.nodes,
                lenses == &self.lenses.lenses,
                forall|j: int|
                    0 <= j < i ==> path_resolves(nodes@, (#[trigger] ls[j]).path) && offset_ok(ls[j].state),
            decreases lenses@.len() - i,
        {
            if !lens_is_ok(nodes, &lenses[i]) {
                assert(ls[i as int] == lenses@[i as int]@);
                assert(!lenses_ok(nodes@, ls));
                return false;
            }
            i = i + 1;
        }
        let keys = fx_keys(nodes);
        let mut j: usize = 0;
        while j < keys.len()
            invariant
                j <= keys@.len(),
                ls == lens_models(lenses@),
                nodes == &self.nodes.nodes,
                lenses == &self.lenses.lenses,
                total_len(ls) + ls.len() < usize::MAX,
                forall|k: usize| #[trigger] keys@.contains(k) <==> nodes@.contains_key(k),
                forall|x: int| 0 <= x < j ==> nodes@[#[trigger] keys@[x]].lens_count == lens_occ(ls, keys@[x]),
            decreases keys@.len() - j,
        {
            let k = keys[j];
            assert(keys@.contains(k));
            let count = lens_occurrences(lenses, k);
            match fx_get(nodes, k) {
                Some(n) => {
                    if n.lens_count != count {
                        assert(nodes@.contains_key(k) && nodes@[k].lens_count != lens_occ(ls, k));
                        assert(!counts_match(nodes@, ls));
                        return false;
                    }
                },
                None => {},
            }
            j = j + 1;
        }
        assert(counts_match(nodes@, ls)) by {
            assert forall|k: usize| #[trigger] nodes@.contains_key(k) implies nodes@[k].lens_count == lens_occ(ls, k) by {
                assert(keys@.contains(k));
                let x = keys@.index_of(k);
                assert(keys@[x] == k);
            }
        }
        true
    }

    /// Updates the router as `update` does when it is ready to be updated;
    /// otherwise gives `None` and changes nothing.
    pub fn try_update(&mut self) -> (r: Option<bool>)
        ensures
            r is None <==> !old(self).update_ready(),
            r is None ==> *final(self) == *old(self),
            r matches Some(x) ==> router_updated(*old(self), *final(self), x),
    {
        if !self.is_ready() {
            return None;
        }
        let r = self.update();
        Some(r)
    }
}

} // verus!

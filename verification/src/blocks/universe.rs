//! This file defines the 'universe' of blocks.
//! Its simply the definition of blocks and their states.

use vstd::prelude::*;
use rustc_hash::FxHashMap;
use std::rc::Rc;
use crate::fxmap::{fx_new, fx_len, fx_get, fx_insert, fx_keys, fx_contains};
use crate::text::str_eq;

verus! {

/// The definitions of all blocks, keyed by the raw number of their id.
pub struct Universe {
    blocks: FxHashMap<usize, Block>,
}

pub type UniverseRef = Rc<Universe>;

impl Universe {
    /// The registered blocks, keyed by the raw number of their id.
    pub closed spec fn spec_blocks(&self) -> Map<usize, Block> {
        self.blocks@
    }

    /// Whether some registered block carries the given name.
    pub open spec fn has_block_named(&self, name: Seq<char>) -> bool {
        exists|k: usize| #[trigger] self.spec_blocks().contains_key(k)
            && self.spec_blocks()[k].spec_name() == name
    }

    /// Every block is stored under the raw number of its own id.
    pub closed spec fn wf(&self) -> bool {
        forall|k: usize| #[trigger] self.blocks@.contains_key(k) ==> self.blocks@[k].id@ as usize == k
    }

    fn new() -> (r: Universe)
        ensures
            r.spec_blocks() == Map::<usize, Block>::empty(),
            r.wf(),
    {
        Universe { blocks: fx_new() }
    }

    /// Registers a block under the next free number: the count of blocks so far,
    /// truncated to 16 bits.
    fn register_block(&mut self, name: &str)
        requires
            old(self).wf(),
        ensures
            final(self).wf(),
            ({
                let id = BlockId::spec_new(old(self).spec_blocks().len() as usize);
                let key = id@ as usize;
                &&& final(self).spec_blocks().dom() == old(self).spec_blocks().dom().insert(key)
                &&& forall|k: usize| #[trigger] old(self).spec_blocks().contains_key(k) && k != key
                    ==> final(self).spec_blocks()[k] == old(self).spec_blocks()[k]
                &&& final(self).spec_blocks()[key].spec_id() == id
                &&& final(self).spec_blocks()[key].spec_name() == name@
                &&& final(self).spec_blocks()[key].spec_default_state() == (BlockState {
                    id,
                    data: (),
                })
            }),
    {
        let next_id = fx_len(&self.blocks);
        let block_id = BlockId::new(next_id);
        let default_state = BlockState { id: block_id, data: () };
        let block = Block { id: block_id, name: name.to_owned(), default_state };
        let key = block_id.get_raw_id();
        fx_insert(&mut self.blocks, key, block);
    }

    /// A block with the given name, if any is registered; which one, among blocks
    /// sharing a name, is left to the order the map is walked in.
    pub fn get_block_by_name(&self, name: &str) -> (r: Option<&Block>)
        ensures
            match r {
                Some(b) => exists|k: usize| #[trigger] self.spec_blocks().contains_key(k)
                    && self.spec_blocks()[k] == *b && b.spec_name() == name@,
                None => !self.has_block_named(name@),
            },
    {
        let keys = fx_keys(&self.blocks);
        let mut i: usize = 0;
        while i < keys.len()
            invariant
                0 <= i <= keys@.len(),
                forall|k: usize| #[trigger] keys@.contains(k) <==> self.blocks@.contains_key(k),
                forall|j: int| 0 <= j < i ==> self.blocks@[#[trigger] keys@[j]].spec_name() != name@,
            decreases keys@.len() - i,
        {
            let k = keys[i];
            assert(keys@.contains(k));
            match fx_get(&self.blocks, k) {
                Some(block) => {
                    if str_eq(block.name.as_str(), name) {
                        assert(self.spec_blocks().contains_key(k) && self.spec_blocks()[k] == *block);
                        return Some(block);
                    }
                },
                None => {},
            }
            i = i + 1;
        }
        assert forall|k: usize| #[trigger] self.spec_blocks().contains_key(k)
            implies self.spec_blocks()[k].spec_name() != name@ by {
            assert(keys@.contains(k));
            let j = keys@.index_of(k);
            assert(keys@[j] == k);
        }
        None
    }

    /// A block with the given name, which must be registered.
    pub fn get_block_by_name_unchecked(&self, name: &str) -> (r: &Block)
        requires
            self.has_block_named(name@),
        ensures
            exists|k: usize| #[trigger] self.spec_blocks().contains_key(k)
                && self.spec_blocks()[k] == *r && r.spec_name() == name@,
    {
        match self.get_block_by_name(name) {
            Some(b) => b,
            None => {
                proof {
                    assert(false);
                }
                unreached()
            },
        }
    }

    /// The block with the given id, which must be registered.
    pub fn get_block_by_id(&self, id: BlockId) -> (r: &Block)
        requires
            self.spec_blocks().contains_key(id@ as usize),
        ensures
            *r == self.spec_blocks()[id@ as usize],
    {
        match fx_get(&self.blocks, id.get_raw_id()) {
            Some(b) => b,
            None => unreached(),
        }
    }
}

////////////////////////////////////////////////////////////////////////////////

/// Immutable handle to a specific type of block in a universe.
#[derive(PartialEq, Eq, Structural, Hash, Copy, Clone, Debug)]
pub struct BlockId {
    id: u16,
}

impl View for BlockId {
    type V = u16;

    /// The raw 16-bit number behind the handle.
    closed spec fn view(&self) -> u16 {
        self.id
    }
}

impl BlockId {
    /// The handle that `new` makes of a number.
    pub closed spec fn spec_new(id: usize) -> BlockId {
        BlockId { id: id as u16 }
    }

    /// Creates a handle; the number is truncated to 16 bits, as `as u16` does.
    pub fn new(id: usize) -> (r: BlockId)
        ensures
            r@ == id as u16,
            r == BlockId::spec_new(id),
    {
        BlockId { id: id as u16 }
    }

    /// The raw number behind the handle.
    pub fn get_raw_id(&self) -> (r: usize)
        ensures
            r == self@ as usize,
    {
        self.id as usize
    }

    pub proof fn lemma_spec_new(id: usize)
        ensures
            BlockId::spec_new(id)@ == id as u16,
    {
    }
}

////////////////////////////////////////////////////////////////////////////////

pub struct Block {
    id: BlockId,
    name: String,
    default_state: BlockState,
}

impl Block {
    pub closed spec fn spec_id(&self) -> BlockId {
        self.id
    }

    pub closed spec fn spec_name(&self) -> Seq<char> {
        self.name@
    }

    pub closed spec fn spec_default_state(&self) -> BlockState {
        self.default_state
    }

    pub fn get_name(&self) -> (r: &str)
        ensures
            r@ == self.spec_name(),
    {
        self.name.as_str()
    }

    pub fn get_default_state(&self) -> (r: BlockState)
        ensures
            r == self.spec_default_state(),
    {
        self.default_state
    }
}

////////////////////////////////////////////////////////////////////////////////

/// A concrete state of a block; two states are equal when their ids are.
#[derive(Copy, Clone, Eq, Debug)]
pub struct BlockState {
    pub id: BlockId,
    pub data: (),
}

impl PartialEq for BlockState {
    fn eq(&self, other: &BlockState) -> (r: bool) {
        self.id == other.id
    }
}

impl vstd::std_specs::cmp::PartialEqSpecImpl for BlockState {
    open spec fn obeys_eq_spec() -> bool {
        true
    }

    open spec fn eq_spec(&self, other: &BlockState) -> bool {
        self.id == other.id
    }
}

////////////////////////////////////////////////////////////////////////////////

/// Whether the universe holds exactly the given names, under the numbers 0, 1, 2, ...
pub open spec fn universe_holds(u: Universe, names: Seq<Seq<char>>) -> bool {
    &&& u.spec_blocks().dom() == Set::new(|k: usize| k < names.len())
    &&& forall|k: usize| #[trigger] u.spec_blocks().contains_key(k) ==> {
        &&& u.spec_blocks()[k].spec_name() == names[k as int]
        &&& u.spec_blocks()[k].spec_id() == BlockId::spec_new(k)
        &&& u.spec_blocks()[k].spec_default_state() == (BlockState { id: BlockId::spec_new(k), data: () })
    }
}

/// `Rc::clone`: another pointer to the same universe.
#[verifier::external_body]
pub fn share_universe(u: &UniverseRef) -> (r: UniverseRef)
    ensures
        r == *u,
{
    Rc::clone(u)
}

/// Defines the universe of blocks: air, then three kinds of bedrock.
pub fn define_universe(_config: &toml::value::Table) -> (r: UniverseRef)
    ensures
        universe_holds(*r, seq!["air"@, "bedrock"@, "bedrock2"@, "bedrock3"@]),
        r.wf(),
{
    let mut universe = Universe::new();
    universe.register_block("air");
    universe.register_block("bedrock");
    universe.register_block("bedrock2");
    universe.register_block("bedrock3");
    proof {
        let names = seq!["air"@, "bedrock"@, "bedrock2"@, "bedrock3"@];
        BlockId::lemma_spec_new(0);
        BlockId::lemma_spec_new(1);
        BlockId::lemma_spec_new(2);
        BlockId::lemma_spec_new(3);
        assert(universe.spec_blocks().dom() =~= Set::new(|k: usize| k < names.len()));
    }
    Rc::new(universe)
}

} // verus!

//! The registry of block types.

use vstd::prelude::*;
use rustc_hash::FxHashMap;
use std::rc::Rc;
use super::BlockId;
use super::Block;
use super::BlockState;
use super::BlockLayers;
use super::block::simple::SimpleBlock;
use crate::fxmap::{fx_new, fx_get, fx_insert, fx_keys};
use crate::text::str_eq;

verus! {

pub type BlocksRef = Rc<Blocks>;

/// The registered block types, keyed by the raw number of their id, with the
/// names taken so far and the default state of each type.
pub struct Blocks {
    blocks: FxHashMap<usize, Box<dyn Block>>,
    names: Vec<(String, BlockId)>,
    defaults: FxHashMap<usize, BlockState>,
}

/// Whether a name occurs among the registered names.
pub open spec fn name_listed(names: Seq<(String, BlockId)>, name: Seq<char>) -> bool {
    exists|i: int| 0 <= i < names.len() && (#[trigger] names[i]).0@ == name
}

impl Blocks {
    /// The registered block types, keyed by the raw number of their id.
    pub closed spec fn spec_blocks(&self) -> Map<usize, Box<dyn Block>> {
        self.blocks@
    }

    /// The default state of each registered block type.
    pub closed spec fn spec_defaults(&self) -> Map<usize, BlockState> {
        self.defaults@
    }

    /// Whether a name was taken by a registration.
    pub closed spec fn name_taken(&self, name: Seq<char>) -> bool {
        name_listed(self.names@, name)
    }

    /// Whether some registered block type carries the given name.
    pub open spec fn has_block_named(&self, name: Seq<char>) -> bool {
        exists|k: usize| #[trigger] self.spec_blocks().contains_key(k)
            && self.spec_blocks()[k].spec_name() == name
    }

    /// The default state is recorded for exactly the registered types, and no name
    /// was taken twice.
    pub closed spec fn wf(&self) -> bool {
        &&& self.defaults@.dom() == self.blocks@.dom()
        &&& forall|i: int, j: int|
            0 <= i < j < self.names@.len() ==> (#[trigger] self.names@[i]).0@ != (#[trigger] self.names@[j]).0@
    }

    /// A registry with the six built-in block types: `air` and `adm` to `adm5`,
    /// under the ids 0 to 5, each with the default layers and a single state.
    pub fn new() -> (r: Self)
        ensures
            r.wf(),
            r.spec_blocks().dom() == Set::new(|k: usize| k < 6),
            forall|n: Seq<char>| #[trigger] r.name_taken(n) <==> (n == "air"@ || n == "adm"@ || n == "adm2"@
                || n == "adm3"@ || n == "adm4"@ || n == "adm5"@),
    {
        let mut new = Self { blocks: fx_new(), names: Vec::new(), defaults: fx_new() };
        proof {
            reveal_strlit("air");
            reveal_strlit("adm");
            reveal_strlit("adm2");
            reveal_strlit("adm3");
            reveal_strlit("adm4");
            reveal_strlit("adm5");
            assert(new.defaults@.dom() =~= new.blocks@.dom());
        }
        let b = SimpleBlock::new(BlockId::new(0), "air", BlockLayers::default());
        new.register_block(b);
        let b = SimpleBlock::new(BlockId::new(1), "adm", BlockLayers::default());
        assert("adm"@[1] != "air"@[1]);
        new.register_block(b);
        let b = SimpleBlock::new(BlockId::new(2), "adm2", BlockLayers::default());
        assert("adm2"@[1] != "air"@[1]);
        assert("adm2"@.len() != "adm"@.len());
        new.register_block(b);
        let b = SimpleBlock::new(BlockId::new(3), "adm3", BlockLayers::default());
        assert("adm3"@[1] != "air"@[1]);
        assert("adm3"@.len() != "adm"@.len());
        assert("adm3"@[3] != "adm2"@[3]);
        new.register_block(b);
        let b = SimpleBlock::new(BlockId::new(4), "adm4", BlockLayers::default());
        assert("adm4"@[1] != "air"@[1]);
        assert("adm4"@.len() != "adm"@.len());
        assert("adm4"@[3] != "adm2"@[3]);
        assert("adm4"@[3] != "adm3"@[3]);
        new.register_block(b);
        let b = SimpleBlock::new(BlockId::new(5), "adm5", BlockLayers::default());
        assert("adm5"@[1] != "air"@[1]);
        assert("adm5"@.len() != "adm"@.len());
        assert("adm5"@[3] != "adm2"@[3]);
        assert("adm5"@[3] != "adm3"@[3]);
        assert("adm5"@[3] != "adm4"@[3]);
        new.register_block(b);
        proof {
            assert(new.spec_blocks().dom() =~= Set::new(|k: usize| k < 6));
        }
        new
    }

    /// Registers a block type under the raw number of its id, replacing a type
    /// registered there before. Its name must not have been taken.
    pub fn register_block<B: Block + 'static>(&mut self, block: B)
        requires
            old(self).wf(),
            !old(self).name_taken(block.spec_name()),
        ensures
            final(self).wf(),
            ({
                let key = block.spec_id()@ as usize;
                &&& final(self).spec_blocks().dom() == old(self).spec_blocks().dom().insert(key)
                &&& final(self).spec_defaults()[key] == block.spec_default_state()
                &&& forall|k: usize| #[trigger] old(self).spec_blocks().contains_key(k) && k != key
                    ==> final(self).spec_blocks()[k] == old(self).spec_blocks()[k]
                        && final(self).spec_defaults()[k] == old(self).spec_defaults()[k]
            }),
            forall|n: Seq<char>| #[trigger] final(self).name_taken(n)
                <==> (old(self).name_taken(n) || n == block.spec_name()),
    {
        let id = block.get_id();
        let name = block.get_name().to_owned();
        let ghost old_names = self.names@;
        self.names.push((name, id));
        proof {
            assert forall|n: Seq<char>| name_listed(self.names@, n)
                <==> (name_listed(old_names, n) || n == block.spec_name()) by {
                if name_listed(old_names, n) {
                    let i = choose|i: int| 0 <= i < old_names.len() && (#[trigger] old_names[i]).0@ == n;
                    assert(self.names@[i] == old_names[i]);
                }
                if n == block.spec_name() {
                    assert(self.names@[old_names.len() as int].0@ == n);
                }
                if name_listed(self.names@, n) {
                    let i = choose|i: int| 0 <= i < self.names@.len() && (#[trigger] self.names@[i]).0@ == n;
                    if i < old_names.len() {
                        assert(old_names[i] == self.names@[i]);
                    }
                }
            }
            assert forall|i: int, j: int| 0 <= i < j < self.names@.len()
                implies (#[trigger] self.names@[i]).0@ != (#[trigger] self.names@[j]).0@ by {
                assert(old_names[i] == self.names@[i]);
                if j == old_names.len() {
                    assert(name_listed(old_names, old_names[i].0@));
                } else {
                    assert(old_names[j] == self.names@[j]);
                }
            }
        }
        let key = id.raw() as usize;
        fx_insert(&mut self.defaults, key, block.get_default_state());
        let boxed: Box<dyn Block> = Box::new(block);
        fx_insert(&mut self.blocks, key, boxed);
        proof {
            assert(self.defaults@.dom() =~= self.blocks@.dom());
        }
    }

    /// Shares the registry behind a reference-counted pointer.
    pub fn to_ref(self) -> (r: Rc<Self>)
        ensures
            *r == self,
    {
        Rc::new(self)
    }

    /// The registered block types, keyed by the raw number of their id.
    pub fn get_blocks(&self) -> (r: &FxHashMap<usize, Box<dyn Block>>)
        ensures
            r@ == self.spec_blocks(),
    {
        &self.blocks
    }

    /// The block type with the given id, if one is registered.
    pub fn get_block_by_id(&self, id: BlockId) -> (r: Option<&Box<dyn Block>>)
        ensures
            match r {
                Some(b) => self.spec_blocks().contains_key(id@ as usize)
                    && *b == self.spec_blocks()[id@ as usize],
                None => !self.spec_blocks().contains_key(id@ as usize),
            },
    {
        fx_get(&self.blocks, id.raw() as usize)
    }

    /// The block type with the given id, which must be registered.
    pub fn get_block_by_id_unchecked(&self, id: BlockId) -> (r: &Box<dyn Block>)
        requires
            self.spec_blocks().contains_key(id@ as usize),
        ensures
            *r == self.spec_blocks()[id@ as usize],
    {
        match self.get_block_by_id(id) {
            Some(b) => b,
            None => unreached(),
        }
    }

    /// The block type with the given name, if one is registered. No two registered
    /// types share a name, so at most one can be found.
    pub fn get_block_by_name(&self, name: &str) -> (r: Option<&Box<dyn Block>>)
        ensures
            match r {
                Some(b) => exists|k: usize| #[trigger] self.spec_blocks().contains_key(k)
                    && self.spec_blocks()[k] == *b && b.spec_name() == name@,
                None => !self.has_block_named(name@),
            },
    {
        let keys = fx_keys(&self.blocks);
        let mut i: usize = 0;
        while i < keys.len()
            invariant
                0 <= i <= keys@.len(),
                forall|k: usize| #[trigger] keys@.contains(k) <==> self.blocks@.contains_key(k),
                forall|j: int| 0 <= j < i ==> self.blocks@[#[trigger] keys@[j]].spec_name() != name@,
            decreases keys@.len() - i,
        {
            let k = keys[i];
            assert(keys@.contains(k));
            match fx_get(&self.blocks, k) {
                Some(block) => {
                    if str_eq(block.get_name(), name) {
                        assert(self.spec_blocks().contains_key(k) && self.spec_blocks()[k] == *block);
                        return Some(block);
                    }
                },
                None => {},
            }
            i = i + 1;
        }
        assert forall|k: usize| #[trigger] self.spec_blocks().contains_key(k)
            implies self.spec_blocks()[k].spec_name() != name@ by {
            assert(keys@.contains(k));
            let j = keys@.index_of(k);
            assert(keys@[j] == k);
        }
        None
    }

    /// The block type with the given name, which must be registered.
    pub fn get_block_by_name_unchecked(&self, name: &str) -> (r: &Box<dyn Block>)
        requires
            self.has_block_named(name@),
        ensures
            exists|k: usize| #[trigger] self.spec_blocks().contains_key(k)
                && self.spec_blocks()[k] == *r && r.spec_name() == name@,
    {
        match self.get_block_by_name(name) {
            Some(b) => b,
            None => unreached(),
        }
    }
}

} // verus!

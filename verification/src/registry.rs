//! Block registry lookups.
//!
//! The hosting engine owns the full block catalog; the pipeline stages only
//! need to resolve block names to voxel type IDs. This model keeps that
//! mapping as plain values, registered at world setup and queried by name,
//! earliest registration first.

use vstd::prelude::*;

verus! {

/// One registered block: its voxel type ID and its display name.
pub struct Block {
    pub id: u32,
    pub name: String,
}

/// The ID of the first block with the given name, if any.
pub open spec fn first_block_id(blocks: Seq<(Seq<char>, u32)>, name: Seq<char>) -> Option<u32>
    decreases blocks.len(),
{
    if blocks.len() == 0 {
        None
    } else if blocks[0].0 == name {
        Some(blocks[0].1)
    } else {
        first_block_id(blocks.drop_first(), name)
    }
}

/// A name-to-ID catalog of blocks.
pub struct BlockRegistry {
    blocks: Vec<Block>,
}

impl BlockRegistry {
    /// The registered blocks as (name, ID) pairs, in registration order.
    pub closed spec fn spec_blocks(self) -> Seq<(Seq<char>, u32)> {
        Seq::new(self.blocks@.len(), |i: int| (self.blocks@[i].name@, self.blocks@[i].id))
    }

    /// Whether some block carries the given name.
    pub open spec fn has_block(self, name: Seq<char>) -> bool {
        first_block_id(self.spec_blocks(), name) is Some
    }

    /// An empty catalog.
    pub fn new() -> (r: BlockRegistry)
        ensures
            r.spec_blocks() =~= Seq::<(Seq<char>, u32)>::empty(),
    {
        BlockRegistry { blocks: Vec::new() }
    }

    /// Registers a block under a name.
    pub fn register(&mut self, name: &str, id: u32)
        ensures
            final(self).spec_blocks() == old(self).spec_blocks().push((name@, id)),
    {
        self.blocks.push(Block { id, name: name.to_owned() });
        proof {
            assert(self.spec_blocks() =~= old(self).spec_blocks().push((name@, id)));
        }
    }

    /// Resolves a block name to the earliest block registered under it;
    /// `None` exactly when the name was never registered.
    pub fn get_block_by_name(&self, name: &str) -> (r: Option<&Block>)
        ensures
            match r {
                Some(b) => first_block_id(self.spec_blocks(), name@) == Some(b.id) && b.name@
                    == name@,
                None => first_block_id(self.spec_blocks(), name@) is None,
            },
    {
        let wanted = name.to_owned();
        let n = self.blocks.len();
        let mut i: usize = 0;
        proof {
            assert(self.spec_blocks().skip(0) =~= self.spec_blocks());
        }
        while i < n
            invariant
                n == self.blocks@.len(),
                i <= n,
                wanted@ == name@,
                first_block_id(self.spec_blocks(), name@) == first_block_id(
                    self.spec_blocks().skip(i as int),
                    name@,
                ),
            decreases n - i,
        {
            proof {
                let t = self.spec_blocks().skip(i as int);
                assert(t[0] == self.spec_blocks()[i as int]);
                assert(t.drop_first() =~= self.spec_blocks().skip(i as int + 1));
            }
            if self.blocks[i].name == wanted {
                return Some(&self.blocks[i]);
            }
            i = i + 1;
        }
        proof {
            assert(self.spec_blocks().skip(n as int) =~= Seq::<(Seq<char>, u32)>::empty());
        }
        None
    }
}

} // verus!

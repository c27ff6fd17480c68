//! The storage connector: the block table, the three indices over it and
//! the payload heap, held together with the invariant that keeps lookups
//! sound.

use vstd::prelude::*;

use crate::block::Block;

verus! {

use crate::block::block_matches;

/// The store behind the block operations: an append-only record table, one
/// index per lookup path, and a heap of variable-length payloads.
///
/// Each index is a column of key tuples aligned with the table: the entry at
/// position `i` holds the key fields of record `i`, so an index search
/// yields record identifiers directly.
pub struct LbaseConnector {
    pub block_table: Vec<Block>,
    pub block_index_public: Vec<[u8; 64]>,
    pub block_index_public_group: Vec<([u8; 64], [u8; 32])>,
    pub block_index_public_group_key: Vec<([u8; 64], [u8; 32], [u8; 32])>,
    pub block_heap_data: Vec<Vec<u8>>,
}

impl LbaseConnector {
    /// The record table as a sequence of blocks.
    pub open spec fn blocks(self) -> Seq<Block> {
        self.block_table@
    }

    /// Well-formedness: the indices mirror the table row by row, every
    /// payload identifier resolves in the heap and belongs to one row only,
    /// the identity triple is unique among rows, and versions start at 1.
    pub open spec fn wf(self) -> bool {
        &&& self.block_index_public@.len() == self.blocks().len()
        &&& self.block_index_public_group@.len() == self.blocks().len()
        &&& self.block_index_public_group_key@.len() == self.blocks().len()
        &&& forall|i: int|
            0 <= i < self.blocks().len() ==> (#[trigger] self.block_index_public@[i])@
                == self.blocks()[i].public@
        &&& forall|i: int|
            0 <= i < self.blocks().len() ==> (#[trigger] self.block_index_public_group@[i]).0@
                == self.blocks()[i].public@ && self.block_index_public_group@[i].1@
                == self.blocks()[i].group@
        &&& forall|i: int|
            0 <= i < self.blocks().len() ==> (
            #[trigger] self.block_index_public_group_key@[i]).0@ == self.blocks()[i].public@
                && self.block_index_public_group_key@[i].1@ == self.blocks()[i].group@
                && self.block_index_public_group_key@[i].2@ == self.blocks()[i].key@
        &&& forall|i: int|
            0 <= i < self.blocks().len() ==> (#[trigger] self.blocks()[i].data as int)
                < self.block_heap_data@.len()
        &&& forall|i: int, j: int|
            0 <= i < self.blocks().len() && 0 <= j < self.blocks().len() && i != j ==> (
            #[trigger] self.blocks()[i]).data != (#[trigger] self.blocks()[j]).data
        &&& forall|i: int, j: int|
            0 <= i < self.blocks().len() && 0 <= j < self.blocks().len() && i != j ==> !((
            #[trigger] self.blocks()[i]).public@ == (#[trigger] self.blocks()[j]).public@
                && self.blocks()[i].group@ == self.blocks()[j].group@ && self.blocks()[i].key@
                == self.blocks()[j].key@)
        &&& forall|i: int| 0 <= i < self.blocks().len() ==> (#[trigger] self.blocks()[i]).version
            >= 1
    }

    /// Whether some row holds the identity triple.
    pub open spec fn has_block(self, public: Seq<u8>, group: Seq<u8>, key: Seq<u8>) -> bool {
        exists|i: int|
            0 <= i < self.blocks().len() && block_matches(
                #[trigger] self.blocks()[i],
                public,
                group,
                key,
            )
    }

    /// The row identifier of the block with the identity triple.
    pub open spec fn block_id(self, public: Seq<u8>, group: Seq<u8>, key: Seq<u8>) -> int {
        choose|i: int|
            0 <= i < self.blocks().len() && block_matches(
                #[trigger] self.blocks()[i],
                public,
                group,
                key,
            )
    }

    /// The block stored under the identity triple.
    pub open spec fn stored_block(self, public: Seq<u8>, group: Seq<u8>, key: Seq<u8>) -> Block {
        self.blocks()[self.block_id(public, group, key)]
    }

    /// The version currently held by the namespace, when `has_block`.
    pub open spec fn current_version(self, public: Seq<u8>, group: Seq<u8>, key: Seq<u8>) -> u64 {
        self.stored_block(public, group, key).version
    }

    /// The payload bytes currently held by the namespace, when `has_block`.
    pub open spec fn stored_payload(self, public: Seq<u8>, group: Seq<u8>, key: Seq<u8>) -> Seq<
        u8,
    > {
        self.block_heap_data@[self.stored_block(public, group, key).data as int]@
    }

    /// Open an empty store.
    pub fn new() -> (r: Self)
        ensures
            r.wf(),
            r.blocks().len() == 0,
            r.block_heap_data@.len() == 0,
    {
        LbaseConnector {
            block_table: Vec::new(),
            block_index_public: Vec::new(),
            block_index_public_group: Vec::new(),
            block_index_public_group_key: Vec::new(),
            block_heap_data: Vec::new(),
        }
    }
}

} // verus!

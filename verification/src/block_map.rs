//! The block grid of a ship: a map from integer grid positions to the
//! block stored there.
//!
//! Kept as an association list with unique positions; `block_count` is
//! maintained alongside and always equals the number of stored blocks.

use vstd::prelude::*;
use crate::Entity;

verus! {

/// What a block is made of.
#[derive(Clone, Copy, PartialEq, Eq, Hash, Debug, Structural)]
pub enum BlockType {
    Hull,
}

/// A block's orientation, packed into two bits per axis.
#[derive(Clone, Copy, PartialEq, Eq, Hash, Debug, Structural)]
pub struct BlockRotation(pub u8);

/// A position on a ship's integer grid.
#[derive(Clone, Copy, PartialEq, Eq, Hash, Debug, Structural)]
pub struct BlockPosition {
    pub x: i32,
    pub y: i32,
    pub z: i32,
}

impl BlockPosition {
    pub fn new(x: i32, y: i32, z: i32) -> (r: Self)
        ensures
            r == (BlockPosition { x, y, z }),
    {
        Self { x, y, z }
    }

    pub fn splat(v: i32) -> (r: Self)
        ensures
            r == (BlockPosition { x: v, y: v, z: v }),
    {
        Self { x: v, y: v, z: v }
    }
}

/// Everything stored for one occupied position.
#[derive(Clone, Copy, PartialEq, Eq, Hash, Debug, Structural)]
pub struct BlockMapEntry {
    pub block_type: BlockType,
    pub block_rotation: BlockRotation,
    pub entity: Entity,
}

/// The block grid itself.
pub struct BlockMap {
    /// The stored blocks, in insertion order; positions never repeat.
    pub blocks: Vec<(BlockPosition, BlockMapEntry)>,
    /// The number of blocks currently stored.
    pub block_count: i32,
}

impl BlockMap {
    /// The stored (position, entry) pairs, in insertion order.
    pub open spec fn pairs(self) -> Seq<(BlockPosition, BlockMapEntry)> {
        self.blocks@
    }

    /// Whether some block is stored at `pos`.
    pub open spec fn spec_contains(self, pos: BlockPosition) -> bool {
        exists|j: int| 0 <= j < self.pairs().len() && (#[trigger] self.pairs()[j]).0 == pos
    }

    /// The index of the block stored at `pos`.
    pub open spec fn index_of(self, pos: BlockPosition) -> int {
        choose|j: int| 0 <= j < self.pairs().len() && (#[trigger] self.pairs()[j]).0 == pos
    }

    /// Well-formedness: positions are unique and `block_count` counts the
    /// stored blocks.
    pub open spec fn wf(self) -> bool {
        &&& forall|i: int, j: int|
            0 <= i < j < self.pairs().len() ==> (#[trigger] self.pairs()[i]).0 != (
            #[trigger] self.pairs()[j]).0
        &&& self.block_count == self.pairs().len()
        &&& self.pairs().len() <= i32::MAX
    }

    pub fn new() -> (r: Self)
        ensures
            r.wf(),
            r.pairs() == Seq::<(BlockPosition, BlockMapEntry)>::empty(),
            r.block_count == 0,
    {
        Self { blocks: Vec::new(), block_count: 0 }
    }

    fn find(&self, position: &BlockPosition) -> (r: Option<usize>)
        requires
            self.wf(),
        ensures
            r matches Some(j) ==> self.spec_contains(*position) && 0 <= j < self.pairs().len()
                && self.pairs()[j as int].0 == *position && j as int == self.index_of(*position),
            r is None ==> !self.spec_contains(*position),
    {
        let n = self.blocks.len();
        let mut j: usize = 0;
        while j < n
            invariant
                self.wf(),
                n == self.pairs().len(),
                j <= n,
                forall|t: int| 0 <= t < j ==> (#[trigger] self.pairs()[t]).0 != *position,
            decreases n - j,
        {
            let (p, _) = self.blocks[j];
            if p.x == position.x && p.y == position.y && p.z == position.z {
                proof {
                    assert(self.pairs()[j as int].0 == *position);
                    let w = self.index_of(*position);
                    if w != j as int {
                        assert(self.pairs()[w].0 != self.pairs()[j as int].0);
                    }
                }
                return Some(j);
            }
            j = j + 1;
        }
        None
    }

    /// The handle of the block at `position`, if occupied.
    pub fn get(&self, position: &BlockPosition) -> (r: Option<Entity>)
        requires
            self.wf(),
        ensures
            r matches Some(e) ==> self.spec_contains(*position) && e == self.pairs()[self.index_of(
                *position,
            )].1.entity,
            r is None ==> !self.spec_contains(*position),
    {
        match self.find(position) {
            Some(j) => Some(self.blocks[j].1.entity),
            None => None,
        }
    }

    /// The whole entry at `position`, if occupied.
    pub fn get_entry(&self, position: &BlockPosition) -> (r: Option<BlockMapEntry>)
        requires
            self.wf(),
        ensures
            r matches Some(e) ==> self.spec_contains(*position) && e == self.pairs()[self.index_of(
                *position,
            )].1,
            r is None ==> !self.spec_contains(*position),
    {
        match self.find(position) {
            Some(j) => Some(self.blocks[j].1),
            None => None,
        }
    }

    /// The block type at `position`, if occupied.
    pub fn get_type(&self, position: &BlockPosition) -> (r: Option<BlockType>)
        requires
            self.wf(),
        ensures
            r matches Some(t) ==> self.spec_contains(*position) && t == self.pairs()[self.index_of(
                *position,
            )].1.block_type,
            r is None ==> !self.spec_contains(*position),
    {
        match self.find(position) {
            Some(j) => Some(self.blocks[j].1.block_type),
            None => None,
        }
    }

    /// Stores a block at `position`, returning the entry it replaced if
    /// the position was occupied.
    pub fn set(
        &mut self,
        entity: Entity,
        block_type: BlockType,
        position: BlockPosition,
        block_rotation: BlockRotation,
    ) -> (r: Option<BlockMapEntry>)
        requires
            old(self).wf(),
            old(self).pairs().len() < i32::MAX,
        ensures
            final(self).wf(),
            old(self).spec_contains(position) ==> {
                &&& r == Some(old(self).pairs()[old(self).index_of(position)].1)
                &&& final(self).pairs() == old(self).pairs().update(
                    old(self).index_of(position),
                    (position, BlockMapEntry { block_type, block_rotation, entity }),
                )
                &&& final(self).block_count == old(self).block_count
            },
            !old(self).spec_contains(position) ==> {
                &&& r is None
                &&& final(self).pairs() == old(self).pairs().push(
                    (position, BlockMapEntry { block_type, block_rotation, entity }),
                )
                &&& final(self).block_count == old(self).block_count + 1
            },
    {
        let entry = BlockMapEntry { block_type, block_rotation, entity };
        match self.find(&position) {
            Some(j) => {
                let r = self.blocks[j].1;
                self.blocks.set(j, (position, entry));
                Some(r)
            },
            None => {
                self.blocks.push((position, entry));
                self.block_count = self.block_count + 1;
                None
            },
        }
    }

    /// Removes the block at `position`, returning its handle if the
    /// position was occupied.
    pub fn remove(&mut self, position: &BlockPosition) -> (r: Option<Entity>)
        requires
            old(self).wf(),
        ensures
            final(self).wf(),
            old(self).spec_contains(*position) ==> {
                &&& r == Some(old(self).pairs()[old(self).index_of(*position)].1.entity)
                &&& final(self).pairs() == old(self).pairs().remove(old(self).index_of(*position))
                &&& final(self).block_count == old(self).block_count - 1
                &&& !final(self).spec_contains(*position)
            },
            !old(self).spec_contains(*position) ==> r is None && final(self).pairs() == old(
                self,
            ).pairs() && final(self).block_count == old(self).block_count,
    {
        match self.find(position) {
            Some(j) => {
                let (_, e) = self.blocks.remove(j);
                self.block_count = self.block_count - 1;
                proof {
                    let w = old(self).index_of(*position);
                    assert forall|t: int|
                        0 <= t < self.pairs().len() implies (#[trigger] self.pairs()[t]).0
                        != *position by {
                        if t < w {
                            assert(self.pairs()[t] == old(self).pairs()[t]);
                        } else {
                            assert(self.pairs()[t] == old(self).pairs()[t + 1]);
                        }
                    }
                }
                Some(e.entity)
            },
            None => None,
        }
    }

    /// All stored (position, entry) pairs, for iteration by the caller.
    pub fn entries(&self) -> (r: &Vec<(BlockPosition, BlockMapEntry)>)
        ensures
            r@ == self.pairs(),
    {
        &self.blocks
    }
}

} // verus!

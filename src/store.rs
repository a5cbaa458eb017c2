//! A bounded, height-indexed store of accepted block hashes and their
//! targets. It holds one contiguous window of heights; writing past the top
//! when full evicts the lowest height.
use vstd::prelude::*;

verus! {

/// What the store keeps for one height (the height is its place in the
/// window): the block hash and the target the block was mined at.
#[derive(Clone, Copy, Debug, PartialEq, Eq)]
pub struct BlockHashEntry {
    pub hash: [u8; 32],
    pub target: [u8; 32],
}

/// Why a store operation did not take place.
#[derive(Clone, Copy, Debug, PartialEq, Eq, Structural)]
pub enum StoreError {
    /// No entry at that height.
    NotFound,
    /// The height neither lies in the window nor extends it by one.
    NotAdjacent,
}

/// The store as a value: the lowest height held, the entries from there
/// upwards, and the capacity.
pub struct StoreView {
    pub base: nat,
    pub blocks: Seq<BlockHashEntry>,
    pub capacity: nat,
}

pub struct BlockHashStore {
    base: u64,
    blocks: Vec<BlockHashEntry>,
    capacity: usize,
}

impl View for BlockHashStore {
    type V = StoreView;

    closed spec fn view(&self) -> StoreView {
        StoreView { base: self.base as nat, blocks: self.blocks@, capacity: self.capacity as nat }
    }
}

impl BlockHashStore {
    /// Capacity at least one, never more entries than that, and every held
    /// height a `u64`.
    pub open spec fn wf(&self) -> bool {
        &&& self@.capacity >= 1
        &&& self@.blocks.len() <= self@.capacity
        &&& self@.capacity <= usize::MAX
        &&& self@.base + self@.blocks.len() <= u64::MAX + 1
    }

    /// The entry at height `h`, if the window holds it.
    pub open spec fn lookup(&self, h: int) -> Option<BlockHashEntry> {
        if self@.base <= h < self@.base + self@.blocks.len() {
            Some(self@.blocks[h - self@.base])
        } else {
            None
        }
    }

    /// The highest height held (meaningful when the store is not empty).
    pub open spec fn top(&self) -> int {
        self@.base + self@.blocks.len() - 1
    }

    /// Whether `put` takes a write at height `h`.
    pub open spec fn accepts_put(&self, h: int) -> bool {
        self@.blocks.len() == 0 || self@.base <= h <= self.top() + 1
    }

    /// The store after an accepted write of `b` at height `h`.
    pub open spec fn after_put(&self, h: int, b: BlockHashEntry) -> StoreView {
        if self@.blocks.len() == 0 {
            StoreView { base: h as nat, blocks: seq![b], capacity: self@.capacity }
        } else if h <= self.top() {
            StoreView {
                base: self@.base,
                blocks: self@.blocks.update(h - self@.base, b),
                capacity: self@.capacity,
            }
        } else if self@.blocks.len() < self@.capacity {
            StoreView { base: self@.base, blocks: self@.blocks.push(b), capacity: self@.capacity }
        } else {
            StoreView {
                base: self@.base + 1,
                blocks: self@.blocks.push(b).subrange(1, self@.blocks.len() + 1 as int),
                capacity: self@.capacity,
            }
        }
    }

    /// A store holding one entry.
    pub fn new(capacity: usize, height: u64, block: BlockHashEntry) -> (r: Self)
        requires
            capacity >= 1,
        ensures
            r.wf(),
            r@.capacity == capacity,
            r@.base == height,
            r@.blocks == seq![block],
    {
        let mut blocks: Vec<BlockHashEntry> = Vec::new();
        blocks.push(block);
        proof {
            assert(blocks@ =~= seq![block]);
        }
        BlockHashStore { base: height, blocks, capacity }
    }

    pub fn len(&self) -> (r: usize)
        ensures
            r == self@.blocks.len(),
    {
        self.blocks.len()
    }

    pub fn capacity(&self) -> (r: usize)
        ensures
            r == self@.capacity,
    {
        self.capacity
    }

    /// The entry at `height`.
    pub fn get(&self, height: u64) -> (r: Result<BlockHashEntry, StoreError>)
        requires
            self.wf(),
        ensures
            match self.lookup(height as int) {
                Some(b) => r == Ok::<BlockHashEntry, StoreError>(b),
                None => r == Err::<BlockHashEntry, StoreError>(StoreError::NotFound),
            },
    {
        if height >= self.base && height - self.base < self.blocks.len() as u64 {
            Ok(self.blocks[(height - self.base) as usize])
        } else {
            Err(StoreError::NotFound)
        }
    }

    /// The lowest and highest heights held, if any.
    pub fn range(&self) -> (r: Option<(u64, u64)>)
        requires
            self.wf(),
        ensures
            r is None <==> self@.blocks.len() == 0,
            r matches Some((lo, hi)) ==> lo == self@.base && hi == self.top(),
    {
        if self.blocks.len() == 0 {
            None
        } else {
            Some((self.base, self.base + (self.blocks.len() - 1) as u64))
        }
    }

    /// Writes the entry at `height`: over an entry the window holds, or one
    /// above its top (evicting the lowest entry when the store is full), or
    /// anywhere when the store is empty.
    pub fn put(&mut self, height: u64, block: BlockHashEntry) -> (r: Result<(), StoreError>)
        requires
            old(self).wf(),
        ensures
            final(self).wf(),
            final(self)@.capacity == old(self)@.capacity,
            r is Ok <==> old(self).accepts_put(height as int),
            r is Err ==> final(self)@ == old(self)@,
            r is Ok ==> final(self)@ == old(self).after_put(height as int, block),
    {
        let n = self.blocks.len();
        if n == 0 {
            self.base = height;
            self.blocks.push(block);
            proof {
                assert(self.blocks@ =~= seq![block]);
            }
            return Ok(());
        }
        if height < self.base {
            return Err(StoreError::NotAdjacent);
        }
        let offset = height - self.base;
        if offset < n as u64 {
            self.blocks.set(offset as usize, block);
            return Ok(());
        }
        if offset > n as u64 {
            return Err(StoreError::NotAdjacent);
        }
        self.blocks.push(block);
        if n == self.capacity {
            self.blocks.remove(0);
            self.base = self.base + 1;
            proof {
                assert(self.blocks@ =~= old(self)@.blocks.push(block).subrange(1, n + 1));
            }
        }
        Ok(())
    }

    /// Removes every entry above `height`.
    pub fn prune_above(&mut self, height: u64)
        requires
            old(self).wf(),
        ensures
            final(self).wf(),
            final(self)@.capacity == old(self)@.capacity,
            final(self)@.base == old(self)@.base,
            height < old(self)@.base ==> final(self)@.blocks.len() == 0,
            old(self)@.base <= height ==> final(self)@.blocks == old(self)@.blocks.subrange(0, vstd::math::min(old(self)@.blocks.len() as int, height - old(self)@.base + 1)),
    {
        if height < self.base {
            self.blocks.clear();
            return;
        }
        let keep = height - self.base;
        if keep < self.blocks.len() as u64 {
            self.blocks.truncate((keep + 1) as usize);
        }
        proof {
            assert(self.blocks@ =~= old(self)@.blocks.subrange(
                0,
                vstd::math::min(old(self)@.blocks.len() as int, height - old(self)@.base + 1),
            ));
        }
    }
}

} // verus!

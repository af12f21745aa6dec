//! Translation of block, item and entity ids between the newest numbering,
//! in which the world is stored, and the numbering of each older version.

use vstd::prelude::*;
use crate::version::{BlockVersion, BLOCK_VERSIONS};

verus! {

/// The block ids of one version.
#[derive(Debug)]
pub struct BlockIds {
    /// By newest id: the id in this version.
    pub to_old: Vec<u32>,
    /// By id in this version: the newest id.
    pub to_new: Vec<u32>,
    pub ver: BlockVersion,
}

/// The item ids of one version. An old item is an id and a damage value.
#[derive(Debug)]
pub struct ItemIds {
    /// By newest id: the id and damage in this version.
    pub to_old: Vec<(u32, u32)>,
    /// By id in this version, then by damage: the newest id.
    pub to_new: Vec<Vec<u32>>,
    pub ver: BlockVersion,
}

/// The entity ids of one version.
#[derive(Debug)]
pub struct EntityIds {
    /// By newest id: the id in this version.
    pub to_old: Vec<u32>,
    /// By id in this version: the newest id.
    pub to_new: Vec<u32>,
    pub ver: BlockVersion,
}

/// The tables of every version, by [`BlockVersion::spec_index`].
#[derive(Debug)]
pub struct TypeConverter {
    pub blocks: Vec<BlockIds>,
    pub items: Vec<ItemIds>,
    pub entities: Vec<EntityIds>,
}

/// What a table says of `id`, or 0 where it says nothing.
pub open spec fn lookup(table: Seq<u32>, id: u32) -> u32 {
    if id < table.len() {
        table[id as int]
    } else {
        0
    }
}

fn lookup_exec(table: &Vec<u32>, id: u32) -> (r: u32)
    ensures
        r == lookup(table@, id),
{
    if (id as usize) < table.len() {
        table[id as usize]
    } else {
        0
    }
}

impl TypeConverter {
    /// Whether there is a table for every version.
    pub open spec fn wf(self) -> bool {
        &&& self.blocks@.len() == BLOCK_VERSIONS
        &&& self.items@.len() == BLOCK_VERSIONS
        &&& self.entities@.len() == BLOCK_VERSIONS
    }

    /// The converter over the given tables, or `None` unless there is one
    /// of each kind for every version.
    pub fn new(blocks: Vec<BlockIds>, items: Vec<ItemIds>, entities: Vec<EntityIds>) -> (r: Option<
        TypeConverter,
    >)
        ensures
            r.is_some() == (blocks@.len() == BLOCK_VERSIONS && items@.len() == BLOCK_VERSIONS
                && entities@.len() == BLOCK_VERSIONS),
            r matches Some(c) ==> c.wf() && c.blocks == blocks && c.items == items && c.entities
                == entities,
    {
        if blocks.len() == BLOCK_VERSIONS && items.len() == BLOCK_VERSIONS && entities.len()
            == BLOCK_VERSIONS {
            Some(TypeConverter { blocks, items, entities })
        } else {
            None
        }
    }

    /// The newest id of the block that version `ver` calls `id`: air stays
    /// air, the newest version's ids stay as they are, and a block that the
    /// table does not know becomes air.
    pub open spec fn spec_block_to_new(self, id: u32, ver: BlockVersion) -> u32 {
        if id == 0 {
            0
        } else if ver == BlockVersion::spec_latest() {
            id
        } else {
            lookup(self.blocks@[ver.spec_index()].to_new@, id)
        }
    }

    /// The id in version `ver` of the block whose newest id is `id`: air
    /// stays air, the newest version's ids stay as they are, and a block
    /// that the table does not know becomes air.
    pub open spec fn spec_block_to_old(self, id: u32, ver: BlockVersion) -> u32 {
        if id == 0 {
            0
        } else if ver == BlockVersion::spec_latest() {
            id
        } else {
            lookup(self.blocks@[ver.spec_index()].to_old@, id)
        }
    }

    /// Whether version `ver` has the block whose newest id is `id`: its
    /// tables lead from the id to an old id other than air and back.
    pub open spec fn block_present(self, id: u32, ver: BlockVersion) -> bool {
        id == 0 || ver == BlockVersion::spec_latest() || (self.spec_block_to_old(id, ver) != 0
            && lookup(self.blocks@[ver.spec_index()].to_new@, self.spec_block_to_old(id, ver))
            == id)
    }

    pub fn block_to_new(&self, id: u32, ver: BlockVersion) -> (r: u32)
        requires
            self.wf(),
        ensures
            r == self.spec_block_to_new(id, ver),
    {
        if id == 0 {
            return 0;
        }
        if ver.is_latest() {
            return id;
        }
        lookup_exec(&self.blocks[ver.to_index()].to_new, id)
    }

    pub fn block_to_old(&self, id: u32, ver: BlockVersion) -> (r: u32)
        requires
            self.wf(),
        ensures
            r == self.spec_block_to_old(id, ver),
    {
        if id == 0 {
            return 0;
        }
        if ver.is_latest() {
            return id;
        }
        lookup_exec(&self.blocks[ver.to_index()].to_old, id)
    }

    /// The newest id of the item that version `ver` calls `id` with damage
    /// `damage`.
    pub open spec fn spec_item_to_new(self, id: u32, damage: u32, ver: BlockVersion) -> u32 {
        if id == 0 {
            0
        } else if ver == BlockVersion::spec_latest() {
            id
        } else if id < self.items@[ver.spec_index()].to_new@.len() {
            lookup(self.items@[ver.spec_index()].to_new@[id as int]@, damage)
        } else {
            0
        }
    }

    /// The id and damage in version `ver` of the item whose newest id is
    /// `id`.
    pub open spec fn spec_item_to_old(self, id: u32, ver: BlockVersion) -> (u32, u32) {
        if id == 0 {
            (0, 0)
        } else if ver == BlockVersion::spec_latest() {
            (id, 0)
        } else if id < self.items@[ver.spec_index()].to_old@.len() {
            self.items@[ver.spec_index()].to_old@[id as int]
        } else {
            (0, 0)
        }
    }

    pub fn item_to_new(&self, id: u32, damage: u32, ver: BlockVersion) -> (r: u32)
        requires
            self.wf(),
        ensures
            r == self.spec_item_to_new(id, damage, ver),
    {
        if id == 0 {
            return 0;
        }
        if ver.is_latest() {
            return id;
        }
        let table = &self.items[ver.to_index()].to_new;
        if (id as usize) < table.len() {
            lookup_exec(&table[id as usize], damage)
        } else {
            0
        }
    }

    pub fn item_to_old(&self, id: u32, ver: BlockVersion) -> (r: (u32, u32))
        requires
            self.wf(),
        ensures
            r == self.spec_item_to_old(id, ver),
    {
        if id == 0 {
            return (0, 0);
        }
        if ver.is_latest() {
            return (id, 0);
        }
        let table = &self.items[ver.to_index()].to_old;
        if (id as usize) < table.len() {
            table[id as usize]
        } else {
            (0, 0)
        }
    }

    /// The newest id of the entity that version `ver` calls `id`.
    pub open spec fn spec_entity_to_new(self, id: u32, ver: BlockVersion) -> u32 {
        if id == 0 {
            0
        } else if ver == BlockVersion::spec_latest() {
            id
        } else {
            lookup(self.entities@[ver.spec_index()].to_new@, id)
        }
    }

    /// The id in version `ver` of the entity whose newest id is `id`.
    pub open spec fn spec_entity_to_old(self, id: u32, ver: BlockVersion) -> u32 {
        if id == 0 {
            0
        } else if ver == BlockVersion::spec_latest() {
            id
        } else {
            lookup(self.entities@[ver.spec_index()].to_old@, id)
        }
    }

    pub fn entity_to_new(&self, id: u32, ver: BlockVersion) -> (r: u32)
        requires
            self.wf(),
        ensures
            r == self.spec_entity_to_new(id, ver),
    {
        if id == 0 {
            return 0;
        }
        if ver.is_latest() {
            return id;
        }
        lookup_exec(&self.entities[ver.to_index()].to_new, id)
    }

    pub fn entity_to_old(&self, id: u32, ver: BlockVersion) -> (r: u32)
        requires
            self.wf(),
        ensures
            r == self.spec_entity_to_old(id, ver),
    {
        if id == 0 {
            return 0;
        }
        if ver.is_latest() {
            return id;
        }
        lookup_exec(&self.entities[ver.to_index()].to_old, id)
    }

    /// Whether version `ver` has the block whose newest id is `id` (see
    /// [`TypeConverter::block_present`]).
    pub fn has_block(&self, id: u32, ver: BlockVersion) -> (r: bool)
        requires
            self.wf(),
        ensures
            r == self.block_present(id, ver),
    {
        if id == 0 || ver.is_latest() {
            return true;
        }
        let old = self.block_to_old(id, ver);
        old != 0 && lookup_exec(&self.blocks[ver.to_index()].to_new, old) == id
    }

    /// Translating a block to a version that has it and back gives the
    /// block; air is air in every version, in both directions; and the
    /// newest version's ids are not changed.
    pub proof fn type_converter_identity(self, id: u32, ver: BlockVersion)
        requires
            self.wf(),
        ensures
            self.block_present(id, ver) ==> self.spec_block_to_new(
                self.spec_block_to_old(id, ver),
                ver,
            ) == id,
            self.spec_block_to_new(0, ver) == 0,
            self.spec_block_to_old(0, ver) == 0,
            self.spec_block_to_new(id, BlockVersion::spec_latest()) == id,
            self.spec_block_to_old(id, BlockVersion::spec_latest()) == id,
            self.spec_item_to_new(0, 0, ver) == 0,
            self.spec_item_to_old(0, ver) == (0u32, 0u32),
            self.spec_item_to_new(id, 0, BlockVersion::spec_latest()) == id,
            self.spec_item_to_old(id, BlockVersion::spec_latest()) == (id, 0u32),
            self.spec_entity_to_new(0, ver) == 0,
            self.spec_entity_to_old(0, ver) == 0,
            self.spec_entity_to_new(id, BlockVersion::spec_latest()) == id,
            self.spec_entity_to_old(id, BlockVersion::spec_latest()) == id,
    {
    }
}

} // verus!

//! The structured records that the tag tree of a chunk decodes into.
use vstd::prelude::*;
use crate::names::{split_first, split_once_at, str_equals};

verus! {

#[verifier::external_type_specification]
#[verifier::external_body]
pub struct ExValue(fastnbt::Value);

/// Relies on the derived `Clone` of fastnbt::Value: a deep copy of the tag.
pub assume_specification[ <fastnbt::Value as Clone>::clone ](v: &fastnbt::Value) -> (r: fastnbt::Value)
    ensures
        r == *v,
;

/// A namespace that can show up in the game.
#[derive(Debug, PartialEq, Eq)]
pub enum Namespace {
    /// Default namespace for every vanilla item, block and the like.
    Minecraft,
    /// Custom namespace, used in mods and data packs.
    Custom(String),
}

impl Clone for Namespace {
    fn clone(&self) -> (r: Self)
        ensures
            r == *self,
    {
        match self {
            Namespace::Minecraft => Namespace::Minecraft,
            Namespace::Custom(s) => Namespace::Custom(s.clone()),
        }
    }
}

/// The characters of the vanilla namespace.
pub open spec fn minecraft_chars() -> Seq<char> {
    seq!['m', 'i', 'n', 'e', 'c', 'r', 'a', 'f', 't']
}

impl Namespace {
    /// The namespace that `value` names.
    pub fn from_name(value: &str) -> (r: Namespace)
        ensures
            value@ == minecraft_chars() ==> r == Namespace::Minecraft,
            value@ != minecraft_chars() ==> (r matches Namespace::Custom(s) && s@ == value@),
    {
        proof { reveal_strlit("minecraft"); }
        assert("minecraft"@ =~= minecraft_chars());
        if str_equals(value, "minecraft") {
            return Namespace::Minecraft;
        }
        Namespace::Custom(value.to_owned())
    }
}

/// A key with a namespace.
#[derive(Debug, PartialEq, Eq)]
pub struct NamespacedKey {
    /// The namespace of this key.
    pub namespace: Namespace,
    /// The key itself.
    pub key: String,
}

impl Clone for NamespacedKey {
    fn clone(&self) -> (r: Self)
        ensures
            r == *self,
    {
        NamespacedKey { namespace: self.namespace.clone(), key: self.key.clone() }
    }
}

impl NamespacedKey {
    /// A key in the namespace that `namespace` names.
    pub fn new(namespace: &str, key: String) -> (r: Self)
        ensures
            namespace@ == minecraft_chars() ==> r.namespace == Namespace::Minecraft,
            namespace@ != minecraft_chars() ==> (r.namespace matches Namespace::Custom(s) && s@
                == namespace@),
            r.key == key,
    {
        NamespacedKey { namespace: Namespace::from_name(namespace), key }
    }

    /// A key in the vanilla namespace.
    pub fn minecraft(key: String) -> (r: Self)
        ensures
            r.namespace == Namespace::Minecraft,
            r.key == key,
    {
        NamespacedKey { namespace: Namespace::Minecraft, key }
    }

    /// The key that a resource location names: `namespace:key`, cut at
    /// the first `:`, or a bare key in the vanilla namespace.
    pub fn from_name(value: &str) -> (r: Self)
        ensures
            match split_first(value@, ':') {
                None => r.namespace == Namespace::Minecraft && r.key@ == value@,
                Some(p) => {
                    &&& r.key@ == p.1
                    &&& p.0 == minecraft_chars() ==> r.namespace == Namespace::Minecraft
                    &&& p.0 != minecraft_chars() ==> (r.namespace matches Namespace::Custom(s)
                        && s@ == p.0)
                },
            },
    {
        match split_once_at(value, ':') {
            Some((ns, key)) => NamespacedKey::new(ns, key.to_owned()),
            None => NamespacedKey::minecraft(value.to_owned()),
        }
    }
}

/// The world generation status of a chunk.
#[derive(Debug, Clone, Copy, PartialEq, Eq, Structural)]
pub enum Status {
    /// `minecraft:empty`
    Empty,
    /// `minecraft:structure_starts`
    StructureStarts,
    /// `minecraft:structure_references`
    StructureReferences,
    /// `minecraft:biomes`
    Biomes,
    /// `minecraft:noise`
    Noise,
    /// `minecraft:surface`
    Surface,
    /// `minecraft:carvers`
    Carvers,
    /// `minecraft:features`
    Features,
    /// `minecraft:light`
    Light,
    /// `minecraft:spawn`
    Spawn,
    /// `minecraft:full`
    Full,
}

/// Biome blending data.
#[derive(Debug, Clone, Copy, PartialEq, Eq, Structural)]
pub struct BlendingData {
    /// Lowest section of the blending.
    pub min_section: i32,
    /// Highest section of the blending.
    pub max_section: i32,
}

/// A height map: 256 values of 9 bits, seven to a 64-bit word.
#[derive(Debug, Clone, PartialEq)]
pub struct HeightMap {
    /// The packed words.
    pub raw: Vec<i64>,
}

impl HeightMap {
    /// The height at a column of the chunk: the stored 9-bit value less 65.
    pub fn get_height(&self, block_x: u32, block_z: u32) -> (r: i32)
        requires
            block_x < 16,
            block_z < 16,
            self.raw@.len() > (block_z * 16 + block_x) / 7,
        ensures
            ({
                let index = block_z * 16 + block_x;
                r == ((self.raw@[index / 7] as u64 >> ((index % 7) * 9) as u64) & 511u64) - 65
            }),
    {
        let index = (block_z * 16 + block_x) as usize;
        #[verifier::truncate]
        let word = self.raw[index / 7] as u64;
        let shift = ((index % 7) * 9) as u64;
        let num = (word >> shift) & 511u64;
        assert(num <= 511) by (bit_vector)
            requires
                num == (word >> shift) & 511u64,
        ;
        num as i32 - 65
    }
}

/// The height maps of a chunk.
#[derive(Debug, Clone, PartialEq)]
pub struct HeightMaps {
    /// Highest block that blocks motion or holds a fluid.
    pub motion_blocking: HeightMap,
    /// As `motion_blocking`, leaves excepted.
    pub motion_blocking_no_leaves: HeightMap,
    /// Highest block that blocks motion.
    pub ocean_floor: HeightMap,
    /// As `ocean_floor`, during world generation.
    pub ocean_floor_wg: Option<HeightMap>,
    /// Highest block that is not air.
    pub world_surface: HeightMap,
    /// As `world_surface`, during world generation.
    pub world_surface_wg: Option<HeightMap>,
}

/// A block of a section's palette.
#[derive(Debug, PartialEq)]
pub struct BlockState {
    /// The block's resource location.
    pub name: NamespacedKey,
    /// The properties of the block state.
    pub properties: Option<fastnbt::Value>,
}

impl Clone for BlockState {
    fn clone(&self) -> (r: Self)
        ensures
            r == *self,
    {
        let properties = match &self.properties {
            Some(v) => Some(v.clone()),
            None => None,
        };
        BlockState { name: self.name.clone(), properties }
    }
}

/// The blocks of a section: a palette and, where it has more than one
/// entry, a packed array of 4096 indices into it.
#[derive(Debug, Clone, PartialEq)]
pub struct BlockStates {
    /// The distinct block states used in the section.
    pub palette: Vec<BlockState>,
    /// The packed indices, absent where the palette has a single entry.
    pub data: Option<Vec<i64>>,
}

/// The biomes of a section: a palette and, where it has more than one
/// entry, a packed array of 64 indices into it.
#[derive(Debug, Clone, PartialEq)]
pub struct Biomes {
    /// The distinct biomes used in the section.
    pub palette: Vec<String>,
    /// The packed indices, absent where the palette has a single entry.
    pub data: Option<Vec<i64>>,
}

/// A scheduled block or fluid update.
#[derive(Debug, Clone, PartialEq, Eq)]
pub struct TileTick {
    /// The id of the block.
    pub id: String,
    /// Ticks of lower priority are processed first.
    pub priority: i32,
    /// Ticks until processing; negative when overdue.
    pub ticks: i32,
    /// x position.
    pub x: i32,
    /// y position.
    pub y: i32,
    /// z position.
    pub z: i32,
}

/// A 16x16x16 section of a chunk.
#[derive(Debug, Clone, PartialEq)]
pub struct ChunkSection {
    /// The blocks of the section.
    pub block_states: Option<BlockStates>,
    /// The section's height, in sections.
    pub y: i8,
    /// The biomes of the section.
    pub biomes: Option<Biomes>,
}

/// The tag tree of a chunk.
#[derive(Debug, Clone, PartialEq)]
pub struct ChunkNbt {
    /// Version of the chunk structure.
    pub data_version: i32,
    /// x position of the chunk, in chunks from the world origin.
    pub x_pos: i32,
    /// z position of the chunk, in chunks from the world origin.
    pub z_pos: i32,
    /// Lowest section of the chunk.
    pub y_pos: i32,
    /// The world generation status.
    pub status: Status,
    /// Tick when the chunk was last saved.
    pub last_update: i64,
    /// Block entities of the chunk.
    pub block_entities: Vec<fastnbt::Value>,
    /// The height maps.
    pub height_maps: HeightMaps,
    /// Fluids waiting to be updated.
    pub fluid_ticks: Vec<fastnbt::Value>,
    /// Blocks waiting to be updated.
    pub block_ticks: Vec<fastnbt::Value>,
    /// Cumulative ticks that players have spent in the chunk.
    pub inhabited_time: i64,
    /// Biome blending data.
    pub blending_data: BlendingData,
    /// Blocks to update when the chunk is completed, one list per section.
    pub post_processing: [Vec<fastnbt::Value>; 24],
    /// Structure data.
    pub structures: fastnbt::Value,
    /// The sections of the chunk, empty ones included.
    pub sections: Vec<ChunkSection>,
}

} // verus!

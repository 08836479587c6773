use mca_parser::data::{get_item_in_packed_slice, index_bits_for, ParsedChunk};
use mca_parser::nbt::{
    Biomes, BlendingData, BlockState, BlockStates, ChunkNbt, ChunkSection, HeightMap, HeightMaps,
    Namespace, NamespacedKey, Status,
};
use mca_parser::util::{positive_div, positive_mod};
use mca_parser::Error;

fn height_map() -> HeightMap {
    HeightMap { raw: vec![0; 37] }
}

fn chunk_with(sections: Vec<ChunkSection>) -> ParsedChunk {
    ParsedChunk::new(ChunkNbt {
        data_version: 3700,
        x_pos: 0,
        z_pos: 0,
        y_pos: -4,
        status: Status::Full,
        last_update: 0,
        block_entities: Vec::new(),
        height_maps: HeightMaps {
            motion_blocking: height_map(),
            motion_blocking_no_leaves: height_map(),
            ocean_floor: height_map(),
            ocean_floor_wg: None,
            world_surface: height_map(),
            world_surface_wg: None,
        },
        fluid_ticks: Vec::new(),
        block_ticks: Vec::new(),
        inhabited_time: 0,
        blending_data: BlendingData { min_section: 0, max_section: 0 },
        post_processing: std::array::from_fn(|_| Vec::new()),
        structures: fastnbt::Value::Compound(std::collections::HashMap::new()),
        sections,
    })
}

fn block(name: &str) -> BlockState {
    BlockState { name: NamespacedKey::minecraft(name.to_string()), properties: None }
}

fn section(y: i8, palette: Vec<BlockState>, data: Option<Vec<i64>>) -> ChunkSection {
    ChunkSection { block_states: Some(BlockStates { palette, data }), y, biomes: None }
}

#[test]
fn test_get_item_in_packed_slice() {
    let slice = &[0; 128];
    assert_eq!(get_item_in_packed_slice(slice, 15, 2), 0);
    let slice = &[0; 456];
    assert_eq!(get_item_in_packed_slice(slice, 15, 7), 0);
}

#[test]
fn packed_fields_do_not_straddle_words() {
    // 5-bit fields: twelve to a word, the top four bits unused.
    let mut words = vec![0u64; 342];
    words[0] = 0b10101 << 55 | 0b00011;
    words[1] = 0b01110;
    assert_eq!(get_item_in_packed_slice(&words, 0, 5), 3);
    assert_eq!(get_item_in_packed_slice(&words, 11, 5), 21);
    assert_eq!(get_item_in_packed_slice(&words, 12, 5), 14);
}

#[test]
fn index_width() {
    assert_eq!(index_bits_for(1, 4), 4);
    assert_eq!(index_bits_for(16, 4), 4);
    assert_eq!(index_bits_for(17, 4), 5);
    assert_eq!(index_bits_for(1, 1), 1);
    assert_eq!(index_bits_for(2, 1), 1);
    assert_eq!(index_bits_for(3, 1), 2);
    assert_eq!(index_bits_for(5, 1), 3);
    assert_eq!(index_bits_for(0, 0), 0);
}

#[test]
fn zero_data_decodes_to_first_entry() {
    let palette = vec![block("stone"), block("dirt")];
    let chunk = chunk_with(vec![section(0, palette, Some(vec![0; 256]))]);
    for (x, y, z) in [(0, 0, 0), (15, 15, 15), (3, 7, 9)] {
        let b = chunk.get_block(x, y, z).unwrap().unwrap();
        assert_eq!(b.name.key, "stone");
    }
}

#[test]
fn single_entry_palette_fills_section() {
    let chunk = chunk_with(vec![section(-1, vec![block("water")], None)]);
    for (x, y, z) in [(0, -16, 0), (15, -1, 15), (4, -9, 11)] {
        let b = chunk.get_block(x, y, z).unwrap().unwrap();
        assert_eq!(b.name.namespace, Namespace::Minecraft);
        assert_eq!(b.name.key, "water");
    }
    assert!(matches!(chunk.get_block(0, 0, 0), Ok(None)));
}

#[test]
fn decoding_twice_agrees() {
    let mut data = vec![0i64; 256];
    data[3] = 0x10;
    let palette = vec![block("air"), block("stone")];
    let chunk = chunk_with(vec![section(0, palette, Some(data))]);
    let first = chunk.get_block(1, 3, 0).unwrap();
    let second = chunk.get_block(1, 3, 0).unwrap();
    assert_eq!(first, second);
}

#[test]
fn packed_index_selects_entry() {
    // block (x=1, y=0, z=0) is index 1: bits 4..8 of the first word.
    let mut data = vec![0i64; 256];
    data[0] = 0x10;
    let palette = vec![block("air"), block("stone")];
    let chunk = chunk_with(vec![section(2, palette, Some(data))]);
    assert_eq!(chunk.get_block(1, 32, 0).unwrap().unwrap().name.key, "stone");
    assert_eq!(chunk.get_block(0, 32, 0).unwrap().unwrap().name.key, "air");
    assert_eq!(chunk.get_block_from_absolute_coords(-15, 32, -16).unwrap().unwrap().name.key, "stone");
}

#[test]
fn index_past_palette_is_corrupt() {
    let mut data = vec![0i64; 256];
    data[0] = 0x5;
    let palette = vec![block("air"), block("stone")];
    let chunk = chunk_with(vec![section(0, palette, Some(data))]);
    assert!(matches!(chunk.get_block(0, 0, 0), Err(Error::CorruptPalette)));
}

#[test]
fn wrong_word_count_is_corrupt() {
    let palette = vec![block("air"), block("stone")];
    let chunk = chunk_with(vec![section(0, palette, Some(vec![0; 255]))]);
    assert!(matches!(chunk.get_block(0, 0, 0), Err(Error::CorruptPalette)));
    let empty = chunk_with(vec![section(0, Vec::new(), None)]);
    assert!(matches!(empty.get_block(0, 0, 0), Err(Error::CorruptPalette)));
}

#[test]
fn section_lookup_rounds_down() {
    let chunk = chunk_with(vec![section(-1, vec![block("a")], None), section(0, vec![block("b")], None)]);
    assert_eq!(chunk.get_chunk_section_at(-1).unwrap().y, -1);
    assert_eq!(chunk.get_chunk_section_at(-16).unwrap().y, -1);
    assert_eq!(chunk.get_chunk_section_at(15).unwrap().y, 0);
    assert!(chunk.get_chunk_section_at(16).is_none());
    assert!(chunk.get_chunk_section_at(-17).is_none());
    assert_eq!(chunk.data_version, 3700);
}

#[test]
fn floor_modulo() {
    assert_eq!(positive_mod(-1, 16), 15);
    assert_eq!(positive_mod(-16, 16), 0);
    assert_eq!(positive_mod(-17, 16), 15);
    assert_eq!(positive_mod(37, 32), 5);
    assert_eq!(positive_mod(i32::MIN, 16), 0);
    assert_eq!(positive_div(-1, 16), -1);
    assert_eq!(positive_div(-16, 16), -1);
    assert_eq!(positive_div(-17, 16), -2);
    assert_eq!(positive_div(31, 32), 0);
}

#[test]
fn height_lookup() {
    let mut raw = vec![0i64; 37];
    raw[0] = 100 | (70 << 9);
    raw[36] = 200 << 27;
    let map = HeightMap { raw };
    assert_eq!(map.get_height(0, 0), 35);
    assert_eq!(map.get_height(1, 0), 5);
    assert_eq!(map.get_height(15, 15), 135);
}

#[test]
fn namespaced_keys() {
    let k = NamespacedKey::from_name("minecraft:stone");
    assert_eq!(k.namespace, Namespace::Minecraft);
    assert_eq!(k.key, "stone");
    let k = NamespacedKey::from_name("create:cogwheel");
    assert_eq!(k.namespace, Namespace::Custom("create".to_string()));
    assert_eq!(k.key, "cogwheel");
    let k = NamespacedKey::from_name("dirt");
    assert_eq!(k.namespace, Namespace::Minecraft);
    assert_eq!(k.key, "dirt");
    let k = NamespacedKey::new("minecraf", "x".to_string());
    assert_eq!(k.namespace, Namespace::Custom("minecraf".to_string()));
    assert_eq!(Namespace::from_name("minecraft"), Namespace::Minecraft);
}

#[test]
fn biome_indices_have_no_four_bit_minimum() {
    // Two biomes: one-bit indices, 64 to a word, so a single word.
    let biomes = Biomes {
        palette: vec!["minecraft:plains".to_string(), "minecraft:river".to_string()],
        data: Some(vec![0b110]),
    };
    assert_eq!(biomes.palette_index(0), Some(0));
    assert_eq!(biomes.palette_index(1), Some(1));
    assert_eq!(biomes.palette_index(2), Some(1));
    assert_eq!(biomes.palette_index(63), Some(0));
    let wrong_len = Biomes { palette: biomes.palette.clone(), data: Some(vec![0, 0]) };
    assert_eq!(wrong_len.palette_index(0), None);
    let single = Biomes { palette: vec!["minecraft:desert".to_string()], data: None };
    assert_eq!(single.palette_index(40), Some(0));
}

#[test]
fn negative_words_read_as_unsigned() {
    // With 4-bit fields the top field of a word sits in its sign bit.
    let mut data = vec![0i64; 256];
    data[0] = i64::MIN;
    let palette: Vec<BlockState> = (0..9).map(|i| block(&format!("b{}", i))).collect();
    let states = BlockStates { palette, data: Some(data) };
    assert_eq!(states.palette_index(15), Some(8));
    assert_eq!(states.palette_index(0), Some(0));
}

#[test]
fn height_lookup_short_map() {
    let map = HeightMap { raw: vec![100 | (70 << 9)] };
    assert_eq!(map.get_height(1, 0), 5);
    assert_eq!(map.get_height(6, 0), -65);
}

#[test]
fn world_height_minus_one_is_top_row_of_section_below() {
    let mut data = vec![0i64; 256];
    // y = 15, z = 0, x = 0 is index 3840, the first field of word 240.
    data[240] = 1;
    let palette = vec![block("air"), block("snow")];
    let chunk = chunk_with(vec![section(0, vec![block("stone")], None), section(-1, palette, Some(data))]);
    assert_eq!(chunk.get_block(0, -1, 0).unwrap().unwrap().name.key, "snow");
    assert_eq!(chunk.get_block(0, -2, 0).unwrap().unwrap().name.key, "air");
    assert_eq!(chunk.get_block(0, 0, 0).unwrap().unwrap().name.key, "stone");
}

//! The fixed header records, chunk handles and decompression.
use vstd::prelude::*;
use vstd::arithmetic::div_mod::{lemma_fundamental_div_mod, lemma_fundamental_div_mod_converse};
use crate::bigendian::{be_value, BigEndian};
use crate::error::Error;
use crate::nbt::{Biomes, BlockState, BlockStates, ChunkNbt, ChunkSection};
use crate::util::{positive_div, positive_mod};

verus! {

/// A type of compression used by a chunk.
#[derive(Debug, Clone, Copy, PartialEq, Eq, Structural)]
pub enum CompressionType {
    /// RFC 1952, unused in practice.
    GZip,
    /// RFC 1950.
    Zlib,
    /// Stored without compression.
    Uncompressed,
    /// A streaming block codec.
    LZ4,
    /// Implementation-defined.
    Custom,
}

/// The compression type that a tag byte names, if any.
pub open spec fn compression_of_tag(tag: u8) -> Option<CompressionType> {
    if tag == 1 {
        Some(CompressionType::GZip)
    } else if tag == 2 {
        Some(CompressionType::Zlib)
    } else if tag == 3 {
        Some(CompressionType::Uncompressed)
    } else if tag == 4 {
        Some(CompressionType::LZ4)
    } else if tag == 127 {
        Some(CompressionType::Custom)
    } else {
        None
    }
}

impl CompressionType {
    /// The tag byte of this compression type.
    pub open spec fn spec_tag(self) -> u8 {
        match self {
            CompressionType::GZip => 1,
            CompressionType::Zlib => 2,
            CompressionType::Uncompressed => 3,
            CompressionType::LZ4 => 4,
            CompressionType::Custom => 127,
        }
    }

    /// The tag byte of this compression type.
    pub fn tag(&self) -> (r: u8)
        ensures
            r == self.spec_tag(),
            compression_of_tag(r) == Some(*self),
    {
        match self {
            CompressionType::GZip => 1,
            CompressionType::Zlib => 2,
            CompressionType::Uncompressed => 3,
            CompressionType::LZ4 => 4,
            CompressionType::Custom => 127,
        }
    }

    /// The compression type that a tag byte names, if any.
    pub fn from_tag(tag: u8) -> (r: Option<CompressionType>)
        ensures
            r == compression_of_tag(tag),
    {
        if tag == 1 {
            Some(CompressionType::GZip)
        } else if tag == 2 {
            Some(CompressionType::Zlib)
        } else if tag == 3 {
            Some(CompressionType::Uncompressed)
        } else if tag == 4 {
            Some(CompressionType::LZ4)
        } else if tag == 127 {
            Some(CompressionType::Custom)
        } else {
            None
        }
    }
}

/// The location of a chunk in the file, as stored in the header.
#[derive(Debug, Clone, Copy, PartialEq, Eq)]
pub struct Location {
    /// The first sector of the chunk, counted from the start of the file.
    pub offset: BigEndian<3>,
    /// The number of sectors the chunk occupies.
    pub sector_count: u8,
}

impl Location {
    /// The sector offset as a number.
    pub open spec fn spec_offset(&self) -> nat {
        be_value(self.offset.inner@)
    }

    /// An entry that marks a chunk that has not been generated.
    pub open spec fn spec_is_empty(&self) -> bool {
        self.spec_offset() == 0 && self.sector_count == 0
    }

    /// Whether this entry marks a chunk that has not been generated.
    pub fn is_empty(&self) -> (r: bool)
        ensures
            r == self.spec_is_empty(),
    {
        self.offset.as_u32() == 0 && self.sector_count == 0
    }
}

/// A run of bytes that is either borrowed or owned.
#[derive(Debug)]
pub enum Bytes<'a> {
    /// Bytes that belong to the caller.
    Borrowed(&'a [u8]),
    /// Bytes that belong to this value.
    Owned(Vec<u8>),
}

impl<'a> View for Bytes<'a> {
    type V = Seq<u8>;

    open spec fn view(&self) -> Seq<u8> {
        match self {
            Bytes::Borrowed(s) => s@,
            Bytes::Owned(v) => v@,
        }
    }
}

impl<'a> Bytes<'a> {
    /// The bytes as a slice.
    pub fn as_slice(&self) -> (r: &[u8])
        ensures
            r@ == self@,
    {
        match self {
            Bytes::Borrowed(s) => s,
            Bytes::Owned(v) => v.as_slice(),
        }
    }
}

/// What inflating a zlib stream yields: the decompressed bytes, or nothing
/// when the stream is malformed.
pub uninterp spec fn zlib_inflated(data: Seq<u8>) -> Option<Seq<u8>>;

/// Relies on miniz_oxide::inflate::decompress_to_vec_zlib, whose result
/// depends on the input bytes alone: the decompressed bytes, or an error.
#[verifier::external_body]
fn inflate_zlib(data: &[u8]) -> (r: Result<Vec<u8>, miniz_oxide::inflate::DecompressError>)
    ensures
        match r {
            Ok(v) => zlib_inflated(data@) == Some(v@),
            Err(_) => zlib_inflated(data@) is None,
        },
{
    miniz_oxide::inflate::decompress_to_vec_zlib(data)
}

/// One chunk of a region: its compression type and its compressed bytes.
#[derive(Debug)]
pub struct Chunk<'a> {
    /// The compression type used for the data in this chunk.
    pub compression_type: CompressionType,
    /// The compressed bytes, borrowed from a region or owned.
    pub compressed_data: Bytes<'a>,
}

impl<'a> View for Chunk<'a> {
    type V = Seq<u8>;

    /// The compressed bytes of the chunk.
    open spec fn view(&self) -> Seq<u8> {
        self.compressed_data@
    }
}

impl<'a, 'b> PartialEq<Chunk<'b>> for Chunk<'a> {
    fn eq(&self, other: &Chunk<'b>) -> (r: bool) {
        let a = self.compressed_data.as_slice();
        let b = other.compressed_data.as_slice();
        if self.compression_type != other.compression_type || a.len() != b.len() {
            return false;
        }
        let mut i: usize = 0;
        while i < a.len()
            invariant
                0 <= i <= a@.len(),
                a@.len() == b@.len(),
                a@ == self@,
                b@ == other@,
                self.compression_type == other.compression_type,
                forall|j: int| 0 <= j < i ==> a@[j] == b@[j],
            decreases a@.len() - i,
        {
            if a[i] != b[i] {
                assert(a@[i as int] != b@[i as int]);
                return false;
            }
            i = i + 1;
        }
        assert(a@ =~= b@);
        true
    }
}

impl<'a, 'b> vstd::std_specs::cmp::PartialEqSpecImpl<Chunk<'b>> for Chunk<'a> {
    open spec fn obeys_eq_spec() -> bool {
        true
    }

    open spec fn eq_spec(&self, other: &Chunk<'b>) -> bool {
        self.compression_type == other.compression_type && self@ == other@
    }
}

impl<'a> Chunk<'a> {
    /// A chunk that borrows its compressed bytes.
    pub fn new(compression_type: CompressionType, compressed_data: &'a [u8]) -> (r: Chunk<'a>)
        ensures
            r.compression_type == compression_type,
            r@ == compressed_data@,
    {
        Chunk { compression_type, compressed_data: Bytes::Borrowed(compressed_data) }
    }

    /// A copy of this chunk that owns its compressed bytes.
    pub fn boxed(&self) -> (r: Box<Chunk<'static>>)
        ensures
            r.compression_type == self.compression_type,
            r@ == self@,
    {
        let data = vstd::slice::slice_to_vec(self.compressed_data.as_slice());
        Box::new(Chunk { compression_type: self.compression_type, compressed_data: Bytes::Owned(data) })
    }

    /// The compressed bytes of this chunk.
    pub fn data(&self) -> (r: &[u8])
        ensures
            r@ == self@,
    {
        self.compressed_data.as_slice()
    }

    /// The length of the compressed data within this chunk.
    pub fn len(&self) -> (r: usize)
        ensures
            r == self@.len(),
    {
        self.compressed_data.as_slice().len()
    }

    /// Decompress the data of this chunk. Only zlib streams are supported;
    /// every other compression type is reported by its tag.
    pub fn decompress(&self) -> (r: Result<Vec<u8>, Error>)
        ensures
            self.compression_type == CompressionType::Zlib ==> match r {
                Ok(v) => zlib_inflated(self@) == Some(v@),
                Err(Error::DecompressError(_)) => zlib_inflated(self@) is None,
                Err(_) => false,
            },
            self.compression_type != CompressionType::Zlib ==> (r matches Err(
                Error::UnsupportedCompression(t),
            ) && t == self.compression_type.spec_tag()),
    {
        match self.compression_type {
            CompressionType::Zlib => match inflate_zlib(self.compressed_data.as_slice()) {
                Ok(v) => Ok(v),
                Err(e) => Err(Error::DecompressError(e)),
            },
            other => Err(Error::UnsupportedCompression(other.tag())),
        }
    }
}

/// Number of blocks in a section, and of indices in its packed array.
pub const SECTION_VOLUME: usize = 4096;

/// Number of biome cells in a section, and of indices in its packed array.
pub const BIOME_CELLS: usize = 64;

/// The least `b` such that `2^b >= n`.
pub open spec fn ceil_log2(n: nat) -> nat
    decreases n,
{
    if n <= 1 {
        0
    } else {
        1 + ceil_log2(((n + 1) / 2) as nat)
    }
}

/// The width of a packed index for a palette of `palette_len` entries:
/// enough bits for every entry, and never fewer than `min_bits`.
pub open spec fn index_bits(palette_len: nat, min_bits: nat) -> nat {
    if ceil_log2(palette_len) > min_bits {
        ceil_log2(palette_len)
    } else {
        min_bits
    }
}

/// How many fields of `bits` bits one 64-bit word holds.
pub open spec fn values_per_word(bits: int) -> int {
    64int / bits
}

/// Words needed for `count` indices of `bits` bits, none straddling a word.
pub open spec fn words_needed(count: int, bits: int) -> int {
    let per = values_per_word(bits);
    (count + per - 1) / per
}

/// A word with the low `bits` bits set.
pub open spec fn low_mask(bits: int) -> u64 {
    ((1u64 << bits as u64) - 1) as u64
}

/// Index `index` of a packed array of `bits`-bit fields: `64 / bits` fields
/// to a word, the first in the low bits, the high bits left unused.
pub open spec fn packed_value(words: Seq<u64>, index: int, bits: int) -> u64 {
    let per = values_per_word(bits);
    (words[index / per] >> ((bits * (index % per)) as u64)) & low_mask(bits)
}

/// The words of a packed array, read as unsigned.
pub open spec fn as_words(data: Seq<i64>) -> Seq<u64> {
    data.map_values(|w: i64| w as u64)
}

/// Position of a block in a section, in the order `y, z, x`.
pub open spec fn block_index(x: int, y: int, z: int) -> int {
    y * 256 + z * 16 + x
}

/// The palette entry of position `index` of an array of `count` packed
/// indices into a palette of `palette_len` entries, the indices at least
/// `min_bits` wide; `None` where the packed data does not fit the palette.
/// Without packed data the palette's only entry stands everywhere.
pub open spec fn packed_slot(
    palette_len: nat,
    data: Option<Vec<i64>>,
    index: int,
    min_bits: nat,
    count: int,
) -> Option<int> {
    match data {
        None => if palette_len >= 1 {
            Some(0)
        } else {
            None
        },
        Some(d) => {
            let bits = index_bits(palette_len, min_bits) as int;
            if bits > 63 || d.len() != words_needed(count, bits) {
                None
            } else {
                let v = packed_value(as_words(d@), index, bits);
                if v < palette_len {
                    Some(v as int)
                } else {
                    None
                }
            }
        },
    }
}

/// The palette entry of position `index` of a section's blocks: indices
/// of at least 4 bits, 4096 of them.
pub open spec fn palette_slot(bs: BlockStates, index: int) -> Option<int> {
    packed_slot(bs.palette.len() as nat, bs.data, index, 4, SECTION_VOLUME as int)
}

/// The palette entry of position `index` of a section's biomes: indices
/// of at least 1 bit, 64 of them.
pub open spec fn biome_slot(b: Biomes, index: int) -> Option<int> {
    packed_slot(b.palette.len() as nat, b.data, index, 1, BIOME_CELLS as int)
}

/// The first section of `secs` at section height `y`.
pub open spec fn find_section(secs: Seq<ChunkSection>, y: int) -> Option<ChunkSection>
    decreases secs.len(),
{
    if secs.len() == 0 {
        None
    } else if secs[0].y == y {
        Some(secs[0])
    } else {
        find_section(secs.drop_first(), y)
    }
}

fn ceil_log2_of(n: u64) -> (r: u64)
    ensures
        r == ceil_log2(n as nat),
        r <= n,
    decreases n,
{
    if n <= 1 {
        0
    } else {
        let half = n / 2 + n % 2;
        assert(half == (n + 1) / 2);
        1 + ceil_log2_of(half)
    }
}

/// The width of a packed index for a palette of `palette_len` entries, at
/// least `min_bits`: 4 for the blocks of a section, 1 for its biomes.
pub fn index_bits_for(palette_len: usize, min_bits: u64) -> (r: u64)
    ensures
        r == index_bits(palette_len as nat, min_bits as nat),
{
    let b = ceil_log2_of(palette_len as u64);
    if b > min_bits {
        b
    } else {
        min_bits
    }
}

proof fn lemma_slot_in_range(index: int, bits: int, count: int)
    requires
        1 <= bits <= 63,
        0 <= index < count,
    ensures
        index / values_per_word(bits) < words_needed(count, bits),
        bits * (index % values_per_word(bits)) < 64,
        values_per_word(bits) >= 1,
{
    let per = values_per_word(bits);
    assert(per >= 1) by (nonlinear_arith)
        requires
            1 <= bits <= 63,
            per == 64int / bits,
    ;
    lemma_fundamental_div_mod(64, bits as int);
    lemma_fundamental_div_mod(index as int, per as int);
    lemma_fundamental_div_mod(count + per - 1, per as int);
    let q = index / per;
    let m = index % per;
    let big = (count + per - 1) / per;
    let rest = (count + per - 1) % per;
    assert(q < big) by (nonlinear_arith)
        requires
            index == per * q + m,
            0 <= m < per,
            count + per - 1 == per * big + rest,
            0 <= rest < per,
            index < count,
            per >= 1,
    ;
    assert(bits * m < 64) by (nonlinear_arith)
        requires
            64 == bits * per + (64int % bits),
            0 <= 64int % bits,
            0 <= m < per,
            bits >= 1,
    ;
}

/// The `index`-th field of `bits` bits of a packed array of `count` fields.
fn packed_item(slice: &[u64], index: usize, bits: u32, count: usize) -> (r: u64)
    requires
        1 <= bits <= 63,
        index < count,
        slice@.len() == words_needed(count as int, bits as int),
    ensures
        r == packed_value(slice@, index as int, bits as int),
{
    proof { lemma_slot_in_range(index as int, bits as int, count as int); }
    let per = 64 / bits;
    let word = slice[index / per as usize];
    let shift = (bits * (index % per as usize) as u32) as u64;
    let b = bits as u64;
    assert(1u64 << b >= 1) by (bit_vector)
        requires
            b < 64,
    ;
    let mask = (1u64 << b) - 1;
    (word >> shift) & mask
}

/// The entry of a palette of `palette_len` entries that position `index`
/// of `count` packed indices, at least `min_bits` wide, names.
fn packed_palette_index(palette_len: usize, data: &Option<Vec<i64>>, index: usize, min_bits: u64, count: usize) -> (r: Option<usize>)
    requires
        1 <= min_bits,
        index < count <= SECTION_VOLUME,
    ensures
        r matches Some(k) ==> packed_slot(palette_len as nat, *data, index as int, min_bits as nat, count as int) == Some(k as int),
        r is None ==> packed_slot(palette_len as nat, *data, index as int, min_bits as nat, count as int) is None,
{
    match data {
        None => if palette_len >= 1 {
            Some(0)
        } else {
            None
        },
        Some(d) => {
            let bits = index_bits_for(palette_len, min_bits);
            if bits > 63 {
                return None;
            }
            let per = (64 / bits) as usize;
            assert(per >= 1) by (nonlinear_arith)
                requires
                    1 <= bits <= 63,
                    per == 64u64 / bits,
            ;
            let needed = (count + per - 1) / per;
            if d.len() != needed {
                return None;
            }
            let mut words: Vec<u64> = Vec::new();
            let mut i: usize = 0;
            while i < d.len()
                invariant
                    0 <= i <= d.len(),
                    words@ == as_words(d@).subrange(0, i as int),
                decreases d.len() - i,
            {
                let w = #[verifier::truncate] (d[i] as u64);
                words.push(w);
                i = i + 1;
            }
            assert(words@ == as_words(d@));
            let v = packed_item(words.as_slice(), index, bits as u32, count);
            if v < palette_len as u64 {
                Some(v as usize)
            } else {
                None
            }
        },
    }
}

/// The `index`-th field of `bits` bits of a packed array of 4096 fields.
pub fn get_item_in_packed_slice(slice: &[u64], index: usize, bits: u32) -> (r: u64)
    requires
        1 <= bits <= 63,
        index < SECTION_VOLUME,
        slice@.len() == words_needed(SECTION_VOLUME as int, bits as int),
    ensures
        r == packed_value(slice@, index as int, bits as int),
{
    packed_item(slice, index, bits, SECTION_VOLUME)
}

impl BlockStates {
    /// The palette entry of position `index` of the section: the only entry
    /// where no packed array is stored, else the packed index at `index`.
    /// `None` where the packed array does not fit the palette.
    pub fn palette_index(&self, index: usize) -> (r: Option<usize>)
        requires
            index < SECTION_VOLUME,
        ensures
            r matches Some(k) ==> palette_slot(*self, index as int) == Some(k as int),
            r is None ==> palette_slot(*self, index as int) is None,
    {
        packed_palette_index(self.palette.len(), &self.data, index, 4, SECTION_VOLUME)
    }
}

impl Biomes {
    /// The palette entry of biome cell `index` of the section: the only
    /// entry where no packed array is stored, else the packed index at
    /// `index`. `None` where the packed array does not fit the palette.
    pub fn palette_index(&self, index: usize) -> (r: Option<usize>)
        requires
            index < BIOME_CELLS,
        ensures
            r matches Some(k) ==> biome_slot(*self, index as int) == Some(k as int),
            r is None ==> biome_slot(*self, index as int) is None,
    {
        packed_palette_index(self.palette.len(), &self.data, index, 1, BIOME_CELLS)
    }
}

/// A decoded chunk, which owns its tag tree.
#[derive(Debug, Clone, PartialEq)]
pub struct ParsedChunk {
    /// The tag tree of the chunk.
    pub nbt: ChunkNbt,
}

impl std::ops::Deref for ParsedChunk {
    type Target = ChunkNbt;

    fn deref(&self) -> &ChunkNbt {
        &self.nbt
    }
}

impl ParsedChunk {
    /// A decoded chunk from its tag tree.
    pub fn new(nbt: ChunkNbt) -> (r: Self)
        ensures
            r.nbt == nbt,
    {
        ParsedChunk { nbt }
    }

    /// The section that holds blocks at height `block_y`: the first whose
    /// height is `block_y` divided by 16, rounded down.
    pub fn get_chunk_section_at(&self, block_y: i32) -> (r: Option<&ChunkSection>)
        ensures
            match find_section(self.nbt.sections@, block_y as int / 16) {
                None => r is None,
                Some(s) => r matches Some(t) && *t == s,
            },
    {
        let y = positive_div(block_y, 16);
        let secs = &self.nbt.sections;
        let mut i: usize = 0;
        assert(secs@.subrange(0, secs@.len() as int) =~= secs@);
        while i < secs.len()
            invariant
                0 <= i <= secs.len(),
                y as int == block_y as int / 16,
                secs@ == self.nbt.sections@,
                find_section(secs@, y as int) == find_section(secs@.subrange(i as int, secs@.len() as int), y as int),
            decreases secs.len() - i,
        {
            assert(secs@.subrange(i as int, secs@.len() as int).drop_first() =~= secs@.subrange(i + 1, secs@.len() as int));
            if secs[i].y as i32 == y {
                assert(secs@.subrange(i as int, secs@.len() as int)[0] == secs@[i as int]);
                assert(find_section(secs@.subrange(i as int, secs@.len() as int), y as int) == Some(secs@[i as int]));
                return Some(&secs[i]);
            }
            i = i + 1;
        }
        None
    }

    /// The block at `(block_x, block_y, block_z)`: `x` and `z` relative to
    /// the chunk, `y` absolute. `None` where no section, or no block data,
    /// stands at that height; an error where the packed data does not fit
    /// the palette.
    pub fn get_block(&self, block_x: u32, block_y: i32, block_z: u32) -> (r: Result<Option<BlockState>, Error>)
        requires
            block_x < 16,
            block_z < 16,
        ensures
            match find_section(self.nbt.sections@, block_y as int / 16) {
                None => r matches Ok(None),
                Some(sec) => match sec.block_states {
                    None => r matches Ok(None),
                    Some(bs) => match palette_slot(bs, block_index(block_x as int, block_y as int % 16, block_z as int)) {
                        Some(k) => (r matches Ok(Some(b)) && b == bs.palette@[k as int]),
                        None => r matches Err(Error::CorruptPalette),
                    },
                },
            },
    {
        let sec = match self.get_chunk_section_at(block_y) {
            None => return Ok(None),
            Some(s) => s,
        };
        let bs = match &sec.block_states {
            None => return Ok(None),
            Some(b) => b,
        };
        let y = positive_mod(block_y, 16) as u32;
        let index = (y * 256 + block_z * 16 + block_x) as usize;
        match bs.palette_index(index) {
            Some(k) => Ok(Some(bs.palette[k].clone())),
            None => Err(Error::CorruptPalette),
        }
    }

    /// The block at world coordinates `(block_x, block_y, block_z)`, which
    /// must lie in this chunk: `x` and `z` are taken modulo 16, rounded down.
    pub fn get_block_from_absolute_coords(&self, block_x: i32, block_y: i32, block_z: i32) -> (r: Result<Option<BlockState>, Error>)
        ensures
            match find_section(self.nbt.sections@, block_y as int / 16) {
                None => r matches Ok(None),
                Some(sec) => match sec.block_states {
                    None => r matches Ok(None),
                    Some(bs) => match palette_slot(bs, block_index(block_x as int % 16, block_y as int % 16, block_z as int % 16)) {
                        Some(k) => (r matches Ok(Some(b)) && b == bs.palette@[k as int]),
                        None => r matches Err(Error::CorruptPalette),
                    },
                },
            },
    {
        self.get_block(positive_mod(block_x, 16) as u32, block_y, positive_mod(block_z, 16) as u32)
    }
}

/// World height `y` lies in section `y / 16`, rounded down, at row
/// `y % 16` of it, which is in `[0, 16)`: heights -16 to -1 are rows 0 to
/// 15 of section -1, so height -1 is row 15 there, never row -1.
pub proof fn lemma_world_height_in_section(y: int)
    ensures
        0 <= y % 16 < 16,
        (y / 16) * 16 + y % 16 == y,
        -16 <= y < 0 ==> y / 16 == -1 && y % 16 == y + 16,
{
    lemma_fundamental_div_mod(y, 16);
    if -16 <= y < 0 {
        lemma_fundamental_div_mod_converse(y, 16, -1, y + 16);
    }
}

/// An array of zero words holds index 0 at every position.
pub proof fn lemma_zero_words_decode_zero(words: Seq<u64>, index: int, bits: int)
    requires
        1 <= bits <= 63,
        0 <= index < SECTION_VOLUME,
        words.len() == words_needed(SECTION_VOLUME as int, bits),
        forall|i: int| 0 <= i < words.len() ==> words[i] == 0,
    ensures
        packed_value(words, index, bits) == 0,
{
    lemma_slot_in_range(index, bits, SECTION_VOLUME as int);
    let w = words[index / values_per_word(bits)];
    let s = (bits * (index % values_per_word(bits))) as u64;
    let m = low_mask(bits);
    assert(w == 0);
    assert((w >> s) & m == 0) by (bit_vector)
        requires
            w == 0,
    ;
}

/// A palette of one entry with no packed array resolves every position to
/// that entry.
pub proof fn lemma_single_entry_palette(bs: BlockStates, index: int)
    requires
        bs.data is None,
        bs.palette.len() == 1,
    ensures
        palette_slot(bs, index) == Some(0int),
{
}

/// Where every word of the packed array is zero and the array fits the
/// palette, every position resolves to the first entry.
pub proof fn lemma_zero_data_palette(bs: BlockStates, index: int)
    requires
        0 <= index < SECTION_VOLUME,
        bs.data matches Some(d) && forall|i: int| 0 <= i < d.len() ==> d[i] == 0,
        index_bits(bs.palette.len() as nat, 4) <= 63,
        bs.data matches Some(d) && d.len() == words_needed(SECTION_VOLUME as int, index_bits(bs.palette.len() as nat, 4) as int),
        bs.palette.len() >= 1,
    ensures
        palette_slot(bs, index) == Some(0int),
{
    let d = bs.data->0;
    let words = as_words(d@);
    assert forall|i: int| 0 <= i < words.len() implies words[i] == 0 by {
        assert(d[i] == 0);
        assert(0i64 as u64 == 0u64) by (bit_vector);
    }
    lemma_zero_words_decode_zero(words, index, index_bits(bs.palette.len() as nat, 4) as int);
}

/// Decoding is a function of its inputs: decoding the same data twice
/// gives the same entry.
pub proof fn lemma_decode_is_stable(a: BlockStates, b: BlockStates, index: int)
    requires
        a == b,
    ensures
        palette_slot(a, index) == palette_slot(b, index),
{
}

} // verus!

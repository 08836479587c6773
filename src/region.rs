//! The region container: the fixed header and the lookup of chunks in the
//! payload that follows it.
use vstd::prelude::*;
use crate::bigendian::{be_value, BigEndian};
use crate::data::{zlib_inflated, compression_of_tag, Bytes, Chunk, CompressionType, Location};
use crate::error::Error;

verus! {

/// Length of the header: 1024 locations and 1024 timestamps of four bytes each.
pub const HEADER_LEN: usize = 8192;

/// Length of a sector, the unit in which chunk offsets are counted.
pub const SECTOR_LEN: u64 = 4096;

/// The slot of the chunk at `(x, z)` within a region.
pub open spec fn chunk_index(x: int, z: int) -> int {
    z * 32 + x
}

/// The sector offset stored in location entry `i` of a buffer.
pub open spec fn loc_offset(buf: Seq<u8>, i: int) -> nat {
    be_value(buf.subrange(4 * i, 4 * i + 3))
}

/// The sector count stored in location entry `i` of a buffer.
pub open spec fn loc_count(buf: Seq<u8>, i: int) -> u8 {
    buf[4 * i + 3]
}

/// Location entry `i` marks a chunk that has not been generated.
pub open spec fn loc_empty(buf: Seq<u8>, i: int) -> bool {
    loc_offset(buf, i) == 0 && loc_count(buf, i) == 0
}

/// The timestamp stored for slot `i` of a buffer.
pub open spec fn timestamp_at(buf: Seq<u8>, i: int) -> nat {
    be_value(buf.subrange(4096 + 4 * i, 4096 + 4 * i + 4))
}

/// The bytes after the header.
pub open spec fn payload(buf: Seq<u8>) -> Seq<u8> {
    buf.subrange(HEADER_LEN as int, buf.len() as int)
}

/// Where the chunk of slot `i` starts within the payload.
pub open spec fn chunk_start(buf: Seq<u8>, i: int) -> int {
    (loc_offset(buf, i) - 2) * SECTOR_LEN
}

/// The length prefix of the chunk of slot `i`: its type byte and its data.
pub open spec fn declared_len(buf: Seq<u8>, i: int) -> nat {
    let s = chunk_start(buf, i);
    be_value(payload(buf).subrange(s, s + 4))
}

/// What looking up one slot of a region yields.
pub enum ChunkLookup {
    /// The chunk has not been generated.
    Absent,
    /// An offset or a length points past the end of the buffer.
    Truncated,
    /// The type byte names no known compression.
    Unsupported(u8),
    /// The chunk: its compression and its compressed bytes.
    Found(CompressionType, Seq<u8>),
}

/// The outcome of looking up slot `i` of a buffer that holds a whole header.
pub open spec fn lookup(buf: Seq<u8>, i: int) -> ChunkLookup {
    let p = payload(buf);
    let s = chunk_start(buf, i);
    let n = declared_len(buf, i);
    if loc_empty(buf, i) {
        ChunkLookup::Absent
    } else if loc_offset(buf, i) < 2 || p.len() < s + 4 || n == 0 || p.len() < s + 4 + n {
        ChunkLookup::Truncated
    } else {
        match compression_of_tag(p[s + 4]) {
            None => ChunkLookup::Unsupported(p[s + 4]),
            Some(c) => ChunkLookup::Found(c, p.subrange(s + 5, s + 4 + n)),
        }
    }
}

/// Slot `i` holds no chunk, or a zlib chunk whose stream inflates.
pub open spec fn slot_decompresses(buf: Seq<u8>, i: int) -> bool {
    match lookup(buf, i) {
        ChunkLookup::Absent => true,
        ChunkLookup::Found(c, d) => c == CompressionType::Zlib && zlib_inflated(d) is Some,
        _ => false,
    }
}

/// The slot visited `k`-th when x runs outer and z inner.
pub open spec fn visit_slot(k: int) -> int {
    chunk_index(k / 32, k % 32)
}

/// `e` is the error that reading slot `i` of a buffer gives.
pub open spec fn slot_error(buf: Seq<u8>, i: int, e: Error) -> bool {
    match lookup(buf, i) {
        ChunkLookup::Absent => false,
        ChunkLookup::Truncated => e is UnexpectedEof,
        ChunkLookup::Unsupported(t) => e == Error::UnsupportedCompression(t),
        ChunkLookup::Found(c, d) => if c == CompressionType::Zlib {
            zlib_inflated(d) is None && e is DecompressError
        } else {
            e == Error::UnsupportedCompression(c.spec_tag())
        },
    }
}

/// A region: its parsed header and the buffer it was read from.
#[derive(Debug)]
pub struct Region<'a> {
    locations: Vec<Location>,
    timestamps: Vec<BigEndian<4>>,
    bytes: Bytes<'a>,
}

impl<'a> View for Region<'a> {
    type V = Seq<u8>;

    /// The whole buffer, header included.
    closed spec fn view(&self) -> Seq<u8> {
        self.bytes@
    }
}

/// The header tables of a buffer that holds a whole header.
fn parse_header(buf: &[u8]) -> (r: (Vec<Location>, Vec<BigEndian<4>>))
    requires
        buf@.len() >= HEADER_LEN,
    ensures
        r.0.len() == 1024,
        r.1.len() == 1024,
        forall|i: int|
            0 <= i < 1024 ==> {
                &&& (#[trigger] r.0[i]).spec_offset() == loc_offset(buf@, i)
                &&& r.0[i].sector_count == loc_count(buf@, i)
            },
        forall|i: int| 0 <= i < 1024 ==> be_value((#[trigger] r.1[i]).inner@) == timestamp_at(buf@, i),
{
    let mut locations: Vec<Location> = Vec::new();
    let mut timestamps: Vec<BigEndian<4>> = Vec::new();
    let mut i: usize = 0;
    while i < 1024
        invariant
            0 <= i <= 1024,
            buf@.len() >= HEADER_LEN,
            locations.len() == i,
            timestamps.len() == i,
            forall|j: int|
                0 <= j < i ==> {
                    &&& (#[trigger] locations[j]).spec_offset() == loc_offset(buf@, j)
                    &&& locations[j].sector_count == loc_count(buf@, j)
                },
            forall|j: int|
                0 <= j < i ==> be_value((#[trigger] timestamps[j]).inner@) == timestamp_at(buf@, j),
        decreases 1024 - i,
    {
        let at = 4 * i;
        let offset = BigEndian { inner: [buf[at], buf[at + 1], buf[at + 2]] };
        assert(offset.inner@ =~= buf@.subrange(at as int, at + 3));
        locations.push(Location { offset, sector_count: buf[at + 3] });
        let ts = BigEndian { inner: [buf[4096 + at], buf[4096 + at + 1], buf[4096 + at + 2], buf[4096 + at + 3]] };
        assert(ts.inner@ =~= buf@.subrange(4096 + at, 4096 + at + 4));
        timestamps.push(ts);
        i = i + 1;
    }
    (locations, timestamps)
}

impl<'a> Region<'a> {
    #[verifier::type_invariant]
    spec fn header_parsed(self) -> bool {
        let buf = self.bytes@;
        &&& buf.len() >= HEADER_LEN
        &&& self.locations.len() == 1024
        &&& self.timestamps.len() == 1024
        &&& forall|i: int|
            0 <= i < 1024 ==> {
                &&& (#[trigger] self.locations[i]).spec_offset() == loc_offset(buf, i)
                &&& self.locations[i].sector_count == loc_count(buf, i)
            }
        &&& forall|i: int|
            0 <= i < 1024 ==> be_value((#[trigger] self.timestamps[i]).inner@) == timestamp_at(buf, i)
    }

    /// A region over a borrowed buffer. Only the length of the header is
    /// checked here; each chunk is checked when it is looked up.
    pub fn from_slice(slice: &'a [u8]) -> (r: Result<Region<'a>, Error>)
        ensures
            slice@.len() < HEADER_LEN ==> r matches Err(Error::MissingHeader),
            slice@.len() >= HEADER_LEN ==> (r matches Ok(reg) && reg@ == slice@),
    {
        if slice.len() < HEADER_LEN {
            Err(Error::MissingHeader)
        } else {
            let (locations, timestamps) = parse_header(slice);
            Ok(Region { locations, timestamps, bytes: Bytes::Borrowed(slice) })
        }
    }

    /// A region over an array whose length is known to hold the header.
    pub fn from_array<const N: usize>(arr: &'a [u8; N]) -> (r: Region<'a>)
        requires
            N >= HEADER_LEN,
        ensures
            r@ == arr@,
    {
        let slice = arr.as_slice();
        let (locations, timestamps) = parse_header(slice);
        Region { locations, timestamps, bytes: Bytes::Borrowed(slice) }
    }

    /// A region that owns its buffer.
    pub fn from_vec(bytes: Vec<u8>) -> (r: Result<Region<'static>, Error>)
        ensures
            bytes@.len() < HEADER_LEN ==> r matches Err(Error::MissingHeader),
            bytes@.len() >= HEADER_LEN ==> (r matches Ok(reg) && reg@ == bytes@),
    {
        if bytes.len() < HEADER_LEN {
            Err(Error::MissingHeader)
        } else {
            let (locations, timestamps) = parse_header(bytes.as_slice());
            Ok(Region { locations, timestamps, bytes: Bytes::Owned(bytes) })
        }
    }

    /// The length of the buffer, which always holds a whole header.
    pub fn len(&self) -> (r: usize)
        ensures
            r == self@.len(),
            r >= HEADER_LEN,
    {
        proof { use_type_invariant(self); }
        self.bytes.as_slice().len()
    }

    /// Index of the chunk at `(x, z)` into the header tables.
    pub fn chunk_index(x: u32, z: u32) -> (r: usize)
        requires
            x < 32,
            z < 32,
        ensures
            r == chunk_index(x as int, z as int),
            r < 1024,
    {
        if x >= 32 || z >= 32 {
            // Dead for every verified caller; any other caller stops here
            // rather than reading another slot.
            return vstd::pervasive::unreached();
        }
        z as usize * 32 + x as usize
    }

    /// The timestamp of the chunk at `(x, z)`.
    pub fn get_timestamp(&self, x: u32, z: u32) -> (r: u32)
        requires
            x < 32,
            z < 32,
        ensures
            r == timestamp_at(self@, chunk_index(x as int, z as int)),
    {
        proof { use_type_invariant(self); }
        self.timestamps[Self::chunk_index(x, z)].as_u32()
    }

    /// Whether the chunk at `(x, z)` has been generated.
    pub fn has_chunk(&self, x: u32, z: u32) -> (r: bool)
        requires
            x < 32,
            z < 32,
        ensures
            r == !loc_empty(self@, chunk_index(x as int, z as int)),
    {
        proof { use_type_invariant(self); }
        !self.locations[Self::chunk_index(x, z)].is_empty()
    }

    /// The chunk at `(x, z)`, relative to the region: `None` where it has
    /// not been generated. An entry that points into the header, or past
    /// the end of the buffer, is `UnexpectedEof`.
    pub fn get_chunk(&self, chunk_x: u32, chunk_z: u32) -> (r: Result<Option<Chunk<'_>>, Error>)
        requires
            chunk_x < 32,
            chunk_z < 32,
        ensures
            match lookup(self@, chunk_index(chunk_x as int, chunk_z as int)) {
                ChunkLookup::Absent => r matches Ok(None),
                ChunkLookup::Truncated => r matches Err(Error::UnexpectedEof),
                ChunkLookup::Unsupported(t) => (r matches Err(Error::UnsupportedCompression(u))
                    && u == t),
                ChunkLookup::Found(c, d) => (r matches Ok(Some(ch)) && ch.compression_type == c
                    && ch@ == d),
            },
    {
        proof { use_type_invariant(self); }
        let idx = Self::chunk_index(chunk_x, chunk_z);
        let ghost i = idx as int;
        let loc = &self.locations[idx];
        if loc.is_empty() {
            return Ok(None);
        }
        let offset = loc.offset.as_u32();
        if offset < 2 {
            return Err(Error::UnexpectedEof);
        }
        let data = self.bytes.as_slice();
        let ghost p = payload(data@);
        let payload_len = (data.len() - HEADER_LEN) as u64;
        let start: u64 = (offset as u64 - 2) * SECTOR_LEN;
        assert(start == chunk_start(data@, i));
        if payload_len < start + 4 {
            return Err(Error::UnexpectedEof);
        }
        let at = HEADER_LEN + start as usize;
        let prefix = BigEndian { inner: [data[at], data[at + 1], data[at + 2], data[at + 3]] };
        assert(prefix.inner@ =~= p.subrange(start as int, start + 4));
        let len = prefix.as_u32() as u64;
        if len == 0 || payload_len < start + 4 + len {
            return Err(Error::UnexpectedEof);
        }
        let tag = data[at + 4];
        assert(tag == p[start + 4]);
        match CompressionType::from_tag(tag) {
            None => Err(Error::UnsupportedCompression(tag)),
            Some(c) => {
                let compressed = vstd::slice::slice_subrange(data, at + 5, at + 4 + len as usize);
                assert(compressed@ =~= p.subrange(start + 5, start + 4 + len));
                Ok(Some(Chunk::new(c, compressed)))
            },
        }
    }

    /// The chunk that holds block `(block_x, block_z)`, relative to the region.
    pub fn get_chunk_from_block(&self, block_x: u32, block_z: u32) -> (r: Result<Option<Chunk<'_>>, Error>)
        requires
            block_x < 512,
            block_z < 512,
        ensures
            match lookup(self@, chunk_index((block_x / 16) as int, (block_z / 16) as int)) {
                ChunkLookup::Absent => r matches Ok(None),
                ChunkLookup::Truncated => r matches Err(Error::UnexpectedEof),
                ChunkLookup::Unsupported(t) => (r matches Err(Error::UnsupportedCompression(u))
                    && u == t),
                ChunkLookup::Found(c, d) => (r matches Ok(Some(ch)) && ch.compression_type == c
                    && ch@ == d),
            },
    {
        self.get_chunk(block_x / 16, block_z / 16)
    }

    /// The decompressed bytes of the chunk at `(chunk_x, chunk_z)`, relative
    /// to the region: `None` where it has not been generated.
    pub fn read_chunk(&self, chunk_x: u32, chunk_z: u32) -> (r: Result<Option<Vec<u8>>, Error>)
        requires
            chunk_x < 32,
            chunk_z < 32,
        ensures
            match lookup(self@, chunk_index(chunk_x as int, chunk_z as int)) {
                ChunkLookup::Absent => r matches Ok(None),
                ChunkLookup::Truncated => r matches Err(Error::UnexpectedEof),
                ChunkLookup::Unsupported(t) => (r matches Err(Error::UnsupportedCompression(u))
                    && u == t),
                ChunkLookup::Found(c, d) => if c == CompressionType::Zlib {
                    match zlib_inflated(d) {
                        Some(b) => (r matches Ok(Some(v)) && v@ == b),
                        None => r matches Err(Error::DecompressError(_)),
                    }
                } else {
                    r matches Err(Error::UnsupportedCompression(u)) && u == c.spec_tag()
                },
            },
    {
        match self.get_chunk(chunk_x, chunk_z) {
            Ok(Some(chunk)) => match chunk.decompress() {
                Ok(v) => Ok(Some(v)),
                Err(e) => Err(e),
            },
            Ok(None) => Ok(None),
            Err(e) => Err(e),
        }
    }

    /// Check every slot of this region: each chunk must be locatable and its
    /// stream must decompress. Slots are visited with x outer and z inner,
    /// and the error of the first slot that fails is returned unchanged.
    /// This is slow and allocates for every chunk; the tag tree in the
    /// decompressed bytes is not examined here.
    pub fn validate(&self) -> (r: Result<(), Error>)
        ensures
            r is Ok <==> forall|i: int| 0 <= i < 1024 ==> slot_decompresses(self@, i),
            r matches Err(e) ==> exists|k: int|
                0 <= k < 1024 && !slot_decompresses(self@, visit_slot(k)) && (forall|j: int|
                    0 <= j < k ==> slot_decompresses(self@, visit_slot(j))) && slot_error(
                    self@,
                    visit_slot(k),
                    e,
                ),
    {
        let mut k: u32 = 0;
        while k < 1024
            invariant
                0 <= k <= 1024,
                forall|j: int| 0 <= j < k ==> slot_decompresses(self@, visit_slot(j)),
            decreases 1024 - k,
        {
            let x = k / 32;
            let z = k % 32;
            assert(chunk_index(x as int, z as int) == visit_slot(k as int));
            match self.read_chunk(x, z) {
                Ok(_) => {},
                Err(e) => {
                    assert(!slot_decompresses(self@, visit_slot(k as int)));
                    assert(slot_error(self@, visit_slot(k as int), e));
                    return Err(e);
                },
            }
            k = k + 1;
        }
        assert forall|i: int| 0 <= i < 1024 implies slot_decompresses(self@, i) by {
            let j = (i % 32) * 32 + i / 32;
            assert(visit_slot(j) == i);
        }
        Ok(())
    }
}

/// A slot whose location entry is empty holds no chunk.
pub proof fn lemma_absent_chunk_is_none(buf: Seq<u8>, x: int, z: int)
    requires
        buf.len() >= HEADER_LEN,
        0 <= x < 32,
        0 <= z < 32,
        loc_empty(buf, chunk_index(x, z)),
    ensures
        lookup(buf, chunk_index(x, z)) == ChunkLookup::Absent,
{
}

/// In a buffer that holds the header alone, every generated chunk is
/// truncated and every other slot is absent.
pub proof fn lemma_header_only(buf: Seq<u8>, x: int, z: int)
    requires
        buf.len() == HEADER_LEN,
        0 <= x < 32,
        0 <= z < 32,
    ensures
        loc_empty(buf, chunk_index(x, z)) ==> lookup(buf, chunk_index(x, z)) == ChunkLookup::Absent,
        !loc_empty(buf, chunk_index(x, z)) ==> lookup(buf, chunk_index(x, z))
            == ChunkLookup::Truncated,
{
}

/// A generated chunk whose offset leaves no room for its length prefix
/// before the end of the buffer is truncated.
pub proof fn lemma_offset_past_end(buf: Seq<u8>, x: int, z: int)
    requires
        buf.len() >= HEADER_LEN,
        0 <= x < 32,
        0 <= z < 32,
        !loc_empty(buf, chunk_index(x, z)),
        payload(buf).len() < chunk_start(buf, chunk_index(x, z)) + 4,
    ensures
        lookup(buf, chunk_index(x, z)) == ChunkLookup::Truncated,
{
}

/// A generated chunk whose declared length runs past the end of the buffer
/// is truncated.
pub proof fn lemma_length_past_end(buf: Seq<u8>, x: int, z: int)
    requires
        buf.len() >= HEADER_LEN,
        0 <= x < 32,
        0 <= z < 32,
        !loc_empty(buf, chunk_index(x, z)),
        payload(buf).len() < chunk_start(buf, chunk_index(x, z)) + 4 + declared_len(
            buf,
            chunk_index(x, z),
        ),
    ensures
        lookup(buf, chunk_index(x, z)) == ChunkLookup::Truncated,
{
}

} // verus!

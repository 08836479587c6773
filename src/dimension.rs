//! Dimensions: a set of regions keyed by their region coordinates.
use vstd::prelude::*;
use std::collections::HashMap;
use vstd::std_specs::hash::spec_hash_map_iter;
use vstd::std_specs::iter::IteratorSpec;
use crate::data::zlib_inflated;
use crate::error::Error;
use crate::region::{chunk_index, lookup, ChunkLookup, Region, HEADER_LEN};
use crate::data::CompressionType;
use crate::util::{positive_div, positive_mod};

verus! {

broadcast use vstd::std_specs::hash::group_hash_axioms;

/// The ids that the game gives its dimensions.
#[derive(Debug, Clone, Copy, PartialEq, Eq, Structural)]
pub enum DimensionID {
    /// Id `0`.
    Overworld,
    /// Id `-1`.
    Nether,
    /// Id `1`.
    End,
    /// Any other id.
    Custom(i32),
}

impl DimensionID {
    /// The id of this dimension as a number.
    pub open spec fn spec_id(self) -> i32 {
        match self {
            DimensionID::Overworld => 0i32,
            DimensionID::Nether => -1i32,
            DimensionID::End => 1i32,
            DimensionID::Custom(n) => n,
        }
    }

    /// The id of this dimension as a number.
    pub fn id(&self) -> (r: i32)
        ensures
            r == self.spec_id(),
    {
        match self {
            DimensionID::Overworld => 0,
            DimensionID::Nether => -1,
            DimensionID::End => 1,
            DimensionID::Custom(n) => *n,
        }
    }
}

/// The dimension that an id denotes.
pub open spec fn dimension_of(value: i32) -> DimensionID {
    if value == 0 {
        DimensionID::Overworld
    } else if value == -1 {
        DimensionID::Nether
    } else if value == 1 {
        DimensionID::End
    } else {
        DimensionID::Custom(value)
    }
}

impl From<i32> for DimensionID {
    fn from(value: i32) -> (r: DimensionID)
        ensures
            r == dimension_of(value),
    {
        if value == 0 {
            DimensionID::Overworld
        } else if value == -1 {
            DimensionID::Nether
        } else if value == 1 {
            DimensionID::End
        } else {
            DimensionID::Custom(value)
        }
    }
}

impl vstd::std_specs::convert::FromSpecImpl<i32> for DimensionID {
    open spec fn obeys_from_spec() -> bool {
        true
    }

    open spec fn from_spec(v: i32) -> DimensionID {
        dimension_of(v)
    }
}

/// The dimension of an id has that id again.
pub proof fn lemma_dimension_id_round_trip(value: i32)
    ensures
        dimension_of(value).spec_id() == value,
{
}

/// A region that is either borrowed or owned.
#[derive(Debug)]
pub enum RegionRef<'a> {
    /// A borrowed region.
    Borrowed(&'a Region<'a>),
    /// An owned region.
    Owned(Box<Region<'a>>),
}

impl<'a> RegionRef<'a> {
    /// The region, however it is held.
    pub open spec fn spec_region(&self) -> Region<'a> {
        match self {
            RegionRef::Borrowed(r) => **r,
            RegionRef::Owned(r) => **r,
        }
    }

    /// The region, however it is held.
    pub fn region(&self) -> (r: &Region<'a>)
        ensures
            *r == self.spec_region(),
    {
        match self {
            RegionRef::Borrowed(r) => r,
            RegionRef::Owned(r) => r,
        }
    }
}

impl<'a> std::ops::Deref for RegionRef<'a> {
    type Target = Region<'a>;

    fn deref(&self) -> &Region<'a> {
        self.region()
    }
}

/// Something that can be read into a region and may know which region of
/// the world it is.
pub trait RegionParser {
    /// Read this into a region.
    fn parse(&self) -> Result<RegionRef<'_>, Error>;

    /// The region coordinates of this region, where they are known.
    fn position(&self) -> Option<(i32, i32)>;
}

/// The map that a list of positioned entries stands for: each entry in
/// turn, a later one taking the place of an earlier one at its position.
pub open spec fn entries_map<R>(s: Seq<((i32, i32), R)>) -> Map<(i32, i32), R>
    decreases s.len(),
{
    if s.len() == 0 {
        Map::empty()
    } else {
        entries_map(s.drop_last()).insert(s.last().0, s.last().1)
    }
}

/// The hash-map key of region coordinates: `x` in the high half, `z` in
/// the low half.
pub open spec fn pack_key(x: i32, z: i32) -> u64 {
    ((x as u32 as u64) << 32u64) | (z as u32 as u64)
}

/// The region coordinates of a hash-map key.
pub open spec fn unpack_key(k: u64) -> (i32, i32) {
    ((k >> 32u64) as u32 as i32, k as u32 as i32)
}

proof fn lemma_key_round_trip(x: i32, z: i32)
    ensures
        unpack_key(pack_key(x, z)) == (x, z),
{
    let k = pack_key(x, z);
    assert((((x as u32 as u64) << 32u64) | (z as u32 as u64)) >> 32u64 == x as u32 as u64)
        by (bit_vector);
    assert(((((x as u32 as u64) << 32u64) | (z as u32 as u64)) as u32) == z as u32) by (bit_vector);
    assert((x as u32 as i32) == x) by (bit_vector);
    assert((z as u32 as i32) == z) by (bit_vector);
}

proof fn lemma_key_injective(a: (i32, i32), b: (i32, i32))
    requires
        pack_key(a.0, a.1) == pack_key(b.0, b.1),
    ensures
        a == b,
{
    lemma_key_round_trip(a.0, a.1);
    lemma_key_round_trip(b.0, b.1);
}

proof fn lemma_unpack_round_trip(k: u64)
    ensures
        pack_key(unpack_key(k).0, unpack_key(k).1) == k,
{
    assert(((((k >> 32u64) as u32 as i32) as u32 as u64) << 32u64) | ((k as u32 as i32) as u32 as u64) == k)
        by (bit_vector);
}

/// A dimension of a world: its id and its regions, keyed by region
/// coordinates packed into one integer.
pub struct Dimension<R> {
    id: Option<DimensionID>,
    regions: HashMap<u64, R>,
}

impl<R> View for Dimension<R> {
    type V = Map<(i32, i32), R>;

    closed spec fn view(&self) -> Map<(i32, i32), R> {
        Map::new(
            |p: (i32, i32)| self.regions@.contains_key(pack_key(p.0, p.1)),
            |p: (i32, i32)| self.regions@[pack_key(p.0, p.1)],
        )
    }
}

impl<R> Dimension<R> {
    /// The id of the dimension, where it is known.
    pub closed spec fn dim_id(&self) -> Option<DimensionID> {
        self.id
    }

    /// The id of the dimension, where it is known.
    pub fn id(&self) -> (r: Option<DimensionID>)
        ensures
            r == self.dim_id(),
    {
        self.id
    }

    /// `p` is the parser of one of the regions of this dimension.
    pub open spec fn holds_parser(&self, p: R) -> bool {
        exists|k: (i32, i32)| self@.dom().contains(k) && self@[k] == p
    }

    /// The number of regions of this dimension.
    pub closed spec fn region_count(&self) -> nat {
        self.regions@.dom().len()
    }
}

fn pack(x: i32, z: i32) -> (r: u64)
    ensures
        r == pack_key(x, z),
{
    ((x as u32 as u64) << 32u64) | (z as u32 as u64)
}

impl<R: RegionParser> Dimension<R> {
    /// A dimension without regions.
    pub fn new(id: Option<DimensionID>) -> (r: Self)
        ensures
            r.dim_id() == id,
            r@ == Map::<(i32, i32), R>::empty(),
    {
        let d = Dimension { id, regions: HashMap::new() };
        assert(d@ =~= Map::<(i32, i32), R>::empty());
        d
    }

    /// Add a region at `(region_x, region_z)`, in place of any region
    /// that was there.
    pub fn insert_region(&mut self, region_x: i32, region_z: i32, parser: R)
        ensures
            final(self).dim_id() == old(self).dim_id(),
            final(self)@ == old(self)@.insert((region_x, region_z), parser),
    {
        let ghost before = self@;
        let ghost key = (region_x, region_z);
        self.regions.insert(pack(region_x, region_z), parser);
        proof {
            assert forall|p: (i32, i32)| #[trigger] self@.contains_key(p) == before.insert(key, parser).contains_key(p) by {
                if pack_key(p.0, p.1) == pack_key(region_x, region_z) {
                    lemma_key_injective(p, key);
                }
            }
            assert forall|p: (i32, i32)| self@.contains_key(p) implies #[trigger] self@[p] == before.insert(key, parser)[p] by {
                if pack_key(p.0, p.1) == pack_key(region_x, region_z) {
                    lemma_key_injective(p, key);
                }
            }
            assert(self@ =~= before.insert(key, parser));
        }
    }

    /// A dimension of regions at given positions; a later entry takes the
    /// place of an earlier one at the same position.
    pub fn from_positioned(id: Option<DimensionID>, entries: Vec<((i32, i32), R)>) -> (r: Self)
        ensures
            r.dim_id() == id,
            r@ == entries_map(entries@),
    {
        let ghost all = entries@;
        let mut rest = entries;
        let mut d = Dimension::new(id);
        let ghost mut k: int = 0;
        assert(all.subrange(0, 0) =~= Seq::<((i32, i32), R)>::empty());
        while rest.len() > 0
            invariant
                0 <= k <= all.len(),
                rest@ == all.subrange(k, all.len() as int),
                d.dim_id() == id,
                d@ == entries_map(all.subrange(0, k)),
            decreases rest@.len(),
        {
            let ((x, z), p) = rest.remove(0);
            proof {
                assert(all.subrange(0, k + 1).drop_last() =~= all.subrange(0, k));
                assert(all.subrange(0, k + 1).last() == all[k]);
            }
            d.insert_region(x, z, p);
            proof { k = k + 1; }
            assert(rest@ =~= all.subrange(k, all.len() as int));
        }
        assert(all.subrange(0, k) =~= all);
        d
    }

    /// A dimension of the given parsers, each at the position it reports;
    /// a later parser takes the place of an earlier one at the same
    /// position, and no parser is asked to read its region. Where a parser
    /// does not know its position the result is `None`: the call cannot
    /// place that region.
    pub fn from_iter(id: Option<DimensionID>, parsers: Vec<R>) -> (r: Option<Self>)
        ensures
            r matches Some(d) ==> d.dim_id() == id && exists|ps: Seq<(i32, i32)>|
                ps.len() == parsers@.len() && d@ == entries_map(
                    Seq::new(parsers@.len(), |i: int| (ps[i], parsers@[i])),
                ),
            parsers@.len() == 0 ==> (r matches Some(d) && d.dim_id() == id && d@ == Map::<
                (i32, i32),
                R,
            >::empty()),
    {
        let ghost all = parsers@;
        let ghost mut ps: Seq<(i32, i32)> = Seq::empty();
        let mut rest = parsers;
        let mut entries: Vec<((i32, i32), R)> = Vec::new();
        while rest.len() > 0
            invariant
                all == parsers@,
                ps.len() == entries@.len(),
                entries@.len() <= all.len(),
                rest@ == all.subrange(entries@.len() as int, all.len() as int),
                entries@ == Seq::new(entries@.len(), |i: int| (ps[i], all[i])),
            decreases rest@.len(),
        {
            let p = rest.remove(0);
            match p.position() {
                None => {
                    return None;
                },
                Some(pos) => {
                    proof { ps = ps.push(pos); }
                    let ghost n = entries@.len();
                    entries.push((pos, p));
                    assert(rest@ =~= all.subrange(entries@.len() as int, all.len() as int));
                    assert(entries@ =~= Seq::new(entries@.len(), |i: int| (ps[i], all[i])));
                },
            }
        }
        assert(entries@.len() == all.len());
        let ghost placed = entries@;
        let d = Dimension::from_positioned(id, entries);
        assert(all.len() == 0 ==> placed.len() == 0 && entries_map(placed) == Map::<(i32, i32), R>::empty());
        Some(d)
    }

    /// Whether this dimension has a region at `(region_x, region_z)`.
    pub fn has_region(&self, region_x: i32, region_z: i32) -> (r: bool)
        ensures
            r == self@.dom().contains((region_x, region_z)),
    {
        self.regions.contains_key(&pack(region_x, region_z))
    }

    /// The parser of the region at `(region_x, region_z)`, if there is one.
    pub fn region_at(&self, region_x: i32, region_z: i32) -> (r: Option<&R>)
        ensures
            !self@.dom().contains((region_x, region_z)) ==> r is None,
            self@.dom().contains((region_x, region_z)) ==> (r matches Some(p) && *p == self@[(
                region_x,
                region_z,
            )]),
    {
        self.regions.get(&pack(region_x, region_z))
    }

    /// Read the region at `(region_x, region_z)`, which must be present.
    pub fn parse_region(&self, region_x: i32, region_z: i32) -> (r: Result<RegionRef<'_>, Error>)
        requires
            self@.dom().contains((region_x, region_z)),
    {
        match self.region_at(region_x, region_z) {
            Some(p) => p.parse(),
            None => vstd::pervasive::unreached(),
        }
    }

    /// The region coordinates of the regions of this dimension, each once,
    /// in the order in which the map holds them.
    pub fn locations(&self) -> (r: Vec<(i32, i32)>)
        ensures
            r@.len() == self.region_count(),
            r@.no_duplicates(),
            forall|k: (i32, i32)| r@.contains(k) <==> self@.dom().contains(k),
    {
        let ghost s = spec_hash_map_iter(&self.regions).remaining();
        let ghost m = self.regions@;
        let mut out: Vec<(i32, i32)> = Vec::new();
        for e in it: self.regions.iter()
            invariant
                s == spec_hash_map_iter(&self.regions).remaining(),
                m == self.regions@,
                it.seq() == s,
                out@.len() == it.index(),
                forall|j: int| 0 <= j < it.index() ==> out@[j] == unpack_key(*s[j].0),
        {
            let k = *e.0;
            out.push(((k >> 32u64) as u32 as i32, k as u32 as i32));
        }
        proof {
            let l = out@;
            assert(l.len() == s.len());
            assert forall|i: int, j: int| 0 <= i < l.len() && 0 <= j < l.len() && i != j implies l[i] != l[j] by {
                if l[i] == l[j] {
                    lemma_unpack_round_trip(*s[i].0);
                    lemma_unpack_round_trip(*s[j].0);
                    assert(m.contains_key(*s[i].0) && m[*s[i].0] == *s[i].1);
                    assert(m.contains_key(*s[j].0) && m[*s[j].0] == *s[j].1);
                    assert(s[i] == s[j]);
                }
            }
            assert forall|k: (i32, i32)| l.contains(k) <==> self@.dom().contains(k) by {
                if l.contains(k) {
                    let i = choose|i: int| 0 <= i < l.len() && l[i] == k;
                    lemma_unpack_round_trip(*s[i].0);
                    assert(m.contains_key(*s[i].0));
                }
                if self@.dom().contains(k) {
                    let key = pack_key(k.0, k.1);
                    assert(m.contains_key(key));
                    assert(s.contains((&key, &m[key])));
                    let i = choose|i: int| 0 <= i < s.len() && s[i] == (&key, &m[key]);
                    lemma_key_round_trip(k.0, k.1);
                    assert(l[i] == k);
                }
            }
        }
        out
    }

    /// The parsers of the regions of this dimension: one for each region.
    pub fn regions(&self) -> (r: Vec<&R>)
        ensures
            r@.len() == self.region_count(),
            forall|i: int| 0 <= i < r@.len() ==> self.holds_parser(*#[trigger] r@[i]),
            forall|k: (i32, i32)|
                self@.dom().contains(k) ==> exists|i: int|
                    0 <= i < r@.len() && *r@[i] == self@[k],
    {
        let ghost s = spec_hash_map_iter(&self.regions).remaining();
        let ghost m = self.regions@;
        let mut out: Vec<&R> = Vec::new();
        for e in it: self.regions.iter()
            invariant
                s == spec_hash_map_iter(&self.regions).remaining(),
                m == self.regions@,
                it.seq() == s,
                out@.len() == it.index(),
                forall|j: int| 0 <= j < it.index() ==> *out@[j] == *s[j].1,
        {
            out.push(e.1);
        }
        proof {
            assert forall|i: int| 0 <= i < out@.len() implies self.holds_parser(*#[trigger] out@[i]) by {
                lemma_unpack_round_trip(*s[i].0);
                assert(m.contains_key(*s[i].0) && m[*s[i].0] == *s[i].1);
                let k = unpack_key(*s[i].0);
                assert(self@.dom().contains(k) && *out@[i] == self@[k]);
            }
            assert forall|k: (i32, i32)| self@.dom().contains(k) implies exists|i: int|
                0 <= i < out@.len() && *out@[i] == self@[k] by {
                let key = pack_key(k.0, k.1);
                assert(s.contains((&key, &m[key])));
                let i = choose|i: int| 0 <= i < s.len() && s[i] == (&key, &m[key]);
                assert(*out@[i] == self@[k]);
            }
        }
        out
    }

    /// The region that holds the chunk at world chunk coordinates
    /// `(chunk_x, chunk_z)`: `None` where the dimension has no such region.
    pub fn get_region_from_chunk(&self, chunk_x: i32, chunk_z: i32) -> (r: Result<Option<RegionRef<'_>>, Error>)
        ensures
            !self@.dom().contains(((chunk_x as int / 32) as i32, (chunk_z as int / 32) as i32)) ==> r matches Ok(None),
            self@.dom().contains(((chunk_x as int / 32) as i32, (chunk_z as int / 32) as i32)) ==> !(r matches Ok(None)),
    {
        let rx = positive_div(chunk_x, 32);
        let rz = positive_div(chunk_z, 32);
        if self.has_region(rx, rz) {
            match self.parse_region(rx, rz) {
                Ok(region) => Ok(Some(region)),
                Err(e) => Err(e),
            }
        } else {
            Ok(None)
        }
    }

    /// The decompressed bytes of the chunk at world chunk coordinates
    /// `(chunk_x, chunk_z)`: `None` where the dimension has no region there
    /// or the chunk has not been generated. The region is the one at the
    /// coordinates divided by 32, rounded down, and the slot is the
    /// coordinates modulo 32, rounded down. Where the region's parser
    /// fails its error is returned; otherwise the result is that of reading
    /// the slot of the region it gave. Decoding the tag tree of the bytes
    /// is left to the caller.
    pub fn get_chunk_in_world(&self, chunk_x: i32, chunk_z: i32) -> (r: Result<Option<Vec<u8>>, Error>)
        ensures
            !self@.dom().contains(((chunk_x as int / 32) as i32, (chunk_z as int / 32) as i32)) ==> r matches Ok(None),
            self@.dom().contains(((chunk_x as int / 32) as i32, (chunk_z as int / 32) as i32)) ==> (
            r is Err || exists|buf: Seq<u8>|
                buf.len() >= HEADER_LEN && slot_read(
                    buf,
                    chunk_index(chunk_x as int % 32, chunk_z as int % 32),
                    r,
                )),
    {
        match self.get_region_from_chunk(chunk_x, chunk_z) {
            Ok(Some(region)) => {
                let reg = region.region();
                let _ = reg.len();
                let res = chunk_in_region(reg, chunk_x, chunk_z);
                assert(reg@.len() >= HEADER_LEN && slot_read(
                    reg@,
                    chunk_index(chunk_x as int % 32, chunk_z as int % 32),
                    res,
                ));
                res
            },
            Ok(None) => Ok(None),
            Err(e) => Err(e),
        }
    }
}

/// `r` is what reading slot `i` of a region buffer `buf` gives: nothing
/// for an absent chunk, the inflated bytes of a zlib chunk, else the error
/// of the lookup or of the inflate.
pub open spec fn slot_read(buf: Seq<u8>, i: int, r: Result<Option<Vec<u8>>, Error>) -> bool {
    match lookup(buf, i) {
        ChunkLookup::Absent => r matches Ok(None),
        ChunkLookup::Truncated => r matches Err(Error::UnexpectedEof),
        ChunkLookup::Unsupported(t) => (r matches Err(Error::UnsupportedCompression(u)) && u == t),
        ChunkLookup::Found(c, d) => if c == CompressionType::Zlib {
            match zlib_inflated(d) {
                Some(b) => (r matches Ok(Some(v)) && v@ == b),
                None => r matches Err(Error::DecompressError(_)),
            }
        } else {
            r matches Err(Error::UnsupportedCompression(u)) && u == c.spec_tag()
        },
    }
}

/// The decompressed bytes of the chunk at world chunk coordinates
/// `(chunk_x, chunk_z)` within the region that holds it: the coordinates
/// are taken modulo 32, rounded down.
pub fn chunk_in_region(region: &Region, chunk_x: i32, chunk_z: i32) -> (r: Result<Option<Vec<u8>>, Error>)
    ensures
        slot_read(region@, chunk_index(chunk_x as int % 32, chunk_z as int % 32), r),
{
    region.read_chunk(positive_mod(chunk_x, 32) as u32, positive_mod(chunk_z, 32) as u32)
}

} // verus!

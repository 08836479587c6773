//! Fixed-width unsigned big-endian integers.
use vstd::prelude::*;

verus! {

/// The unsigned value of a big-endian byte sequence.
pub open spec fn be_value(bytes: Seq<u8>) -> nat
    decreases bytes.len(),
{
    if bytes.len() == 0 {
        0
    } else {
        be_value(bytes.drop_last()) * 256 + bytes.last() as nat
    }
}

/// A number of `N` bytes stored in big-endian order.
#[derive(Clone, Copy, Debug, PartialEq, Eq)]
pub struct BigEndian<const N: usize> {
    pub inner: [u8; N],
}

impl<const N: usize> From<[u8; N]> for BigEndian<N> {
    fn from(value: [u8; N]) -> (r: Self)
        ensures
            r.inner == value,
    {
        BigEndian { inner: value }
    }
}

impl<const N: usize> vstd::std_specs::convert::FromSpecImpl<[u8; N]> for BigEndian<N> {
    open spec fn obeys_from_spec() -> bool {
        true
    }

    open spec fn from_spec(v: [u8; N]) -> Self {
        BigEndian { inner: v }
    }
}

proof fn lemma_be_value_4(s: Seq<u8>)
    requires
        s.len() == 4,
    ensures
        be_value(s) == s[0] * 16777216 + s[1] * 65536 + s[2] * 256 + s[3],
{
    reveal_with_fuel(be_value, 5);
    assert(s.drop_last().drop_last().drop_last().drop_last() =~= Seq::<u8>::empty());
}

proof fn lemma_be_value_3(s: Seq<u8>)
    requires
        s.len() == 3,
    ensures
        be_value(s) == s[0] * 65536 + s[1] * 256 + s[2],
{
    reveal_with_fuel(be_value, 4);
    assert(s.drop_last().drop_last().drop_last() =~= Seq::<u8>::empty());
}

proof fn lemma_be_value_2(s: Seq<u8>)
    requires
        s.len() == 2,
    ensures
        be_value(s) == s[0] * 256 + s[1],
{
    reveal_with_fuel(be_value, 3);
    assert(s.drop_last().drop_last() =~= Seq::<u8>::empty());
}

proof fn lemma_be_value_1(s: Seq<u8>)
    requires
        s.len() == 1,
    ensures
        be_value(s) == s[0],
{
    reveal_with_fuel(be_value, 2);
    assert(s.drop_last() =~= Seq::<u8>::empty());
}

impl<const N: usize> BigEndian<N> {
    /// The bytes of this number, most significant first.
    pub fn into_bytes(self) -> (r: [u8; N])
        ensures
            r == self.inner,
    {
        self.inner
    }

    /// The value of this number; defined for one to four bytes.
    pub fn as_u32(&self) -> (r: u32)
        requires
            1 <= N <= 4,
        ensures
            r == be_value(self.inner@),
    {
        let a = &self.inner;
        if N == 4 {
            proof { lemma_be_value_4(a@); }
            a[0] as u32 * 16777216 + a[1] as u32 * 65536 + a[2] as u32 * 256 + a[3] as u32
        } else if N == 3 {
            proof { lemma_be_value_3(a@); }
            a[0] as u32 * 65536 + a[1] as u32 * 256 + a[2] as u32
        } else if N == 2 {
            proof { lemma_be_value_2(a@); }
            a[0] as u32 * 256 + a[1] as u32
        } else {
            proof { lemma_be_value_1(a@); }
            a[0] as u32
        }
    }
}

impl From<BigEndian<4>> for u32 {
    fn from(be: BigEndian<4>) -> (r: u32)
        ensures
            r == be_value(be.inner@),
    {
        be.as_u32()
    }
}

impl vstd::std_specs::convert::FromSpecImpl<BigEndian<4>> for u32 {
    open spec fn obeys_from_spec() -> bool {
        true
    }

    open spec fn from_spec(v: BigEndian<4>) -> u32 {
        be_value(v.inner@) as u32
    }
}

impl From<BigEndian<3>> for u32 {
    fn from(be: BigEndian<3>) -> (r: u32)
        ensures
            r == be_value(be.inner@),
    {
        be.as_u32()
    }
}

impl vstd::std_specs::convert::FromSpecImpl<BigEndian<3>> for u32 {
    open spec fn obeys_from_spec() -> bool {
        true
    }

    open spec fn from_spec(v: BigEndian<3>) -> u32 {
        be_value(v.inner@) as u32
    }
}

impl From<u32> for BigEndian<4> {
    fn from(value: u32) -> (r: Self)
        ensures
            be_value(r.inner@) == value,
    {
        assert(value / 16777216 < 256 && value == (value / 16777216) * 16777216 + ((value / 65536)
            % 256) * 65536 + ((value / 256) % 256) * 256 + value % 256) by (bit_vector);
        let b0 = (value / 16777216) as u8;
        let b1 = ((value / 65536) % 256) as u8;
        let b2 = ((value / 256) % 256) as u8;
        let b3 = (value % 256) as u8;
        let r = BigEndian { inner: [b0, b1, b2, b3] };
        proof { lemma_be_value_4(r.inner@); }
        r
    }
}

impl vstd::std_specs::convert::FromSpecImpl<u32> for BigEndian<4> {
    open spec fn obeys_from_spec() -> bool {
        true
    }

    open spec fn from_spec(v: u32) -> Self {
        BigEndian {
            inner: [
                (v / 16777216) as u8,
                ((v / 65536) % 256) as u8,
                ((v / 256) % 256) as u8,
                (v % 256) as u8,
            ],
        }
    }
}

} // verus!

//! Coordinates and ids that the names of region files and dimension
//! directories carry.
use vstd::prelude::*;
use crate::dimension::{dimension_of, DimensionID};

verus! {

/// Where the first `c` of `s` stands, if it has one.
pub open spec fn first_index(s: Seq<char>, c: char) -> Option<int> {
    if exists|i: int| 0 <= i < s.len() && s[i] == c {
        Some(choose|i: int| 0 <= i < s.len() && s[i] == c && forall|j: int| 0 <= j < i ==> s[j] != c)
    } else {
        None
    }
}

/// `s` cut at its first `c`: what stands before it and what follows it.
pub open spec fn split_first(s: Seq<char>, c: char) -> Option<(Seq<char>, Seq<char>)> {
    match first_index(s, c) {
        None => None,
        Some(i) => Some((s.subrange(0, i), s.subrange(i + 1, s.len() as int))),
    }
}

/// `s` cut at its first `c`, if it has one.
pub fn split_once_at<'a>(s: &'a str, c: char) -> (r: Option<(&'a str, &'a str)>)
    ensures
        match split_first(s@, c) {
            None => r is None,
            Some(p) => (r matches Some(q) && q.0@ == p.0 && q.1@ == p.1),
        },
{
    let n = s.unicode_len();
    let mut i: usize = 0;
    while i < n
        invariant
            0 <= i <= n,
            n == s@.len(),
            forall|j: int| 0 <= j < i ==> s@[j] != c,
        decreases n - i,
    {
        if s.get_char(i) == c {
            proof {
                assert(0 <= i < s@.len() && s@[i as int] == c);
                let k = choose|k: int| 0 <= k < s@.len() && s@[k] == c && forall|j: int| 0 <= j < k ==> s@[j] != c;
                assert(k == i);
            }
            return Some((s.substring_char(0, i), s.substring_char(i + 1, n)));
        }
        i = i + 1;
    }
    None
}

/// The value of a run of decimal digits.
pub open spec fn digits_value(s: Seq<char>) -> int
    decreases s.len(),
{
    if s.len() == 0 {
        0
    } else {
        digits_value(s.drop_last()) * 10 + (s.last() as int - '0' as int)
    }
}

/// Every character of `s` is a decimal digit.
pub open spec fn all_digits(s: Seq<char>) -> bool {
    forall|i: int| 0 <= i < s.len() ==> '0' <= #[trigger] s[i] <= '9'
}

/// The integer that `s` writes in decimal, with an optional sign.
pub open spec fn decimal_of(s: Seq<char>) -> Option<int> {
    let signed = s.len() > 0 && (s[0] == '-' || s[0] == '+');
    let digits = if signed {
        s.drop_first()
    } else {
        s
    };
    if digits.len() == 0 || !all_digits(digits) {
        None
    } else if signed && s[0] == '-' {
        Some(-digits_value(digits))
    } else {
        Some(digits_value(digits))
    }
}

/// The `i32` that `s` writes in decimal, where it writes one in range.
pub open spec fn i32_of(s: Seq<char>) -> Option<i32> {
    match decimal_of(s) {
        Some(v) => if i32::MIN <= v <= i32::MAX {
            Some(v as i32)
        } else {
            None
        },
        None => None,
    }
}

proof fn lemma_digits_nonneg(s: Seq<char>)
    requires
        all_digits(s),
    ensures
        digits_value(s) >= 0,
    decreases s.len(),
{
    if s.len() > 0 {
        assert(all_digits(s.drop_last()));
        lemma_digits_nonneg(s.drop_last());
        assert('0' <= s[s.len() - 1] <= '9');
    }
}

/// The `i32` that `s` writes in decimal, with an optional sign: `None`
/// where it writes none or the value is out of range.
pub fn parse_i32(s: &str) -> (r: Option<i32>)
    ensures
        r == i32_of(s@),
{
    let n = s.unicode_len();
    if n == 0 {
        return None;
    }
    let first = s.get_char(0);
    let signed = first == '-' || first == '+';
    let negative = first == '-';
    let start: usize = if signed { 1 } else { 0 };
    let ghost digits = if signed { s@.drop_first() } else { s@ };
    assert(digits =~= s@.subrange(start as int, n as int));
    if start == n {
        return None;
    }
    // Saturates at `limit`, which no value of an i32 reaches.
    let limit: i64 = 4294967296;
    let mut acc: i64 = 0;
    let mut i: usize = start;
    while i < n
        invariant
            start <= i <= n,
            n == s@.len(),
            digits =~= s@.subrange(start as int, n as int),
            all_digits(s@.subrange(start as int, i as int)),
            acc == if digits_value(s@.subrange(start as int, i as int)) < limit {
                digits_value(s@.subrange(start as int, i as int))
            } else {
                limit as int
            },
            limit == 4294967296,
            s@.len() > 0,
            signed == (s@[0] == '-' || s@[0] == '+'),
            negative == (s@[0] == '-'),
            digits == if signed {
                s@.drop_first()
            } else {
                s@
            },
        decreases n - i,
    {
        let c = s.get_char(i);
        let ghost prefix = s@.subrange(start as int, i as int);
        assert(s@.subrange(start as int, i + 1).drop_last() =~= prefix);
        if !('0' <= c && c <= '9') {
            proof {
                assert(digits[i - start] == c);
                assert(!('0' <= digits[i - start] <= '9'));
                assert(!all_digits(digits));
                assert(decimal_of(s@) is None);
            }
            return None;
        }
        proof {
            assert(all_digits(s@.subrange(start as int, i + 1)));
            lemma_digits_nonneg(prefix);
        }
        let d = (c as u32 - '0' as u32) as i64;
        if acc >= limit {
            acc = limit;
        } else {
            let next = acc * 10 + d;
            acc = if next < limit { next } else { limit };
        }
        i = i + 1;
    }
    assert(s@.subrange(start as int, n as int) =~= digits);
    proof { lemma_digits_nonneg(digits); }
    if negative {
        if acc <= 2147483648 {
            Some((-acc) as i32)
        } else {
            None
        }
    } else {
        if acc <= 2147483647 {
            Some(acc as i32)
        } else {
            None
        }
    }
}

/// The region coordinates that a region file's name gives: the name has the
/// parts `r`, x, z and `mca`, cut at dots; anything after a fourth dot is
/// ignored.
pub open spec fn region_position_of(name: Seq<char>) -> Option<(i32, i32)> {
    match split_first(name, '.') {
        None => None,
        Some(cut1) => match split_first(cut1.1, '.') {
            None => None,
            Some(cut2) => match split_first(cut2.1, '.') {
                None => None,
                Some(cut3) => {
                    let ext = match split_first(cut3.1, '.') {
                        None => cut3.1,
                        Some(cut4) => cut4.0,
                    };
                    if cut1.0 == seq!['r'] && ext == seq!['m', 'c', 'a'] && i32_of(cut2.0) is Some
                        && i32_of(cut3.0) is Some {
                        Some((i32_of(cut2.0)->0, i32_of(cut3.0)->0))
                    } else {
                        None
                    }
                },
            },
        },
    }
}

/// Whether two strings hold the same characters.
pub(crate) fn str_equals(a: &str, b: &str) -> (r: bool)
    ensures
        r == (a@ == b@),
{
    let n = a.unicode_len();
    if n != b.unicode_len() {
        return false;
    }
    let mut i: usize = 0;
    while i < n
        invariant
            0 <= i <= n,
            n == a@.len(),
            n == b@.len(),
            forall|j: int| 0 <= j < i ==> a@[j] == b@[j],
        decreases n - i,
    {
        if a.get_char(i) != b.get_char(i) {
            return false;
        }
        i = i + 1;
    }
    assert(a@ =~= b@);
    true
}

/// The region coordinates that the name of a region file gives, such as
/// `(-1, 100)` for `r.-1.100.mca`.
pub fn region_position(name: &str) -> (r: Option<(i32, i32)>)
    ensures
        r == region_position_of(name@),
{
    proof {
        reveal_strlit("r");
        reveal_strlit("mca");
    }
    let (first, rest) = match split_once_at(name, '.') {
        None => return None,
        Some(p) => p,
    };
    let (xs, rest) = match split_once_at(rest, '.') {
        None => return None,
        Some(p) => p,
    };
    let (zs, rest) = match split_once_at(rest, '.') {
        None => return None,
        Some(p) => p,
    };
    let ext = match split_once_at(rest, '.') {
        None => rest,
        Some(p) => p.0,
    };
    if !str_equals(first, "r") || !str_equals(ext, "mca") {
        assert("r"@ =~= seq!['r']);
        assert("mca"@ =~= seq!['m', 'c', 'a']);
        return None;
    }
    assert("r"@ =~= seq!['r']);
    assert("mca"@ =~= seq!['m', 'c', 'a']);
    match (parse_i32(xs), parse_i32(zs)) {
        (Some(x), Some(z)) => Some((x, z)),
        _ => None,
    }
}

/// The dimension that a directory name `DIM<id>` gives.
pub open spec fn dimension_of_name(name: Seq<char>) -> Option<DimensionID> {
    if name.len() >= 3 && name.subrange(0, 3) == seq!['D', 'I', 'M'] {
        match i32_of(name.subrange(3, name.len() as int)) {
            Some(n) => Some(dimension_of(n)),
            None => None,
        }
    } else {
        None
    }
}

/// The dimension that a directory name such as `DIM-1` gives.
pub fn dimension_from_name(name: &str) -> (r: Option<DimensionID>)
    ensures
        r == dimension_of_name(name@),
{
    proof { reveal_strlit("DIM"); }
    let n = name.unicode_len();
    if n < 3 {
        return None;
    }
    let head = name.substring_char(0, 3);
    if !str_equals(head, "DIM") {
        assert("DIM"@ =~= seq!['D', 'I', 'M']);
        return None;
    }
    assert("DIM"@ =~= seq!['D', 'I', 'M']);
    match parse_i32(name.substring_char(3, n)) {
        Some(id) => Some(DimensionID::from(id)),
        None => None,
    }
}

} // verus!

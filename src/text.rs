//! Byte-level text operations on UTF-8 lines: whitespace, trimming, substring
//! search and character boundaries.
use vstd::prelude::*;

verus! {

/// The single-byte whitespace characters: tab, line feed, vertical tab,
/// form feed, carriage return and space.
pub open spec fn is_space_byte(b: u8) -> bool {
    b == 9u8 || b == 10u8 || b == 11u8 || b == 12u8 || b == 13u8 || b == 32u8
}

/// The three-byte encodings of Unicode whitespace: U+1680, U+2000 to U+200A,
/// U+2028, U+2029, U+202F, U+205F and U+3000.
pub open spec fn is_wide_space(a: u8, b: u8, c: u8) -> bool {
    ||| a == 0xE1u8 && b == 0x9Au8 && c == 0x80u8
    ||| a == 0xE2u8 && b == 0x80u8 && ((0x80u8 <= c && c <= 0x8Au8) || c == 0xA8u8 || c == 0xA9u8
        || c == 0xAFu8)
    ||| a == 0xE2u8 && b == 0x81u8 && c == 0x9Fu8
    ||| a == 0xE3u8 && b == 0x80u8 && c == 0x80u8
}

/// The two-byte encodings of Unicode whitespace: U+0085 and U+00A0.
pub open spec fn is_narrow_space(a: u8, b: u8) -> bool {
    a == 0xC2u8 && (b == 0x85u8 || b == 0xA0u8)
}

/// Length in bytes of the whitespace character that starts at `i`, or 0.
pub open spec fn space_at(s: Seq<u8>, i: int) -> int {
    if 0 <= i < s.len() && is_space_byte(s[i]) {
        1
    } else if 0 <= i && i + 2 <= s.len() && is_narrow_space(s[i], s[i + 1]) {
        2
    } else if 0 <= i && i + 3 <= s.len() && is_wide_space(s[i], s[i + 1], s[i + 2]) {
        3
    } else {
        0
    }
}

/// Length in bytes of the whitespace character that ends at `j` and starts
/// no lower than `lo`, or 0.
pub open spec fn space_before(s: Seq<u8>, lo: int, j: int) -> int {
    if 0 <= lo < j <= s.len() && is_space_byte(s[j - 1]) {
        1
    } else if 0 <= lo && lo + 2 <= j <= s.len() && is_narrow_space(s[j - 2], s[j - 1]) {
        2
    } else if 0 <= lo && lo + 3 <= j <= s.len() && is_wide_space(s[j - 3], s[j - 2], s[j - 1]) {
        3
    } else {
        0
    }
}

/// Where the text starts once the whitespace from `i` on is skipped.
pub open spec fn trim_lo(s: Seq<u8>, i: int) -> int
    decreases s.len() - i,
{
    if 0 <= i < s.len() && space_at(s, i) > 0 {
        trim_lo(s, i + space_at(s, i))
    } else {
        i
    }
}

/// Where the text ends once the whitespace before `j`, down to `lo`, is
/// dropped.
pub open spec fn trim_hi(s: Seq<u8>, lo: int, j: int) -> int
    decreases j - lo,
{
    if lo < j && space_before(s, lo, j) > 0 {
        trim_hi(s, lo, j - space_before(s, lo, j))
    } else {
        j
    }
}

/// A line without its leading and trailing whitespace.
pub open spec fn trimmed(s: Seq<u8>) -> Seq<u8> {
    s.subrange(trim_lo(s, 0), trim_hi(s, trim_lo(s, 0), s.len() as int))
}

/// `p` stands in `s` at byte `i`.
pub open spec fn occurs_at(s: Seq<u8>, p: Seq<u8>, i: int) -> bool {
    0 <= i && i + p.len() <= s.len() && s.subrange(i, i + p.len()) == p
}

/// `s` begins with `p`.
pub open spec fn starts_with(s: Seq<u8>, p: Seq<u8>) -> bool {
    occurs_at(s, p, 0)
}

/// `p` stands somewhere in `s`.
pub open spec fn contains(s: Seq<u8>, p: Seq<u8>) -> bool {
    exists|i: int| #[trigger] occurs_at(s, p, i)
}

/// A character starts at byte `i`, or `i` is the end of `s`.
pub open spec fn is_boundary(s: Seq<u8>, i: int) -> bool {
    i == 0 || i == s.len() || (0 < i < s.len() && !(0x80u8 <= s[i] && s[i] < 0xC0u8))
}

/// Length in bytes of the whitespace character that starts at `i`, or 0.
pub fn space_len_at(s: &[u8], i: usize) -> (r: usize)
    requires
        i < s@.len(),
    ensures
        r == space_at(s@, i as int),
{
    let len = s.len();
    let a = s[i];
    if a == 9 || a == 10 || a == 11 || a == 12 || a == 13 || a == 32 {
        1
    } else if len - i >= 2 && a == 0xC2 && (s[i + 1] == 0x85 || s[i + 1] == 0xA0) {
        2
    } else if len - i >= 3 {
        let b = s[i + 1];
        let c = s[i + 2];
        if (a == 0xE1 && b == 0x9A && c == 0x80) || (a == 0xE2 && b == 0x80 && ((0x80 <= c && c
            <= 0x8A) || c == 0xA8 || c == 0xA9 || c == 0xAF)) || (a == 0xE2 && b == 0x81 && c
            == 0x9F) || (a == 0xE3 && b == 0x80 && c == 0x80) {
            3
        } else {
            0
        }
    } else {
        0
    }
}

fn space_len_before(s: &[u8], lo: usize, j: usize) -> (r: usize)
    requires
        lo < j <= s@.len(),
    ensures
        r == space_before(s@, lo as int, j as int),
{
    let a = s[j - 1];
    if a == 9 || a == 10 || a == 11 || a == 12 || a == 13 || a == 32 {
        1
    } else if j - lo >= 2 && s[j - 2] == 0xC2 && (a == 0x85 || a == 0xA0) {
        2
    } else if j - lo >= 3 {
        let x = s[j - 3];
        let y = s[j - 2];
        if (x == 0xE1 && y == 0x9A && a == 0x80) || (x == 0xE2 && y == 0x80 && ((0x80 <= a && a
            <= 0x8A) || a == 0xA8 || a == 0xA9 || a == 0xAF)) || (x == 0xE2 && y == 0x81 && a
            == 0x9F) || (x == 0xE3 && y == 0x80 && a == 0x80) {
            3
        } else {
            0
        }
    } else {
        0
    }
}

/// The byte range of `s` left once its leading and trailing whitespace is
/// removed.
pub fn trim_range(s: &[u8]) -> (r: (usize, usize))
    ensures
        r.0 == trim_lo(s@, 0),
        r.1 == trim_hi(s@, r.0 as int, s@.len() as int),
        r.0 <= r.1 <= s@.len(),
{
    let len = s.len();
    let mut lo: usize = 0;
    loop
        invariant
            lo <= len,
            len == s@.len(),
            trim_lo(s@, lo as int) == trim_lo(s@, 0),
        ensures
            lo <= len,
            trim_lo(s@, 0) == lo,
        decreases len - lo,
    {
        if lo >= len {
            break;
        }
        let k = space_len_at(s, lo);
        if k == 0 {
            break;
        }
        lo = lo + k;
    }
    let mut hi: usize = len;
    loop
        invariant
            lo <= hi <= len,
            len == s@.len(),
            trim_lo(s@, 0) == lo,
            trim_hi(s@, lo as int, hi as int) == trim_hi(s@, lo as int, len as int),
        ensures
            lo <= hi <= len,
            trim_hi(s@, lo as int, len as int) == hi,
        decreases hi - lo,
    {
        if hi <= lo {
            break;
        }
        let k = space_len_before(s, lo, hi);
        if k == 0 {
            break;
        }
        hi = hi - k;
    }
    (lo, hi)
}

/// Whether `p` stands in `s` at byte `i`.
pub fn matches_at(s: &[u8], p: &[u8], i: usize) -> (r: bool)
    ensures
        r == occurs_at(s@, p@, i as int),
{
    let len = s.len();
    let plen = p.len();
    if i > len || plen > len - i {
        return false;
    }
    let mut k: usize = 0;
    while k < plen
        invariant
            k <= plen,
            plen == p@.len(),
            len == s@.len(),
            i + plen <= len,
            forall|m: int| 0 <= m < k ==> s@[i + m] == p@[m],
        decreases plen - k,
    {
        if s[i + k] != p[k] {
            proof {
                assert(s@.subrange(i as int, i + plen)[k as int] != p@[k as int]);
            }
            return false;
        }
        k = k + 1;
    }
    proof {
        assert(s@.subrange(i as int, i + plen) =~= p@);
    }
    true
}

/// Whether `s` begins with `p`.
pub fn starts_with_bytes(s: &[u8], p: &[u8]) -> (r: bool)
    ensures
        r == starts_with(s@, p@),
{
    matches_at(s, p, 0)
}

/// Whether `p` stands anywhere in `s`.
pub fn contains_bytes(s: &[u8], p: &[u8]) -> (r: bool)
    ensures
        r == contains(s@, p@),
{
    let len = s.len();
    let mut i: usize = 0;
    while i <= len
        invariant
            len == s@.len(),
            forall|m: int| 0 <= m < i ==> !occurs_at(s@, p@, m),
        decreases len + 1 - i,
    {
        if matches_at(s, p, i) {
            return true;
        }
        if i == len {
            proof {
                assert forall|m: int| !occurs_at(s@, p@, m) by {
                    if 0 <= m < i {
                    }
                }
            }
            return false;
        }
        i = i + 1;
    }
    false
}

/// Whether a character starts at byte `i` of `s`, or `i` is its end.
pub fn boundary(s: &[u8], i: usize) -> (r: bool)
    requires
        i <= s@.len(),
    ensures
        r == is_boundary(s@, i as int),
{
    i == 0 || i == s.len() || s[i] < 0x80 || s[i] >= 0xC0
}

} // verus!

//! Little-endian integers inside byte strings.
use vstd::prelude::*;

verus! {

/// The 16-bit little-endian number at `at`.
pub open spec fn le16(s: Seq<u8>, at: int) -> int {
    s[at] + s[at + 1] * 0x100
}

/// The 32-bit little-endian number at `at`.
pub open spec fn le32(s: Seq<u8>, at: int) -> int {
    s[at] + s[at + 1] * 0x100 + s[at + 2] * 0x1_0000 + s[at + 3] * 0x100_0000
}

/// The 64-bit little-endian number at `at`.
pub open spec fn le64(s: Seq<u8>, at: int) -> int {
    le32(s, at) + le32(s, at + 4) * 0x1_0000_0000
}

/// Reads the 16-bit little-endian number at `at`.
pub fn read_le16(s: &[u8], at: usize) -> (r: u16)
    requires
        at + 2 <= s@.len(),
    ensures
        r == le16(s@, at as int),
        spells(s@, at as int, 2, r as int),
{
    proof {
        law_le16_is_spelled(s@, at as int);
    }
    s[at] as u16 + s[at + 1] as u16 * 0x100
}

/// Reads the 32-bit little-endian number at `at`.
pub fn read_le32(s: &[u8], at: usize) -> (r: u32)
    requires
        at + 4 <= s@.len(),
    ensures
        r == le32(s@, at as int),
        spells(s@, at as int, 4, r as int),
{
    proof {
        law_le32_is_spelled(s@, at as int);
    }
    s[at] as u32 + s[at + 1] as u32 * 0x100 + s[at + 2] as u32 * 0x1_0000 + s[at + 3] as u32
        * 0x100_0000
}

/// Reads the 64-bit little-endian number at `at`.
pub fn read_le64(s: &[u8], at: usize) -> (r: u64)
    requires
        at + 8 <= s@.len(),
    ensures
        r == le64(s@, at as int),
        spells(s@, at as int, 8, r as int),
{
    proof {
        law_le64_is_spelled(s@, at as int);
    }
    assert(at + 8 <= s.len());
    let low: u64 = read_le32(s, at) as u64;
    let high: u64 = read_le32(s, at + 4) as u64;
    low + high * 0x1_0000_0000
}

/// Whether the `width` bytes from `at` on spell `n`: each byte is the next higher digit of `n` to
/// the base 256, and no digit is left over.
pub open spec fn spells(s: Seq<u8>, at: int, width: nat, n: int) -> bool
    decreases width,
{
    if width == 0 {
        n == 0
    } else {
        n % 256 == s[at] && spells(s, at + 1, (width - 1) as nat, n / 256)
    }
}

/// Two bytes spell the number that is read from them.
pub proof fn law_le16_is_spelled(s: Seq<u8>, at: int)
    ensures
        spells(s, at, 2, le16(s, at)),
        0 <= le16(s, at) <= 0xFFFF,
{
    reveal_with_fuel(spells, 3);
}

/// Four bytes spell the number that is read from them.
pub proof fn law_le32_is_spelled(s: Seq<u8>, at: int)
    ensures
        spells(s, at, 4, le32(s, at)),
        0 <= le32(s, at) <= 0xFFFF_FFFF,
{
    reveal_with_fuel(spells, 5);
}

/// Eight bytes spell the number that is read from them.
pub proof fn law_le64_is_spelled(s: Seq<u8>, at: int)
    ensures
        spells(s, at, 8, le64(s, at)),
        0 <= le64(s, at) <= 0xFFFF_FFFF_FFFF_FFFF,
{
    let n7 = s[at + 7] as int;
    let n6 = s[at + 6] + 256 * n7;
    let n5 = s[at + 5] + 256 * n6;
    let n4 = s[at + 4] + 256 * n5;
    let n3 = s[at + 3] + 256 * n4;
    let n2 = s[at + 2] + 256 * n3;
    let n1 = s[at + 1] + 256 * n2;
    let n0 = s[at] + 256 * n1;
    assert(spells(s, at + 8, 0, 0));
    lemma_one_more_digit(s, at + 7, 0, 0);
    lemma_one_more_digit(s, at + 6, 1, n7);
    lemma_one_more_digit(s, at + 5, 2, n6);
    lemma_one_more_digit(s, at + 4, 3, n5);
    lemma_one_more_digit(s, at + 3, 4, n4);
    lemma_one_more_digit(s, at + 2, 5, n3);
    lemma_one_more_digit(s, at + 1, 6, n2);
    lemma_one_more_digit(s, at, 7, n1);
    assert(n0 == le64(s, at));
}

/// A byte before others is one more digit, below theirs.
proof fn lemma_one_more_digit(s: Seq<u8>, at: int, width: nat, n: int)
    requires
        spells(s, at + 1, width, n),
    ensures
        spells(s, at, width + 1, s[at] + 256 * n),
{
    let more = s[at] + 256 * n;
    assert(more % 256 == s[at]);
    assert(more / 256 == n);
}

/// Bytes spell one number only.
pub proof fn law_spelling_is_unique(s: Seq<u8>, at: int, width: nat, a: int, b: int)
    requires
        spells(s, at, width, a),
        spells(s, at, width, b),
    ensures
        a == b,
    decreases width,
{
    if width > 0 {
        law_spelling_is_unique(s, at + 1, (width - 1) as nat, a / 256, b / 256);
    }
}

/// What bytes spell depends on these bytes alone.
pub proof fn law_spelling_is_local(s: Seq<u8>, at: int, t: Seq<u8>, to: int, width: nat, n: int)
    requires
        spells(s, at, width, n),
        forall|i: int| 0 <= i < width ==> s[#[trigger] (at + i)] == t[to + i],
    ensures
        spells(t, to, width, n),
    decreases width,
{
    if width > 0 {
        assert(s[at + 0] == t[to + 0]);
        assert forall|i: int| 0 <= i < width - 1 implies s[#[trigger] (at + 1 + i)] == t[to + 1
            + i] by {
            assert(s[at + (i + 1)] == t[to + (i + 1)]);
        }
        law_spelling_is_local(s, at + 1, t, to + 1, (width - 1) as nat, n / 256);
    }
}

} // verus!

//! The GUID partition table.
use crate::le;
use vstd::prelude::*;

verus! {

/// The shortest partition entry that the format allows.
pub const GPT_MIN_ENTRY_LEN: usize = 128;

/// The length of the header's defined fields.
pub const GPT_HEADER_LEN: usize = 92;

/// What the header says of the partition entries.
#[derive(Debug, Clone, Copy, PartialEq, Eq, Structural)]
pub struct GPTHeader {
    pub partition_entry_lba: u64,
    pub num_partition_entries: u32,
    pub partition_entry_size: u32,
}

/// One partition entry.
#[derive(Debug, Clone, Copy, PartialEq, Eq, Structural)]
pub struct GPTPartition {
    pub type_guid_low: u64,
    pub type_guid_high: u64,
    pub first_lba: u64,
    pub last_lba: u64,
}

/// The bytes `EFI PART` that open a header.
pub open spec fn has_gpt_signature(s: Seq<u8>) -> bool {
    &&& s[0] == 0x45
    &&& s[1] == 0x46
    &&& s[2] == 0x49
    &&& s[3] == 0x20
    &&& s[4] == 0x50
    &&& s[5] == 0x41
    &&& s[6] == 0x52
    &&& s[7] == 0x54
}

/// The header in `s`, if there is one.
pub open spec fn gpt_header(s: Seq<u8>) -> Option<GPTHeader> {
    if s.len() >= GPT_HEADER_LEN && has_gpt_signature(s) {
        Some(
            GPTHeader {
                partition_entry_lba: le::le64(s, 72) as u64,
                num_partition_entries: le::le32(s, 80) as u32,
                partition_entry_size: le::le32(s, 84) as u32,
            },
        )
    } else {
        None
    }
}

/// The partition entry at `at`.
pub open spec fn gpt_entry(s: Seq<u8>, at: int) -> GPTPartition {
    GPTPartition {
        type_guid_low: le::le64(s, at) as u64,
        type_guid_high: le::le64(s, at + 8) as u64,
        first_lba: le::le64(s, at + 32) as u64,
        last_lba: le::le64(s, at + 40) as u64,
    }
}

/// How many of `num` entries of `size` bytes each lie wholly in `len` bytes.
pub open spec fn gpt_entries_in(len: int, num: int, size: int) -> int {
    if size < GPT_MIN_ENTRY_LEN {
        0
    } else if num * size <= len {
        num
    } else {
        len / size
    }
}

/// The first `num` entries of `size` bytes each in `s`, as far as they lie in `s`.
pub open spec fn gpt_entries(s: Seq<u8>, num: u32, size: u32) -> Seq<GPTPartition> {
    Seq::new(
        gpt_entries_in(s.len() as int, num as int, size as int) as nat,
        |i: int| gpt_entry(s, i * size),
    )
}

impl GPTHeader {
    /// Parses a header; `None` where it is too short or lacks the signature.
    pub fn parse(sector: &[u8]) -> (r: Option<GPTHeader>)
        ensures
            r == gpt_header(sector@),
    {
        if sector.len() < GPT_HEADER_LEN {
            return None;
        }
        if sector[0] == 0x45 && sector[1] == 0x46 && sector[2] == 0x49 && sector[3] == 0x20
            && sector[4] == 0x50 && sector[5] == 0x41 && sector[6] == 0x52 && sector[7] == 0x54 {
            Some(
                GPTHeader {
                    partition_entry_lba: le::read_le64(sector, 72),
                    num_partition_entries: le::read_le32(sector, 80),
                    partition_entry_size: le::read_le32(sector, 84),
                },
            )
        } else {
            None
        }
    }
}

impl GPTPartition {
    /// Whether the entry describes a partition: its type is not the zero GUID.
    pub open spec fn active(&self) -> bool {
        self.type_guid_low != 0 || self.type_guid_high != 0
    }

    /// Whether the entry describes a partition.
    pub fn is_active(&self) -> (r: bool)
        ensures
            r == self.active(),
    {
        self.type_guid_low != 0 || self.type_guid_high != 0
    }

    /// Parses the entries of a partition table, used or not, as far as they lie in `data`.
    pub fn parse_entries(data: &[u8], num: u32, size: u32) -> (r: Vec<GPTPartition>)
        ensures
            r@ == gpt_entries(data@, num, size),
    {
        let mut entries: Vec<GPTPartition> = Vec::new();
        if (size as usize) < GPT_MIN_ENTRY_LEN {
            assert(entries@ =~= gpt_entries(data@, num, size));
            return entries;
        }
        let mut i: u32 = 0;
        let mut at: usize = 0;
        while i < num && data.len() - at >= size as usize
            invariant
                i <= num,
                size >= GPT_MIN_ENTRY_LEN,
                at == i * size,
                at <= data@.len(),
                entries@ == Seq::new(i as nat, |j: int| gpt_entry(data@, j * size)),
            decreases num - i,
        {
            entries.push(
                GPTPartition {
                    type_guid_low: le::read_le64(data, at),
                    type_guid_high: le::read_le64(data, at + 8),
                    first_lba: le::read_le64(data, at + 32),
                    last_lba: le::read_le64(data, at + 40),
                },
            );
            assert((i + 1) * size == i * size + size) by (nonlinear_arith);
            i = i + 1;
            at = at + size as usize;
            assert(entries@ =~= Seq::new(i as nat, |j: int| gpt_entry(data@, j * size)));
        }
        proof {
            lemma_entries_in(data@.len() as int, num as int, size as int, i as int);
        }
        assert(entries@ =~= gpt_entries(data@, num, size));
        entries
    }
}

/// The scan stops at the right entry: `i` is all entries, or the last that fits.
proof fn lemma_entries_in(len: int, num: int, size: int, i: int)
    requires
        size >= GPT_MIN_ENTRY_LEN,
        0 <= i <= num,
        i * size <= len,
        i == num || len - i * size < size,
    ensures
        i == gpt_entries_in(len, num, size),
{
    if i < num {
        assert((i + 1) * size == i * size + size) by (nonlinear_arith);
        assert(num * size >= (i + 1) * size) by (nonlinear_arith)
            requires
                num >= i + 1,
                size > 0,
        ;
        vstd::arithmetic::div_mod::lemma_fundamental_div_mod_converse(len, size, i, len - i * size);
    }
}

/// A header opens with the letters `EFI PART`. Its bytes 72 to 79 spell the block that the entries
/// start in, bytes 80 to 83 their number, and bytes 84 to 87 the size of each.
pub proof fn law_header_is_what_its_bytes_say(s: Seq<u8>)
    ensures
        gpt_header(s) is Some <==> s.len() >= 92 && s.take(8) == seq![
            0x45u8,
            0x46u8,
            0x49u8,
            0x20u8,
            0x50u8,
            0x41u8,
            0x52u8,
            0x54u8,
        ],
        gpt_header(s) matches Some(h) ==> {
            &&& le::spells(s, 72, 8, h.partition_entry_lba as int)
            &&& le::spells(s, 80, 4, h.num_partition_entries as int)
            &&& le::spells(s, 84, 4, h.partition_entry_size as int)
        },
{
    le::law_le64_is_spelled(s, 72);
    le::law_le32_is_spelled(s, 80);
    le::law_le32_is_spelled(s, 84);
    if s.len() >= 92 {
        let head = s.take(8);
        assert(forall|i: int| 0 <= i < 8 ==> #[trigger] head[i] == s[i]);
        let letters = seq![0x45u8, 0x46u8, 0x49u8, 0x20u8, 0x50u8, 0x41u8, 0x52u8, 0x54u8];
        if has_gpt_signature(s) {
            assert(head =~= letters);
        } else if head == letters {
            assert(head[0] == 0x45 && head[1] == 0x46 && head[2] == 0x49 && head[3] == 0x20);
            assert(head[4] == 0x50 && head[5] == 0x41 && head[6] == 0x52 && head[7] == 0x54);
        }
    }
}

/// The entries lie one behind the other, as many as are named and fit; entries that are shorter
/// than 128 bytes are none.
pub proof fn law_entries_lie_side_by_side(s: Seq<u8>, num: u32, size: u32, i: int)
    ensures
        0 <= i < gpt_entries(s, num, size).len() <==> 0 <= i < num && size >= 128 && (i + 1) * size
            <= s.len(),
{
    let len = s.len() as int;
    if size >= 128 {
        let n = gpt_entries_in(len, num as int, size as int);
        if num * size > len {
            vstd::arithmetic::div_mod::lemma_fundamental_div_mod(len, size as int);
            let q = len / size as int;
            assert(0 <= q && q < num) by (nonlinear_arith)
                requires
                    num * size > len,
                    len == size * q + len % (size as int),
                    0 <= len % (size as int) < size,
                    0 <= len,
                    q == len / (size as int),
            ;
            if 0 <= i < q {
                assert((i + 1) * size <= size * q) by (nonlinear_arith)
                    requires
                        i + 1 <= q,
                ;
            } else if i >= q {
                assert((i + 1) * size >= size * q + size) by (nonlinear_arith)
                    requires
                        i >= q,
                ;
            }
        } else if 0 <= i < num {
            assert((i + 1) * size <= num * size) by (nonlinear_arith)
                requires
                    i + 1 <= num,
            ;
        }
    }
}

/// Each entry is what its bytes say: it is in use unless all 16 bytes of its type are 0; bytes 32
/// to 39 spell its first block, and bytes 40 to 47 its last.
pub proof fn law_entry_is_what_its_bytes_say(s: Seq<u8>, num: u32, size: u32, i: int)
    requires
        0 <= i < gpt_entries(s, num, size).len(),
    ensures
        ({
            let p = gpt_entries(s, num, size)[i];
            let at = i * size;
            &&& p.active() <==> exists|k: int| at <= k < at + 16 && #[trigger] s[k] != 0
            &&& le::spells(s, at + 32, 8, p.first_lba as int)
            &&& le::spells(s, at + 40, 8, p.last_lba as int)
        }),
{
    let at = i * size;
    let p = gpt_entries(s, num, size)[i];
    assert(p == gpt_entry(s, at));
    le::law_le64_is_spelled(s, at);
    le::law_le64_is_spelled(s, at + 8);
    le::law_le64_is_spelled(s, at + 32);
    le::law_le64_is_spelled(s, at + 40);
    if p.active() {
        if forall|k: int| at <= k < at + 16 ==> #[trigger] s[k] == 0 {
            assert(s[at] == 0 && s[at + 1] == 0 && s[at + 2] == 0 && s[at + 3] == 0);
            assert(s[at + 4] == 0 && s[at + 5] == 0 && s[at + 6] == 0 && s[at + 7] == 0);
            assert(s[at + 8] == 0 && s[at + 9] == 0 && s[at + 10] == 0 && s[at + 11] == 0);
            assert(s[at + 12] == 0 && s[at + 13] == 0 && s[at + 14] == 0 && s[at + 15] == 0);
        }
    } else {
        assert(le::le64(s, at) == 0 && le::le64(s, at + 8) == 0);
        assert(s[at] == 0 && s[at + 1] == 0 && s[at + 2] == 0 && s[at + 3] == 0);
        assert(s[at + 4] == 0 && s[at + 5] == 0 && s[at + 6] == 0 && s[at + 7] == 0);
        assert(s[at + 8] == 0 && s[at + 9] == 0 && s[at + 10] == 0 && s[at + 11] == 0);
        assert(s[at + 12] == 0 && s[at + 13] == 0 && s[at + 14] == 0 && s[at + 15] == 0);
    }
}

} // verus!

//! Relocation of addresses that are relative to the start of a segment.
use vstd::prelude::*;

use crate::assembling::AssemblingResult;
use crate::linking::elf::SegmentType;
use crate::little_endian::{le_bytes, le_value, lemma_le_bytes_len, lemma_le_bytes_of_value, lemma_pow256_positive, lemma_le_value_of_bytes, pow256, read_le, write_le};

verus! {

/// Corresponds to an address somewhere that needs to be fixed during linking
#[derive(Debug, Clone, Copy, PartialEq)]
pub struct RelocationEntrie {
    /// Index of address to relocate in the segment, measured from the beginning
    pub offset: usize,
    /// How much bytes, the address contains that needs to be relocated
    /// Usually 8 (64 bits)
    pub bytes: u8,
    /// Which segment the relocation should be based on
    /// This is the segment the address refers to
    pub segment: SegmentType,
}

/// The address of the start of the segment an entry refers to.
pub open spec fn segment_base(segment: SegmentType, code_base_address: u64, data_base_address: u64) -> u64 {
    match segment {
        SegmentType::Data => data_base_address,
        SegmentType::Text => code_base_address,
    }
}

/// The address an entry holds: its bytes read as a little endian number.
pub open spec fn entry_address(file: Seq<u8>, entry: RelocationEntrie) -> nat {
    le_value(file.subrange(entry.offset as int, entry.offset + entry.bytes))
}

/// An entry can be relocated: its bytes lie inside the file, there are at most eight
/// of them, and the relocated address fits in 64 bits.
pub open spec fn entry_relocatable(file: Seq<u8>, entry: RelocationEntrie, code_base_address: u64, data_base_address: u64) -> bool {
    &&& entry.offset + entry.bytes <= file.len()
    &&& entry.bytes <= 8
    &&& segment_base(entry.segment, code_base_address, data_base_address) + entry_address(file, entry) <= u64::MAX
}

/// The file with the address of one entry moved by the base of its segment; its low
/// `bytes` bytes are written back.
pub open spec fn spec_relocate_entry(file: Seq<u8>, entry: RelocationEntrie, code_base_address: u64, data_base_address: u64) -> Seq<u8> {
    file.subrange(0, entry.offset as int) + le_bytes(
        segment_base(entry.segment, code_base_address, data_base_address) as nat + entry_address(file, entry),
        entry.bytes as nat,
    ) + file.subrange(entry.offset + entry.bytes, file.len() as int)
}

/// The file after relocating the entries one after the other.
pub open spec fn spec_relocate_segment(file: Seq<u8>, entries: Seq<RelocationEntrie>, code_base_address: u64, data_base_address: u64) -> Seq<u8>
    decreases entries.len(),
{
    if entries.len() == 0 {
        file
    } else {
        spec_relocate_entry(
            spec_relocate_segment(file, entries.drop_last(), code_base_address, data_base_address),
            entries.last(),
            code_base_address,
            data_base_address,
        )
    }
}

/// Every entry can be relocated in the file that the entries before it leave.
pub open spec fn relocatable(file: Seq<u8>, entries: Seq<RelocationEntrie>, code_base_address: u64, data_base_address: u64) -> bool
    decreases entries.len(),
{
    if entries.len() == 0 {
        true
    } else {
        &&& relocatable(file, entries.drop_last(), code_base_address, data_base_address)
        &&& entry_relocatable(
            spec_relocate_segment(file, entries.drop_last(), code_base_address, data_base_address),
            entries.last(),
            code_base_address,
            data_base_address,
        )
    }
}

/// Once a prefix of the entries cannot be relocated, neither can all of them.
proof fn lemma_relocatable_prefix(file: Seq<u8>, entries: Seq<RelocationEntrie>, n: int, code_base_address: u64, data_base_address: u64)
    requires
        0 <= n <= entries.len(),
        !relocatable(file, entries.take(n), code_base_address, data_base_address),
    ensures
        !relocatable(file, entries, code_base_address, data_base_address),
    decreases entries.len() - n,
{
    if n < entries.len() {
        assert(entries.take(n + 1).drop_last() =~= entries.take(n));
        lemma_relocatable_prefix(file, entries, n + 1, code_base_address, data_base_address);
    } else {
        assert(entries.take(n) =~= entries);
    }
}

/// Relocating keeps the length of the file.
pub proof fn lemma_relocate_len(file: Seq<u8>, entries: Seq<RelocationEntrie>, code_base_address: u64, data_base_address: u64)
    requires
        relocatable(file, entries, code_base_address, data_base_address),
    ensures
        spec_relocate_segment(file, entries, code_base_address, data_base_address).len() == file.len(),
    decreases entries.len(),
{
    if entries.len() > 0 {
        lemma_relocate_len(file, entries.drop_last(), code_base_address, data_base_address);
        lemma_le_bytes_len(
            segment_base(entries.last().segment, code_base_address, data_base_address) as nat + entry_address(
                spec_relocate_segment(file, entries.drop_last(), code_base_address, data_base_address),
                entries.last(),
            ),
            entries.last().bytes as nat,
        );
    }
}

/// Relocate the entries one after the other where each can be relocated, and say whether
/// all could; the file is left as it is at the first that cannot.
fn try_relocate_segment(file: &mut Vec<u8>, entries: &Vec<RelocationEntrie>, code_base_address: u64, data_base_address: u64) -> (r: bool)
    ensures
        r == relocatable(old(file)@, entries@, code_base_address, data_base_address),
        r ==> final(file)@ == spec_relocate_segment(old(file)@, entries@, code_base_address, data_base_address),
{
    let ghost start = file@;
    let mut i: usize = 0;
    proof {
        assert(entries@.take(0) =~= Seq::<RelocationEntrie>::empty());
    }
    while i < entries.len()
        invariant
            i <= entries@.len(),
            start == old(file)@,
            relocatable(start, entries@.take(i as int), code_base_address, data_base_address),
            file@ == spec_relocate_segment(start, entries@.take(i as int), code_base_address, data_base_address),
        decreases entries@.len() - i,
    {
        let entry = entries[i];
        proof {
            assert(entries@.take(i + 1).drop_last() =~= entries@.take(i as int));
            assert(entries@.take(i + 1).last() == entry);
        }
        let bytes = entry.bytes as usize;
        let offset = entry.offset;
        let len = file.len();
        if bytes > 8 || offset > len || bytes > len - offset {
            proof {
                lemma_relocatable_prefix(start, entries@, i + 1, code_base_address, data_base_address);
            }
            return false;
        }
        // Convert the address to u64
        let address = read_le(file, offset, bytes);
        let base = match entry.segment {
            SegmentType::Data => data_base_address,
            SegmentType::Text => code_base_address,
        };
        let new_address = match base.checked_add(address) {
            Some(a) => a,
            None => {
                proof {
                    lemma_relocatable_prefix(start, entries@, i + 1, code_base_address, data_base_address);
                }
                return false;
            },
        };
        // Write the new address back as little endian bytes
        write_le(file, offset, new_address, bytes);
        i = i + 1;
    }
    proof {
        assert(entries@.take(i as int) =~= entries@);
    }
    true
}

fn relocate_segment(file: &mut Vec<u8>, entries: &Vec<RelocationEntrie>, code_base_address: u64, data_base_address: u64)
    requires
        relocatable(old(file)@, entries@, code_base_address, data_base_address),
    ensures
        final(file)@ == spec_relocate_segment(old(file)@, entries@, code_base_address, data_base_address),
{
    try_relocate_segment(file, entries, code_base_address, data_base_address);
}

/// Relocate address listed in entries
/// Changes addresses that are currently relative to the beginning of a segment
/// to their proper location in the virtual memory
pub fn relocate(input: &mut AssemblingResult, code_base_address: u64, data_base_address: u64)
    requires
        relocatable(old(input).code@, old(input).code_relocate@, code_base_address, data_base_address),
    ensures
        final(input).code@ == spec_relocate_segment(old(input).code@, old(input).code_relocate@, code_base_address, data_base_address),
        final(input).data@ == old(input).data@,
        final(input).code_relocate@ == old(input).code_relocate@,
{
    relocate_segment(&mut input.code, &input.code_relocate, code_base_address, data_base_address);
}

/// Relocate the code's addresses where every entry can be relocated; `false`, with the
/// code partly relocated, where one cannot.
pub fn try_relocate(input: &mut AssemblingResult, code_base_address: u64, data_base_address: u64) -> (r: bool)
    ensures
        r == relocatable(old(input).code@, old(input).code_relocate@, code_base_address, data_base_address),
        r ==> final(input).code@ == spec_relocate_segment(old(input).code@, old(input).code_relocate@, code_base_address, data_base_address),
        final(input).data@ == old(input).data@,
        final(input).code_relocate@ == old(input).code_relocate@,
{
    try_relocate_segment(&mut input.code, &input.code_relocate, code_base_address, data_base_address)
}

/// Relocating with both segments based at address 0 leaves the file as it is.
pub proof fn lemma_relocate_at_zero(file: Seq<u8>, entries: Seq<RelocationEntrie>)
    requires
        relocatable(file, entries, 0, 0),
    ensures
        spec_relocate_segment(file, entries, 0, 0) == file,
    decreases entries.len(),
{
    if entries.len() > 0 {
        lemma_relocate_at_zero(file, entries.drop_last());
        let e = entries.last();
        let field = file.subrange(e.offset as int, e.offset + e.bytes);
        lemma_le_bytes_of_value(field);
        assert(segment_base(e.segment, 0, 0) == 0);
        assert(file.subrange(0, e.offset as int) + field + file.subrange(e.offset + e.bytes, file.len() as int) =~= file);
    }
}

/// Two entries share no byte.
pub open spec fn entries_apart(a: RelocationEntrie, b: RelocationEntrie) -> bool {
    a.offset + a.bytes <= b.offset || b.offset + b.bytes <= a.offset
}

/// No two of the entries share a byte.
pub open spec fn disjoint_entries(entries: Seq<RelocationEntrie>) -> bool {
    forall|i: int, j: int|
        0 <= i < entries.len() && 0 <= j < entries.len() && i != j ==> entries_apart(
            #[trigger] entries[i],
            #[trigger] entries[j],
        )
}

/// Position `k` lies in the bytes of the entry.
pub open spec fn covers(entry: RelocationEntrie, k: int) -> bool {
    entry.offset <= k < entry.offset + entry.bytes
}

/// Relocating one entry writes its bytes and leaves every other byte as it was.
proof fn lemma_relocate_entry_frame(file: Seq<u8>, entry: RelocationEntrie, code_base_address: u64, data_base_address: u64)
    requires
        entry_relocatable(file, entry, code_base_address, data_base_address),
    ensures
        ({
            let res = spec_relocate_entry(file, entry, code_base_address, data_base_address);
            &&& res.len() == file.len()
            &&& forall|k: int| 0 <= k < file.len() && !covers(entry, k) ==> #[trigger] res[k] == file[k]
            &&& entry_address(res, entry) == (segment_base(entry.segment, code_base_address, data_base_address) as nat + entry_address(file, entry)) % pow256(entry.bytes as nat)
        }),
{
    let value = segment_base(entry.segment, code_base_address, data_base_address) as nat + entry_address(file, entry);
    let res = spec_relocate_entry(file, entry, code_base_address, data_base_address);
    lemma_le_bytes_len(value, entry.bytes as nat);
    lemma_le_value_of_bytes(value, entry.bytes as nat);
    assert(res.subrange(entry.offset as int, entry.offset + entry.bytes) =~= le_bytes(value, entry.bytes as nat));
    assert forall|k: int| 0 <= k < file.len() && !covers(entry, k) implies #[trigger] res[k] == file[k] by {
        if k < entry.offset {
            assert(res[k] == file.subrange(0, entry.offset as int)[k]);
        } else {
            assert(res[k] == file.subrange(entry.offset + entry.bytes, file.len() as int)[k - entry.offset - entry.bytes]);
        }
    }
}

/// Relocating entries that share no byte leaves in the bytes of each entry the base of its
/// segment plus the address they held before, kept to as many bytes as the entry has, and
/// every byte outside the entries as it was.
pub proof fn lemma_relocated_addresses(file: Seq<u8>, entries: Seq<RelocationEntrie>, code_base_address: u64, data_base_address: u64)
    requires
        relocatable(file, entries, code_base_address, data_base_address),
        disjoint_entries(entries),
    ensures
        spec_relocate_segment(file, entries, code_base_address, data_base_address).len() == file.len(),
        forall|i: int| 0 <= i < entries.len() ==> #[trigger] entries[i].offset + entries[i].bytes <= file.len(),
        forall|i: int|
            0 <= i < entries.len() ==> #[trigger] entry_address(
                spec_relocate_segment(file, entries, code_base_address, data_base_address),
                entries[i],
            ) == (segment_base(entries[i].segment, code_base_address, data_base_address) as nat + entry_address(
                file,
                entries[i],
            )) % pow256(entries[i].bytes as nat),
        forall|k: int|
            0 <= k < file.len() && (forall|i: int| 0 <= i < entries.len() ==> !covers(#[trigger] entries[i], k))
                ==> #[trigger] spec_relocate_segment(file, entries, code_base_address, data_base_address)[k] == file[k],
    decreases entries.len(),
{
    if entries.len() > 0 {
        let n = entries.len() - 1;
        let prefix = entries.drop_last();
        let e = entries.last();
        assert(disjoint_entries(prefix)) by {
            assert forall|i: int, j: int|
                0 <= i < prefix.len() && 0 <= j < prefix.len() && i != j implies entries_apart(
                #[trigger] prefix[i],
                #[trigger] prefix[j],
            ) by {
                assert(prefix[i] == entries[i] && prefix[j] == entries[j]);
            }
        }
        lemma_relocated_addresses(file, prefix, code_base_address, data_base_address);
        let prev = spec_relocate_segment(file, prefix, code_base_address, data_base_address);
        let res = spec_relocate_segment(file, entries, code_base_address, data_base_address);
        lemma_relocate_entry_frame(prev, e, code_base_address, data_base_address);
        // the bytes of the last entry are untouched by the entries before it
        assert forall|k: int| e.offset <= k < e.offset + e.bytes implies #[trigger] prev[k] == file[k] by {
            assert forall|i: int| 0 <= i < prefix.len() implies !covers(#[trigger] prefix[i], k) by {
                assert(prefix[i] == entries[i]);
                assert(entries_apart(entries[i], entries[n]));
            }
        }
        assert(prev.subrange(e.offset as int, e.offset + e.bytes) =~= file.subrange(e.offset as int, e.offset + e.bytes));
        assert forall|i: int| 0 <= i < entries.len() implies #[trigger] entry_address(res, entries[i])
            == (segment_base(entries[i].segment, code_base_address, data_base_address) as nat + entry_address(
            file,
            entries[i],
        )) % pow256(entries[i].bytes as nat) by {
            if i < n {
                assert(prefix[i] == entries[i]);
                assert(entries_apart(entries[i], entries[n]));
                assert(prefix[i].offset + prefix[i].bytes <= file.len());
                assert(entry_address(prev, prefix[i]) == (segment_base(prefix[i].segment, code_base_address, data_base_address) as nat + entry_address(file, prefix[i])) % pow256(prefix[i].bytes as nat));
                assert(res.subrange(entries[i].offset as int, entries[i].offset + entries[i].bytes) =~= prev.subrange(
                    entries[i].offset as int,
                    entries[i].offset + entries[i].bytes,
                ));
            }
        }
        assert forall|i: int| 0 <= i < entries.len() implies #[trigger] entries[i].offset + entries[i].bytes <= file.len() by {
            if i < n {
                assert(prefix[i] == entries[i]);
            }
        }
        assert forall|k: int|
            0 <= k < file.len() && (forall|i: int| 0 <= i < entries.len() ==> !covers(#[trigger] entries[i], k))
            implies #[trigger] res[k] == file[k] by {
            assert(!covers(entries[n], k));
            assert forall|i: int| 0 <= i < prefix.len() implies !covers(#[trigger] prefix[i], k) by {
                assert(prefix[i] == entries[i]);
            }
        }
    }
}

/// Relocating entries that share no byte twice, first by one pair of bases and then by
/// another, is relocating them once by the sums of the bases.
pub proof fn lemma_relocate_twice(
    file: Seq<u8>,
    entries: Seq<RelocationEntrie>,
    code_base1: u64,
    data_base1: u64,
    code_base2: u64,
    data_base2: u64,
)
    requires
        disjoint_entries(entries),
        code_base1 + code_base2 <= u64::MAX,
        data_base1 + data_base2 <= u64::MAX,
        relocatable(file, entries, code_base1, data_base1),
        relocatable(spec_relocate_segment(file, entries, code_base1, data_base1), entries, code_base2, data_base2),
        relocatable(file, entries, (code_base1 + code_base2) as u64, (data_base1 + data_base2) as u64),
    ensures
        spec_relocate_segment(spec_relocate_segment(file, entries, code_base1, data_base1), entries, code_base2, data_base2)
            == spec_relocate_segment(file, entries, (code_base1 + code_base2) as u64, (data_base1 + data_base2) as u64),
{
    let cs = (code_base1 + code_base2) as u64;
    let ds = (data_base1 + data_base2) as u64;
    let r1 = spec_relocate_segment(file, entries, code_base1, data_base1);
    let r2 = spec_relocate_segment(r1, entries, code_base2, data_base2);
    let r3 = spec_relocate_segment(file, entries, cs, ds);
    lemma_relocated_addresses(file, entries, code_base1, data_base1);
    lemma_relocated_addresses(r1, entries, code_base2, data_base2);
    lemma_relocated_addresses(file, entries, cs, ds);
    // each entry's field holds the same bytes in both results
    assert forall|i: int| 0 <= i < entries.len() implies #[trigger] r2.subrange(entries[i].offset as int, entries[i].offset + entries[i].bytes)
        == r3.subrange(entries[i].offset as int, entries[i].offset + entries[i].bytes) by {
        let e = entries[i];
        let p = pow256(e.bytes as nat);
        lemma_pow256_positive(e.bytes as nat);
        let b1 = segment_base(e.segment, code_base1, data_base1) as nat;
        let b2 = segment_base(e.segment, code_base2, data_base2) as nat;
        assert(segment_base(e.segment, cs, ds) as nat == b1 + b2);
        let o = entry_address(file, e);
        vstd::arithmetic::div_mod::lemma_add_mod_noop_right(b2 as int, (b1 + o) as int, p as int);
        assert(entry_address(r2, e) == entry_address(r3, e));
        let f2 = r2.subrange(e.offset as int, e.offset + e.bytes);
        let f3 = r3.subrange(e.offset as int, e.offset + e.bytes);
        lemma_le_bytes_of_value(f2);
        lemma_le_bytes_of_value(f3);
    }
    assert forall|k: int| 0 <= k < r2.len() implies r2[k] == r3[k] by {
        if exists|i: int| 0 <= i < entries.len() && covers(#[trigger] entries[i], k) {
            let i = choose|i: int| 0 <= i < entries.len() && covers(#[trigger] entries[i], k);
            let e = entries[i];
            assert(r2.subrange(e.offset as int, e.offset + e.bytes)[k - e.offset] == r2[k]);
            assert(r3.subrange(e.offset as int, e.offset + e.bytes)[k - e.offset] == r3[k]);
        } else {
            assert(r2[k] == r1[k]);
            assert(r1[k] == file[k]);
        }
    }
    assert(r2 =~= r3);
}

} // verus!

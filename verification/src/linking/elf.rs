#![allow(non_camel_case_types)]
//! Writing the executable: ELF header, program headers, code and data.
use vstd::prelude::*;

use crate::assembling::AssemblingResult;
use crate::linking::relocate::{
    disjoint_entries, entry_address, lemma_relocate_len, lemma_relocated_addresses, relocatable, spec_relocate_segment, try_relocate,
    RelocationEntrie,
};
use crate::little_endian::{le_bytes, le_value, lemma_le_bytes_len, lemma_le_value_of_bytes, pow256, push_le_bytes};

verus! {

/// The segment an address refers to.
#[derive(Debug, Clone, Copy, PartialEq, Eq, Structural)]
pub enum SegmentType {
    Data,
    Text,
}

const EI_NIDENT: usize = 16;

type Elf64_Half = u16;

type Elf64_Word = u32;

type Elf64_Xword = u64;

type Elf64_Addr = u64;

type Elf64_Off = u64;

const ELF_HEADER_SIZE: Elf64_Half = 64;

const ELF_HEADER_SIZE_U: usize = 64;

const PROGRAM_HEADER_SIZE: Elf64_Half = 56;

const PROGRAM_HEADER_SIZE_U: usize = 56;

/// Elf file header
struct Elf64_Ehdr {
    e_ident: [u8; EI_NIDENT],
    e_type: Elf64_Half,
    e_machine: Elf64_Half,
    e_version: Elf64_Word,
    e_entry: Elf64_Addr,
    e_phoff: Elf64_Off,
    e_shoff: Elf64_Off,
    e_flags: Elf64_Word,
    e_ehsize: Elf64_Half,
    e_phentsize: Elf64_Half,
    e_phnum: Elf64_Half,
    e_shentsize: Elf64_Half,
    e_shnum: Elf64_Half,
    e_shstrndx: Elf64_Half,
}

/// Program header
struct Elf64_Phdr {
    p_type: Elf64_Word,
    p_flags: Elf64_Word,
    p_offset: Elf64_Off,
    p_vaddr: Elf64_Addr,
    p_paddr: Elf64_Addr,
    p_filesz: Elf64_Xword,
    p_memsz: Elf64_Xword,
    p_align: Elf64_Xword,
}

/// The kinds of segments the executable loads.
enum ProgramHeaderType {
    /// Strings and global variables: readable and writable
    Data,
    /// Bytecode: readable and executable
    Text,
}

/// The slices one after the other.
pub open spec fn concat(parts: Seq<Seq<u8>>) -> Seq<u8>
    decreases parts.len(),
{
    if parts.len() == 0 {
        Seq::empty()
    } else {
        concat(parts.drop_last()) + parts.last()
    }
}

/// `n` zero bytes.
pub open spec fn zeros(n: nat) -> Seq<u8> {
    Seq::new(n, |i: int| 0u8)
}

/// The contents of the slices.
pub open spec fn slice_views(slices: Seq<&[u8]>) -> Seq<Seq<u8>> {
    slices.map_values(|s: &[u8]| s@)
}

/// A prefix of the parts is no longer than all of them.
proof fn lemma_concat_prefix_len(parts: Seq<Seq<u8>>, k: int)
    requires
        0 <= k <= parts.len(),
    ensures
        concat(parts.take(k)).len() <= concat(parts).len(),
    decreases parts.len() - k,
{
    if k < parts.len() {
        assert(parts.take(k + 1).drop_last() =~= parts.take(k));
        lemma_concat_prefix_len(parts, k + 1);
    } else {
        assert(parts.take(k) =~= parts);
    }
}

/// Copies the slices one after the other into an array of `N` bytes; the bytes after
/// them stay zero.
pub fn copy_into<const N: usize>(slices: Vec<&[u8]>) -> (r: [u8; N])
    requires
        concat(slice_views(slices@)).len() <= N,
    ensures
        r@ == concat(slice_views(slices@)) + zeros((N - concat(slice_views(slices@)).len()) as nat),
{
    let ghost parts = slice_views(slices@);
    let mut index: usize = 0;
    let mut array = [0u8; N];
    let mut k: usize = 0;
    proof {
        assert(parts.take(0) =~= Seq::<Seq<u8>>::empty());
        assert(array@ =~= concat(parts.take(0)) + zeros(N as nat));
    }
    while k < slices.len()
        invariant
            k <= slices@.len(),
            parts == slice_views(slices@),
            concat(parts).len() <= N,
            index == concat(parts.take(k as int)).len(),
            array@ == concat(parts.take(k as int)) + zeros((N - index) as nat),
        decreases slices@.len() - k,
    {
        let slice = slices[k];
        proof {
            assert(parts.take(k + 1).drop_last() =~= parts.take(k as int));
            assert(parts[k as int] == slice@);
            lemma_concat_prefix_len(parts, k + 1);
        }
        let ghost prefix = concat(parts.take(k as int));
        let end_index = index + slice.len();
        let mut j: usize = 0;
        while j < slice.len()
            invariant
                j <= slice@.len(),
                index + slice@.len() == end_index,
                end_index <= N,
                prefix.len() == index,
                array@ == prefix + slice@.take(j as int) + zeros((N - index - j) as nat),
            decreases slice@.len() - j,
        {
            array[index + j] = slice[j];
            j = j + 1;
            proof {
                assert(array@ =~= prefix + slice@.take(j as int) + zeros((N - index - j) as nat));
            }
        }
        proof {
            assert(slice@.take(j as int) =~= slice@);
        }
        index = end_index;
        k = k + 1;
    }
    proof {
        assert(parts.take(k as int) =~= parts);
    }
    array
}

/// The `n` least significant bytes of `x`, least significant first.
fn le_field(x: u64, n: usize) -> (r: Vec<u8>)
    ensures
        r@ == le_bytes(x as nat, n as nat),
{
    let mut bytes: Vec<u8> = Vec::new();
    push_le_bytes(&mut bytes, x, n);
    proof {
        assert(bytes@ =~= le_bytes(x as nat, n as nat));
    }
    bytes
}

/// The bytes of an ELF header, fields in order, least significant byte first.
spec fn ehdr_bytes(h: Elf64_Ehdr) -> Seq<u8> {
    h.e_ident@ + le_bytes(h.e_type as nat, 2) + le_bytes(h.e_machine as nat, 2) + le_bytes(h.e_version as nat, 4)
        + le_bytes(h.e_entry as nat, 8) + le_bytes(h.e_phoff as nat, 8) + le_bytes(h.e_shoff as nat, 8)
        + le_bytes(h.e_flags as nat, 4) + le_bytes(h.e_ehsize as nat, 2) + le_bytes(h.e_phentsize as nat, 2)
        + le_bytes(h.e_phnum as nat, 2) + le_bytes(h.e_shentsize as nat, 2) + le_bytes(h.e_shnum as nat, 2)
        + le_bytes(h.e_shstrndx as nat, 2)
}

/// The bytes of a program header, fields in order, least significant byte first.
spec fn phdr_bytes(h: Elf64_Phdr) -> Seq<u8> {
    le_bytes(h.p_type as nat, 4) + le_bytes(h.p_flags as nat, 4) + le_bytes(h.p_offset as nat, 8) + le_bytes(
        h.p_vaddr as nat,
        8,
    ) + le_bytes(h.p_paddr as nat, 8) + le_bytes(h.p_filesz as nat, 8) + le_bytes(h.p_memsz as nat, 8)
        + le_bytes(h.p_align as nat, 8)
}

/// The identification that opens the file: the magic number, 64 bit objects, least
/// significant byte first, version 1, the System V ABI, padding.
pub open spec fn ident_bytes() -> Seq<u8> {
    seq![0x7fu8, 0x45u8, 0x4cu8, 0x46u8, 2u8, 1u8, 1u8, 0u8, 0u8, 0u8, 0u8, 0u8, 0u8, 0u8, 0u8, 0u8]
}

/// The ELF header of an x86-64 executable with `num_pheaders` program headers right after
/// it and no section headers.
pub open spec fn spec_elf_header(num_pheaders: u16, entry_point: u64) -> Seq<u8> {
    ident_bytes() + le_bytes(2, 2) + le_bytes(0x3e, 2) + le_bytes(1, 4) + le_bytes(entry_point as nat, 8)
        + le_bytes(64, 8) + le_bytes(0, 8) + le_bytes(0, 4) + le_bytes(64, 2) + le_bytes(56, 2) + le_bytes(
        num_pheaders as nat,
        2,
    ) + le_bytes(0, 2) + le_bytes(0, 2) + le_bytes(0, 2)
}

/// A program header of a segment to load, `size` bytes at `offset` in the file, mapped
/// at `virtual_address` with the given access flags, aligned to pages.
pub open spec fn spec_program_header(flags: u32, offset: u64, virtual_address: u64, size: u64) -> Seq<u8> {
    le_bytes(1, 4) + le_bytes(flags as nat, 4) + le_bytes(offset as nat, 8) + le_bytes(virtual_address as nat, 8)
        + le_bytes(0, 8) + le_bytes(size as nat, 8) + le_bytes(size as nat, 8) + le_bytes(0x1000, 8)
}

/// Where the code starts in the file: after the ELF header and the two program headers.
pub open spec fn text_offset() -> u64 {
    176
}

/// The address of the code in memory, which is also the entry point.
pub open spec fn code_address() -> u64 {
    0x4000b0
}

/// The address of the data in memory: right after the code, one page further on, so
/// that the two segments never share a page.
pub open spec fn data_address(code_len: nat) -> int {
    0x4000b0 + code_len as int + 0x1000
}

/// The addresses of the segments fit in 64 bits.
pub open spec fn elf_fits(code_len: nat) -> bool {
    data_address(code_len) <= u64::MAX
}

/// The executable: ELF header, the program headers of the code (readable, executable)
/// and of the data (readable, writable), the code with its addresses relocated, the data.
pub open spec fn spec_create_elf(code: Seq<u8>, data: Seq<u8>, relocations: Seq<RelocationEntrie>) -> Seq<u8> {
    spec_elf_header(2, code_address()) + spec_program_header(5, text_offset(), code_address(), code.len() as u64)
        + spec_program_header(
        6,
        (text_offset() + code.len()) as u64,
        data_address(code.len()) as u64,
        data.len() as u64,
    ) + spec_relocate_segment(code, relocations, code_address(), data_address(code.len()) as u64) + data
}

fn create_program_header(
    ph_type: ProgramHeaderType,
    offset: Elf64_Off,
    virtual_adress: Elf64_Addr,
    size: Elf64_Xword,
) -> (r: Elf64_Phdr)
    ensures
        phdr_bytes(r) == spec_program_header(
            match ph_type {
                ProgramHeaderType::Data => 6u32,
                ProgramHeaderType::Text => 5u32,
            },
            offset,
            virtual_adress,
            size,
        ),
{
    // flags:
    // executable
    let pf_x: u32 = 1u32 << 0u32;
    // writable
    let pf_w: u32 = 1u32 << 1u32;
    // readable
    let pf_r: u32 = 1u32 << 2u32;
    assert(pf_r | pf_x == 5u32 && pf_r | pf_w == 6u32) by (bit_vector)
        requires
            pf_x == 1u32 << 0u32,
            pf_w == 1u32 << 1u32,
            pf_r == 1u32 << 2u32,
    ;
    let flags = match ph_type {
        ProgramHeaderType::Text => pf_r | pf_x,
        ProgramHeaderType::Data => pf_r | pf_w,
    };
    Elf64_Phdr {
        // load: gets loaded into memory
        p_type: 1,
        p_flags: flags,
        // Where to find segment in the file
        p_offset: offset,
        p_vaddr: virtual_adress,
        // physical memory, only relevant for firmware etc
        p_paddr: 0,
        p_filesz: size,
        // Size in memory, equal to the size in the file for the code and the data
        p_memsz: size,
        p_align: 0x1000,
    }
}

fn create_elf_header(num_pheaders: Elf64_Half, entry_point: Elf64_Addr) -> (r: Elf64_Ehdr)
    ensures
        ehdr_bytes(r) == spec_elf_header(num_pheaders, entry_point),
{
    let magic_number: u8 = 0x7f;
    // 64 bit objects
    let class: u8 = 2;
    // Least significant byte first
    let data: u8 = 1;
    // Always 1
    let version: u8 = 1;
    // System V
    let os_abi: u8 = 0;
    // Usually never used
    let abi_version: u8 = 0;
    let e_ident: [u8; EI_NIDENT] = [
        magic_number,
        // 'E', 'L', 'F'
        0x45,
        0x4c,
        0x46,
        class,
        data,
        version,
        os_abi,
        abi_version,
        0,
        0,
        0,
        0,
        0,
        0,
        0,
    ];
    proof {
        assert(e_ident@ =~= ident_bytes());
    }
    Elf64_Ehdr {
        e_ident,
        // executable file, not position independent
        e_type: 2,
        // amd64
        e_machine: 0x3E,
        e_version: 1,
        // Entry point of address
        e_entry: entry_point,
        // Program headers offset: all in a list right after this header
        e_phoff: 64,
        // no section headers
        e_shoff: 0,
        // Processor specific flags
        e_flags: 0,
        // Size of this elf header
        e_ehsize: ELF_HEADER_SIZE,
        // size per program header
        e_phentsize: PROGRAM_HEADER_SIZE,
        // number of program headers
        e_phnum: num_pheaders,
        e_shentsize: 0,
        e_shnum: 0,
        e_shstrndx: 0,
    }
}

fn elf_header_to_bytes(header: Elf64_Ehdr) -> (r: [u8; ELF_HEADER_SIZE_U])
    ensures
        r@ == ehdr_bytes(header),
{
    let e_type = le_field(header.e_type as u64, 2);
    let e_machine = le_field(header.e_machine as u64, 2);
    let e_version = le_field(header.e_version as u64, 4);
    let e_entry = le_field(header.e_entry, 8);
    let e_phoff = le_field(header.e_phoff, 8);
    let e_shoff = le_field(header.e_shoff, 8);
    let e_flags = le_field(header.e_flags as u64, 4);
    let e_ehsize = le_field(header.e_ehsize as u64, 2);
    let e_phentsize = le_field(header.e_phentsize as u64, 2);
    let e_phnum = le_field(header.e_phnum as u64, 2);
    let e_shentsize = le_field(header.e_shentsize as u64, 2);
    let e_shnum = le_field(header.e_shnum as u64, 2);
    let e_shstrndx = le_field(header.e_shstrndx as u64, 2);
    let parts: Vec<&[u8]> = vec![
        header.e_ident.as_slice(),
        e_type.as_slice(),
        e_machine.as_slice(),
        e_version.as_slice(),
        e_entry.as_slice(),
        e_phoff.as_slice(),
        e_shoff.as_slice(),
        e_flags.as_slice(),
        e_ehsize.as_slice(),
        e_phentsize.as_slice(),
        e_phnum.as_slice(),
        e_shentsize.as_slice(),
        e_shnum.as_slice(),
        e_shstrndx.as_slice(),
    ];
    proof {
        assert(slice_views(parts@) =~= seq![
            header.e_ident@,
            e_type@,
            e_machine@,
            e_version@,
            e_entry@,
            e_phoff@,
            e_shoff@,
            e_flags@,
            e_ehsize@,
            e_phentsize@,
            e_phnum@,
            e_shentsize@,
            e_shnum@,
            e_shstrndx@,
        ]);
        reveal_with_fuel(concat, 15);
        lemma_le_bytes_len(header.e_type as nat, 2);
        lemma_le_bytes_len(header.e_machine as nat, 2);
        lemma_le_bytes_len(header.e_version as nat, 4);
        lemma_le_bytes_len(header.e_entry as nat, 8);
        lemma_le_bytes_len(header.e_phoff as nat, 8);
        lemma_le_bytes_len(header.e_shoff as nat, 8);
        lemma_le_bytes_len(header.e_flags as nat, 4);
        lemma_le_bytes_len(header.e_ehsize as nat, 2);
        lemma_le_bytes_len(header.e_phentsize as nat, 2);
        lemma_le_bytes_len(header.e_phnum as nat, 2);
        lemma_le_bytes_len(header.e_shentsize as nat, 2);
        lemma_le_bytes_len(header.e_shnum as nat, 2);
        lemma_le_bytes_len(header.e_shstrndx as nat, 2);
        assert(concat(slice_views(parts@)) =~= ehdr_bytes(header));
        assert(zeros(0) =~= Seq::<u8>::empty());
    }
    let r = copy_into::<ELF_HEADER_SIZE_U>(parts);
    proof {
        assert(r@ =~= ehdr_bytes(header));
    }
    r
}

fn program_header_to_bytes(header: Elf64_Phdr) -> (r: [u8; PROGRAM_HEADER_SIZE_U])
    ensures
        r@ == phdr_bytes(header),
{
    let p_type = le_field(header.p_type as u64, 4);
    let p_flags = le_field(header.p_flags as u64, 4);
    let p_offset = le_field(header.p_offset, 8);
    let p_vaddr = le_field(header.p_vaddr, 8);
    let p_paddr = le_field(header.p_paddr, 8);
    let p_filesz = le_field(header.p_filesz, 8);
    let p_memsz = le_field(header.p_memsz, 8);
    let p_align = le_field(header.p_align, 8);
    let parts: Vec<&[u8]> = vec![
        p_type.as_slice(),
        p_flags.as_slice(),
        p_offset.as_slice(),
        p_vaddr.as_slice(),
        p_paddr.as_slice(),
        p_filesz.as_slice(),
        p_memsz.as_slice(),
        p_align.as_slice(),
    ];
    proof {
        assert(slice_views(parts@) =~= seq![
            p_type@,
            p_flags@,
            p_offset@,
            p_vaddr@,
            p_paddr@,
            p_filesz@,
            p_memsz@,
            p_align@,
        ]);
        reveal_with_fuel(concat, 9);
        lemma_le_bytes_len(header.p_type as nat, 4);
        lemma_le_bytes_len(header.p_flags as nat, 4);
        lemma_le_bytes_len(header.p_offset as nat, 8);
        lemma_le_bytes_len(header.p_vaddr as nat, 8);
        lemma_le_bytes_len(header.p_paddr as nat, 8);
        lemma_le_bytes_len(header.p_filesz as nat, 8);
        lemma_le_bytes_len(header.p_memsz as nat, 8);
        lemma_le_bytes_len(header.p_align as nat, 8);
        assert(concat(slice_views(parts@)) =~= phdr_bytes(header));
        assert(zeros(0) =~= Seq::<u8>::empty());
    }
    let r = copy_into::<PROGRAM_HEADER_SIZE_U>(parts);
    proof {
        assert(r@ =~= phdr_bytes(header));
    }
    r
}

/// Write the executable where its addresses fit in 64 bits and every relocation entry can
/// be relocated; `None` where not.
pub fn try_create_elf(input: AssemblingResult) -> (r: Option<Vec<u8>>)
    ensures
        match r {
            Some(binary) => elf_fits(input.code@.len()) && relocatable(
                input.code@,
                input.code_relocate@,
                code_address(),
                data_address(input.code@.len()) as u64,
            ) && binary@ == spec_create_elf(input.code@, input.data@, input.code_relocate@),
            None => !(elf_fits(input.code@.len()) && relocatable(
                input.code@,
                input.code_relocate@,
                code_address(),
                data_address(input.code@.len()) as u64,
            )),
        },
{
    let ghost old_input = input;
    let mut input = input;
    let text_header_offset: Elf64_Off = (ELF_HEADER_SIZE + 2 * PROGRAM_HEADER_SIZE) as u64;
    let code_virtual_address = text_header_offset + 0x400000;
    let code_len: u64 = input.code.len() as u64;
    let data_len: u64 = input.data.len() as u64;
    if code_len > u64::MAX - 0x4010b0 {
        return None;
    }
    let data_offset = text_header_offset + code_len;
    // the data starts a page after the end of the code, so no page holds both
    let data_virtual_address = code_virtual_address + code_len + 0x1000;
    if !try_relocate(&mut input, code_virtual_address, data_virtual_address) {
        return None;
    }
    let text_program_header = create_program_header(
        ProgramHeaderType::Text,
        text_header_offset,
        code_virtual_address,
        code_len,
    );
    let data_program_header = create_program_header(
        ProgramHeaderType::Data,
        data_offset,
        data_virtual_address,
        data_len,
    );
    let header = create_elf_header(2, code_virtual_address);
    let header_bytes = elf_header_to_bytes(header);
    let text_header_bytes = program_header_to_bytes(text_program_header);
    let data_header_bytes = program_header_to_bytes(data_program_header);
    let mut res: Vec<u8> = Vec::new();
    res.extend_from_slice(header_bytes.as_slice());
    res.extend_from_slice(text_header_bytes.as_slice());
    res.extend_from_slice(data_header_bytes.as_slice());
    res.append(&mut input.code);
    res.append(&mut input.data);
    proof {
        assert(res@ =~= spec_create_elf(old_input.code@, old_input.data@, old_input.code_relocate@));
    }
    Some(res)
}

/// Write the executable: ELF header, program headers, the relocated code and the data.
pub fn create_elf(input: AssemblingResult) -> (r: Vec<u8>)
    requires
        elf_fits(input.code@.len()),
        relocatable(input.code@, input.code_relocate@, code_address(), data_address(input.code@.len()) as u64),
    ensures
        r@ == spec_create_elf(input.code@, input.data@, input.code_relocate@),
{
    try_create_elf(input).unwrap()
}

/// The number stored little endian in the `n` bytes of the file at `at`.
pub open spec fn file_field(file: Seq<u8>, at: int, n: int) -> nat {
    le_value(file.subrange(at, at + n))
}

/// A number that fits in `n` bytes reads back from its little endian bytes.
proof fn lemma_le_field(x: nat, n: nat)
    requires
        n <= 8,
        x < pow256(n),
    ensures
        le_value(le_bytes(x, n)) == x,
        le_bytes(x, n).len() == n,
{
    lemma_le_value_of_bytes(x, n);
    lemma_le_bytes_len(x, n);
    vstd::arithmetic::div_mod::lemma_small_mod(x, pow256(n));
}

/// A field inside the first of two joined sequences reads the same in the join; a field
/// inside the second reads the same, shifted by the first's length.
proof fn lemma_field_in_join(a: Seq<u8>, b: Seq<u8>, at: int, n: int)
    requires
        0 <= at,
        0 <= n,
    ensures
        at + n <= a.len() ==> file_field(a + b, at, n) == file_field(a, at, n),
        a.len() <= at && at + n <= a.len() + b.len() ==> file_field(a + b, at, n) == file_field(b, at - a.len(), n),
{
    if at + n <= a.len() {
        assert((a + b).subrange(at, at + n) =~= a.subrange(at, at + n));
    }
    if a.len() <= at && at + n <= a.len() + b.len() {
        assert((a + b).subrange(at, at + n) =~= b.subrange(at - a.len(), at - a.len() + n));
    }
}

proof fn lemma_pow256_values()
    ensures
        pow256(2) == 0x1_0000,
        pow256(4) == 0x1_0000_0000,
        pow256(8) == 0x1_0000_0000_0000_0000,
{
    reveal_with_fuel(pow256, 9);
}

/// The fields of the ELF header, read back at their places in the ELF layout.
proof fn lemma_elf_header_fields(num_pheaders: u16, entry_point: u64)
    ensures
        ({
            let h = spec_elf_header(num_pheaders, entry_point);
            &&& h.len() == 64
            &&& h.subrange(0, 4) == seq![0x7fu8, 0x45u8, 0x4cu8, 0x46u8]
            &&& file_field(h, 24, 8) == entry_point
            &&& file_field(h, 32, 8) == 64
            &&& file_field(h, 52, 2) == 64
            &&& file_field(h, 54, 2) == 56
            &&& file_field(h, 56, 2) == num_pheaders
        }),
{
    lemma_pow256_values();
    lemma_le_field(2, 2);
    lemma_le_field(0x3e, 2);
    lemma_le_field(1, 4);
    lemma_le_field(entry_point as nat, 8);
    lemma_le_field(64, 8);
    lemma_le_field(0, 8);
    lemma_le_field(0, 4);
    lemma_le_field(64, 2);
    lemma_le_field(56, 2);
    lemma_le_field(num_pheaders as nat, 2);
    lemma_le_field(0, 2);
    let h = spec_elf_header(num_pheaders, entry_point);
    assert(h.subrange(0, 4) =~= seq![0x7fu8, 0x45u8, 0x4cu8, 0x46u8]);
    assert(h.subrange(24, 32) =~= le_bytes(entry_point as nat, 8));
    assert(h.subrange(32, 40) =~= le_bytes(64, 8));
    assert(h.subrange(52, 54) =~= le_bytes(64, 2));
    assert(h.subrange(54, 56) =~= le_bytes(56, 2));
    assert(h.subrange(56, 58) =~= le_bytes(num_pheaders as nat, 2));
}

/// The fields of a program header, read back at their places in the header.
proof fn lemma_program_header_fields(flags: u32, offset: u64, virtual_address: u64, size: u64)
    ensures
        ({
            let p = spec_program_header(flags, offset, virtual_address, size);
            &&& p.len() == 56
            &&& file_field(p, 0, 4) == 1
            &&& file_field(p, 4, 4) == flags
            &&& file_field(p, 8, 8) == offset
            &&& file_field(p, 16, 8) == virtual_address
            &&& file_field(p, 32, 8) == size
            &&& file_field(p, 40, 8) == size
        }),
{
    lemma_pow256_values();
    lemma_le_field(1, 4);
    lemma_le_field(flags as nat, 4);
    lemma_le_field(offset as nat, 8);
    lemma_le_field(virtual_address as nat, 8);
    lemma_le_field(0, 8);
    lemma_le_field(size as nat, 8);
    lemma_le_field(0x1000, 8);
    let p = spec_program_header(flags, offset, virtual_address, size);
    assert(p.subrange(0, 4) =~= le_bytes(1, 4));
    assert(p.subrange(4, 8) =~= le_bytes(flags as nat, 4));
    assert(p.subrange(8, 16) =~= le_bytes(offset as nat, 8));
    assert(p.subrange(16, 24) =~= le_bytes(virtual_address as nat, 8));
    assert(p.subrange(32, 40) =~= le_bytes(size as nat, 8));
    assert(p.subrange(40, 48) =~= le_bytes(size as nat, 8));
}

/// The fields of the ELF header and the two program headers read the same in a file
/// that begins with them.
proof fn lemma_fields_of_headers(header: Seq<u8>, text: Seq<u8>, data_header: Seq<u8>, rest: Seq<u8>)
    requires
        header.len() == 64,
        text.len() == 56,
        data_header.len() == 56,
    ensures
        ({
            let file = header + text + data_header + rest;
            &&& forall|a: int, n: int| 0 <= a && 0 <= n && a + n <= 64 ==> #[trigger] file_field(file, a, n) == file_field(header, a, n)
            &&& forall|a: int, n: int| 64 <= a && 0 <= n && a + n <= 120 ==> #[trigger] file_field(file, a, n) == file_field(text, a - 64, n)
            &&& forall|a: int, n: int| 120 <= a && 0 <= n && a + n <= 176 ==> #[trigger] file_field(file, a, n) == file_field(data_header, a - 120, n)
        }),
{
    let ht = header + text;
    let hdrs = ht + data_header;
    let file = hdrs + rest;
    assert forall|a: int, n: int| 0 <= a && 0 <= n && a + n <= 64 implies #[trigger] file_field(file, a, n) == file_field(header, a, n) by {
        lemma_field_in_join(hdrs, rest, a, n);
        lemma_field_in_join(ht, data_header, a, n);
        lemma_field_in_join(header, text, a, n);
    }
    assert forall|a: int, n: int| 64 <= a && 0 <= n && a + n <= 120 implies #[trigger] file_field(file, a, n) == file_field(text, a - 64, n) by {
        lemma_field_in_join(hdrs, rest, a, n);
        lemma_field_in_join(ht, data_header, a, n);
        lemma_field_in_join(header, text, a, n);
    }
    assert forall|a: int, n: int| 120 <= a && 0 <= n && a + n <= 176 implies #[trigger] file_field(file, a, n) == file_field(data_header, a - 120, n) by {
        lemma_field_in_join(hdrs, rest, a, n);
        lemma_field_in_join(ht, data_header, a, n);
    }
}

/// The executable describes itself: it opens with the ELF magic number; its header says
/// that `e_phnum` = 2 program headers of `e_phentsize` = 56 bytes each (the size of a
/// 64 bit program header) start at `e_phoff`, and that execution starts at `e_entry`.
/// The `i`-th program header, read at `e_phoff + i * e_phentsize`, is a loadable segment
/// whose offset and size pick out of the file exactly the relocated code (`i` = 0, read
/// and execute, mapped at the entry point) or the data (`i` = 1, read and write, mapped
/// at the data address); the program headers end before the first segment begins.
#[verifier::spinoff_prover]
#[verifier::rlimit(50)]
pub proof fn lemma_elf_describes_itself(code: Seq<u8>, data: Seq<u8>, relocations: Seq<RelocationEntrie>)
    requires
        elf_fits(code.len()),
        data.len() <= u64::MAX,
        relocatable(code, relocations, code_address(), data_address(code.len()) as u64),
    ensures
        ({
            let file = spec_create_elf(code, data, relocations);
            let phoff = file_field(file, 32, 8) as int;
            let phentsize = file_field(file, 54, 2) as int;
            let h0 = phoff;
            let h1 = phoff + phentsize;
            &&& file.subrange(0, 4) == seq![0x7fu8, 0x45u8, 0x4cu8, 0x46u8]
            &&& file_field(file, 52, 2) == 64
            &&& phentsize == 56
            &&& file_field(file, 56, 2) == 2
            &&& phoff >= 64
            &&& phoff + 2 * phentsize <= file_field(file, h0 + 8, 8)
            &&& file_field(file, h0, 4) == 1
            &&& file_field(file, h0 + 4, 4) == 5
            &&& file_field(file, h0 + 16, 8) == file_field(file, 24, 8)
            &&& file_field(file, h0 + 16, 8) == code_address()
            &&& file_field(file, h0 + 8, 8) + file_field(file, h0 + 32, 8) <= file.len()
            &&& file.subrange(file_field(file, h0 + 8, 8) as int, (file_field(file, h0 + 8, 8) + file_field(file, h0 + 32, 8)) as int)
                == spec_relocate_segment(code, relocations, code_address(), data_address(code.len()) as u64)
            &&& file_field(file, h1, 4) == 1
            &&& file_field(file, h1 + 4, 4) == 6
            &&& file_field(file, h1 + 16, 8) == data_address(code.len())
            &&& file_field(file, h1 + 8, 8) + file_field(file, h1 + 32, 8) <= file.len()
            &&& file.subrange(file_field(file, h1 + 8, 8) as int, (file_field(file, h1 + 8, 8) + file_field(file, h1 + 32, 8)) as int) == data
        }),
{
    let header = spec_elf_header(2, code_address());
    let text = spec_program_header(5, text_offset(), code_address(), code.len() as u64);
    let data_header = spec_program_header(6, (text_offset() + code.len()) as u64, data_address(code.len()) as u64, data.len() as u64);
    let relocated = spec_relocate_segment(code, relocations, code_address(), data_address(code.len()) as u64);
    lemma_elf_layout(code, data, relocations);
    lemma_elf_header_fields(2, code_address());
    lemma_program_header_fields(5, text_offset(), code_address(), code.len() as u64);
    lemma_program_header_fields(6, (text_offset() + code.len()) as u64, data_address(code.len()) as u64, data.len() as u64);
    lemma_relocate_len(code, relocations, code_address(), data_address(code.len()) as u64);
    let file = spec_create_elf(code, data, relocations);
    let rest = relocated + data;
    assert(file =~= header + text + data_header + rest);
    assert(file.subrange(0, 4) =~= header.subrange(0, 4));
    lemma_fields_of_headers(header, text, data_header, rest);
}

/// In the executable, every address that a relocation entry marks in the code holds the
/// address it held before plus the address where its segment is mapped, as the program
/// headers of the file itself say it: the code's (first program header) for an entry into
/// the code, the data's (second program header) for an entry into the data; kept to as
/// many bytes as the entry has. Entries must not share bytes.
#[verifier::spinoff_prover]
#[verifier::rlimit(40)]
pub proof fn lemma_elf_relocated_addresses(code: Seq<u8>, data: Seq<u8>, relocations: Seq<RelocationEntrie>)
    requires
        elf_fits(code.len()),
        data.len() <= u64::MAX,
        relocatable(code, relocations, code_address(), data_address(code.len()) as u64),
        disjoint_entries(relocations),
    ensures
        ({
            let file = spec_create_elf(code, data, relocations);
            let phoff = file_field(file, 32, 8) as int;
            let phentsize = file_field(file, 54, 2) as int;
            forall|i: int| 0 <= i < relocations.len() ==> {
                let e = #[trigger] relocations[i];
                let header = if e.segment == SegmentType::Text { phoff } else { phoff + phentsize };
                file_field(file, text_offset() + e.offset, e.bytes as int)
                    == (file_field(file, header + 16, 8) + entry_address(code, e)) % pow256(e.bytes as nat)
            }
        }),
{
    lemma_elf_describes_itself(code, data, relocations);
    lemma_elf_layout(code, data, relocations);
    lemma_relocated_addresses(code, relocations, code_address(), data_address(code.len()) as u64);
    let file = spec_create_elf(code, data, relocations);
    let relocated = spec_relocate_segment(code, relocations, code_address(), data_address(code.len()) as u64);
    assert forall|i: int| 0 <= i < relocations.len() implies file_field(file, text_offset() + (#[trigger] relocations[i]).offset, relocations[i].bytes as int)
        == entry_address(relocated, relocations[i]) by {
        lemma_field_in_segment(file, relocated, text_offset() as int, relocations[i].offset as int, relocations[i].bytes as int);
    }
}

/// A field inside a segment of the file reads as the same field of the segment.
proof fn lemma_field_in_segment(file: Seq<u8>, segment: Seq<u8>, start: int, offset: int, n: int)
    requires
        0 <= start,
        0 <= offset,
        0 <= n,
        offset + n <= segment.len(),
        start + segment.len() <= file.len(),
        file.subrange(start, start + segment.len()) == segment,
    ensures
        file_field(file, start + offset, n) == le_value(segment.subrange(offset, offset + n)),
{
    let a = file.subrange(start + offset, start + offset + n);
    let b = segment.subrange(offset, offset + n);
    assert forall|k: int| 0 <= k < n implies #[trigger] a[k] == b[k] by {
        assert(file.subrange(start, start + segment.len())[offset + k] == file[start + offset + k]);
    }
    assert(a =~= b);
}

/// The executable holds its headers in the first `text_offset()` bytes, then the relocated
/// code at the offset that the code's program header names, then the data at the offset
/// that the data's program header names, and nothing else.
pub proof fn lemma_elf_layout(code: Seq<u8>, data: Seq<u8>, relocations: Seq<RelocationEntrie>)
    requires
        elf_fits(code.len()),
        relocatable(code, relocations, code_address(), data_address(code.len()) as u64),
    ensures
        ({
            let file = spec_create_elf(code, data, relocations);
            &&& file.len() == text_offset() + code.len() + data.len()
            &&& file.subrange(0, 64) == spec_elf_header(2, code_address())
            &&& file.subrange(64, 120) == spec_program_header(5, text_offset(), code_address(), code.len() as u64)
            &&& file.subrange(text_offset() as int, text_offset() + code.len())
                == spec_relocate_segment(code, relocations, code_address(), data_address(code.len()) as u64)
            &&& file.subrange(text_offset() + code.len(), file.len() as int) == data
        }),
{
    let header = spec_elf_header(2, code_address());
    let text = spec_program_header(5, text_offset(), code_address(), code.len() as u64);
    let data_header = spec_program_header(
        6,
        (text_offset() + code.len()) as u64,
        data_address(code.len()) as u64,
        data.len() as u64,
    );
    let relocated = spec_relocate_segment(code, relocations, code_address(), data_address(code.len()) as u64);
    lemma_relocate_len(code, relocations, code_address(), data_address(code.len()) as u64);
    lemma_le_bytes_len(2, 2);
    lemma_le_bytes_len(0x3e, 2);
    lemma_le_bytes_len(1, 4);
    lemma_le_bytes_len(code_address() as nat, 8);
    lemma_le_bytes_len(64, 8);
    lemma_le_bytes_len(0, 8);
    lemma_le_bytes_len(0, 4);
    lemma_le_bytes_len(64, 2);
    lemma_le_bytes_len(56, 2);
    lemma_le_bytes_len(0, 2);
    lemma_le_bytes_len(5, 4);
    lemma_le_bytes_len(6, 4);
    lemma_le_bytes_len(text_offset() as nat, 8);
    lemma_le_bytes_len(code.len() as u64 as nat, 8);
    lemma_le_bytes_len((text_offset() + code.len()) as u64 as nat, 8);
    lemma_le_bytes_len(data_address(code.len()) as u64 as nat, 8);
    lemma_le_bytes_len(data.len() as u64 as nat, 8);
    lemma_le_bytes_len(0x1000, 8);
    assert(header.len() == 64);
    assert(text.len() == 56);
    assert(data_header.len() == 56);
    let file = spec_create_elf(code, data, relocations);
    assert(file == header + text + data_header + relocated + data);
    assert(file.subrange(0, 64) =~= header);
    assert(file.subrange(64, 120) =~= text);
    assert(file.subrange(text_offset() as int, text_offset() + code.len()) =~= relocated);
    assert(file.subrange(text_offset() + code.len(), file.len() as int) =~= data);
}

} // verus!

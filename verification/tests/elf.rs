use poo_compiler::assembling::AssemblingResult;
use poo_compiler::linking::elf::{copy_into, create_elf, try_create_elf, SegmentType};
use poo_compiler::linking::relocate::{relocate, try_relocate, RelocationEntrie};

#[test]
fn test_copy_into() {
    let arr1 = [1, 2, 3];
    let arr2 = [4];

    assert_eq!(copy_into::<4>(vec![&arr1, &arr2]), [1, 2, 3, 4]);
}

#[test]
fn copy_into_pads_with_zeros() {
    let arr1 = [7, 8];
    assert_eq!(copy_into::<5>(vec![&arr1]), [7, 8, 0, 0, 0]);
    assert_eq!(copy_into::<2>(vec![]), [0, 0]);
}

fn le(x: u64, n: usize) -> Vec<u8> {
    x.to_le_bytes()[0..n].to_vec()
}

#[test]
fn create_elf_lays_out_headers_code_and_data() {
    let code = vec![0x48, 0xC7, 0xC0, 0x3C, 0x00, 0x00, 0x00, 0x0F, 0x05];
    let data = vec![b'h', b'i', 0];
    let binary = create_elf(AssemblingResult { code: code.clone(), data: data.clone(), code_relocate: vec![] });
    assert_eq!(binary.len(), 64 + 2 * 56 + code.len() + data.len());
    // identification
    assert_eq!(&binary[0..16], &[0x7f, b'E', b'L', b'F', 2, 1, 1, 0, 0, 0, 0, 0, 0, 0, 0, 0]);
    // executable, amd64, version 1
    assert_eq!(&binary[16..18], &le(2, 2)[..]);
    assert_eq!(&binary[18..20], &le(0x3e, 2)[..]);
    assert_eq!(&binary[20..24], &le(1, 4)[..]);
    // entry point: the start of the code in memory
    assert_eq!(&binary[24..32], &le(0x4000b0, 8)[..]);
    // program headers right after this header, two of them
    assert_eq!(&binary[32..40], &le(64, 8)[..]);
    assert_eq!(&binary[56..58], &le(2, 2)[..]);
    // text program header: load, readable and executable, at offset 176
    let text = &binary[64..120];
    assert_eq!(&text[0..4], &le(1, 4)[..]);
    assert_eq!(&text[4..8], &le(5, 4)[..]);
    assert_eq!(&text[8..16], &le(176, 8)[..]);
    assert_eq!(&text[16..24], &le(0x4000b0, 8)[..]);
    assert_eq!(&text[32..40], &le(code.len() as u64, 8)[..]);
    assert_eq!(&text[48..56], &le(0x1000, 8)[..]);
    // data program header: readable and writable, one page after the code
    let data_header = &binary[120..176];
    assert_eq!(&data_header[4..8], &le(6, 4)[..]);
    assert_eq!(&data_header[8..16], &le(176 + code.len() as u64, 8)[..]);
    assert_eq!(&data_header[16..24], &le(0x4000b0 + code.len() as u64 + 0x1000, 8)[..]);
    assert_eq!(&data_header[32..40], &le(data.len() as u64, 8)[..]);
    // the code, then the data
    assert_eq!(&binary[176..185], &code[..]);
    assert_eq!(&binary[185..], &data[..]);
}

#[test]
fn create_elf_relocates_addresses() {
    // movabs-like field at offset 2 holding the data offset 5, and a code address 3 at offset 10
    let mut code = vec![0u8; 18];
    code[2] = 5;
    code[10] = 3;
    let relocations = vec![
        RelocationEntrie { offset: 2, bytes: 8, segment: SegmentType::Data },
        RelocationEntrie { offset: 10, bytes: 8, segment: SegmentType::Text },
    ];
    let binary = create_elf(AssemblingResult { code, data: vec![1, 2, 3], code_relocate: relocations });
    let data_address = 0x4000b0u64 + 18 + 0x1000;
    assert_eq!(&binary[176 + 2..176 + 10], &le(data_address + 5, 8)[..]);
    assert_eq!(&binary[176 + 10..176 + 18], &le(0x4000b0 + 3, 8)[..]);
}

#[test]
fn try_create_elf_refuses_entry_outside_the_code() {
    let relocations = vec![RelocationEntrie { offset: 2, bytes: 8, segment: SegmentType::Data }];
    assert_eq!(try_create_elf(AssemblingResult { code: vec![0; 4], data: vec![], code_relocate: relocations }), None);
}

#[test]
fn relocate_moves_each_address_by_its_segment_base() {
    let mut input = AssemblingResult {
        code: vec![0xAA, 0x10, 0x00, 0x00, 0x00, 0xBB, 0x02, 0x00],
        data: vec![9],
        code_relocate: vec![
            RelocationEntrie { offset: 1, bytes: 4, segment: SegmentType::Data },
            RelocationEntrie { offset: 6, bytes: 2, segment: SegmentType::Text },
        ],
    };
    relocate(&mut input, 0x100, 0x2000);
    assert_eq!(input.code, vec![0xAA, 0x10, 0x20, 0x00, 0x00, 0xBB, 0x02, 0x01]);
    assert_eq!(input.data, vec![9]);
}

#[test]
fn relocate_with_zero_bases_keeps_the_code() {
    let code = vec![1, 2, 3, 4, 5, 6];
    let mut input = AssemblingResult {
        code: code.clone(),
        data: vec![],
        code_relocate: vec![RelocationEntrie { offset: 0, bytes: 4, segment: SegmentType::Text }],
    };
    relocate(&mut input, 0, 0);
    assert_eq!(input.code, code);
}

#[test]
fn try_relocate_refuses_an_overflowing_address() {
    let mut input = AssemblingResult {
        code: vec![0xFF; 8],
        data: vec![],
        code_relocate: vec![RelocationEntrie { offset: 0, bytes: 8, segment: SegmentType::Text }],
    };
    assert!(!try_relocate(&mut input, 1, 0));
}

#[test]
fn relocating_twice_is_relocating_by_the_sums() {
    let make = || AssemblingResult {
        code: vec![0xAA, 0x10, 0x00, 0x00, 0x00, 0xBB, 0x02, 0x00],
        data: vec![],
        code_relocate: vec![
            RelocationEntrie { offset: 1, bytes: 4, segment: SegmentType::Data },
            RelocationEntrie { offset: 6, bytes: 2, segment: SegmentType::Text },
        ],
    };
    let mut twice = make();
    relocate(&mut twice, 0x100, 0x2000);
    relocate(&mut twice, 0x30, 0x400);
    let mut once = make();
    relocate(&mut once, 0x130, 0x2400);
    assert_eq!(twice.code, once.code);
    assert_eq!(once.code, vec![0xAA, 0x10, 0x24, 0x00, 0x00, 0xBB, 0x32, 0x01]);
}

//! In this module and submodules the assembly gets turned into bytecode
pub mod assemble_instruction;
pub mod assemble_instruction_part;
pub mod assembly;
pub mod decode;

use vstd::prelude::*;

use crate::assembling::assemble_instruction::{
    assemble_instruction, defines_label, instruction_assemblable, lemma_fit_instruction, lemma_instruction_code_labels, lemma_instruction_keeps_data, lemma_instruction_grows, positions_fit_model,
    spec_assemble_instruction,
};
use crate::assembling::assembly::Instruction;
use crate::assembling::decode::signed32;
use crate::compiling::CompilationResult;
use crate::linking::relocate::{disjoint_entries, entries_apart, RelocationEntrie};
use crate::little_endian::{le_bytes, le_value, lemma_le_bytes_len, lemma_le_value_of_bytes, pow256, write_le};
use crate::string_map::{keys_unique, lemma_insert, lookup, spec_insert, StrMap};

verus! {

/// Struct containing the raw bytecode and data, still needs to be converted to elf/linked
#[derive(Debug)]
pub struct AssemblingResult {
    pub code: Vec<u8>,
    pub data: Vec<u8>,
    pub code_relocate: Vec<RelocationEntrie>,
}

/// Contains some extra data used during assembling, not needed in the final result
pub struct IntermediateAssemblingResult {
    pub code: Vec<u8>,
    pub data: Vec<u8>,
    pub code_relocate: Vec<RelocationEntrie>,
    pub data_labels: StrMap<u64>,
    pub code_labels: StrMap<u64>,
    pub code_label_positions: Vec<CodeLabelPosition>,
}

/// A place in the code that holds the address of a code label, which is filled in
/// once all code labels are known
pub struct CodeLabelPosition {
    pub label: String,
    /// index where the address is
    pub address_index: usize,
    pub label_type: LabelType,
    pub bytes: u8,
}

/// Whether a label is relative to next instruction pointer or absolute
#[derive(Debug, Clone, Copy, PartialEq, Eq, Structural)]
pub enum LabelType {
    Relative,
    Absolute,
}

/// The state of the assembler as mathematical values.
pub struct AsmModel {
    pub code: Seq<u8>,
    pub data: Seq<u8>,
    pub code_relocate: Seq<RelocationEntrie>,
    pub data_labels: Seq<(String, u64)>,
    pub code_labels: Seq<(String, u64)>,
    pub code_label_positions: Seq<CodeLabelPosition>,
}

impl IntermediateAssemblingResult {
    pub open spec fn model(&self) -> AsmModel {
        AsmModel {
            code: self.code@,
            data: self.data@,
            code_relocate: self.code_relocate@,
            data_labels: self.data_labels.entries@,
            code_labels: self.code_labels.entries@,
            code_label_positions: self.code_label_positions@,
        }
    }

    pub open spec fn wf(&self) -> bool {
        self.model().wf()
    }
}

impl AsmModel {
    /// Label maps have unique keys, and every recorded address field lies inside the code.
    pub open spec fn wf(self) -> bool {
        &&& keys_unique(self.data_labels)
        &&& keys_unique(self.code_labels)
        &&& forall|i: int|
            0 <= i < self.code_label_positions.len() ==> {
                let p = #[trigger] self.code_label_positions[i];
                p.address_index + p.bytes <= self.code.len() && p.bytes <= 8
            }
        &&& forall|i: int|
            0 <= i < self.code_relocate.len() ==> {
                let r = #[trigger] self.code_relocate[i];
                r.offset + r.bytes <= self.code.len() && r.bytes <= 8
            }
        &&& forall|i: int| 0 <= i < self.code_labels.len() ==> #[trigger] self.code_labels[i].1 <= self.code.len()
    }

    pub open spec fn append_code(self, bytes: Seq<u8>) -> AsmModel {
        AsmModel { code: self.code + bytes, ..self }
    }

    /// Appending code keeps every recorded address field inside the code.
    pub proof fn lemma_append_code_wf(self, bytes: Seq<u8>)
        requires
            self.wf(),
        ensures
            self.append_code(bytes).wf(),
    {
        let m2 = self.append_code(bytes);
        assert forall|i: int| 0 <= i < m2.code_label_positions.len() implies {
            let p = #[trigger] m2.code_label_positions[i];
            p.address_index + p.bytes <= m2.code.len() && p.bytes <= 8
        } by {
            assert(m2.code_label_positions[i] == self.code_label_positions[i]);
        }
        assert forall|i: int| 0 <= i < m2.code_relocate.len() implies {
            let r = #[trigger] m2.code_relocate[i];
            r.offset + r.bytes <= m2.code.len() && r.bytes <= 8
        } by {
            assert(m2.code_relocate[i] == self.code_relocate[i]);
        }
    }
}

/// Appends bytes to the code.
pub fn append_code_bytes(output: &mut IntermediateAssemblingResult, bytes: Vec<u8>)
    requires
        old(output).wf(),
    ensures
        final(output).wf(),
        final(output).model() == old(output).model().append_code(bytes@),
{
    proof {
        old(output).model().lemma_append_code_wf(bytes@);
    }
    let mut bytes = bytes;
    output.code.append(&mut bytes);
}


/// The data section: the bytes of all data entries, one after the other, in order.
pub open spec fn spec_data_bytes(entries: Seq<(String, Vec<u8>)>) -> Seq<u8>
    decreases entries.len(),
{
    if entries.len() == 0 {
        Seq::empty()
    } else {
        spec_data_bytes(entries.drop_last()) + entries.last().1@
    }
}

/// The data labels: each entry's label with the position of its first byte in the data section.
pub open spec fn spec_data_labels(entries: Seq<(String, Vec<u8>)>) -> Seq<(String, u64)> {
    Seq::new(entries.len(), |i: int| (entries[i].0, spec_data_bytes(entries.take(i)).len() as u64))
}

/// The bytes of the first `k` entries begin the data section.
proof fn lemma_data_bytes_prefix(entries: Seq<(String, Vec<u8>)>, k: int)
    requires
        0 <= k <= entries.len(),
    ensures
        spec_data_bytes(entries.take(k)).len() <= spec_data_bytes(entries).len(),
        spec_data_bytes(entries).subrange(0, spec_data_bytes(entries.take(k)).len() as int) == spec_data_bytes(entries.take(k)),
    decreases entries.len(),
{
    if k == entries.len() {
        assert(entries.take(k) =~= entries);
        assert(spec_data_bytes(entries).subrange(0, spec_data_bytes(entries).len() as int) =~= spec_data_bytes(entries));
    } else {
        let init = entries.drop_last();
        lemma_data_bytes_prefix(init, k);
        assert(init.take(k) =~= entries.take(k));
        let pre = spec_data_bytes(entries.take(k));
        assert(spec_data_bytes(entries).subrange(0, pre.len() as int) =~= spec_data_bytes(init).subrange(0, pre.len() as int));
    }
}

/// The data section is the entries' bytes, each entry once, in the order of the
/// entries and with nothing between them: the first starts at 0, each next one where the
/// one before ends, and the last ends where the data section does. Each data label is the
/// name of its entry and says where the entry's bytes lie in the data section: the data
/// section holds, from that position on, exactly the entry's bytes (the position is the
/// number of bytes of the entries before it, as long as the data section's length fits in
/// a `u64`).
pub proof fn lemma_data_labels(entries: Seq<(String, Vec<u8>)>)
    ensures
        spec_data_labels(entries).len() == entries.len(),
        spec_data_bytes(entries.take(0)).len() == 0,
        spec_data_bytes(entries.take(entries.len() as int)).len() == spec_data_bytes(entries).len(),
        forall|i: int| 0 <= i < entries.len() ==> #[trigger] spec_data_bytes(entries.take(i + 1)).len()
            == spec_data_bytes(entries.take(i)).len() + entries[i].1@.len(),
        forall|i: int| 0 <= i < entries.len() ==> {
            let start = spec_data_bytes(entries.take(i)).len();
            let data = spec_data_bytes(entries);
            &&& #[trigger] spec_data_labels(entries)[i].0 == entries[i].0
            &&& start + entries[i].1@.len() <= data.len()
            &&& data.subrange(start as int, (start + entries[i].1@.len()) as int) == entries[i].1@
            &&& data.len() <= u64::MAX ==> spec_data_labels(entries)[i].1 == start
        },
{
    assert(entries.take(0) =~= Seq::<(String, Vec<u8>)>::empty());
    assert(entries.take(entries.len() as int) =~= entries);
    assert forall|i: int| 0 <= i < entries.len() implies #[trigger] spec_data_bytes(entries.take(i + 1)).len()
        == spec_data_bytes(entries.take(i)).len() + entries[i].1@.len() by {
        assert(entries.take(i + 1).drop_last() =~= entries.take(i));
    }
    assert forall|i: int| 0 <= i < entries.len() implies {
        let start = spec_data_bytes(entries.take(i)).len();
        let data = spec_data_bytes(entries);
        &&& #[trigger] spec_data_labels(entries)[i].0 == entries[i].0
        &&& start + entries[i].1@.len() <= data.len()
        &&& data.subrange(start as int, (start + entries[i].1@.len()) as int) == entries[i].1@
        &&& data.len() <= u64::MAX ==> spec_data_labels(entries)[i].1 == start
    } by {
        let start = spec_data_bytes(entries.take(i)).len();
        let data = spec_data_bytes(entries);
        let upto = entries.take(i + 1);
        assert(upto.drop_last() =~= entries.take(i));
        assert(upto.last() == entries[i]);
        lemma_data_bytes_prefix(entries, i + 1);
        let with = spec_data_bytes(upto);
        assert(with == spec_data_bytes(entries.take(i)) + entries[i].1@);
        assert(data.subrange(start as int, (start + entries[i].1@.len()) as int) =~= with.subrange(start as int, with.len() as int));
        assert(with.subrange(start as int, with.len() as int) =~= entries[i].1@);
    }
}

/// The assembler state before any code: the data section and its labels, nothing else.
pub open spec fn spec_initial_model(entries: Seq<(String, Vec<u8>)>) -> AsmModel {
    AsmModel {
        code: Seq::empty(),
        data: spec_data_bytes(entries),
        code_relocate: Seq::empty(),
        data_labels: spec_data_labels(entries),
        code_labels: Seq::empty(),
        code_label_positions: Seq::empty(),
    }
}

/// The assembler state after encoding `code` in order, `None` when one of them cannot be encoded.
pub open spec fn spec_assemble_code(m: AsmModel, code: Seq<Instruction>) -> Option<AsmModel>
    decreases code.len(),
{
    if code.len() == 0 {
        Some(m)
    } else {
        match spec_assemble_instruction(m, code[0]) {
            Some(m2) => spec_assemble_code(m2, code.drop_first()),
            None => None,
        }
    }
}

/// The address written at a code label position: the label's position in the code,
/// relative to the end of the address field for relative labels.
pub open spec fn spec_label_target(p: CodeLabelPosition, label_address: u64) -> int {
    match p.label_type {
        LabelType::Relative => label_address - (p.address_index + p.bytes),
        LabelType::Absolute => label_address as int,
    }
}

/// The code after filling in the code label positions in order; `None` when a
/// position refers to a code label that is not defined.
pub open spec fn spec_fix_code_labels(code: Seq<u8>, positions: Seq<CodeLabelPosition>, labels: Seq<(String, u64)>) -> Option<Seq<u8>>
    decreases positions.len(),
{
    if positions.len() == 0 {
        Some(code)
    } else {
        let p = positions[0];
        match lookup(labels, p.label@) {
            Some(address) => spec_fix_code_labels(
                code.subrange(0, p.address_index as int)
                    + le_bytes(spec_label_target(p, address) as i64 as u64 as nat, p.bytes as nat)
                    + code.subrange(p.address_index + p.bytes, code.len() as int),
                positions.drop_first(),
                labels,
            ),
            None => None,
        }
    }
}

/// Two code label positions share no byte.
pub open spec fn positions_apart(a: CodeLabelPosition, b: CodeLabelPosition) -> bool {
    a.address_index + a.bytes <= b.address_index || b.address_index + b.bytes <= a.address_index
}

/// No two of the positions share a byte, and each lies inside code of length `len`
/// with at most eight bytes.
pub open spec fn positions_fit(positions: Seq<CodeLabelPosition>, len: nat) -> bool {
    &&& forall|i: int| 0 <= i < positions.len() ==> {
        let p = #[trigger] positions[i];
        p.address_index + p.bytes <= len && p.bytes <= 8
    }
    &&& forall|i: int, j: int|
        0 <= i < positions.len() && 0 <= j < positions.len() && i != j ==> positions_apart(
            #[trigger] positions[i],
            #[trigger] positions[j],
        )
}

/// Relocation entries lie inside code of length `len`, with at most eight bytes each, and
/// come in the order of their offsets, each one after the bytes of the one before.
pub open spec fn relocations_ordered(entries: Seq<RelocationEntrie>, len: nat) -> bool {
    &&& forall|i: int| 0 <= i < entries.len() ==> {
        let e = #[trigger] entries[i];
        e.offset + e.bytes <= len && e.bytes <= 8
    }
    &&& forall|i: int, j: int| 0 <= i < j < entries.len() ==> #[trigger] entries[i].offset + entries[i].bytes <= #[trigger] entries[j].offset
}

/// Byte `k` belongs to the address field of the position.
pub open spec fn position_covers(p: CodeLabelPosition, k: int) -> bool {
    p.address_index <= k < p.address_index + p.bytes
}

/// The number that fills a position's address field: its target as a 64-bit two's
/// complement number.
pub open spec fn label_field_value(p: CodeLabelPosition, labels: Seq<(String, u64)>) -> nat {
    spec_label_target(p, lookup(labels, p.label@)->0) as i64 as u64 as nat
}

/// Filling in code labels at positions that share no byte leaves in the address field
/// of each position its target (the label's position in the code, relative to the end of
/// the field for relative labels), kept to as many bytes as the field has, and every
/// byte outside the fields as it was.
pub proof fn lemma_fixed_code_labels(code: Seq<u8>, positions: Seq<CodeLabelPosition>, labels: Seq<(String, u64)>)
    requires
        spec_fix_code_labels(code, positions, labels) is Some,
        positions_fit(positions, code.len()),
    ensures
        ({
            let fixed = spec_fix_code_labels(code, positions, labels)->0;
            &&& fixed.len() == code.len()
            &&& forall|i: int| 0 <= i < positions.len() ==> le_value(
                fixed.subrange(positions[i].address_index as int, positions[i].address_index + positions[i].bytes),
            ) == label_field_value(#[trigger] positions[i], labels) % pow256(positions[i].bytes as nat)
            &&& forall|k: int| 0 <= k < code.len() && (forall|i: int| 0 <= i < positions.len() ==> !position_covers(#[trigger] positions[i], k))
                ==> #[trigger] fixed[k] == code[k]
        }),
    decreases positions.len(),
{
    if positions.len() > 0 {
        let p = positions[0];
        let rest = positions.drop_first();
        let value = label_field_value(p, labels);
        let field = le_bytes(value, p.bytes as nat);
        let code1 = code.subrange(0, p.address_index as int) + field + code.subrange(p.address_index + p.bytes, code.len() as int);
        lemma_le_bytes_len(value, p.bytes as nat);
        lemma_le_value_of_bytes(value, p.bytes as nat);
        assert(code1.len() == code.len());
        assert(positions_fit(rest, code1.len())) by {
            assert forall|i: int| 0 <= i < rest.len() implies {
                let q = #[trigger] rest[i];
                q.address_index + q.bytes <= code1.len() && q.bytes <= 8
            } by {
                assert(rest[i] == positions[i + 1]);
            }
            assert forall|i: int, j: int| 0 <= i < rest.len() && 0 <= j < rest.len() && i != j implies positions_apart(
                #[trigger] rest[i],
                #[trigger] rest[j],
            ) by {
                assert(rest[i] == positions[i + 1] && rest[j] == positions[j + 1]);
            }
        }
        lemma_fixed_code_labels(code1, rest, labels);
        let fixed = spec_fix_code_labels(code, positions, labels)->0;
        assert(fixed == spec_fix_code_labels(code1, rest, labels)->0);
        // the field of the first position is untouched by the others
        assert forall|k: int| p.address_index <= k < p.address_index + p.bytes implies #[trigger] fixed[k] == code1[k] by {
            assert forall|i: int| 0 <= i < rest.len() implies !position_covers(#[trigger] rest[i], k) by {
                assert(rest[i] == positions[i + 1]);
                assert(positions_apart(positions[0], positions[i + 1]));
            }
        }
        assert(fixed.subrange(p.address_index as int, p.address_index + p.bytes) =~= field);
        assert forall|k: int| 0 <= k < code.len() && !position_covers(p, k) implies #[trigger] code1[k] == code[k] by {
            if k < p.address_index {
                assert(code1[k] == code.subrange(0, p.address_index as int)[k]);
            } else {
                assert(code1[k] == code.subrange(p.address_index + p.bytes, code.len() as int)[k - p.address_index - p.bytes]);
            }
        }
        assert forall|i: int| 0 <= i < positions.len() implies le_value(
            fixed.subrange(positions[i].address_index as int, positions[i].address_index + positions[i].bytes),
        ) == label_field_value(#[trigger] positions[i], labels) % pow256(positions[i].bytes as nat) by {
            if i > 0 {
                assert(rest[i - 1] == positions[i]);
            }
        }
        assert forall|k: int| 0 <= k < code.len() && (forall|i: int| 0 <= i < positions.len() ==> !position_covers(#[trigger] positions[i], k))
            implies #[trigger] fixed[k] == code[k] by {
            assert(!position_covers(positions[0], k));
            assert forall|i: int| 0 <= i < rest.len() implies !position_covers(#[trigger] rest[i], k) by {
                assert(rest[i] == positions[i + 1]);
            }
        }
    }
}

/// The result of assembling, `None` where the assembler panics.
pub open spec fn spec_assemble(code: Seq<Instruction>, data: Seq<(String, Vec<u8>)>) -> Option<(Seq<u8>, Seq<u8>, Seq<RelocationEntrie>)> {
    match spec_assemble_code(spec_initial_model(data), code) {
        Some(m) => match spec_fix_code_labels(m.code, m.code_label_positions, m.code_labels) {
            Some(fixed) => Some((fixed, m.data, m.code_relocate)),
            None => None,
        },
        None => None,
    }
}

/// Encoding instructions only adds code.
proof fn lemma_code_grows(m: AsmModel, code: Seq<Instruction>)
    requires
        spec_assemble_code(m, code) is Some,
    ensures
        spec_assemble_code(m, code)->0.code.len() >= m.code.len(),
    decreases code.len(),
{
    if code.len() > 0 {
        lemma_instruction_grows(m, code[0]);
        lemma_code_grows(spec_assemble_instruction(m, code[0])->0, code.drop_first());
    }
}

/// Encoding instructions keeps the code label positions apart and inside the code.
proof fn lemma_fit_code(m: AsmModel, code: Seq<Instruction>)
    requires
        positions_fit_model(m),
        spec_assemble_code(m, code) is Some,
        spec_assemble_code(m, code)->0.code.len() <= usize::MAX,
    ensures
        positions_fit_model(spec_assemble_code(m, code)->0),
    decreases code.len(),
{
    if code.len() > 0 {
        let m2 = spec_assemble_instruction(m, code[0])->0;
        lemma_code_grows(m2, code.drop_first());
        lemma_fit_instruction(m, code[0]);
        lemma_fit_code(m2, code.drop_first());
    }
}

/// In assembled code, the address field of every reference to a code label holds the
/// label's target: the position of the label in the code, relative to the end of the
/// field for relative references (calls and jumps), kept to as many bytes as the field has.
pub proof fn lemma_assembled_code_labels(code: Seq<Instruction>, data: Seq<(String, Vec<u8>)>)
    requires
        spec_assemble(code, data) is Some,
        spec_assemble_code(spec_initial_model(data), code)->0.code.len() <= usize::MAX,
    ensures
        ({
            let m = spec_assemble_code(spec_initial_model(data), code)->0;
            let assembled = spec_assemble(code, data).unwrap().0;
            forall|i: int| 0 <= i < m.code_label_positions.len() ==> {
                let p = #[trigger] m.code_label_positions[i];
                &&& p.address_index + p.bytes <= assembled.len()
                &&& le_value(assembled.subrange(p.address_index as int, p.address_index + p.bytes))
                    == label_field_value(p, m.code_labels) % pow256(p.bytes as nat)
            }
        }),
{
    let m0 = spec_initial_model(data);
    let m = spec_assemble_code(m0, code)->0;
    lemma_fit_code(m0, code);
    lemma_fixed_code_labels(m.code, m.code_label_positions, m.code_labels);
}

/// The relocation entries of assembled code lie inside the code with at most eight bytes
/// each, come in the order of their offsets and share no byte, as relocating asks of them.
pub proof fn lemma_assembled_relocations(code: Seq<Instruction>, data: Seq<(String, Vec<u8>)>)
    requires
        spec_assemble(code, data) is Some,
        spec_assemble_code(spec_initial_model(data), code)->0.code.len() <= usize::MAX,
    ensures
        ({
            let assembled = spec_assemble(code, data).unwrap();
            &&& relocations_ordered(assembled.2, assembled.0.len())
            &&& disjoint_entries(assembled.2)
        }),
{
    let m0 = spec_initial_model(data);
    let m = spec_assemble_code(m0, code)->0;
    lemma_fit_code(m0, code);
    lemma_fixed_code_labels(m.code, m.code_label_positions, m.code_labels);
    let rs = m.code_relocate;
    assert forall|i: int, j: int| 0 <= i < rs.len() && 0 <= j < rs.len() && i != j implies entries_apart(
        #[trigger] rs[i],
        #[trigger] rs[j],
    ) by {
        if i < j {
            assert(rs[i].offset + rs[i].bytes <= rs[j].offset);
        } else {
            assert(rs[j].offset + rs[j].bytes <= rs[i].offset);
        }
    }
}

/// Encoding instructions leaves the data section and its labels as they are.
proof fn lemma_code_keeps_data(m: AsmModel, code: Seq<Instruction>)
    requires
        spec_assemble_code(m, code) is Some,
    ensures
        spec_assemble_code(m, code)->0.data == m.data,
        spec_assemble_code(m, code)->0.data_labels == m.data_labels,
    decreases code.len(),
{
    if code.len() > 0 {
        lemma_instruction_keeps_data(m, code[0]);
        lemma_code_keeps_data(spec_assemble_instruction(m, code[0])->0, code.drop_first());
    }
}

/// The data section of assembled code is the data entries' bytes, laid out as
/// `lemma_data_labels` says, and the data labels that the code's data references are
/// encoded with are the labels of that layout.
pub proof fn lemma_assembled_data(code: Seq<Instruction>, data: Seq<(String, Vec<u8>)>)
    requires
        spec_assemble(code, data) is Some,
    ensures
        spec_assemble(code, data).unwrap().1 == spec_data_bytes(data),
        spec_assemble_code(spec_initial_model(data), code)->0.data_labels == spec_data_labels(data),
{
    lemma_code_keeps_data(spec_initial_model(data), code);
}

/// Instructions none of which defines `l` leave its recorded position as it is, and keep
/// the code labels' keys unique.
proof fn lemma_code_keeps_label(m: AsmModel, code: Seq<Instruction>, l: Seq<char>)
    requires
        spec_assemble_code(m, code) is Some,
        keys_unique(m.code_labels),
        forall|k: int| 0 <= k < code.len() ==> !defines_label(#[trigger] code[k], l),
    ensures
        keys_unique(spec_assemble_code(m, code)->0.code_labels),
        lookup(spec_assemble_code(m, code)->0.code_labels, l) == lookup(m.code_labels, l),
    decreases code.len(),
{
    if code.len() > 0 {
        lemma_instruction_code_labels(m, code[0]);
        let rest = code.drop_first();
        assert forall|k: int| 0 <= k < rest.len() implies !defines_label(#[trigger] rest[k], l) by {
            assert(rest[k] == code[k + 1]);
        }
        assert(!defines_label(code[0], l));
        lemma_code_keeps_label(spec_assemble_instruction(m, code[0])->0, rest, l);
    }
}

/// A code label defined once, by the `j`-th instruction, is recorded at the length of
/// the code that the instructions before it make.
proof fn lemma_code_label_at(m: AsmModel, code: Seq<Instruction>, j: int)
    requires
        spec_assemble_code(m, code) is Some,
        keys_unique(m.code_labels),
        0 <= j < code.len(),
        code[j] is ILabel,
        forall|k: int| 0 <= k < code.len() && k != j ==> !defines_label(#[trigger] code[k], code[j]->ILabel_0@),
    ensures
        spec_assemble_code(m, code.take(j)) is Some,
        lookup(spec_assemble_code(m, code)->0.code_labels, code[j]->ILabel_0@)
            == Some(spec_assemble_code(m, code.take(j))->0.code.len() as u64),
    decreases code.len(),
{
    let l = code[j]->ILabel_0@;
    let m2 = spec_assemble_instruction(m, code[0])->0;
    let rest = code.drop_first();
    lemma_instruction_code_labels(m, code[0]);
    if j == 0 {
        assert(code.take(0) =~= Seq::<Instruction>::empty());
        assert forall|k: int| 0 <= k < rest.len() implies !defines_label(#[trigger] rest[k], l) by {
            assert(rest[k] == code[k + 1]);
        }
        lemma_code_keeps_label(m2, rest, l);
    } else {
        assert(rest[j - 1] == code[j]);
        assert forall|k: int| 0 <= k < rest.len() && k != j - 1 implies !defines_label(#[trigger] rest[k], rest[j - 1]->ILabel_0@) by {
            assert(rest[k] == code[k + 1]);
        }
        lemma_code_label_at(m2, rest, j - 1);
        assert(code.take(j)[0] == code[0]);
        assert(code.take(j).drop_first() =~= rest.take(j - 1));
    }
}

/// In assembled code, a code label that one instruction alone defines stands for the
/// number of code bytes that the instructions before that one make; with
/// `lemma_assembled_code_labels`, a reference to it holds that position (relative to the
/// end of its field for calls and jumps).
pub proof fn lemma_code_label_positions(code: Seq<Instruction>, data: Seq<(String, Vec<u8>)>)
    requires
        spec_assemble_code(spec_initial_model(data), code) is Some,
    ensures
        forall|j: int|
            0 <= j < code.len() && code[j] is ILabel && (forall|k: int| 0 <= k < code.len() && k != j ==> !defines_label(#[trigger] code[k], code[j]->ILabel_0@))
                ==> spec_assemble_code(spec_initial_model(data), code.take(j)) is Some && lookup(
                spec_assemble_code(spec_initial_model(data), code)->0.code_labels,
                #[trigger] code[j]->ILabel_0@,
            ) == Some(spec_assemble_code(spec_initial_model(data), code.take(j))->0.code.len() as u64),
{
    let m0 = spec_initial_model(data);
    assert forall|j: int|
        0 <= j < code.len() && code[j] is ILabel && (forall|k: int| 0 <= k < code.len() && k != j ==> !defines_label(#[trigger] code[k], code[j]->ILabel_0@))
            implies spec_assemble_code(m0, code.take(j)) is Some && lookup(spec_assemble_code(m0, code)->0.code_labels, #[trigger] code[j]->ILabel_0@)
            == Some(spec_assemble_code(m0, code.take(j))->0.code.len() as u64) by {
        lemma_code_label_at(m0, code, j);
    }
}

/// Filling in code labels succeeds only where every position's label is defined.
proof fn lemma_fix_labels_defined(code: Seq<u8>, positions: Seq<CodeLabelPosition>, labels: Seq<(String, u64)>)
    requires
        spec_fix_code_labels(code, positions, labels) is Some,
    ensures
        forall|i: int| 0 <= i < positions.len() ==> lookup(labels, #[trigger] positions[i].label@) is Some,
    decreases positions.len(),
{
    if positions.len() > 0 {
        let p = positions[0];
        let address = lookup(labels, p.label@)->0;
        let code1 = code.subrange(0, p.address_index as int)
            + le_bytes(spec_label_target(p, address) as i64 as u64 as nat, p.bytes as nat)
            + code.subrange(p.address_index + p.bytes, code.len() as int);
        lemma_fix_labels_defined(code1, positions.drop_first(), labels);
        assert forall|i: int| 0 <= i < positions.len() implies lookup(labels, #[trigger] positions[i].label@) is Some by {
            if i > 0 {
                assert(positions[i] == positions.drop_first()[i - 1]);
            }
        }
    }
}

/// A 4-byte field holding a target as a two's complement number reads back as the target
/// whenever the target fits in 32 bits (signed for a relative target).
proof fn lemma_field_reads_target(t: int)
    requires
        -0x8000_0000 <= t < 0x1_0000_0000,
    ensures
        ((t as i64 as u64 as nat) % pow256(4)) as int == if t >= 0 { t } else { t + 0x1_0000_0000 },
{
    assert(pow256(4) == 0x1_0000_0000) by {
        reveal_with_fuel(pow256, 5);
    }
    let d = t as i64;
    assert(d == t);
    assert(d >= 0 ==> d as u64 == d) by (bit_vector);
    assert(d < 0 ==> d as u64 == d + 0x1_0000_0000_0000_0000) by (bit_vector);
    if t >= 0 {
        vstd::arithmetic::div_mod::lemma_small_mod(t as nat, 0x1_0000_0000);
    } else {
        let x = (t + 0x1_0000_0000_0000_0000) as nat;
        assert(x == 0x1_0000_0000 * 0xFFFF_FFFF + (t + 0x1_0000_0000));
        vstd::arithmetic::div_mod::lemma_mod_multiples_vanish(0xFFFF_FFFF, t + 0x1_0000_0000, 0x1_0000_0000);
        vstd::arithmetic::div_mod::lemma_small_mod((t + 0x1_0000_0000) as nat, 0x1_0000_0000);
    }
}

/// In assembled code every reference to a code label reaches the label the way the
/// processor follows it: a 4-byte relative reference (a call or a jump), added to the
/// address of the end of its field, which is where the next instruction starts, gives the
/// label's position, whenever that distance fits in 32 bits; a 4-byte absolute reference
/// holds the label's position, whenever it fits in 32 bits. Every label referred to is defined.
#[verifier::spinoff_prover]
pub proof fn lemma_references_reach_labels(code: Seq<Instruction>, data: Seq<(String, Vec<u8>)>)
    requires
        spec_assemble(code, data) is Some,
        spec_assemble_code(spec_initial_model(data), code)->0.code.len() <= usize::MAX,
    ensures
        ({
            let m = spec_assemble_code(spec_initial_model(data), code)->0;
            let assembled = spec_assemble(code, data).unwrap().0;
            forall|i: int| 0 <= i < m.code_label_positions.len() ==> {
                let p = #[trigger] m.code_label_positions[i];
                let target = lookup(m.code_labels, p.label@);
                let field = le_value(assembled.subrange(p.address_index as int, p.address_index + p.bytes)) as int;
                let end = p.address_index + p.bytes;
                &&& target is Some
                &&& (p.bytes == 4 && p.label_type == LabelType::Relative && -0x8000_0000 <= target->0 - end < 0x8000_0000)
                    ==> end + signed32(field) == target->0
                &&& (p.bytes == 4 && p.label_type == LabelType::Absolute && target->0 < 0x1_0000_0000)
                    ==> field == target->0
            }
        }),
{
    let m0 = spec_initial_model(data);
    let m = spec_assemble_code(m0, code)->0;
    let assembled = spec_assemble(code, data).unwrap().0;
    lemma_assembled_code_labels(code, data);
    lemma_fix_labels_defined(m.code, m.code_label_positions, m.code_labels);
    assert forall|i: int| 0 <= i < m.code_label_positions.len() implies {
        let p = #[trigger] m.code_label_positions[i];
        let target = lookup(m.code_labels, p.label@);
        let field = le_value(assembled.subrange(p.address_index as int, p.address_index + p.bytes)) as int;
        let end = p.address_index + p.bytes;
        &&& target is Some
        &&& (p.bytes == 4 && p.label_type == LabelType::Relative && -0x8000_0000 <= target->0 - end < 0x8000_0000)
            ==> end + signed32(field) == target->0
        &&& (p.bytes == 4 && p.label_type == LabelType::Absolute && target->0 < 0x1_0000_0000)
            ==> field == target->0
    } by {
        let p = m.code_label_positions[i];
        let address = lookup(m.code_labels, p.label@)->0;
        let t = spec_label_target(p, address);
        if p.bytes == 4 && p.label_type == LabelType::Relative && -0x8000_0000 <= address - (p.address_index + p.bytes) < 0x8000_0000 {
            lemma_field_reads_target(t);
        }
        if p.bytes == 4 && p.label_type == LabelType::Absolute && address < 0x1_0000_0000 {
            lemma_field_reads_target(t);
        }
    }
}

/// Assembles the code into raw bytecode and data segment, still needs to be converted to elf/linked
pub fn assemble(code: CompilationResult) -> (r: AssemblingResult)
    requires
        code.data.wf(),
        spec_assemble(code.code@, code.data.entries@) is Some,
        spec_assemble_code(spec_initial_model(code.data.entries@), code.code@)->0.code.len() <= i64::MAX,
    ensures
        spec_assemble(code.code@, code.data.entries@) == Some((r.code@, r.data@, r.code_relocate@)),
{
    let CompilationResult { code, data } = code;
    let mut result = IntermediateAssemblingResult {
        code: Vec::new(),
        data: Vec::new(),
        code_relocate: Vec::new(),
        data_labels: StrMap::new(),
        code_labels: StrMap::new(),
        code_label_positions: Vec::new(),
    };

    assert(result.data_labels.entries@ =~= Seq::empty());
    assert(result.code_labels.entries@ =~= Seq::empty());
    create_data_section(&mut result, &data);

    assemble_code(code, &mut result);

    let fixed = fix_code_labels(&mut result);
    assert(fixed);

    AssemblingResult { code: result.code, data: result.data, code_relocate: result.code_relocate }
}

/// Assembles the code like `assemble`, or returns `None` where `assemble` cannot: an
/// instruction or operand combination that has no encoding, a data or code label that
/// is not defined, or code too long for its addresses to fit in an `i64`.
pub fn try_assemble(code: CompilationResult) -> (r: Option<AssemblingResult>)
    requires
        code.data.wf(),
    ensures
        match r {
            Some(res) => spec_assemble(code.code@, code.data.entries@) == Some((res.code@, res.data@, res.code_relocate@)),
            None => spec_assemble(code.code@, code.data.entries@) is None
                || spec_assemble_code(spec_initial_model(code.data.entries@), code.code@)->0.code.len() > i64::MAX,
        },
{
    let CompilationResult { code, data } = code;
    let mut result = IntermediateAssemblingResult {
        code: Vec::new(),
        data: Vec::new(),
        code_relocate: Vec::new(),
        data_labels: StrMap::new(),
        code_labels: StrMap::new(),
        code_label_positions: Vec::new(),
    };
    assert(result.data_labels.entries@ =~= Seq::empty());
    assert(result.code_labels.entries@ =~= Seq::empty());
    create_data_section(&mut result, &data);

    if !try_assemble_code(code, &mut result) {
        return None;
    }
    if result.code.len() as u64 > i64::MAX as u64 {
        return None;
    }
    if !fix_code_labels(&mut result) {
        return None;
    }
    Some(AssemblingResult { code: result.code, data: result.data, code_relocate: result.code_relocate })
}

/// Assembles the instructions in order while each can be encoded; `false` at the first
/// that cannot.
fn try_assemble_code(code: Vec<Instruction>, output: &mut IntermediateAssemblingResult) -> (r: bool)
    requires
        old(output).wf(),
    ensures
        r == spec_assemble_code(old(output).model(), code@) is Some,
        r ==> final(output).wf() && final(output).model() == spec_assemble_code(old(output).model(), code@)->0,
{
    let ghost all = code@;
    let ghost m0 = output.model();
    assert(all.skip(0) =~= all);
    for instruction in iter: code.into_iter()
        invariant
            iter.seq() == all,
            m0 == old(output).model(),
            output.wf(),
            spec_assemble_code(output.model(), all.skip(iter.index() as int)) == spec_assemble_code(m0, all),
    {
        let ghost i = iter.index() as int;
        proof {
            assert(all.skip(i)[0] == instruction);
            assert(all.skip(i).drop_first() =~= all.skip(i + 1));
        }
        if !instruction_assemblable(output, &instruction) {
            assert(spec_assemble_code(output.model(), all.skip(i)) is None);
            return false;
        }
        assemble_instruction(instruction, output);
    }
    assert(all.skip(all.len() as int) =~= Seq::<Instruction>::empty());
    true
}

/// Creates the data section and labels
fn create_data_section(output: &mut IntermediateAssemblingResult, data: &StrMap<Vec<u8>>)
    requires
        data.wf(),
        old(output).model() == (AsmModel {
            code: Seq::empty(),
            data: Seq::empty(),
            code_relocate: Seq::empty(),
            data_labels: Seq::empty(),
            code_labels: Seq::empty(),
            code_label_positions: Seq::empty(),
        }),
    ensures
        final(output).model() == spec_initial_model(data.entries@),
        final(output).wf(),
{
    let ghost entries = data.entries@;
    let mut k: usize = 0;
    assert(entries.take(0) =~= Seq::empty());
    assert(spec_data_labels(entries.take(0)) =~= Seq::empty());
    while k < data.entries.len()
        invariant
            k <= entries.len(),
            entries == data.entries@,
            keys_unique(entries),
            output.model() == spec_initial_model(entries.take(k as int)),
        decreases entries.len() - k,
    {
        let label = &data.entries[k].0;
        let bytes = &data.entries[k].1;
        let ghost before = output.model();
        proof {
            // the new label is not yet among the labels
            assert forall|i: int| 0 <= i < output.data_labels.entries@.len() implies #[trigger] output.data_labels.entries@[i].0@ != label@ by {
                assert(output.data_labels.entries@[i].0 == entries[i].0);
            }
        }
        let key = label.clone();
        proof {
            lemma_insert(output.data_labels.entries@, key, output.data@.len() as u64);
        }
        output.data_labels.insert(key, output.data.len() as u64);
        let mut j: usize = 0;
        while j < bytes.len()
            invariant
                j <= bytes@.len(),
                output.data@ == before.data + bytes@.take(j as int),
                output.code@ == before.code,
                output.code_relocate@ == before.code_relocate,
                output.code_labels.entries@ == before.code_labels,
                output.code_label_positions@ == before.code_label_positions,
                output.data_labels.entries@ == before.data_labels.push((*label, before.data.len() as u64)),
            decreases bytes@.len() - j,
        {
            output.data.push(bytes[j]);
            assert(bytes@.take(j + 1) =~= bytes@.take(j as int).push(bytes@[j as int]));
            j = j + 1;
        }
        proof {
            let e2 = entries.take(k + 1);
            assert(e2.drop_last() =~= entries.take(k as int));
            assert(bytes@.take(bytes@.len() as int) =~= bytes@);
            assert(output.data_labels.entries@ =~= spec_data_labels(e2)) by {
                assert forall|i: int| 0 <= i < k implies #[trigger] e2.take(i) =~= entries.take(k as int).take(i) by {}
                assert(e2.take(k as int) =~= entries.take(k as int));
            }
        }
        k = k + 1;
    }
    proof {
        assert(entries.take(entries.len() as int) =~= entries);
        assert forall|i: int, j: int|
            0 <= i < output.data_labels.entries@.len() && 0 <= j < output.data_labels.entries@.len() && i != j
            implies #[trigger] output.data_labels.entries@[i].0@ != #[trigger] output.data_labels.entries@[j].0@ by {
            assert(output.data_labels.entries@[i].0 == entries[i].0);
            assert(output.data_labels.entries@[j].0 == entries[j].0);
        }
    }
}

/// Assemble the instruction into their actual bytecode
fn assemble_code(code: Vec<Instruction>, output: &mut IntermediateAssemblingResult)
    requires
        old(output).wf(),
        spec_assemble_code(old(output).model(), code@) is Some,
    ensures
        final(output).wf(),
        final(output).model() == spec_assemble_code(old(output).model(), code@)->0,
{
    let ghost all = code@;
    let ghost m0 = output.model();
    assert(all.skip(0) =~= all);
    for instruction in iter: code.into_iter()
        invariant
            iter.seq() == all,
            output.wf(),
            spec_assemble_code(output.model(), all.skip(iter.index() as int)) == spec_assemble_code(m0, all),
            spec_assemble_code(m0, all) is Some,
    {
        let ghost i = iter.index() as int;
        proof {
            assert(all.skip(i)[0] == instruction);
            assert(all.skip(i).drop_first() =~= all.skip(i + 1));
        }
        assemble_instruction(instruction, output);
    }
    assert(all.skip(all.len() as int) =~= Seq::<Instruction>::empty());
}

/// Fixes label based addresses in the code, this is done in a seperate step
/// because it's possible we encounter a code label before it's position is known
/// Returns `false`, with the code left partly filled in, when a position refers to a
/// code label that is not defined.
fn fix_code_labels(output: &mut IntermediateAssemblingResult) -> (r: bool)
    requires
        old(output).wf(),
        old(output).code@.len() <= i64::MAX,
    ensures
        r == spec_fix_code_labels(old(output).code@, old(output).code_label_positions@, old(output).code_labels.entries@) is Some,
        r ==> final(output).code@ == spec_fix_code_labels(old(output).code@, old(output).code_label_positions@, old(output).code_labels.entries@)->0,
        final(output).data@ == old(output).data@,
        final(output).code_relocate@ == old(output).code_relocate@,
{
    let ghost positions = output.code_label_positions@;
    let ghost labels = output.code_labels.entries@;
    let ghost target = spec_fix_code_labels(output.code@, positions, labels);
    let mut k: usize = 0;
    assert(positions.skip(0) =~= positions);
    while k < output.code_label_positions.len()
        invariant
            k <= positions.len(),
            output.code_label_positions@ == positions,
            output.code_labels.entries@ == labels,
            keys_unique(labels),
            output.data@ == old(output).data@,
            output.code_relocate@ == old(output).code_relocate@,
            output.code@.len() == old(output).code@.len(),
            output.code@.len() <= i64::MAX,
            forall|i: int| 0 <= i < positions.len() ==> {
                let p = #[trigger] positions[i];
                p.address_index + p.bytes <= output.code@.len() && p.bytes <= 8
            },
            forall|i: int| 0 <= i < labels.len() ==> #[trigger] labels[i].1 <= output.code@.len(),
            spec_fix_code_labels(output.code@, positions.skip(k as int), labels) == target,
            target == spec_fix_code_labels(old(output).code@, old(output).code_label_positions@, old(output).code_labels.entries@),
        decreases positions.len() - k,
    {
        let code_len = output.code.len();
        let p = &output.code_label_positions[k];
        let bytes = p.bytes as usize;
        let offset = p.address_index;
        assert(positions[k as int] == *p);
        assert(offset + bytes <= code_len);
        let label_adress = match output.code_labels.get(&p.label) {
            Some(a) => *a,
            None => {
                proof {
                    assert(positions.skip(k as int)[0] == positions[k as int]);
                }
                return false;
            },
        };
        proof {
            assert(positions.skip(k as int)[0] == positions[k as int]);
            assert(positions.skip(k as int).drop_first() =~= positions.skip(k + 1));
            let j = choose|j: int| 0 <= j < labels.len() && #[trigger] labels[j].0@ == positions[k as int].label@;
            assert(labels[j].1 <= output.code@.len());
        }
        let label_adress: i64 = label_adress as i64;
        let new_address: i64 = match p.label_type {
            LabelType::Relative => {
                let next_instruction: i64 = (offset + bytes) as i64;
                label_adress - next_instruction
            },
            LabelType::Absolute => label_adress,
        };
        // Write the new address back as little endian bytes
        write_le(&mut output.code, offset, new_address as u64, bytes);
        proof {
            lemma_le_bytes_len(new_address as u64 as nat, bytes as nat);
        }
        k = k + 1;
    }
    assert(positions.skip(positions.len() as int) =~= Seq::<CodeLabelPosition>::empty());
    true
}

} // verus!

use crate::arch::sm83::{instruction, REG_A, REG_B, REG_BC, REG_DE, REG_HL};
use crate::assembly::assembler::{
    assemble_spec, define_label_spec, encoding_of, finish_spec, image_is, run, run_state, step,
};
use crate::assembly::encoder::{
    cp_encoding, dec_encoding, inc_encoding, ld_from_form_encoding, ld_immediate_encoding,
    ld_to_deref_encoding, ld_to_deref_immediate_encoding, EncodingView, PatchView,
};
use crate::assembly::error::{AsmError, AsmErrorView, ParseError};
use crate::assembly::flat::{
    emits, flat_image, image_len, lemma_image_holds_sections, lemma_image_len_bounds,
    lemma_image_len_is_an_end, lemma_image_len_nonnegative, lemma_image_len_of_shape, section_end,
};
use crate::assembly::grammar::parse_text;
use crate::assembly::interpreter::eval;
use crate::assembly::invariants::{
    lemma_absolute_reference, lemma_emitted_place_is_in_order, lemma_first_without_length_finds,
    lemma_place_keeps_labels, lemma_place_keeps_shape, lemma_place_keeps_wf,
    lemma_placed_site_is_settled, lemma_relative_reference, lemma_resolve_keeps_other_bytes,
    lemma_resolve_keeps_shape, lemma_resolve_keeps_wf, lemma_resolved_place_holds_its_bytes,
    lemma_run_keeps_labels, lemma_run_keeps_sections, lemma_run_keeps_settled_bytes,
    lemma_run_keeps_wf, lemma_step_keeps_labels, settled,
};
use crate::assembly::parser::{parse_result_is, Address, FormView, SExpView, SymbolView, TopLevel};
use crate::assembly::resolver::{
    absolute_bytes, patch_sections, pending_ref, place_encoding, reference_bytes, relative_bytes,
    resolve_from, resolved_sections, sections_wf,
};
use crate::assembly::state::{
    emit_bytes, find_section, initial_state, lemma_find_bounds, ref_ok, same_shape,
    writable_section, RefView, SectionView, StateView,
};
use crate::assembly::text::classes_of;
use crate::dasm::gb::{disassembly, instr_text, lines_from};
use vstd::prelude::*;

verus! {

/// A relative jump gets its byte exactly if the target lies at most 128
/// bytes before and at most 127 bytes behind the origin; the byte is then
/// the distance modulo 256.
pub proof fn lemma_relative_jump(origin: u64, target: u64)
    ensures
        relative_bytes(origin, target) is Ok <==> -128 <= target - origin <= 127,
        relative_bytes(origin, target) matches Ok(bytes) ==> bytes.len() == 1 && bytes[0] == (
        target - origin) % 256,
{
}

/// A relative jump that got its byte, and does not go back by the full 128,
/// goes over at most 127 bytes either way, and its byte is the distance
/// modulo 256.
pub proof fn lemma_relative_jump_bounds(origin: u64, target: u64)
    requires
        relative_bytes(origin, target) is Ok,
        target - origin != -128,
    ensures
        -127 <= target - origin <= 127,
        relative_bytes(origin, target)->Ok_0 == seq![((target - origin) % 256) as u8],
{
}

/// An absolute address gets its two bytes exactly if it has sixteen bits;
/// they are then its low eight bits and its next eight bits, in this order.
pub proof fn lemma_absolute_address(v: u64)
    ensures
        absolute_bytes(v) is Ok <==> v <= 0xFFFF,
        absolute_bytes(v) matches Ok(bytes) ==> bytes.len() == 2 && bytes[0] == v & 0xFF
            && bytes[1] == (v >> 8) & 0xFF,
{
    assert(v % 256 == v & 0xFF) by (bit_vector);
    assert((v / 256) % 256 == (v >> 8) & 0xFF) by (bit_vector);
}

/// What an instruction form assembles to disassembles to one line, that of
/// the table's entry for its opcode: the entry has as many operand bytes as
/// follow the opcode, and the line shows their value. This holds of the
/// bytes as they were encoded and with any other operand bytes in their
/// place, such as a patch leaves.
pub proof fn lemma_instruction_round_trip(op: Seq<char>, form: FormView, operands: Seq<u8>)
    requires
        encoding_of(op, form) matches Some(Ok(enc)) && operands.len() + 1 == enc.bytes.len(),
    ensures
        ({
            let enc = encoding_of(op, form)->0->Ok_0;
            let entry = instruction(enc.bytes[0]);
            &&& entry matches Some(i) && i.op_code == enc.bytes[0] && i.stream_args
                == operands.len()
            &&& disassembly(seq![enc.bytes[0]] + operands) == Ok::<Seq<Seq<char>>, Seq<char>>(
                seq![instr_text(entry->0, operands)],
            )
        }),
{
    let enc = encoding_of(op, form)->0->Ok_0;
    let data = seq![enc.bytes[0]] + operands;
    let i = instruction(enc.bytes[0])->0;
    assert(instruction(enc.bytes[0]) is Some);
    assert(i.stream_args == operands.len());
    assert(data[0] == enc.bytes[0]);
    assert(data.subrange(1, 1int + i.stream_args) =~= operands);
    let line = instr_text(i, operands);
    assert(Seq::<Seq<char>>::empty().push(line) =~= seq![line]);
    assert(lines_from(data, data.len() as int, seq![line]) == Ok::<Seq<Seq<char>>, Seq<char>>(
        seq![line],
    ));
}

/// An instruction form without a label disassembles, as it was encoded,
/// to the one line of its opcode's entry with the value of its operand.
pub proof fn lemma_concrete_round_trip(op: Seq<char>, form: FormView)
    requires
        encoding_of(op, form) matches Some(Ok(enc)) && enc.patch is Nothing,
    ensures
        ({
            let enc = encoding_of(op, form)->0->Ok_0;
            let entry = instruction(enc.bytes[0]);
            &&& entry matches Some(i) && i.stream_args + 1 == enc.bytes.len()
            &&& disassembly(enc.bytes) == Ok::<Seq<Seq<char>>, Seq<char>>(
                seq![instr_text(entry->0, enc.bytes.subrange(1, enc.bytes.len() as int))],
            )
        }),
{
    let enc = encoding_of(op, form)->0->Ok_0;
    assert(enc.bytes.len() >= 1);
    let operands = enc.bytes.subrange(1, enc.bytes.len() as int);
    lemma_instruction_round_trip(op, form, operands);
    assert(seq![enc.bytes[0]] + operands =~= enc.bytes);
}

/// The length of a flat image is the greatest end of a section that has
/// a place in it: no such section ends behind the image, and an image that
/// is not empty ends where one of them ends.
pub proof fn lemma_flat_image_length(sections: Seq<SectionView>)
    requires
        flat_image(sections) is Ok,
    ensures
        flat_image(sections)->Ok_0.len() == image_len(sections),
        forall|i: int|
            0 <= i < sections.len() && emits(#[trigger] sections[i]) ==> section_end(sections[i])
                <= image_len(sections),
        image_len(sections) == 0 || exists|i: int|
            0 <= i < sections.len() && emits(sections[i]) && image_len(sections) == section_end(
                #[trigger] sections[i],
            ),
{
    assert forall|i: int| 0 <= i < sections.len() && emits(#[trigger] sections[i]) implies section_end(
        sections[i],
    ) <= image_len(sections) by {
        lemma_image_len_bounds(sections, i);
    }
    lemma_image_len_is_an_end(sections);
    lemma_image_len_nonnegative(sections);
}

/// Whether the form defines the label `name`: the label is attached to
/// it, or it is the `label` directive for it.
pub open spec fn defines(form: FormView, name: Seq<char>) -> bool {
    form.label == Some(name) || (form.op == SymbolView::Sym("label"@) && form.exps.len() > 0
        && form.exps[0] == SExpView::Symbol(SymbolView::Label(name)))
}

/// A label has, after a run that passes the form that defines it, the
/// address that was current where that form stands.
pub proof fn lemma_label_has_the_address_of_its_place(
    forms: Seq<FormView>,
    i: int,
    st: StateView,
    name: Seq<char>,
)
    requires
        0 <= i < forms.len(),
        defines(forms[i], name),
        run(forms, i, st) is Ok,
    ensures
        run(forms, i, st)->Ok_0.0.labels.contains_key(name),
        run(forms, i, st)->Ok_0.0.labels[name] == Address(st.address),
{
    let form = forms[i];
    let next = step(st, form)->Ok_0.0;
    lemma_step_keeps_labels(st, form);
    let st1 = match form.label {
        Some(l) => define_label_spec(st, l)->Ok_0,
        None => st,
    };
    assert(st1.address == st.address);
    assert(next.labels.contains_key(name) && next.labels[name] == Address(st.address)) by {
        if form.label == Some(name) {
            assert(st1.labels.contains_key(name) && st1.labels[name] == Address(st.address));
            match form.op {
                SymbolView::Sym(op) => {
                    if op != "include"@ {
                        match encoding_of(op, form) {
                            Some(Ok(enc)) => {
                                lemma_place_keeps_labels(st1, enc);
                            },
                            _ => {},
                        }
                    }
                },
                _ => {},
            }
        } else {
            reveal_strlit("label");
            reveal_strlit("include");
            reveal_strlit("def-section");
            reveal_strlit("section");
            reveal_strlit("db");
            reveal_strlit("ds");
        }
    }
    match step(st, form) {
        Ok((_, None)) => {
            lemma_run_keeps_labels(forms, i + 1, next);
        },
        _ => {},
    }
}

/// Two assemblies of the same forms end alike: both fail in the same way,
/// or both give the same bytes.
pub proof fn lemma_assemble_is_repeatable(
    first: TopLevel,
    second: TopLevel,
    flat: bool,
    r1: Result<Vec<u8>, AsmError>,
    r2: Result<Vec<u8>, AsmError>,
)
    requires
        first@ == second@,
        image_is(r1, assemble_spec(first@, flat)),
        image_is(r2, assemble_spec(second@, flat)),
    ensures
        r1 is Ok <==> r2 is Ok,
        r1 matches Ok(a) ==> r2 matches Ok(b) && a@ == b@,
        r1 matches Err(a) ==> r2 matches Err(b) && a@ == b@,
{
}

/// Two parses of the same text end alike: both fail in the same way, or
/// both give the same forms.
pub proof fn lemma_parse_is_repeatable(
    text: Seq<char>,
    r1: Result<TopLevel, ParseError>,
    r2: Result<TopLevel, ParseError>,
)
    requires
        parse_result_is(r1, parse_text(text, classes_of(text))),
        parse_result_is(r2, parse_text(text, classes_of(text))),
    ensures
        r1 is Ok <==> r2 is Ok,
        r1 matches Ok(a) ==> r2 matches Ok(b) && a@ == b@,
        r1 matches Err(a) ==> r2 matches Err(b) && a@ == b@,
{
}

/// At the end of an assembly every relative jump that waited holds, in its
/// section, the distance from its origin to its label modulo 256, and this
/// distance lies between -128 and 127.
pub proof fn lemma_waiting_jump_is_resolved(st: StateView, j: int)
    requires
        st.wf(),
        0 <= j < st.pending.len(),
        st.pending[j] is Relative,
        resolve_from(st.sections, st.labels, st.pending, 0) is Ok,
    ensures
        ({
            let end = resolve_from(st.sections, st.labels, st.pending, 0)->Ok_0;
            let r = st.pending[j];
            let k = find_section(st.sections, r.section())->0;
            let distance = st.labels[r->Relative_label].0 - r->Relative_origin;
            &&& st.labels.contains_key(r->Relative_label)
            &&& -128 <= distance <= 127
            &&& end[k].mem[r.index() as int] == distance % 256
        }),
{
    lemma_resolved_place_holds_its_bytes(st.sections, st.labels, st.pending, 0, j);
    let end = resolve_from(st.sections, st.labels, st.pending, 0)->Ok_0;
    let r = st.pending[j];
    let k = find_section(st.sections, r.section())->0;
    assert(end[k].mem[r.index() + 0int] == reference_bytes(st.labels, r)->Ok_0[0]);
}

/// At the end of an assembly every absolute reference that waited holds,
/// in its section, the low eight bits of its value and then the next
/// eight, and the value has sixteen bits.
pub proof fn lemma_waiting_address_is_resolved(st: StateView, j: int)
    requires
        st.wf(),
        0 <= j < st.pending.len(),
        st.pending[j] is Absolute,
        resolve_from(st.sections, st.labels, st.pending, 0) is Ok,
    ensures
        ({
            let end = resolve_from(st.sections, st.labels, st.pending, 0)->Ok_0;
            let r = st.pending[j];
            let k = find_section(st.sections, r.section())->0;
            let value = eval(r->Absolute_expr, st.labels);
            &&& value matches Ok(target) && target <= 0xFFFF
            &&& end[k].mem[r.index() as int] == value->Ok_0 & 0xFF
            &&& end[k].mem[r.index() + 1int] == (value->Ok_0 >> 8) & 0xFF
        }),
{
    lemma_resolved_place_holds_its_bytes(st.sections, st.labels, st.pending, 0, j);
    let end = resolve_from(st.sections, st.labels, st.pending, 0)->Ok_0;
    let r = st.pending[j];
    let k = find_section(st.sections, r.section())->0;
    let value = eval(r->Absolute_expr, st.labels)->Ok_0;
    lemma_absolute_address(value);
    assert(end[k].mem[r.index() + 0int] == reference_bytes(st.labels, r)->Ok_0[0]);
    assert(end[k].mem[r.index() + 1int] == reference_bytes(st.labels, r)->Ok_0[1]);
}

/// A flat image holds each byte of each section that has a place in it at
/// the section's offset plus the byte's index.
pub proof fn lemma_image_holds_every_section(sections: Seq<SectionView>, k: int, p: int)
    requires
        sections_wf(sections),
        flat_image(sections) is Ok,
        0 <= k < sections.len(),
        emits(sections[k]),
        0 <= p < sections[k].mem.len(),
    ensures
        sections[k].offset + p < flat_image(sections)->Ok_0.len(),
        flat_image(sections)->Ok_0[sections[k].offset + p] == sections[k].mem[p],
{
    assert(sections[k].wf());
    if sections[k].length is None {
        lemma_first_without_length_finds(sections, 0, k);
    }
    lemma_image_len_bounds(sections, k);
    lemma_image_holds_sections(sections, k, sections[k].offset + p);
}

/// A relative jump to a label that has an address holds, once it is
/// assembled, the distance from the address behind it to the label's
/// address modulo 256 in its last byte, and this distance lies between -128
/// and 127.
pub proof fn lemma_placed_jump_is_resolved(st: StateView, enc: EncodingView)
    requires
        st.wf(),
        enc.wf(),
        enc.patch is Relative,
        st.labels.contains_key(enc.patch->Relative_0),
        place_encoding(st, enc) is Ok,
    ensures
        ({
            let next = place_encoding(st, enc)->Ok_0;
            let k = writable_section(st)->Ok_0;
            let site = st.sections[k].mem_ptr + enc.bytes.len() - 1;
            let distance = st.labels[enc.patch->Relative_0].0 - (st.address + enc.bytes.len());
            &&& -128 <= distance <= 127
            &&& next.sections[k].mem[site] == distance % 256
        }),
{
    lemma_emitted_place_is_in_order(st, enc);
    let st1 = emit_bytes(st, enc.bytes)->Ok_0;
    let r = pending_ref(st1, enc.patch)->0;
    lemma_relative_reference(st1.sections, st1.labels, r);
}

/// An instruction that takes the address of a label that has one holds,
/// once it is assembled, the low eight bits of the address and then the
/// next eight in its last two bytes, and the address has sixteen bits.
pub proof fn lemma_placed_address_is_resolved(st: StateView, enc: EncodingView, name: Seq<char>)
    requires
        st.wf(),
        enc.wf(),
        enc.patch == PatchView::Absolute(SExpView::Symbol(SymbolView::Label(name))),
        st.labels.contains_key(name),
        place_encoding(st, enc) is Ok,
    ensures
        ({
            let next = place_encoding(st, enc)->Ok_0;
            let k = writable_section(st)->Ok_0;
            let site = st.sections[k].mem_ptr + enc.bytes.len() - 2;
            let target = st.labels[name].0;
            &&& target <= 0xFFFF
            &&& next.sections[k].mem[site] == target & 0xFF
            &&& next.sections[k].mem[site + 1] == (target >> 8) & 0xFF
        }),
{
    lemma_emitted_place_is_in_order(st, enc);
    let st1 = emit_bytes(st, enc.bytes)->Ok_0;
    let r = pending_ref(st1, enc.patch)->0;
    lemma_absolute_reference(st1.sections, st1.labels, r);
}

/// The state in which the assembly of `forms` ends, where it ends.
pub open spec fn assembled_state(forms: Seq<FormView>) -> StateView {
    run(forms, 0, initial_state())->Ok_0.0
}

/// An image that was assembled is as long as the greatest end of a section
/// with a place in it, and holds each byte of each such section at the
/// section's offset plus the byte's index; the bytes are those that the
/// run over the forms left, but for the places that got their bytes at the
/// end.
pub proof fn lemma_assembled_image(forms: Seq<FormView>, k: int, p: int)
    requires
        assemble_spec(forms, true) is Ok,
        0 <= k < assembled_state(forms).sections.len(),
        emits(assembled_state(forms).sections[k]),
        0 <= p < assembled_state(forms).sections[k].mem.len(),
    ensures
        ({
            let st = assembled_state(forms);
            let image = assemble_spec(forms, true)->Ok_0;
            let end = resolve_from(st.sections, st.labels, st.pending, 0);
            &&& st.wf()
            &&& end is Ok
            &&& same_shape(st.sections, end->Ok_0)
            &&& image.len() == image_len(st.sections)
            &&& st.sections[k].offset + p < image.len()
            &&& image[st.sections[k].offset + p] == end->Ok_0[k].mem[p]
        }),
{
    let st = assembled_state(forms);
    assert(run(forms, 0, initial_state()) is Ok);
    assert(run(forms, 0, initial_state())->Ok_0.1 is Done);
    lemma_run_keeps_wf(forms, 0, initial_state());
    assert(st.wf());
    assert(resolve_from(st.sections, st.labels, st.pending, 0) is Ok);
    let end = resolve_from(st.sections, st.labels, st.pending, 0)->Ok_0;
    assert(flat_image(end) == assemble_spec(forms, true));
    lemma_resolve_keeps_shape(st.sections, st.labels, st.pending, 0);
    lemma_image_len_of_shape(st.sections, end);
    lemma_resolve_keeps_wf(st.sections, st.labels, st.pending, 0);
    assert(emits(end[k]));
    lemma_image_holds_every_section(end, k, p);
    lemma_flat_image_length(end);
}

/// In an image that was assembled, every relative jump that waited for its
/// label holds the distance from its origin to the label modulo 256, at
/// its place in its section, and this distance lies between -128 and 127.
pub proof fn lemma_assembled_jump(forms: Seq<FormView>, j: int)
    requires
        assemble_spec(forms, true) is Ok,
        0 <= j < assembled_state(forms).pending.len(),
        assembled_state(forms).pending[j] is Relative,
    ensures
        ({
            let st = assembled_state(forms);
            let image = assemble_spec(forms, true)->Ok_0;
            let r = st.pending[j];
            let k = find_section(st.sections, r.section())->0;
            let distance = st.labels[r->Relative_label].0 - r->Relative_origin;
            &&& st.labels.contains_key(r->Relative_label)
            &&& -128 <= distance <= 127
            &&& 0 <= k < st.sections.len()
            &&& st.sections[k].offset + r.index() < image.len()
            &&& image[st.sections[k].offset + r.index()] == distance % 256
        }),
{
    let st = assembled_state(forms);
    lemma_run_keeps_wf(forms, 0, initial_state());
    let r = st.pending[j];
    assert(ref_ok(st.sections, r));
    lemma_find_bounds(st.sections, r.section(), 0);
    let k = find_section(st.sections, r.section())->0;
    assert(st.sections[k].wf());
    lemma_waiting_jump_is_resolved(st, j);
    lemma_assembled_image(forms, k, r.index() as int);
}

/// In an image that was assembled, every absolute reference that waited
/// holds the low eight bits of its value and then the next eight, at its
/// place in its section, and the value has sixteen bits.
pub proof fn lemma_assembled_address(forms: Seq<FormView>, j: int)
    requires
        assemble_spec(forms, true) is Ok,
        0 <= j < assembled_state(forms).pending.len(),
        assembled_state(forms).pending[j] is Absolute,
    ensures
        ({
            let st = assembled_state(forms);
            let image = assemble_spec(forms, true)->Ok_0;
            let r = st.pending[j];
            let k = find_section(st.sections, r.section())->0;
            let value = eval(r->Absolute_expr, st.labels);
            &&& value matches Ok(target) && target <= 0xFFFF
            &&& 0 <= k < st.sections.len()
            &&& st.sections[k].offset + r.index() + 1 < image.len()
            &&& image[st.sections[k].offset + r.index()] == value->Ok_0 & 0xFF
            &&& image[st.sections[k].offset + r.index() + 1] == (value->Ok_0 >> 8) & 0xFF
        }),
{
    let st = assembled_state(forms);
    lemma_run_keeps_wf(forms, 0, initial_state());
    let r = st.pending[j];
    assert(ref_ok(st.sections, r));
    lemma_find_bounds(st.sections, r.section(), 0);
    let k = find_section(st.sections, r.section())->0;
    assert(st.sections[k].wf());
    lemma_waiting_address_is_resolved(st, j);
    lemma_assembled_image(forms, k, r.index() as int);
    lemma_assembled_image(forms, k, r.index() + 1int);
}

/// A settled byte reaches the image: whatever the forms from `start` on
/// do, if the assembly ends with an image, the image holds the byte at its
/// section's offset plus its index.
pub proof fn lemma_settled_byte_reaches_the_image(
    forms: Seq<FormView>,
    start: int,
    st: StateView,
    k: int,
    p: int,
)
    requires
        st.wf(),
        settled(st, k, p),
        run(forms, start, st) is Ok,
        finish_spec(run(forms, start, st)->Ok_0.0, true) is Ok,
    ensures
        ({
            let image = finish_spec(run(forms, start, st)->Ok_0.0, true)->Ok_0;
            &&& st.sections[k].offset + p < image.len()
            &&& image[st.sections[k].offset + p] == st.sections[k].mem[p]
        }),
{
    let last = run(forms, start, st)->Ok_0.0;
    lemma_run_keeps_wf(forms, start, st);
    lemma_run_keeps_settled_bytes(forms, start, st, k, p);
    lemma_run_keeps_sections(forms, start, st, k);
    assert(last.sections[k].wf());
    let end = resolve_from(last.sections, last.labels, last.pending, 0)->Ok_0;
    lemma_resolve_keeps_other_bytes(last.sections, last.labels, last.pending, 0, k, p);
    lemma_resolve_keeps_wf(last.sections, last.labels, last.pending, 0);
    assert(emits(last.sections[k]));
    lemma_image_holds_every_section(end, k, p);
}

/// A relative jump to a label that has an address where the jump stands
/// holds, in the image, the distance from the address behind it to the
/// label's address modulo 256, whatever follows it.
pub proof fn lemma_placed_jump_reaches_the_image(
    st: StateView,
    enc: EncodingView,
    forms: Seq<FormView>,
    start: int,
)
    requires
        st.wf(),
        enc.wf(),
        enc.patch is Relative,
        st.labels.contains_key(enc.patch->Relative_0),
        place_encoding(st, enc) is Ok,
        run(forms, start, place_encoding(st, enc)->Ok_0) is Ok,
        finish_spec(run(forms, start, place_encoding(st, enc)->Ok_0)->Ok_0.0, true) is Ok,
    ensures
        ({
            let next = place_encoding(st, enc)->Ok_0;
            let image = finish_spec(run(forms, start, next)->Ok_0.0, true)->Ok_0;
            let k = writable_section(st)->Ok_0;
            let site = st.sections[k].mem_ptr + enc.bytes.len() - 1;
            let distance = st.labels[enc.patch->Relative_0].0 - (st.address + enc.bytes.len());
            &&& -128 <= distance <= 127
            &&& st.sections[k].offset + site < image.len()
            &&& image[st.sections[k].offset + site] == distance % 256
        }),
{
    let next = place_encoding(st, enc)->Ok_0;
    let k = writable_section(st)->Ok_0;
    let site = st.sections[k].mem_ptr + enc.bytes.len() - 1;
    lemma_placed_jump_is_resolved(st, enc);
    lemma_place_keeps_wf(st, enc);
    lemma_emitted_place_is_in_order(st, enc);
    lemma_place_keeps_shape(st, enc, k);
    lemma_placed_site_is_settled(st, enc, site);
    lemma_settled_byte_reaches_the_image(forms, start, next, k, site);
}

/// An instruction that takes the address of a label that has one where
/// the instruction stands holds, in the image, the low eight bits of the
/// address and then the next eight, whatever follows it.
pub proof fn lemma_placed_address_reaches_the_image(
    st: StateView,
    enc: EncodingView,
    name: Seq<char>,
    forms: Seq<FormView>,
    start: int,
)
    requires
        st.wf(),
        enc.wf(),
        enc.patch == PatchView::Absolute(SExpView::Symbol(SymbolView::Label(name))),
        st.labels.contains_key(name),
        place_encoding(st, enc) is Ok,
        run(forms, start, place_encoding(st, enc)->Ok_0) is Ok,
        finish_spec(run(forms, start, place_encoding(st, enc)->Ok_0)->Ok_0.0, true) is Ok,
    ensures
        ({
            let next = place_encoding(st, enc)->Ok_0;
            let image = finish_spec(run(forms, start, next)->Ok_0.0, true)->Ok_0;
            let k = writable_section(st)->Ok_0;
            let site = st.sections[k].mem_ptr + enc.bytes.len() - 2;
            let target = st.labels[name].0;
            &&& target <= 0xFFFF
            &&& st.sections[k].offset + site + 1 < image.len()
            &&& image[st.sections[k].offset + site] == target & 0xFF
            &&& image[st.sections[k].offset + site + 1] == (target >> 8) & 0xFF
        }),
{
    let next = place_encoding(st, enc)->Ok_0;
    let k = writable_section(st)->Ok_0;
    let site = st.sections[k].mem_ptr + enc.bytes.len() - 2;
    lemma_placed_address_is_resolved(st, enc, name);
    lemma_place_keeps_wf(st, enc);
    lemma_emitted_place_is_in_order(st, enc);
    lemma_place_keeps_shape(st, enc, k);
    lemma_placed_site_is_settled(st, enc, site);
    lemma_placed_site_is_settled(st, enc, site + 1);
    lemma_settled_byte_reaches_the_image(forms, start, next, k, site);
    lemma_settled_byte_reaches_the_image(forms, start, next, k, site + 1);
}


/// The name under which the instruction table lists the instruction that
/// the form is, for the forms without a label: the operator in capital
/// letters and the registers as they are written in the form.
pub open spec fn mnemonic_of(op: Seq<char>, form: FormView) -> Seq<char> {
    if op == "nop"@ {
        "NOP"@
    } else if op == "cp"@ {
        "CP"@
    } else if op == "inc"@ {
        "INC %"@ + form.exps[0]->Symbol_0->Reg_0
    } else if op == "dec"@ {
        "DEC %"@ + form.exps[0]->Symbol_0->Reg_0
    } else {
        match (form.exps[0], form.exps[1]) {
            (SExpView::Symbol(SymbolView::Reg(reg)), SExpView::Immediate(_)) => "LD %"@ + reg,
            (SExpView::Symbol(SymbolView::Reg(reg)), SExpView::Form(f)) => if f.exps.len() == 0 {
                "LD %"@ + reg + " (%"@ + f.op->Reg_0 + ")"@
            } else {
                "LD %"@ + reg + " (%"@ + f.op->Reg_0 + " +)"@
            },
            (SExpView::Form(f), SExpView::Immediate(_)) => "LD (%"@ + f.op->Reg_0 + ")"@,
            (SExpView::Form(f), SExpView::Symbol(SymbolView::Reg(src))) => "LD (%"@ + f.op->Reg_0
                + ") %"@ + src,
            _ => Seq::empty(),
        }
    }
}

/// The names of the registers, spelled out.
proof fn lemma_register_names()
    ensures
        REG_A@ =~= seq!['a'],
        REG_B@ =~= seq!['b'],
        REG_BC@ =~= seq!['b', 'c'],
        REG_DE@ =~= seq!['d', 'e'],
        REG_HL@ =~= seq!['h', 'l'],
{
    reveal_strlit("a");
    reveal_strlit("b");
    reveal_strlit("bc");
    reveal_strlit("de");
    reveal_strlit("hl");
}

/// The table lists `inc` and `dec` of a register under the operator and
/// the register.
proof fn lemma_inc_dec_mnemonics()
    ensures
        "INC %"@ + REG_A@ =~= "INC %a"@,
        "INC %"@ + REG_B@ =~= "INC %b"@,
        "INC %"@ + REG_BC@ =~= "INC %bc"@,
        "INC %"@ + REG_DE@ =~= "INC %de"@,
        "INC %"@ + REG_HL@ =~= "INC %hl"@,
        "DEC %"@ + REG_A@ =~= "DEC %a"@,
        "DEC %"@ + REG_B@ =~= "DEC %b"@,
        "DEC %"@ + REG_BC@ =~= "DEC %bc"@,
        "DEC %"@ + REG_DE@ =~= "DEC %de"@,
        "DEC %"@ + REG_HL@ =~= "DEC %hl"@,
{
    lemma_register_names();
    reveal_strlit("INC %");
    reveal_strlit("INC %a");
    reveal_strlit("INC %b");
    reveal_strlit("INC %bc");
    reveal_strlit("INC %de");
    reveal_strlit("INC %hl");
    reveal_strlit("DEC %");
    reveal_strlit("DEC %a");
    reveal_strlit("DEC %b");
    reveal_strlit("DEC %bc");
    reveal_strlit("DEC %de");
    reveal_strlit("DEC %hl");
}

/// The table lists the loads without a label under the operator and the
/// operands as they are written.
proof fn lemma_ld_mnemonics()
    ensures
        "LD %"@ + REG_A@ =~= "LD %a"@,
        "LD %"@ + REG_B@ =~= "LD %b"@,
        "LD %"@ + REG_HL@ =~= "LD %hl"@,
        "LD (%"@ + REG_HL@ + ")"@ =~= "LD (%hl)"@,
        "LD (%"@ + REG_BC@ + ") %"@ + REG_A@ =~= "LD (%bc) %a"@,
        "LD (%"@ + REG_DE@ + ") %"@ + REG_A@ =~= "LD (%de) %a"@,
        "LD (%"@ + REG_HL@ + ") %"@ + REG_A@ =~= "LD (%hl) %a"@,
        "LD %"@ + REG_A@ + " (%"@ + REG_BC@ + ")"@ =~= "LD %a (%bc)"@,
        "LD %"@ + REG_A@ + " (%"@ + REG_DE@ + ")"@ =~= "LD %a (%de)"@,
        "LD %"@ + REG_A@ + " (%"@ + REG_HL@ + ")"@ =~= "LD %a (%hl)"@,
        "LD %"@ + REG_A@ + " (%"@ + REG_HL@ + " +)"@ =~= "LD %a (%hl +)"@,
{
    lemma_register_names();
    reveal_strlit("LD %");
    reveal_strlit("LD (%");
    reveal_strlit(")");
    reveal_strlit(") %");
    reveal_strlit(" (%");
    reveal_strlit(" +)");
    reveal_strlit("LD %a");
    reveal_strlit("LD %b");
    reveal_strlit("LD %hl");
    reveal_strlit("LD (%hl)");
    reveal_strlit("LD (%bc) %a");
    reveal_strlit("LD (%de) %a");
    reveal_strlit("LD (%hl) %a");
    reveal_strlit("LD %a (%bc)");
    reveal_strlit("LD %a (%de)");
    reveal_strlit("LD %a (%hl)");
    reveal_strlit("LD %a (%hl +)");
}

/// An instruction form without a label disassembles to a line with the
/// form's own name: the table lists the opcode that the form assembles to
/// under the form's operator and registers.
pub proof fn lemma_round_trip_keeps_the_name(op: Seq<char>, form: FormView)
    requires
        encoding_of(op, form) matches Some(Ok(enc)) && enc.patch is Nothing,
    ensures
        instruction(encoding_of(op, form)->0->Ok_0.bytes[0]) matches Some(entry) && entry.mnemonic
            == mnemonic_of(op, form),
{
    lemma_inc_dec_mnemonics();
    lemma_ld_mnemonics();
    lemma_operators_differ();
    let enc = encoding_of(op, form)->0->Ok_0;
    if op == "ld"@ {
        match (form.exps[0], form.exps[1]) {
            (SExpView::Symbol(SymbolView::Reg(reg)), SExpView::Immediate(v)) => {
                assert(ld_immediate_encoding(reg, v) == Ok::<EncodingView, AsmErrorView>(enc));
            },
            (SExpView::Symbol(SymbolView::Reg(reg)), SExpView::Form(f)) => {
                assert(ld_from_form_encoding(reg, f) == Ok::<EncodingView, AsmErrorView>(enc));
                assert(f.op is Reg);
                assert(reg == REG_A@);
            },
            (SExpView::Form(f), SExpView::Immediate(v)) => {
                assert(ld_to_deref_immediate_encoding(f, v) == Ok::<EncodingView, AsmErrorView>(
                    enc,
                ));
            },
            (SExpView::Form(f), SExpView::Symbol(SymbolView::Reg(src))) => {
                assert(ld_to_deref_encoding(f, src) == Ok::<EncodingView, AsmErrorView>(enc));
                assert(f.op is Reg);
                assert(src == REG_A@);
            },
            _ => {},
        }
    } else if op == "inc"@ {
        assert(inc_encoding(form) == Ok::<EncodingView, AsmErrorView>(enc));
    } else if op == "dec"@ {
        assert(dec_encoding(form) == Ok::<EncodingView, AsmErrorView>(enc));
    } else if op == "cp"@ {
        assert(cp_encoding(form) == Ok::<EncodingView, AsmErrorView>(enc));
    }
}

/// The operators of the instructions are different words.
proof fn lemma_operators_differ()
    ensures
        "ld"@ != "nop"@,
        "ld"@ != "cp"@,
        "ld"@ != "inc"@,
        "ld"@ != "dec"@,
        "inc"@ != "nop"@,
        "inc"@ != "cp"@,
        "dec"@ != "nop"@,
        "dec"@ != "cp"@,
        "dec"@ != "inc"@,
        "cp"@ != "nop"@,
{
    reveal_strlit("ld");
    reveal_strlit("inc");
    reveal_strlit("dec");
    reveal_strlit("cp");
    reveal_strlit("nop");
    assert("ld"@[0] != "cp"@[0]);
    assert("dec"@[0] != "inc"@[0]);
    assert("dec"@[0] != "nop"@[0]);
    assert("inc"@[0] != "nop"@[0]);
}

/// A place that cannot get its bytes ends the resolution where it stands:
/// the sections are then as the places before it left them.
pub proof fn lemma_failed_place_changes_nothing(
    sections: Seq<SectionView>,
    labels: Map<Seq<char>, Address>,
    refs: Seq<RefView>,
    i: int,
)
    requires
        0 <= i < refs.len(),
        patch_sections(sections, labels, refs[i]) is Err,
    ensures
        resolved_sections(sections, labels, refs, i) == sections,
        resolve_from(sections, labels, refs, i) is Err,
{
}

/// A form that fails ends the run where it stands: the state is then the
/// one in which the form was met.
pub proof fn lemma_failed_form_changes_nothing(forms: Seq<FormView>, i: int, st: StateView)
    requires
        0 <= i < forms.len(),
        step(st, forms[i]) is Err,
    ensures
        run_state(forms, i, st) == st,
        run(forms, i, st) is Err,
{
}

} // verus!

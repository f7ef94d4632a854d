use crate::assembly::encoder::{high_byte, low_byte, Encoding, EncodingView, Patch, PatchView};
use crate::assembly::error::{failure, AsmError, AsmErrorView, ErrorKind};
use crate::assembly::interpreter::{eval, eval_aar};
use crate::assembly::parser::{Address, Label, SExp, SExpView, Symbol, SymbolView};
use crate::assembly::state::{
    emit, emit_bytes, expect_room, find_index, lemma_write_keeps_wf, find_section, lemma_find_bounds,
    lemma_find_same_names, ref_ok, refs_view, same_shape, sections_view, step_is, LabelTable, RefView, Section,
    SectionView, State, StateView, UnresolvedReference,
};
use crate::assembly::text::{decimal, decimal_text};
use vstd::prelude::*;

verus! {

/// The decimal notation of `d`, with `-` in front where it lies below zero.
pub open spec fn signed_decimal_text(d: int) -> Seq<char> {
    if d < 0 {
        "-"@ + decimal_text((-d) as nat)
    } else {
        decimal_text(d as nat)
    }
}

/// The byte of a relative jump from `origin` to `target`: their distance
/// as a signed byte, where it lies between -128 and 127.
pub open spec fn relative_bytes(origin: u64, target: u64) -> Result<Seq<u8>, AsmErrorView> {
    let d = target - origin;
    if d < -128 {
        Err(failure(ErrorKind::JrTooFarBack, signed_decimal_text(d)))
    } else if d > 127 {
        Err(failure(ErrorKind::JrTooFarForward, signed_decimal_text(d)))
    } else {
        Ok(seq![(d % 256) as u8])
    }
}

/// The two bytes of the absolute address `v`, the low one first, where it
/// lies below 65536.
pub open spec fn absolute_bytes(v: u64) -> Result<Seq<u8>, AsmErrorView> {
    if v > 0xFFFF {
        Err(failure(ErrorKind::JpTooFarForward, decimal_text(v as nat)))
    } else {
        Ok(seq![low_byte(v), high_byte(v)])
    }
}

/// The bytes that go to the place `r`, given the labels' addresses.
pub open spec fn reference_bytes(labels: Map<Seq<char>, Address>, r: RefView) -> Result<
    Seq<u8>,
    AsmErrorView,
> {
    match r {
        RefView::Relative { origin, label, .. } => if labels.contains_key(label) {
            relative_bytes(origin, labels[label].0)
        } else {
            Err(failure(ErrorKind::NoAddressForLabel, label))
        },
        RefView::Absolute { expr, .. } => match eval(expr, labels) {
            Err(e) => Err(e),
            Ok(v) => absolute_bytes(v),
        },
    }
}

/// The sections after the place `r` got its bytes.
pub open spec fn patch_sections(
    sections: Seq<SectionView>,
    labels: Map<Seq<char>, Address>,
    r: RefView,
) -> Result<Seq<SectionView>, AsmErrorView> {
    match reference_bytes(labels, r) {
        Err(e) => Err(e),
        Ok(bytes) => match find_section(sections, r.section()) {
            Some(k) => Ok(sections.update(k, sections[k].patch(r.index(), bytes))),
            None => Ok(sections),
        },
    }
}

/// The sections after the places `refs[i..]` got their bytes, one by one;
/// the first failure is the result.
pub open spec fn resolve_from(
    sections: Seq<SectionView>,
    labels: Map<Seq<char>, Address>,
    refs: Seq<RefView>,
    i: int,
) -> Result<Seq<SectionView>, AsmErrorView>
    decreases refs.len() - i,
{
    if i < 0 || i >= refs.len() {
        Ok(sections)
    } else {
        match patch_sections(sections, labels, refs[i]) {
            Err(e) => Err(e),
            Ok(next) => resolve_from(next, labels, refs, i + 1),
        }
    }
}

/// Checks the distance of a relative jump and gives its byte.
pub fn check_jr_jump(origin: u64, target: u64) -> (r: Result<u8, AsmError>)
    ensures
        match relative_bytes(origin, target) {
            Ok(bytes) => r matches Ok(b) && bytes == seq![b],
            Err(e) => r matches Err(x) && x@ == e,
        },
        r is Ok <==> -128 <= target - origin <= 127,
        r matches Ok(b) ==> b == (target - origin) % 256,
{
    if target >= origin {
        let forward = target - origin;
        if forward > 127 {
            let text = decimal(forward);
            Err(AsmError::with(ErrorKind::JrTooFarForward, text.as_str()))
        } else {
            Ok(forward as u8)
        }
    } else {
        let back = origin - target;
        if back > 128 {
            let mut text = String::from_str("-");
            let digits = decimal(back);
            text.append(digits.as_str());
            Err(AsmError::with(ErrorKind::JrTooFarBack, text.as_str()))
        } else {
            Ok((256 - back) as u8)
        }
    }
}

/// Checks that an absolute address has sixteen bits and gives its bytes,
/// the low one first.
pub fn check_16_bit_address_range(v: u64) -> (r: Result<(u8, u8), AsmError>)
    ensures
        match absolute_bytes(v) {
            Ok(bytes) => r matches Ok((lo, hi)) && bytes == seq![lo, hi],
            Err(e) => r matches Err(x) && x@ == e,
        },
        r is Ok <==> v <= 0xFFFF,
        r matches Ok((lo, hi)) ==> lo == low_byte(v) && hi == high_byte(v),
{
    if v > 0xFFFF {
        let text = decimal(v);
        Err(AsmError::with(ErrorKind::JpTooFarForward, text.as_str()))
    } else {
        Ok(((v % 256) as u8, ((v / 256) % 256) as u8))
    }
}

/// The address of `label`.
pub fn expect_label_address(labels: &LabelTable, label: &Label) -> (r:
    Result<u64, AsmError>)
    ensures
        labels@.contains_key(label@) ==> r == Ok::<u64, AsmError>(labels@[label@].0),
        !labels@.contains_key(label@) ==> (r matches Err(x) && x@ == failure(
            ErrorKind::NoAddressForLabel,
            label@,
        )),
{
    match labels.get(label) {
        Some(address) => Ok(address.0),
        None => Err(AsmError::with(ErrorKind::NoAddressForLabel, label.name())),
    }
}

/// Whether every section of `sections` is well formed.
pub open spec fn sections_wf(sections: Seq<SectionView>) -> bool {
    forall|i: int| 0 <= i < sections.len() ==> (#[trigger] sections[i]).wf()
}

/// Patching a place keeps the sections well formed, their names and
/// cursors, and with them every place that was in order.
pub proof fn lemma_patch_keeps(sections: Seq<SectionView>, k: int, index: nat, bytes: Seq<u8>)
    requires
        sections_wf(sections),
        0 <= k < sections.len(),
        index + bytes.len() <= sections[k].mem_ptr,
    ensures
        sections_wf(sections.update(k, sections[k].patch(index, bytes))),
        forall|name: Seq<char>|
            find_section(sections.update(k, sections[k].patch(index, bytes)), name)
                == #[trigger] find_section(sections, name),
        forall|r: RefView|
            ref_ok(sections, r) ==> #[trigger] ref_ok(
                sections.update(k, sections[k].patch(index, bytes)),
                r,
            ),
        same_shape(sections, sections.update(k, sections[k].patch(index, bytes))),
{
    let after = sections.update(k, sections[k].patch(index, bytes));
    assert forall|name: Seq<char>|
        find_section(after, name) == #[trigger] find_section(sections, name) by {
        lemma_find_same_names(after, sections, name, 0);
    }
    assert forall|r: RefView| ref_ok(sections, r) implies #[trigger] ref_ok(after, r) by {
        lemma_find_same_names(after, sections, r.section(), 0);
        lemma_find_bounds(sections, r.section(), 0);
    }
}

/// Finds the bytes that go to the place `r`.
pub fn reference_patch(labels: &LabelTable, r: &UnresolvedReference) -> (res: Result<
    Vec<u8>,
    AsmError,
>)
    ensures
        match reference_bytes(labels@, r@) {
            Ok(bytes) => res matches Ok(v) && v@ == bytes && bytes.len() == r@.width(),
            Err(e) => res matches Err(x) && x@ == e,
        },
{
    let mut bytes: Vec<u8> = Vec::new();
    match r {
        UnresolvedReference::Relative { origin, label, .. } => {
            let target = expect_label_address(labels, label)?;
            let b = check_jr_jump(origin.0, target)?;
            bytes.push(b);
            assert(bytes@ =~= seq![b]);
        },
        UnresolvedReference::Absolute { expr, .. } => {
            let value = eval_aar(expr, labels)?;
            let (lo, hi) = check_16_bit_address_range(value.0)?;
            bytes.push(lo);
            bytes.push(hi);
            assert(bytes@ =~= seq![lo, hi]);
        },
    }
    Ok(bytes)
}

/// Writes `bytes` at the place `r` of its section.
pub fn write_patch(sections: &mut Vec<Section>, r: &UnresolvedReference, bytes: &Vec<u8>)
    requires
        sections_wf(sections_view(old(sections)@)),
        ref_ok(sections_view(old(sections)@), r@),
        bytes.len() == r@.width(),
    ensures
        find_section(sections_view(old(sections)@), r@.section()) matches Some(k) && sections_view(
            final(sections)@,
        ) == sections_view(old(sections)@).update(
            k,
            sections_view(old(sections)@)[k].patch(r@.index(), bytes@),
        ),
        sections_wf(sections_view(final(sections)@)),
        forall|name: Seq<char>|
            find_section(sections_view(final(sections)@), name) == #[trigger] find_section(
                sections_view(old(sections)@),
                name,
            ),
        forall|other: RefView|
            ref_ok(sections_view(old(sections)@), other) ==> #[trigger] ref_ok(
                sections_view(final(sections)@),
                other,
            ),
        same_shape(sections_view(old(sections)@), sections_view(final(sections)@)),
{
    let ghost before = sections_view(sections@);
    proof {
        lemma_find_bounds(before, r@.section(), 0);
    }
    let found = find_index(sections, r.sec_name().as_str());
    let k = found.unwrap();
    let index = r.patch_index();
    assert(before[k as int].wf());
    let mut i: usize = 0;
    assert(before[k as int].patch(index as nat, bytes@.take(0)).mem =~= before[k as int].mem);
    assert(sections_view(sections@) =~= before.update(
        k as int,
        before[k as int].patch(index as nat, bytes@.take(0)),
    ));
    while i < bytes.len()
        invariant
            i <= bytes.len(),
            k < sections.len(),
            before.len() == sections.len(),
            before[k as int].wf(),
            index + bytes.len() <= before[k as int].mem_ptr,
            sections_view(sections@) == before.update(
                k as int,
                before[k as int].patch(index as nat, bytes@.take(i as int)),
            ),
        decreases bytes.len() - i,
    {
        let ghost now = before[k as int].patch(index as nat, bytes@.take(i as int));
        assert(sections_view(sections@)[k as int] == now);
        assert(sections[k as int]@ == now);
        let ghost others = sections_view(sections@);
        sections[k].memory.mem[index + i] = bytes[i];
        i += 1;
        let ghost next = before[k as int].patch(index as nat, bytes@.take(i as int));
        assert(sections[k as int]@.mem =~= next.mem);
        assert(sections[k as int]@ == next);
        assert(sections_view(sections@) =~= others.update(k as int, next));
        assert(sections_view(sections@) =~= before.update(k as int, next));
    }
    proof {
        assert(bytes@.take(bytes.len() as int) == bytes@);
        lemma_patch_keeps(before, k as int, index as nat, bytes@);
    }
}

/// Gives the place `r` its bytes.
pub fn patch_reference(
    sections: &mut Vec<Section>,
    labels: &LabelTable,
    r: &UnresolvedReference,
) -> (res: Result<(), AsmError>)
    requires
        sections_wf(sections_view(old(sections)@)),
        ref_ok(sections_view(old(sections)@), r@),
    ensures
        match patch_sections(sections_view(old(sections)@), labels@, r@) {
            Ok(next) => res is Ok && sections_view(final(sections)@) == next,
            Err(e) => res matches Err(x) && x@ == e && sections_view(final(sections)@)
                == sections_view(old(sections)@),
        },
        sections_wf(sections_view(final(sections)@)),
        forall|name: Seq<char>|
            find_section(sections_view(final(sections)@), name) == #[trigger] find_section(
                sections_view(old(sections)@),
                name,
            ),
        forall|other: RefView|
            ref_ok(sections_view(old(sections)@), other) ==> #[trigger] ref_ok(
                sections_view(final(sections)@),
                other,
            ),
        same_shape(sections_view(old(sections)@), sections_view(final(sections)@)),
{
    let bytes = reference_patch(labels, r)?;
    write_patch(sections, r, &bytes);
    Ok(())
}

/// The sections after the places `refs[i..]` got their bytes, one by one,
/// up to the first that fails: the places before it have their bytes, the
/// others are as they were.
pub open spec fn resolved_sections(
    sections: Seq<SectionView>,
    labels: Map<Seq<char>, Address>,
    refs: Seq<RefView>,
    i: int,
) -> Seq<SectionView>
    decreases refs.len() - i,
{
    if i < 0 || i >= refs.len() {
        sections
    } else {
        match patch_sections(sections, labels, refs[i]) {
            Err(_) => sections,
            Ok(next) => resolved_sections(next, labels, refs, i + 1),
        }
    }
}

/// Where every place gets its bytes, `resolved_sections` are the sections
/// that `resolve_from` gives.
pub proof fn lemma_resolved_sections(
    sections: Seq<SectionView>,
    labels: Map<Seq<char>, Address>,
    refs: Seq<RefView>,
    i: int,
)
    ensures
        resolve_from(sections, labels, refs, i) matches Ok(end) ==> resolved_sections(
            sections,
            labels,
            refs,
            i,
        ) == end,
    decreases refs.len() - i,
{
    if 0 <= i < refs.len() {
        match patch_sections(sections, labels, refs[i]) {
            Ok(next) => {
                lemma_resolved_sections(next, labels, refs, i + 1);
            },
            Err(_) => {},
        }
    }
}

/// Gives every waiting place its bytes, in the order in which the places
/// were met, and stops at the first that fails: the places before it have
/// their bytes then, and nothing else has changed. The places stay in the
/// list.
pub fn try_resolve(state: &mut State) -> (r: Result<(), AsmError>)
    requires
        old(state)@.wf(),
    ensures
        match resolve_from(old(state)@.sections, old(state)@.labels, old(state)@.pending, 0) {
            Ok(sections) => r is Ok && final(state)@ == (StateView { sections, ..old(state)@ }),
            Err(e) => r matches Err(x) && x@ == e,
        },
        final(state)@ == (StateView {
            sections: resolved_sections(
                old(state)@.sections,
                old(state)@.labels,
                old(state)@.pending,
                0,
            ),
            ..old(state)@
        }),
        final(state)@.wf(),
        same_shape(old(state)@.sections, final(state)@.sections),
{
    let mut i: usize = 0;
    while i < state.pending_refs.len()
        invariant
            i <= state.pending_refs.len(),
            state@.wf(),
            same_shape(old(state)@.sections, state@.sections),
            state@.labels == old(state)@.labels,
            state@.pending == old(state)@.pending,
            state@.current == old(state)@.current,
            state@.address == old(state)@.address,
            resolve_from(old(state)@.sections, old(state)@.labels, old(state)@.pending, 0)
                == resolve_from(state@.sections, state@.labels, state@.pending, i as int),
            resolved_sections(old(state)@.sections, old(state)@.labels, old(state)@.pending, 0)
                == resolved_sections(state@.sections, state@.labels, state@.pending, i as int),
        decreases state.pending_refs.len() - i,
    {
        patch_reference(&mut state.sections, &state.label_addresses, &state.pending_refs[i])?;
        i += 1;
    }
    Ok(())
}

/// Whether the place `r` can get its bytes at once: its label, or the label
/// that it consists of, has an address.
pub open spec fn resolves_now(labels: Map<Seq<char>, Address>, r: RefView) -> bool {
    match r {
        RefView::Relative { label, .. } => labels.contains_key(label),
        RefView::Absolute { expr, .. } => expr matches SExpView::Symbol(SymbolView::Label(l))
            && labels.contains_key(l),
    }
}

/// The place that the patch `patch` leaves behind, seen from the state
/// behind the instruction: the last bytes before the cursor of the current
/// section, with the current address as the origin of a relative jump.
pub open spec fn pending_ref(st: StateView, patch: PatchView) -> Option<RefView> {
    let name = st.current->0;
    let k = find_section(st.sections, name)->0;
    let at = (st.sections[k].mem_ptr - patch.width()) as nat;
    match patch {
        PatchView::Nothing => None,
        PatchView::Relative(label) => Some(
            RefView::Relative { origin: st.address, label, sec_name: name, patch_index: at },
        ),
        PatchView::Absolute(expr) => Some(
            RefView::Absolute { expr, sec_name: name, patch_index: at },
        ),
    }
}

/// The state after the instruction `enc` went to the current section. Its
/// patch is made at once where the label is known; else the place is put
/// behind the places that wait.
pub open spec fn place_encoding(st: StateView, enc: EncodingView) -> Result<
    StateView,
    AsmErrorView,
> {
    match emit_bytes(st, enc.bytes) {
        Err(e) => Err(e),
        Ok(st1) => match pending_ref(st1, enc.patch) {
            None => Ok(st1),
            Some(r) => if resolves_now(st1.labels, r) {
                match patch_sections(st1.sections, st1.labels, r) {
                    Err(e) => Err(e),
                    Ok(sections) => Ok(StateView { sections, ..st1 }),
                }
            } else {
                Ok(StateView { pending: st1.pending.push(r), ..st1 })
            },
        },
    }
}

/// The state after an instruction whose encoding is `enc`, or its failure.
pub open spec fn place_result(st: StateView, enc: Result<EncodingView, AsmErrorView>) -> Result<
    StateView,
    AsmErrorView,
> {
    match enc {
        Err(e) => Err(e),
        Ok(enc) => place_encoding(st, enc),
    }
}

fn known_now(labels: &LabelTable, r: &UnresolvedReference) -> (b: bool)
    ensures
        b == resolves_now(labels@, r@),
{
    match r {
        UnresolvedReference::Relative { label, .. } => labels.contains_key(label),
        UnresolvedReference::Absolute { expr, .. } => match expr {
            SExp::Symbol(Symbol::Label(l)) => labels.contains_key(l),
            _ => false,
        },
    }
}

/// Sends the instruction `enc` to the current section and sees to its
/// patch. Where it fails, nothing has changed.
pub fn place(state: &mut State, enc: Encoding) -> (r: Result<(), AsmError>)
    requires
        old(state)@.wf(),
        enc@.wf(),
    ensures
        step_is(r, final(state)@, place_encoding(old(state)@, enc@)),
        r is Err ==> final(state)@ == old(state)@,
        final(state)@.wf(),
{
    let Encoding { bytes, patch } = enc;
    let n = bytes.len();
    let k = expect_room(state, n as u64)?;
    let ghost st1 = emit_bytes(old(state)@, bytes@)->Ok_0;
    proof {
        lemma_find_bounds(old(state)@.sections, old(state)@.current->0, 0);
        lemma_find_same_names(st1.sections, old(state)@.sections, old(state)@.current->0, 0);
        lemma_write_keeps_wf(old(state)@, k as int, bytes@, st1);
    }
    assert(state.sections[k as int]@ == old(state)@.sections[k as int]);
    assert(old(state)@.sections[k as int].wf());
    assert(old(state)@.sections[k as int].room(n as nat));
    let end: usize = state.sections[k].memory.mem_ptr + n;
    let origin = Address(state.current_section_address.0 + n as u64);
    let reference = match patch {
        Patch::Nothing => {
            return emit(state, &bytes);
        },
        Patch::Relative(label) => UnresolvedReference::Relative {
            origin,
            label,
            sec_name: state.sections[k].name.clone(),
            patch_index: end - 1,
        },
        Patch::Absolute(expr) => UnresolvedReference::Absolute {
            expr,
            sec_name: state.sections[k].name.clone(),
            patch_index: end - 2,
        },
    };
    assert(Some(reference@) == pending_ref(st1, enc@.patch));
    assert(ref_ok(st1.sections, reference@));
    if known_now(&state.label_addresses, &reference) {
        let patch_bytes = reference_patch(&state.label_addresses, &reference)?;
        emit(state, &bytes)?;
        write_patch(&mut state.sections, &reference, &patch_bytes);
        Ok(())
    } else {
        emit(state, &bytes)?;
        proof {
            assert(refs_view(state.pending_refs@.push(reference)) =~= st1.pending.push(
                reference@,
            ));
        }
        state.pending_refs.push(reference);
        Ok(())
    }
}

} // verus!

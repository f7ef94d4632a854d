use crate::assembly::assembler::{
    data_bytes, define_label_spec, defined_section, directive, encoding_of,
    lemma_push_section_keeps_wf, run, step,
};
use crate::assembly::encoder::EncodingView;
use crate::assembly::flat::{emits, first_without_length};
use crate::assembly::interpreter::eval;
use crate::assembly::laws::lemma_absolute_address;
use crate::assembly::parser::{Address, FormView, SymbolView};
use crate::assembly::resolver::{
    lemma_patch_keeps, patch_sections, pending_ref, place_encoding, reference_bytes, resolve_from,
    resolves_now, sections_wf,
};
use crate::assembly::state::{
    emit_bytes, find_section, lemma_find_bounds, lemma_find_push, lemma_find_same_names,
    lemma_write_keeps_wf, ref_ok, same_shape, sites_ordered, writable_section, zeros, RefView,
    SectionView, StateView,
};
use vstd::prelude::*;

verus! {

/// Giving a place its bytes writes these bytes at the place and nothing
/// else: every other byte of every section stays, and so do the names,
/// offsets, lengths and cursors.
pub proof fn lemma_patch_writes_the_place(
    sections: Seq<SectionView>,
    labels: Map<Seq<char>, Address>,
    r: RefView,
)
    requires
        sections_wf(sections),
        ref_ok(sections, r),
        patch_sections(sections, labels, r) is Ok,
    ensures
        ({
            let next = patch_sections(sections, labels, r)->Ok_0;
            let bytes = reference_bytes(labels, r)->Ok_0;
            let k = find_section(sections, r.section())->0;
            &&& reference_bytes(labels, r) is Ok
            &&& 0 <= k < sections.len()
            &&& bytes.len() == r.width()
            &&& same_shape(sections, next)
            &&& forall|j: int|
                0 <= j < r.width() ==> #[trigger] next[k].mem[r.index() + j] == bytes[j]
            &&& forall|i: int, p: int|
                0 <= i < sections.len() && 0 <= p < sections[i].mem.len() && !(i == k && r.index()
                    <= p < r.index() + r.width()) ==> #[trigger] next[i].mem[p]
                    == sections[i].mem[p]
        }),
{
    let bytes = reference_bytes(labels, r)->Ok_0;
    lemma_find_bounds(sections, r.section(), 0);
    let k = find_section(sections, r.section())->0;
    assert(sections[k].wf());
    lemma_patch_keeps(sections, k, r.index(), bytes);
}

/// The byte of a relative jump whose place got its bytes is the distance
/// from the origin to the label's address modulo 256, and this distance
/// lies between -128 and 127.
pub proof fn lemma_relative_reference(
    sections: Seq<SectionView>,
    labels: Map<Seq<char>, Address>,
    r: RefView,
)
    requires
        sections_wf(sections),
        ref_ok(sections, r),
        r is Relative,
        patch_sections(sections, labels, r) is Ok,
    ensures
        ({
            let next = patch_sections(sections, labels, r)->Ok_0;
            let k = find_section(sections, r.section())->0;
            let distance = labels[r->Relative_label].0 - r->Relative_origin;
            &&& labels.contains_key(r->Relative_label)
            &&& -128 <= distance <= 127
            &&& next[k].mem[r.index() as int] == distance % 256
        }),
{
    lemma_patch_writes_the_place(sections, labels, r);
    let next = patch_sections(sections, labels, r)->Ok_0;
    let k = find_section(sections, r.section())->0;
    assert(next[k].mem[r.index() + 0int] == reference_bytes(labels, r)->Ok_0[0]);
}

/// The two bytes of an absolute reference whose place got its bytes are
/// the low eight bits and the next eight bits of the expression's value,
/// which has sixteen bits.
pub proof fn lemma_absolute_reference(
    sections: Seq<SectionView>,
    labels: Map<Seq<char>, Address>,
    r: RefView,
)
    requires
        sections_wf(sections),
        ref_ok(sections, r),
        r is Absolute,
        patch_sections(sections, labels, r) is Ok,
    ensures
        ({
            let next = patch_sections(sections, labels, r)->Ok_0;
            let k = find_section(sections, r.section())->0;
            let value = eval(r->Absolute_expr, labels);
            &&& value matches Ok(target) && target <= 0xFFFF
            &&& next[k].mem[r.index() as int] == value->Ok_0 & 0xFF
            &&& next[k].mem[r.index() + 1int] == (value->Ok_0 >> 8) & 0xFF
        }),
{
    lemma_patch_writes_the_place(sections, labels, r);
    let next = patch_sections(sections, labels, r)->Ok_0;
    let k = find_section(sections, r.section())->0;
    let value = eval(r->Absolute_expr, labels)->Ok_0;
    lemma_absolute_address(value);
    assert(next[k].mem[r.index() + 0int] == reference_bytes(labels, r)->Ok_0[0]);
    assert(next[k].mem[r.index() + 1int] == reference_bytes(labels, r)->Ok_0[1]);
}

/// Whether every label of `a` has the same address in `b`.
pub open spec fn labels_kept(a: StateView, b: StateView) -> bool {
    forall|name: Seq<char>| #[trigger]
        a.labels.contains_key(name) ==> b.labels.contains_key(name) && b.labels[name]
            == a.labels[name]
}

/// An instruction leaves the labels as they are.
pub proof fn lemma_place_keeps_labels(st: StateView, enc: EncodingView)
    ensures
        place_encoding(st, enc) matches Ok(next) ==> next.labels == st.labels && next.address
            == st.address + enc.bytes.len(),
{
}

/// A form leaves every label that has an address with that address.
pub proof fn lemma_step_keeps_labels(st: StateView, form: FormView)
    ensures
        step(st, form) matches Ok((next, _)) ==> labels_kept(st, next),
{
    if step(st, form) is Ok {
        let st1 = match form.label {
            Some(name) => define_label_spec(st, name)->Ok_0,
            None => st,
        };
        assert(labels_kept(st, st1));
        match form.op {
            SymbolView::Sym(op) => {
                if op != "include"@ {
                    let st2 = directive(st1, op, form)->Ok_0;
                    match encoding_of(op, form) {
                        Some(Ok(enc)) => {
                            lemma_place_keeps_labels(st1, enc);
                        },
                        _ => {},
                    }
                    assert(labels_kept(st1, st2));
                }
            },
            _ => {},
        }
    }
}

/// A run over forms leaves every label that has an address with that
/// address.
pub proof fn lemma_run_keeps_labels(forms: Seq<FormView>, start: int, st: StateView)
    ensures
        run(forms, start, st) matches Ok((end, _)) ==> labels_kept(st, end),
    decreases forms.len() - start,
{
    if 0 <= start < forms.len() {
        lemma_step_keeps_labels(st, forms[start]);
        match step(st, forms[start]) {
            Ok((next, None)) => {
                lemma_run_keeps_labels(forms, start + 1, next);
            },
            _ => {},
        }
    }
}

/// Whether every place of `refs` lies in the written part of a section of
/// `sections` that takes bytes.
pub open spec fn all_ref_ok(sections: Seq<SectionView>, refs: Seq<RefView>) -> bool {
    forall|n: int| 0 <= n < refs.len() ==> ref_ok(sections, #[trigger] refs[n])
}

/// Whether the byte `p` of the section `k` belongs to the place `r`.
pub open spec fn in_place(sections: Seq<SectionView>, r: RefView, k: int, p: int) -> bool {
    find_section(sections, r.section()) == Some(k) && r.index() <= p < r.index() + r.width()
}

/// Giving the places `refs[i..]` their bytes leaves every byte that belongs
/// to none of them as it was, and with it every name, offset, length and
/// cursor.
pub proof fn lemma_resolve_keeps_other_bytes(
    sections: Seq<SectionView>,
    labels: Map<Seq<char>, Address>,
    refs: Seq<RefView>,
    i: int,
    k: int,
    p: int,
)
    requires
        sections_wf(sections),
        all_ref_ok(sections, refs),
        0 <= i,
        resolve_from(sections, labels, refs, i) is Ok,
        0 <= k < sections.len(),
        0 <= p < sections[k].mem.len(),
        forall|n: int| i <= n < refs.len() ==> !in_place(sections, #[trigger] refs[n], k, p),
    ensures
        same_shape(sections, resolve_from(sections, labels, refs, i)->Ok_0),
        resolve_from(sections, labels, refs, i)->Ok_0[k].mem[p] == sections[k].mem[p],
    decreases refs.len() - i,
{
    if i < refs.len() {
        let r = refs[i];
        let next = patch_sections(sections, labels, r)->Ok_0;
        assert(ref_ok(sections, r));
        lemma_patch_writes_the_place(sections, labels, r);
        lemma_find_bounds(sections, r.section(), 0);
        let kr = find_section(sections, r.section())->0;
        lemma_patch_keeps(sections, kr, r.index(), reference_bytes(labels, r)->Ok_0);
        assert(!in_place(sections, refs[i], k, p));
        assert(next[k].mem[p] == sections[k].mem[p]);
        assert(all_ref_ok(next, refs)) by {
            assert forall|n: int| 0 <= n < refs.len() implies ref_ok(next, #[trigger] refs[n]) by {
                assert(ref_ok(sections, refs[n]));
            }
        }
        assert forall|n: int| i + 1 <= n < refs.len() implies !in_place(
            next,
            #[trigger] refs[n],
            k,
            p,
        ) by {
            assert(!in_place(sections, refs[n], k, p));
            assert(find_section(next, refs[n].section()) == find_section(
                sections,
                refs[n].section(),
            ));
        }
        lemma_resolve_keeps_other_bytes(next, labels, refs, i + 1, k, p);
    }
}

/// After the places `refs[i..]` got their bytes, each of them holds its
/// bytes: no later place has written over an earlier one.
pub proof fn lemma_resolved_place_holds_its_bytes(
    sections: Seq<SectionView>,
    labels: Map<Seq<char>, Address>,
    refs: Seq<RefView>,
    i: int,
    j: int,
)
    requires
        sections_wf(sections),
        all_ref_ok(sections, refs),
        sites_ordered(refs),
        0 <= i <= j < refs.len(),
        resolve_from(sections, labels, refs, i) is Ok,
    ensures
        ({
            let end = resolve_from(sections, labels, refs, i)->Ok_0;
            let k = find_section(sections, refs[j].section())->0;
            &&& same_shape(sections, end)
            &&& 0 <= k < sections.len()
            &&& reference_bytes(labels, refs[j]) matches Ok(bytes) && bytes.len()
                == refs[j].width()
            &&& forall|b: int|
                0 <= b < refs[j].width() ==> #[trigger] end[k].mem[refs[j].index() + b]
                    == reference_bytes(labels, refs[j])->Ok_0[b]
        }),
    decreases refs.len() - i,
{
    let r = refs[i];
    let next = patch_sections(sections, labels, r)->Ok_0;
    let end = resolve_from(sections, labels, refs, i)->Ok_0;
    assert(ref_ok(sections, r));
    lemma_patch_writes_the_place(sections, labels, r);
    lemma_find_bounds(sections, r.section(), 0);
    let kr = find_section(sections, r.section())->0;
    lemma_patch_keeps(sections, kr, r.index(), reference_bytes(labels, r)->Ok_0);
    assert(all_ref_ok(next, refs)) by {
        assert forall|n: int| 0 <= n < refs.len() implies ref_ok(next, #[trigger] refs[n]) by {
            assert(ref_ok(sections, refs[n]));
        }
    }
    if i < j {
        lemma_resolved_place_holds_its_bytes(next, labels, refs, i + 1, j);
        assert(find_section(next, refs[j].section()) == find_section(sections, refs[j].section()));
    } else {
        assert(sections[kr].wf());
        assert forall|b: int| 0 <= b < r.width() implies #[trigger] end[kr].mem[r.index() + b]
            == reference_bytes(labels, r)->Ok_0[b] by {
            let p = r.index() + b;
            assert forall|n: int| i + 1 <= n < refs.len() implies !in_place(
                next,
                #[trigger] refs[n],
                kr,
                p,
            ) by {
                assert(ref_ok(sections, refs[n]));
                lemma_find_bounds(sections, refs[n].section(), 0);
                assert(find_section(next, refs[n].section()) == find_section(
                    sections,
                    refs[n].section(),
                ));
                if find_section(sections, refs[n].section()) == Some(kr) {
                    assert(refs[n].section() == sections[kr].name);
                    assert(refs[i].section() == sections[kr].name);
                    assert(refs[i].index() + refs[i].width() <= refs[n].index());
                }
            }
            assert(next[kr].mem[r.index() + b] == reference_bytes(labels, r)->Ok_0[b]);
            lemma_resolve_keeps_other_bytes(next, labels, refs, i + 1, kr, p);
        }
        lemma_resolve_keeps_shape(next, labels, refs, i + 1);
    }
}

/// Giving places their bytes leaves every name, offset, length and cursor
/// as it was.
pub proof fn lemma_resolve_keeps_shape(
    sections: Seq<SectionView>,
    labels: Map<Seq<char>, Address>,
    refs: Seq<RefView>,
    i: int,
)
    requires
        sections_wf(sections),
        all_ref_ok(sections, refs),
        0 <= i,
        resolve_from(sections, labels, refs, i) is Ok,
    ensures
        same_shape(sections, resolve_from(sections, labels, refs, i)->Ok_0),
    decreases refs.len() - i,
{
    if i < refs.len() {
        let r = refs[i];
        let next = patch_sections(sections, labels, r)->Ok_0;
        assert(ref_ok(sections, r));
        lemma_patch_writes_the_place(sections, labels, r);
        lemma_find_bounds(sections, r.section(), 0);
        let kr = find_section(sections, r.section())->0;
        lemma_patch_keeps(sections, kr, r.index(), reference_bytes(labels, r)->Ok_0);
        assert(all_ref_ok(next, refs)) by {
            assert forall|n: int| 0 <= n < refs.len() implies ref_ok(next, #[trigger] refs[n]) by {
                assert(ref_ok(sections, refs[n]));
            }
        }
        lemma_resolve_keeps_shape(next, labels, refs, i + 1);
    }
}

/// A section with a place in the image and without a length is found by
/// `first_without_length`, if no other is found before it.
pub proof fn lemma_first_without_length_finds(sections: Seq<SectionView>, from: int, k: int)
    requires
        0 <= from <= k < sections.len(),
        emits(sections[k]),
        sections[k].length is None,
    ensures
        first_without_length(sections, from) is Some,
    decreases k - from,
{
    if from < k && !(emits(sections[from]) && sections[from].length is None) {
        lemma_first_without_length_finds(sections, from + 1, k);
    }
}

/// The state behind the bytes of an instruction: well formed, with the
/// place of the instruction's patch in order.
pub proof fn lemma_emitted_place_is_in_order(st: StateView, enc: EncodingView)
    requires
        st.wf(),
        enc.wf(),
        !(enc.patch is Nothing),
        emit_bytes(st, enc.bytes) is Ok,
    ensures
        ({
            let st1 = emit_bytes(st, enc.bytes)->Ok_0;
            let k = writable_section(st)->Ok_0;
            let r = pending_ref(st1, enc.patch)->0;
            &&& st1.wf()
            &&& sections_wf(st1.sections)
            &&& 0 <= k < st.sections.len()
            &&& pending_ref(st1, enc.patch) is Some
            &&& ref_ok(st1.sections, r)
            &&& find_section(st1.sections, r.section()) == Some(k)
            &&& r.index() == st.sections[k].mem_ptr + enc.bytes.len() - r.width()
            &&& r.width() == enc.patch.width()
            &&& st1.labels == st.labels
            &&& st1.address == st.address + enc.bytes.len()
        }),
{
    let st1 = emit_bytes(st, enc.bytes)->Ok_0;
    let k = writable_section(st)->Ok_0;
    lemma_find_bounds(st.sections, st.current->0, 0);
    lemma_write_keeps_wf(st, k, enc.bytes, st1);
    lemma_find_same_names(st1.sections, st.sections, st.current->0, 0);
}

/// Every instruction that is encoded has room for its patch.
pub proof fn lemma_encodings_are_well_formed(op: Seq<char>, form: FormView)
    ensures
        encoding_of(op, form) matches Some(Ok(enc)) ==> enc.wf() && enc.bytes.len() >= 1,
{
}

/// An instruction keeps the state well formed.
pub proof fn lemma_place_keeps_wf(st: StateView, enc: EncodingView)
    requires
        st.wf(),
        enc.wf(),
        place_encoding(st, enc) is Ok,
    ensures
        place_encoding(st, enc)->Ok_0.wf(),
{
    let st1 = emit_bytes(st, enc.bytes)->Ok_0;
    let k = writable_section(st)->Ok_0;
    lemma_find_bounds(st.sections, st.current->0, 0);
    lemma_write_keeps_wf(st, k, enc.bytes, st1);
    if !(enc.patch is Nothing) {
        lemma_emitted_place_is_in_order(st, enc);
        let r = pending_ref(st1, enc.patch)->0;
        let next = place_encoding(st, enc)->Ok_0;
        if resolves_now(st1.labels, r) {
            lemma_patch_keeps(st1.sections, k, r.index(), reference_bytes(st1.labels, r)->Ok_0);
            assert forall|j: int| 0 <= j < next.pending.len() implies ref_ok(
                next.sections,
                #[trigger] next.pending[j],
            ) by {
                assert(ref_ok(st1.sections, st1.pending[j]));
            }
        } else {
            assert forall|j: int| 0 <= j < next.pending.len() implies ref_ok(
                next.sections,
                #[trigger] next.pending[j],
            ) by {
                if j < st1.pending.len() {
                    assert(ref_ok(st1.sections, st1.pending[j]));
                }
            }
            assert forall|i: int, j: int|
                #![trigger next.pending[i], next.pending[j]]
                0 <= i < j < next.pending.len() && next.pending[i].section()
                    == next.pending[j].section() implies next.pending[i].index()
                + next.pending[i].width() <= next.pending[j].index() by {
                if j == st.pending.len() {
                    assert(ref_ok(st.sections, st.pending[i]));
                    assert(st.pending[i].section() == st.current->0);
                } else {
                    assert(next.pending[i] == st.pending[i] && next.pending[j] == st.pending[j]);
                }
            }
        }
    }
}

/// A form keeps the state well formed.
pub proof fn lemma_step_keeps_wf(st: StateView, form: FormView)
    requires
        st.wf(),
        step(st, form) is Ok,
    ensures
        step(st, form)->Ok_0.0.wf(),
{
    let st1 = match form.label {
        Some(name) => define_label_spec(st, name)->Ok_0,
        None => st,
    };
    assert(st1.wf());
    match form.op {
        SymbolView::Sym(op) => {
            if op != "include"@ {
                let st2 = directive(st1, op, form)->Ok_0;
                if op == "def-section"@ {
                    let section = defined_section(form)->Ok_0;
                    assert(section.wf());
                    lemma_push_section_keeps_wf(st1, section, st2);
                } else if op == "section"@ {
                    assert(st2.wf());
                } else if op == "db"@ || op == "ds"@ {
                    let k = writable_section(st1)->Ok_0;
                    lemma_find_bounds(st1.sections, st1.current->0, 0);
                    if op == "db"@ {
                        if form.exps.len() == 0 {
                            lemma_write_keeps_wf(st1, k, zeros(1), st2);
                        } else {
                            lemma_write_keeps_wf(st1, k, data_bytes(form.exps), st2);
                        }
                    } else {
                        lemma_write_keeps_wf(
                            st1,
                            k,
                            zeros(form.exps[0]->Immediate_0 as nat),
                            st2,
                        );
                    }
                } else if op == "label"@ {
                    assert(st2.wf());
                } else if op == "sub-section"@ {
                } else {
                    match encoding_of(op, form) {
                        Some(Ok(enc)) => {
                            lemma_encodings_are_well_formed(op, form);
                            lemma_place_keeps_wf(st1, enc);
                        },
                        _ => {},
                    }
                }
            }
        },
        _ => {},
    }
}

/// A run over forms keeps the state well formed.
pub proof fn lemma_run_keeps_wf(forms: Seq<FormView>, start: int, st: StateView)
    requires
        st.wf(),
        run(forms, start, st) is Ok,
    ensures
        run(forms, start, st)->Ok_0.0.wf(),
    decreases forms.len() - start,
{
    if 0 <= start < forms.len() {
        lemma_step_keeps_wf(st, forms[start]);
        match step(st, forms[start]) {
            Ok((next, None)) => {
                lemma_run_keeps_wf(forms, start + 1, next);
            },
            _ => {},
        }
    }
}

/// Giving places their bytes keeps the sections well formed.
pub proof fn lemma_resolve_keeps_wf(
    sections: Seq<SectionView>,
    labels: Map<Seq<char>, Address>,
    refs: Seq<RefView>,
    i: int,
)
    requires
        sections_wf(sections),
        all_ref_ok(sections, refs),
        0 <= i,
        resolve_from(sections, labels, refs, i) is Ok,
    ensures
        sections_wf(resolve_from(sections, labels, refs, i)->Ok_0),
    decreases refs.len() - i,
{
    if i < refs.len() {
        let r = refs[i];
        let next = patch_sections(sections, labels, r)->Ok_0;
        assert(ref_ok(sections, r));
        lemma_find_bounds(sections, r.section(), 0);
        let kr = find_section(sections, r.section())->0;
        lemma_patch_keeps(sections, kr, r.index(), reference_bytes(labels, r)->Ok_0);
        assert(all_ref_ok(next, refs)) by {
            assert forall|n: int| 0 <= n < refs.len() implies ref_ok(next, #[trigger] refs[n]) by {
                assert(ref_ok(sections, refs[n]));
            }
        }
        lemma_resolve_keeps_wf(next, labels, refs, i + 1);
    }
}

/// Whether the byte `p` of the section `k` is written and waits for
/// nothing: it lies before the section's cursor and in no place that waits.
pub open spec fn settled(st: StateView, k: int, p: int) -> bool {
    &&& 0 <= k < st.sections.len()
    &&& 0 <= p < st.sections[k].mem_ptr
    &&& forall|j: int| 0 <= j < st.pending.len() ==> !in_place(st.sections, #[trigger] st.pending[j], k, p)
}

/// An instruction leaves every settled byte settled and as it is.
pub proof fn lemma_place_keeps_settled_bytes(st: StateView, enc: EncodingView, k: int, p: int)
    requires
        st.wf(),
        enc.wf(),
        place_encoding(st, enc) is Ok,
        settled(st, k, p),
    ensures
        settled(place_encoding(st, enc)->Ok_0, k, p),
        place_encoding(st, enc)->Ok_0.sections[k].mem[p] == st.sections[k].mem[p],
{
    let st1 = emit_bytes(st, enc.bytes)->Ok_0;
    let kw = writable_section(st)->Ok_0;
    let next = place_encoding(st, enc)->Ok_0;
    lemma_find_bounds(st.sections, st.current->0, 0);
    lemma_write_keeps_wf(st, kw, enc.bytes, st1);
    assert(st.sections[k].wf());
    assert(st1.sections[k].mem[p] == st.sections[k].mem[p]);
    assert forall|j: int| 0 <= j < st1.pending.len() implies !in_place(
        st1.sections,
        #[trigger] st1.pending[j],
        k,
        p,
    ) by {
        assert(!in_place(st.sections, st.pending[j], k, p));
        lemma_find_same_names(st1.sections, st.sections, st.pending[j].section(), 0);
    }
    if !(enc.patch is Nothing) {
        lemma_emitted_place_is_in_order(st, enc);
        let r = pending_ref(st1, enc.patch)->0;
        assert(!in_place(st1.sections, r, k, p));
        if resolves_now(st1.labels, r) {
            lemma_patch_writes_the_place(st1.sections, st1.labels, r);
            lemma_patch_keeps(st1.sections, kw, r.index(), reference_bytes(st1.labels, r)->Ok_0);
            assert forall|j: int| 0 <= j < next.pending.len() implies !in_place(
                next.sections,
                #[trigger] next.pending[j],
                k,
                p,
            ) by {
                assert(!in_place(st1.sections, st1.pending[j], k, p));
            }
        } else {
            assert forall|j: int| 0 <= j < next.pending.len() implies !in_place(
                next.sections,
                #[trigger] next.pending[j],
                k,
                p,
            ) by {
                if j < st1.pending.len() {
                    assert(!in_place(st1.sections, st1.pending[j], k, p));
                }
            }
        }
    }
}

/// A form leaves every settled byte settled and as it is.
pub proof fn lemma_step_keeps_settled_bytes(st: StateView, form: FormView, k: int, p: int)
    requires
        st.wf(),
        step(st, form) is Ok,
        settled(st, k, p),
    ensures
        settled(step(st, form)->Ok_0.0, k, p),
        step(st, form)->Ok_0.0.sections[k].mem[p] == st.sections[k].mem[p],
{
    let st1 = match form.label {
        Some(name) => define_label_spec(st, name)->Ok_0,
        None => st,
    };
    assert(st1.wf());
    assert(settled(st1, k, p));
    assert(st.sections[k].wf());
    match form.op {
        SymbolView::Sym(op) => {
            if op != "include"@ {
                let st2 = directive(st1, op, form)->Ok_0;
                if op == "def-section"@ {
                    let section = defined_section(form)->Ok_0;
                    assert forall|j: int| 0 <= j < st2.pending.len() implies !in_place(
                        st2.sections,
                        #[trigger] st2.pending[j],
                        k,
                        p,
                    ) by {
                        assert(!in_place(st1.sections, st1.pending[j], k, p));
                        assert(ref_ok(st1.sections, st1.pending[j]));
                        lemma_find_push(st1.sections, section, st1.pending[j].section(), 0);
                    }
                } else if op == "section"@ {
                    assert(settled(st2, k, p));
                } else if op == "db"@ || op == "ds"@ {
                    let kw = writable_section(st1)->Ok_0;
                    lemma_find_bounds(st1.sections, st1.current->0, 0);
                    assert forall|j: int| 0 <= j < st2.pending.len() implies !in_place(
                        st2.sections,
                        #[trigger] st2.pending[j],
                        k,
                        p,
                    ) by {
                        assert(!in_place(st1.sections, st1.pending[j], k, p));
                        lemma_find_same_names(
                            st2.sections,
                            st1.sections,
                            st1.pending[j].section(),
                            0,
                        );
                    }
                } else if op == "label"@ {
                    assert(settled(st2, k, p));
                } else if op == "sub-section"@ {
                } else {
                    match encoding_of(op, form) {
                        Some(Ok(enc)) => {
                            lemma_encodings_are_well_formed(op, form);
                            lemma_place_keeps_settled_bytes(st1, enc, k, p);
                        },
                        _ => {},
                    }
                }
            }
        },
        _ => {},
    }
}

/// A run over forms leaves every settled byte settled and as it is.
pub proof fn lemma_run_keeps_settled_bytes(
    forms: Seq<FormView>,
    start: int,
    st: StateView,
    k: int,
    p: int,
)
    requires
        st.wf(),
        run(forms, start, st) is Ok,
        settled(st, k, p),
    ensures
        settled(run(forms, start, st)->Ok_0.0, k, p),
        run(forms, start, st)->Ok_0.0.sections[k].mem[p] == st.sections[k].mem[p],
    decreases forms.len() - start,
{
    if 0 <= start < forms.len() {
        lemma_step_keeps_wf(st, forms[start]);
        lemma_step_keeps_settled_bytes(st, forms[start], k, p);
        match step(st, forms[start]) {
            Ok((next, None)) => {
                lemma_run_keeps_settled_bytes(forms, start + 1, next, k, p);
            },
            _ => {},
        }
    }
}

/// A run over forms leaves the sections that are there in their places,
/// with their offsets, and adds sections only behind them.
pub proof fn lemma_run_keeps_sections(forms: Seq<FormView>, start: int, st: StateView, k: int)
    requires
        st.wf(),
        run(forms, start, st) is Ok,
        0 <= k < st.sections.len(),
    ensures
        k < run(forms, start, st)->Ok_0.0.sections.len(),
        run(forms, start, st)->Ok_0.0.sections[k].offset == st.sections[k].offset,
        run(forms, start, st)->Ok_0.0.sections[k].name == st.sections[k].name,
    decreases forms.len() - start,
{
    if 0 <= start < forms.len() {
        lemma_step_keeps_wf(st, forms[start]);
        lemma_step_keeps_sections(st, forms[start], k);
        match step(st, forms[start]) {
            Ok((next, None)) => {
                lemma_run_keeps_sections(forms, start + 1, next, k);
            },
            _ => {},
        }
    }
}

/// A form leaves the sections that are there in their places, with their
/// offsets, and adds a section only behind them.
pub proof fn lemma_step_keeps_sections(st: StateView, form: FormView, k: int)
    requires
        st.wf(),
        step(st, form) is Ok,
        0 <= k < st.sections.len(),
    ensures
        k < step(st, form)->Ok_0.0.sections.len(),
        step(st, form)->Ok_0.0.sections[k].offset == st.sections[k].offset,
        step(st, form)->Ok_0.0.sections[k].name == st.sections[k].name,
{
    let st1 = match form.label {
        Some(name) => define_label_spec(st, name)->Ok_0,
        None => st,
    };
    match form.op {
        SymbolView::Sym(op) => {
            if op != "include"@ {
                lemma_find_bounds(st1.sections, st1.current->0, 0);
                if !(op == "def-section"@ || op == "section"@ || op == "db"@ || op == "ds"@ || op
                    == "label"@ || op == "sub-section"@) {
                    match encoding_of(op, form) {
                        Some(Ok(enc)) => {
                            lemma_encodings_are_well_formed(op, form);
                            lemma_place_keeps_shape(st1, enc, k);
                        },
                        _ => {},
                    }
                }
            }
        },
        _ => {},
    }
}

/// An instruction leaves the sections in their places, with their names
/// and offsets.
pub proof fn lemma_place_keeps_shape(st: StateView, enc: EncodingView, k: int)
    requires
        st.wf(),
        enc.wf(),
        place_encoding(st, enc) is Ok,
        0 <= k < st.sections.len(),
    ensures
        place_encoding(st, enc)->Ok_0.sections.len() == st.sections.len(),
        place_encoding(st, enc)->Ok_0.sections[k].offset == st.sections[k].offset,
        place_encoding(st, enc)->Ok_0.sections[k].name == st.sections[k].name,
{
    let st1 = emit_bytes(st, enc.bytes)->Ok_0;
    let kw = writable_section(st)->Ok_0;
    lemma_find_bounds(st.sections, st.current->0, 0);
    if !(enc.patch is Nothing) {
        lemma_emitted_place_is_in_order(st, enc);
        let r = pending_ref(st1, enc.patch)->0;
        if resolves_now(st1.labels, r) {
            lemma_patch_writes_the_place(st1.sections, st1.labels, r);
        }
    }
}

/// The bytes of an instruction whose patch was made at once are settled.
pub proof fn lemma_placed_site_is_settled(st: StateView, enc: EncodingView, p: int)
    requires
        st.wf(),
        enc.wf(),
        !(enc.patch is Nothing),
        emit_bytes(st, enc.bytes) is Ok,
        resolves_now(st.labels, pending_ref(emit_bytes(st, enc.bytes)->Ok_0, enc.patch)->0),
        place_encoding(st, enc) is Ok,
        st.sections[writable_section(st)->Ok_0].mem_ptr <= p < st.sections[writable_section(
            st,
        )->Ok_0].mem_ptr + enc.bytes.len(),
    ensures
        settled(place_encoding(st, enc)->Ok_0, writable_section(st)->Ok_0, p),
{
    let st1 = emit_bytes(st, enc.bytes)->Ok_0;
    let k = writable_section(st)->Ok_0;
    let next = place_encoding(st, enc)->Ok_0;
    lemma_emitted_place_is_in_order(st, enc);
    let r = pending_ref(st1, enc.patch)->0;
    lemma_patch_writes_the_place(st1.sections, st1.labels, r);
    lemma_patch_keeps(st1.sections, k, r.index(), reference_bytes(st1.labels, r)->Ok_0);
    assert forall|j: int| 0 <= j < next.pending.len() implies !in_place(
        next.sections,
        #[trigger] next.pending[j],
        k,
        p,
    ) by {
        assert(ref_ok(st.sections, st.pending[j]));
        lemma_find_same_names(st1.sections, st.sections, st.pending[j].section(), 0);
    }
}

} // verus!

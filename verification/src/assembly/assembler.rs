use crate::assembly::encoder::{
    cp_encoding, dec_encoding, encode_cp, encode_dec, encode_inc, encode_jp, encode_jr, encode_ld,
    encode_nop, inc_encoding, jp_encoding, jr_encoding, ld_encoding, low_byte, nop_encoding,
    EncodingView,
};
use crate::assembly::error::{failure, plain, AsmError, AsmErrorView, ErrorKind};
use crate::assembly::flat::{flat_image, image_len, lemma_image_len_of_shape, state_to_flat};
use crate::assembly::parser::{
    exps_view, sexp_debug_text, symbol_debug_text, Address, Form, FormView, Label, SExp, SExpView,
    Symbol, SymbolView, TopLevel,
};
use crate::assembly::resolver::{
    place, place_encoding, place_result, resolve_from, resolved_sections, try_resolve,
};
use crate::assembly::state::{
    emit, emit_bytes, emit_zeros, expect_in_section, find_section, initial_state,
    lemma_find_bounds, lemma_find_push, ref_ok, sections_view, step_is, zeros, Memory, Section,
    SectionView, State, StateView,
};
use crate::assembly::text::is_text;
use std::path::PathBuf;
use vstd::prelude::*;

verus! {

/// `std::path::PathBuf`, of which nothing is said: a path is only carried
/// from the caller to whoever writes the result.
#[verifier::external_type_specification]
#[verifier::external_body]
pub struct ExPathBuf(PathBuf);

/// What to make of the assembled state, and where the result is to go.
pub struct Options {
    pub flat: bool,
    pub out: PathBuf,
}

/// The state after the label `name` got the current address.
pub open spec fn define_label_spec(st: StateView, name: Seq<char>) -> Result<
    StateView,
    AsmErrorView,
> {
    if st.labels.contains_key(name) {
        Err(failure(ErrorKind::DuplicateLabel, name))
    } else {
        Ok(StateView { labels: st.labels.insert(name, Address(st.address)), ..st })
    }
}

/// Gives `label` the current address.
pub fn define_label(state: &mut State, label: Label) -> (r: Result<(), AsmError>)
    requires
        old(state)@.wf(),
    ensures
        step_is(r, final(state)@, define_label_spec(old(state)@, label@)),
        r is Err ==> final(state)@ == old(state)@,
        final(state)@.wf(),
{
    if state.label_addresses.contains_key(&label) {
        return Err(AsmError::with(ErrorKind::DuplicateLabel, label.name()));
    }
    state.label_addresses.insert(label, state.current_section_address);
    Ok(())
}

/// The value behind the first keyword `name` in `exps[i..]`, if the keyword
/// is there.
pub open spec fn key_value_from(exps: Seq<SExpView>, name: Seq<char>, i: int) -> Result<
    Option<SExpView>,
    AsmErrorView,
>
    decreases exps.len() - i,
{
    if i < 0 || i >= exps.len() {
        Ok(None)
    } else if exps[i] == SExpView::Symbol(SymbolView::Keyword(name)) {
        if i + 1 < exps.len() {
            Ok(Some(exps[i + 1]))
        } else {
            Err(plain(ErrorKind::NoValueForKeyword))
        }
    } else {
        key_value_from(exps, name, i + 1)
    }
}

/// Whether `exp` is the keyword `name`.
pub fn is_keyword(exp: &SExp, name: &str) -> (r: bool)
    ensures
        r == (exp@ == SExpView::Symbol(SymbolView::Keyword(name@))),
{
    match exp {
        SExp::Symbol(Symbol::Keyword(keyword_name)) => is_text(keyword_name, name),
        _ => false,
    }
}

/// The value behind the first keyword `name` in `exps`.
pub fn key_value<'a>(exps: &'a Vec<SExp>, name: &str) -> (r: Result<Option<&'a SExp>, AsmError>)
    ensures
        match key_value_from(exps_view(exps@), name@, 0) {
            Ok(Some(v)) => r matches Ok(Some(x)) && x@ == v,
            Ok(None) => r matches Ok(None),
            Err(e) => r matches Err(x) && x@ == e,
        },
{
    let mut i: usize = 0;
    while i < exps.len()
        invariant
            i <= exps.len(),
            key_value_from(exps_view(exps@), name@, 0) == key_value_from(
                exps_view(exps@),
                name@,
                i as int,
            ),
        decreases exps.len() - i,
    {
        if is_keyword(&exps[i], name) {
            if i + 1 < exps.len() {
                return Ok(Some(&exps[i + 1]));
            } else {
                return Err(AsmError::plain(ErrorKind::NoValueForKeyword));
            }
        }
        i += 1;
    }
    Ok(None)
}

/// The number that `v` is, or `or` where there is no `v`.
pub open spec fn immediate_or(v: Option<SExpView>, or: u64) -> Result<u64, AsmErrorView> {
    match v {
        None => Ok(or),
        Some(SExpView::Immediate(n)) => Ok(n),
        Some(other) => Err(failure(ErrorKind::NotAnImmediate, sexp_debug_text(other))),
    }
}

/// The number that `v` is, if there is a `v`.
pub open spec fn immediate_if(v: Option<SExpView>) -> Result<Option<u64>, AsmErrorView> {
    match v {
        None => Ok(None),
        Some(SExpView::Immediate(n)) => Ok(Some(n)),
        Some(other) => Err(failure(ErrorKind::NotAnImmediate, sexp_debug_text(other))),
    }
}

/// The truth value that `v` is, `false` where there is no `v`.
pub open spec fn bool_or_false(v: Option<SExpView>) -> Result<bool, AsmErrorView> {
    match v {
        None => Ok(false),
        Some(SExpView::Symbol(SymbolView::Sym(word))) => if word == "false"@ {
            Ok(false)
        } else if word == "true"@ {
            Ok(true)
        } else {
            Err(plain(ErrorKind::SymbolNotBool))
        },
        Some(SExpView::Symbol(_)) => Err(plain(ErrorKind::NotABoolSymbol)),
        Some(_) => Err(plain(ErrorKind::NotASymbol)),
    }
}

/// The section's name that `e` is.
pub open spec fn section_name_of(e: SExpView) -> Result<Seq<char>, AsmErrorView> {
    match e {
        SExpView::Symbol(SymbolView::Section(name)) => Ok(name),
        _ => Err(plain(ErrorKind::SectionNameExpected)),
    }
}

/// The number that `exp` is.
pub fn expect_immediate(exp: &SExp) -> (r: Result<u64, AsmError>)
    ensures
        match exp@ {
            SExpView::Immediate(n) => r == Ok::<u64, AsmError>(n),
            other => r matches Err(x) && x@ == failure(
                ErrorKind::NotAnImmediate,
                sexp_debug_text(other),
            ),
        },
{
    match exp {
        SExp::Immediate(val) => Ok(*val),
        other => {
            let text = other.debug_text();
            Err(AsmError::with(ErrorKind::NotAnImmediate, text.as_str()))
        },
    }
}

/// The number that `exp` is, or `or` where there is no `exp`.
pub fn expect_immediate_value_or(exp: Option<&SExp>, or: u64) -> (r: Result<u64, AsmError>)
    ensures
        match exp {
            None => r == Ok::<u64, AsmError>(or),
            Some(e) => match e@ {
                SExpView::Immediate(n) => r == Ok::<u64, AsmError>(n),
                other => r matches Err(x) && x@ == failure(
                ErrorKind::NotAnImmediate,
                sexp_debug_text(other),
            ),
            },
        },
{
    match exp {
        Some(exp) => expect_immediate(exp),
        None => Ok(or),
    }
}

/// The truth value that `sym` is.
pub fn expect_bool_sym(sym: &Symbol) -> (r: Result<bool, AsmError>)
    ensures
        match bool_or_false(Some(SExpView::Symbol(sym@))) {
            Ok(b) => r == Ok::<bool, AsmError>(b),
            Err(e) => r matches Err(x) && x@ == e,
        },
{
    match sym {
        Symbol::Sym(name) => {
            if is_text(name, "false") {
                Ok(false)
            } else if is_text(name, "true") {
                Ok(true)
            } else {
                Err(AsmError::plain(ErrorKind::SymbolNotBool))
            }
        },
        _ => Err(AsmError::plain(ErrorKind::NotABoolSymbol)),
    }
}

/// The truth value that `exp` is, `false` where there is no `exp`.
pub fn expect_bool_or_false(exp: Option<&SExp>) -> (r: Result<bool, AsmError>)
    ensures
        match bool_or_false(
            match exp {
                Some(e) => Some(e@),
                None => None,
            },
        ) {
            Ok(b) => r == Ok::<bool, AsmError>(b),
            Err(e) => r matches Err(x) && x@ == e,
        },
{
    match exp {
        None => Ok(false),
        Some(SExp::Symbol(sym)) => expect_bool_sym(sym),
        Some(_) => Err(AsmError::plain(ErrorKind::NotASymbol)),
    }
}

/// The section's name that `exp` is.
pub fn expect_section_name(exp: &SExp) -> (r: Result<String, AsmError>)
    ensures
        match section_name_of(exp@) {
            Ok(name) => r matches Ok(x) && x@ == name,
            Err(e) => r matches Err(x) && x@ == e,
        },
{
    match exp {
        SExp::Symbol(Symbol::Section(name)) => Ok(name.clone()),
        _ => Err(AsmError::plain(ErrorKind::SectionNameExpected)),
    }
}

/// The string that `exp` is.
pub fn expect_string(exp: &SExp) -> (r: Result<String, AsmError>)
    ensures
        match exp@ {
            SExpView::String(s) => r matches Ok(x) && x@ == s,
            _ => r matches Err(x) && x@ == plain(ErrorKind::StringExpected),
        },
{
    match exp {
        SExp::String(str) => Ok(str.clone()),
        _ => Err(AsmError::plain(ErrorKind::StringExpected)),
    }
}

/// The label that `exp` is.
pub fn expect_label_name(exp: &SExp) -> (r: Result<Label, AsmError>)
    ensures
        match exp@ {
            SExpView::Symbol(SymbolView::Label(l)) => r matches Ok(x) && x@ == l,
            _ => r matches Err(x) && x@ == plain(ErrorKind::LabelExpected),
        },
{
    match exp {
        SExp::Symbol(Symbol::Label(lbl)) => Ok(lbl.clone()),
        _ => Err(AsmError::plain(ErrorKind::LabelExpected)),
    }
}

/// Whether `exps` has an expression at `i`; `what` names it in the failure.
pub fn expect_has_sexp_at(exps: &Vec<SExp>, i: usize, what: &str) -> (r: Result<(), AsmError>)
    ensures
        i < exps.len() ==> r is Ok,
        i >= exps.len() ==> (r matches Err(x) && x@ == failure(
            ErrorKind::ExpectedButNothing,
            what@,
        )),
{
    if exps.len() <= i {
        return Err(AsmError::with(ErrorKind::ExpectedButNothing, what));
    }
    Ok(())
}

/// The section that `def-section` defines: named by its first argument,
/// at `:offset` or zero, of `:length` if that is given, label-only if
/// `:label-only true`. Its buffer holds zeros up to its length; that of a
/// label-only section or of one without a length is empty.
pub open spec fn defined_section(form: FormView) -> Result<SectionView, AsmErrorView> {
    if form.exps.len() == 0 {
        Err(plain(ErrorKind::IllegalDefSection))
    } else {
        match section_name_of(form.exps[0]) {
            Err(e) => Err(e),
            Ok(name) => match key_value_from(form.exps, "offset"@, 0) {
                Err(e) => Err(e),
                Ok(offset_exp) => match immediate_or(offset_exp, 0) {
                    Err(e) => Err(e),
                    Ok(offset) => match key_value_from(form.exps, "length"@, 0) {
                        Err(e) => Err(e),
                        Ok(length_exp) => match immediate_if(length_exp) {
                            Err(e) => Err(e),
                            Ok(length) => match key_value_from(form.exps, "label-only"@, 0) {
                                Err(e) => Err(e),
                                Ok(flag_exp) => match bool_or_false(flag_exp) {
                                    Err(e) => Err(e),
                                    Ok(label_only) => new_section(name, offset, length, label_only),
                                },
                            },
                        },
                    },
                },
            },
        }
    }
}

/// The fresh section with these properties, where a buffer can have its
/// length.
pub open spec fn new_section(
    name: Seq<char>,
    offset: u64,
    length: Option<u64>,
    label_only: bool,
) -> Result<SectionView, AsmErrorView> {
    if !label_only && length is Some && length->0 > isize::MAX {
        Err(plain(ErrorKind::SectionTooLong))
    } else {
        Ok(
            SectionView {
                name,
                offset,
                length,
                label_only,
                mem: if !label_only && length is Some {
                    zeros(length->0 as nat)
                } else {
                    Seq::empty()
                },
                mem_ptr: 0,
            },
        )
    }
}

/// The state after `def-section`: the section stands behind the others.
pub open spec fn def_section_spec(st: StateView, form: FormView) -> Result<
    StateView,
    AsmErrorView,
> {
    match defined_section(form) {
        Err(e) => Err(e),
        Ok(section) => Ok(StateView { sections: st.sections.push(section), ..st }),
    }
}

fn make_section(name: String, offset: u64, length: Option<u64>, label_only: bool) -> (r: Result<
    Section,
    AsmError,
>)
    ensures
        match new_section(name@, offset, length, label_only) {
            Ok(s) => r matches Ok(x) && x@ == s && s.wf(),
            Err(e) => r matches Err(x) && x@ == e,
        },
{
    let mem: Vec<u8> = match length {
        Some(len) => if label_only {
            Vec::new()
        } else if len > isize::MAX as u64 {
            return Err(AsmError::plain(ErrorKind::SectionTooLong));
        } else {
            vec![0u8; len as usize]
        },
        None => Vec::new(),
    };
    proof {
        if !label_only && length is Some {
            assert(mem@ =~= zeros(length->0 as nat));
        }
    }
    Ok(
        Section {
            name,
            offset: Address(offset),
            length,
            label_only,
            memory: Memory { mem, mem_ptr: 0 },
        },
    )
}

/// A section added behind the others keeps the state well formed.
pub proof fn lemma_push_section_keeps_wf(st: StateView, section: SectionView, next: StateView)
    requires
        st.wf(),
        section.wf(),
        next.sections == st.sections.push(section),
        next.current == st.current,
        next.pending == st.pending,
    ensures
        next.wf(),
{
    if st.current is Some {
        lemma_find_push(st.sections, section, st.current->0, 0);
    }
    assert forall|j: int| 0 <= j < next.pending.len() implies ref_ok(
        next.sections,
        #[trigger] next.pending[j],
    ) by {
        lemma_find_push(st.sections, section, st.pending[j].section(), 0);
        lemma_find_bounds(st.sections, st.pending[j].section(), 0);
    }
}

/// `def-section`: defines a section.
pub fn def_section(state: &mut State, form: &Form) -> (r: Result<(), AsmError>)
    requires
        old(state)@.wf(),
    ensures
        step_is(r, final(state)@, def_section_spec(old(state)@, form@)),
        r is Err ==> final(state)@ == old(state)@,
        final(state)@.wf(),
{
    proof {
        form.lemma_view();
    }
    if form.exps.len() == 0 {
        return Err(AsmError::plain(ErrorKind::IllegalDefSection));
    }
    let name = expect_section_name(&form.exps[0])?;
    let offset = expect_immediate_value_or(key_value(&form.exps, "offset")?, 0)?;
    let length = match key_value(&form.exps, "length")? {
        Some(exp) => Some(expect_immediate(exp)?),
        None => None,
    };
    let label_only = expect_bool_or_false(key_value(&form.exps, "label-only")?)?;
    let section = make_section(name, offset, length, label_only)?;
    proof {
        assert(sections_view(state.sections@.push(section)) =~= old(state)@.sections.push(
            section@,
        ));
    }
    state.sections.push(section);
    proof {
        lemma_push_section_keeps_wf(old(state)@, section@, state@);
    }
    Ok(())
}

/// The state after `section`: the section named by the one argument is the
/// current one, and the current address is its offset.
pub open spec fn section_spec(st: StateView, form: FormView) -> Result<StateView, AsmErrorView> {
    if form.exps.len() != 1 {
        Err(plain(ErrorKind::IllegalSection))
    } else {
        match section_name_of(form.exps[0]) {
            Err(e) => Err(e),
            Ok(name) => match find_section(st.sections, name) {
                None => Err(failure(ErrorKind::NoSuchSection, name)),
                Some(k) => Ok(
                    StateView { current: Some(name), address: st.sections[k].offset, ..st },
                ),
            },
        }
    }
}

/// `section`: selects the current section.
pub fn section(state: &mut State, form: &Form) -> (r: Result<(), AsmError>)
    requires
        old(state)@.wf(),
    ensures
        step_is(r, final(state)@, section_spec(old(state)@, form@)),
        r is Err ==> final(state)@ == old(state)@,
        final(state)@.wf(),
{
    proof {
        form.lemma_view();
    }
    if form.exps.len() != 1 {
        return Err(AsmError::plain(ErrorKind::IllegalSection));
    }
    let name = expect_section_name(&form.exps[0])?;
    match state.section_index(name.as_str()) {
        Some(k) => {
            let addr = state.sections[k].offset;
            state.current_section_address = addr;
            state.current_section_name = Some(name);
            Ok(())
        },
        None => Err(AsmError::with(ErrorKind::NoSuchSection, name.as_str())),
    }
}

/// The index of the first of `exps[from..]` that is no number.
pub open spec fn first_other(exps: Seq<SExpView>, from: int) -> Option<int>
    decreases exps.len() - from,
{
    if from < 0 || from >= exps.len() {
        None
    } else if !(exps[from] is Immediate) {
        Some(from)
    } else {
        first_other(exps, from + 1)
    }
}

/// The low bytes of the numbers `exps`.
pub open spec fn data_bytes(exps: Seq<SExpView>) -> Seq<u8> {
    Seq::new(exps.len(), |i: int| low_byte(exps[i]->Immediate_0))
}

/// The state after `db`: the low byte of each argument went to the current
/// section; without arguments, one zero byte did.
pub open spec fn db_spec(st: StateView, form: FormView) -> Result<StateView, AsmErrorView> {
    if st.current is None {
        Err(plain(ErrorKind::NotInSection))
    } else if form.exps.len() == 0 {
        emit_bytes(st, zeros(1))
    } else {
        match first_other(form.exps, 0) {
            Some(i) => Err(failure(ErrorKind::NotAnImmediate, sexp_debug_text(form.exps[i]))),
            None => emit_bytes(st, data_bytes(form.exps)),
        }
    }
}

/// `db`: defines bytes.
pub fn db(state: &mut State, form: &Form) -> (r: Result<(), AsmError>)
    requires
        old(state)@.wf(),
    ensures
        step_is(r, final(state)@, db_spec(old(state)@, form@)),
        r is Err ==> final(state)@ == old(state)@,
        final(state)@.wf(),
{
    proof {
        form.lemma_view();
    }
    expect_in_section(state)?;
    if form.exps.len() == 0 {
        return emit_zeros(state, 1);
    }
    let mut bytes: Vec<u8> = Vec::new();
    let mut i: usize = 0;
    while i < form.exps.len()
        invariant
            i <= form.exps.len(),
            bytes.len() == i,
            state@ == old(state)@,
            state@.wf(),
            state@.current is Some,
            form.exps.len() > 0,
            form@.exps == exps_view(form.exps@),
            first_other(form@.exps, 0) == first_other(form@.exps, i as int),
            forall|j: int| 0 <= j < i ==> bytes@[j] == low_byte(form@.exps[j]->Immediate_0),
        decreases form.exps.len() - i,
    {
        match &form.exps[i] {
            SExp::Immediate(v) => {
                bytes.push((*v % 256) as u8);
            },
            other => {
                let text = other.debug_text();
                return Err(AsmError::with(ErrorKind::NotAnImmediate, text.as_str()));
            },
        }
        i += 1;
    }
    assert(bytes@ =~= data_bytes(form@.exps));
    emit(state, &bytes)
}

/// The state after `ds`: as many zero bytes as the first argument says went
/// to the current section.
pub open spec fn ds_spec(st: StateView, form: FormView) -> Result<StateView, AsmErrorView> {
    if st.current is None {
        Err(plain(ErrorKind::NotInSection))
    } else if form.exps.len() == 0 {
        Err(plain(ErrorKind::DsNeedsLen))
    } else {
        match form.exps[0] {
            SExpView::Immediate(n) => emit_bytes(st, zeros(n as nat)),
            other => Err(failure(ErrorKind::NotAnImmediate, sexp_debug_text(other))),
        }
    }
}

/// `ds`: defines space.
pub fn ds(state: &mut State, form: &Form) -> (r: Result<(), AsmError>)
    requires
        old(state)@.wf(),
    ensures
        step_is(r, final(state)@, ds_spec(old(state)@, form@)),
        r is Err ==> final(state)@ == old(state)@,
        final(state)@.wf(),
{
    proof {
        form.lemma_view();
    }
    expect_in_section(state)?;
    if form.exps.len() == 0 {
        return Err(AsmError::plain(ErrorKind::DsNeedsLen));
    }
    let len = expect_immediate(&form.exps[0])?;
    emit_zeros(state, len)
}

/// The state after `label`: the label that is the first argument got the
/// current address.
pub open spec fn label_spec(st: StateView, form: FormView) -> Result<StateView, AsmErrorView> {
    if form.exps.len() == 0 {
        Err(plain(ErrorKind::LabelNeedsArgument))
    } else {
        match form.exps[0] {
            SExpView::Symbol(SymbolView::Label(name)) => define_label_spec(st, name),
            _ => Err(plain(ErrorKind::LabelNeedsLabel)),
        }
    }
}

/// `label`: defines a label.
pub fn label(state: &mut State, form: &Form) -> (r: Result<(), AsmError>)
    requires
        old(state)@.wf(),
    ensures
        step_is(r, final(state)@, label_spec(old(state)@, form@)),
        r is Err ==> final(state)@ == old(state)@,
        final(state)@.wf(),
{
    proof {
        form.lemma_view();
    }
    if form.exps.len() < 1 {
        return Err(AsmError::plain(ErrorKind::LabelNeedsArgument));
    }
    match &form.exps[0] {
        SExp::Symbol(Symbol::Label(lbl)) => define_label(state, lbl.clone()),
        _ => Err(AsmError::plain(ErrorKind::LabelNeedsLabel)),
    }
}

/// `sub-section`: kept for later; the state stays as it is.
pub fn sub_section(state: &mut State) -> (r: Result<(), AsmError>)
    ensures
        r is Ok,
        final(state)@ == old(state)@,
{
    Ok(())
}

/// The name of the file that `include` names: the string with `.asm`
/// behind it, and with `stdlib/` in front of it where `:std` comes first.
pub open spec fn include_file(form: FormView) -> Result<Seq<char>, AsmErrorView> {
    if form.exps.len() == 0 {
        Err(plain(ErrorKind::IncludeNeedsFile))
    } else if form.exps[0] == SExpView::Symbol(SymbolView::Keyword("std"@)) {
        if form.exps.len() < 2 {
            Err(failure(ErrorKind::ExpectedButNothing, "std include path required"@))
        } else {
            match form.exps[1] {
                SExpView::String(s) => Ok("stdlib/"@ + s + ".asm"@),
                _ => Err(plain(ErrorKind::StringExpected)),
            }
        }
    } else {
        match form.exps[0] {
            SExpView::String(s) => Ok(s + ".asm"@),
            _ => Err(plain(ErrorKind::StringExpected)),
        }
    }
}

/// `include`: the name of the file to read and assemble in this place.
pub fn include_directive(form: &Form) -> (r: Result<String, AsmError>)
    ensures
        match include_file(form@) {
            Ok(name) => r matches Ok(x) && x@ == name,
            Err(e) => r matches Err(x) && x@ == e,
        },
{
    proof {
        form.lemma_view();
    }
    if form.exps.len() == 0 {
        return Err(AsmError::plain(ErrorKind::IncludeNeedsFile));
    }
    if is_keyword(&form.exps[0], "std") {
        expect_has_sexp_at(&form.exps, 1, "std include path required")?;
        let std_file = expect_string(&form.exps[1])?;
        let mut name = String::from_str("stdlib/");
        name.append(std_file.as_str());
        name.append(".asm");
        Ok(name)
    } else {
        let mut name = expect_string(&form.exps[0])?;
        name.append(".asm");
        Ok(name)
    }
}

/// `nop`: assembles the instruction. Where it fails, nothing has changed.
pub fn nop(state: &mut State) -> (r: Result<(), AsmError>)
    requires
        old(state)@.wf(),
    ensures
        step_is(r, final(state)@, place_encoding(old(state)@, nop_encoding())),
        r is Err ==> final(state)@ == old(state)@,
        final(state)@.wf(),
{
    place(state, encode_nop())
}

/// `cp`: assembles the instruction. Where it fails, nothing has changed.
pub fn cp(state: &mut State, form: &Form) -> (r: Result<(), AsmError>)
    requires
        old(state)@.wf(),
    ensures
        step_is(r, final(state)@, place_result(old(state)@, cp_encoding(form@))),
        r is Err ==> final(state)@ == old(state)@,
        final(state)@.wf(),
{
    let enc = encode_cp(form)?;
    place(state, enc)
}

/// `inc`: assembles the instruction. Where it fails, nothing has changed.
pub fn inc(state: &mut State, form: &Form) -> (r: Result<(), AsmError>)
    requires
        old(state)@.wf(),
    ensures
        step_is(r, final(state)@, place_result(old(state)@, inc_encoding(form@))),
        r is Err ==> final(state)@ == old(state)@,
        final(state)@.wf(),
{
    let enc = encode_inc(form)?;
    place(state, enc)
}

/// `dec`: assembles the instruction. Where it fails, nothing has changed.
pub fn dec(state: &mut State, form: &Form) -> (r: Result<(), AsmError>)
    requires
        old(state)@.wf(),
    ensures
        step_is(r, final(state)@, place_result(old(state)@, dec_encoding(form@))),
        r is Err ==> final(state)@ == old(state)@,
        final(state)@.wf(),
{
    let enc = encode_dec(form)?;
    place(state, enc)
}

/// `ld`: assembles the instruction. Where it fails, nothing has changed.
pub fn ld(state: &mut State, form: &Form) -> (r: Result<(), AsmError>)
    requires
        old(state)@.wf(),
    ensures
        step_is(r, final(state)@, place_result(old(state)@, ld_encoding(form@))),
        r is Err ==> final(state)@ == old(state)@,
        final(state)@.wf(),
{
    let enc = encode_ld(form)?;
    place(state, enc)
}

/// `jp`: assembles the instruction. Where it fails, nothing has changed.
pub fn jp(state: &mut State, form: &Form) -> (r: Result<(), AsmError>)
    requires
        old(state)@.wf(),
    ensures
        step_is(r, final(state)@, place_result(old(state)@, jp_encoding(form@))),
        r is Err ==> final(state)@ == old(state)@,
        final(state)@.wf(),
{
    let enc = encode_jp(form)?;
    place(state, enc)
}

/// `jr`: assembles the instruction. Where it fails, nothing has changed.
pub fn jr(state: &mut State, form: &Form) -> (r: Result<(), AsmError>)
    requires
        old(state)@.wf(),
    ensures
        step_is(r, final(state)@, place_result(old(state)@, jr_encoding(form@))),
        r is Err ==> final(state)@ == old(state)@,
        final(state)@.wf(),
{
    let enc = encode_jr(form)?;
    place(state, enc)
}

/// The encoding of the form as the instruction that the operator `op`
/// names, if it names one.
pub open spec fn encoding_of(op: Seq<char>, form: FormView) -> Option<
    Result<EncodingView, AsmErrorView>,
> {
    if op == "ld"@ {
        Some(ld_encoding(form))
    } else if op == "jp"@ {
        Some(jp_encoding(form))
    } else if op == "inc"@ {
        Some(inc_encoding(form))
    } else if op == "dec"@ {
        Some(dec_encoding(form))
    } else if op == "jr"@ {
        Some(jr_encoding(form))
    } else if op == "cp"@ {
        Some(cp_encoding(form))
    } else if op == "nop"@ {
        Some(Ok(nop_encoding()))
    } else {
        None
    }
}

/// The state after the form with the plain operator `op`, a directive or
/// an instruction. The empty operator, that of a label-only form, and
/// `sub-section` leave the state as it is.
pub open spec fn directive(st: StateView, op: Seq<char>, form: FormView) -> Result<
    StateView,
    AsmErrorView,
> {
    if op == "def-section"@ {
        def_section_spec(st, form)
    } else if op == "section"@ {
        section_spec(st, form)
    } else if op == "db"@ {
        db_spec(st, form)
    } else if op == "ds"@ {
        ds_spec(st, form)
    } else if op == "label"@ {
        label_spec(st, form)
    } else if op == "sub-section"@ {
        Ok(st)
    } else {
        match encoding_of(op, form) {
            Some(enc) => place_result(st, enc),
            None => if op == ""@ {
                Ok(st)
            } else {
                Err(failure(ErrorKind::UnknownTopLevel, op))
            },
        }
    }
}

/// The state after one top-level form, and the file to include in its
/// place if the form is an `include`. The form's label, if it has one, is
/// defined first.
pub open spec fn step(st: StateView, form: FormView) -> Result<
    (StateView, Option<Seq<char>>),
    AsmErrorView,
> {
    match form.label {
        Some(name) => match define_label_spec(st, name) {
            Err(e) => Err(e),
            Ok(labelled) => dispatched(labelled, form),
        },
        None => dispatched(st, form),
    }
}

/// Assembles one top-level form; gives the name of the file to include in
/// its place, if it is an `include`. Where it fails, nothing has changed:
/// a label that was attached to the form has no address either.
pub fn assemble_form(state: &mut State, form: &Form) -> (r: Result<Option<String>, AsmError>)
    requires
        old(state)@.wf(),
    ensures
        match step(old(state)@, form@) {
            Ok((st, file)) => final(state)@ == st && match file {
                Some(name) => r matches Ok(Some(x)) && x@ == name,
                None => r matches Ok(None),
            },
            Err(e) => r matches Err(x) && x@ == e && final(state)@ == old(state)@,
        },
        final(state)@.wf(),
{
    proof {
        form.lemma_view();
    }
    if let Some(lbl) = &form.label {
        define_label(state, lbl.clone())?;
    }
    match dispatch(state, form) {
        Ok(file) => Ok(file),
        Err(e) => {
            if let Some(lbl) = &form.label {
                state.label_addresses.remove(lbl);
                assert(state@.labels =~= old(state)@.labels);
            }
            Err(e)
        },
    }
}

/// The state after the form without its label, and the file to include in
/// its place if the form is an `include`.
pub open spec fn dispatched(st: StateView, form: FormView) -> Result<
    (StateView, Option<Seq<char>>),
    AsmErrorView,
> {
    match form.op {
        SymbolView::Sym(op) => if op == "include"@ {
            match include_file(form) {
                Err(e) => Err(e),
                Ok(file) => Ok((st, Some(file))),
            }
        } else {
            match directive(st, op, form) {
                Err(e) => Err(e),
                Ok(next) => Ok((next, None)),
            }
        },
        other => Err(failure(ErrorKind::IllegalTopLevel, symbol_debug_text(other))),
    }
}

/// Assembles a form without its label. Where it fails, nothing has changed.
pub fn dispatch(state: &mut State, form: &Form) -> (r: Result<Option<String>, AsmError>)
    requires
        old(state)@.wf(),
    ensures
        match dispatched(old(state)@, form@) {
            Ok((st, file)) => final(state)@ == st && match file {
                Some(name) => r matches Ok(Some(x)) && x@ == name,
                None => r matches Ok(None),
            },
            Err(e) => r matches Err(x) && x@ == e && final(state)@ == old(state)@,
        },
        final(state)@.wf(),
{
    proof {
        form.lemma_view();
    }
    match &form.op {
        Symbol::Sym(sym_name) => {
            if is_text(sym_name, "include") {
                let file = include_directive(form)?;
                Ok(Some(file))
            } else {
                let done = if is_text(sym_name, "def-section") {
                    def_section(state, form)
                } else if is_text(sym_name, "section") {
                    section(state, form)
                } else if is_text(sym_name, "db") {
                    db(state, form)
                } else if is_text(sym_name, "ds") {
                    ds(state, form)
                } else if is_text(sym_name, "label") {
                    label(state, form)
                } else if is_text(sym_name, "sub-section") {
                    sub_section(state)
                } else if is_text(sym_name, "ld") {
                    ld(state, form)
                } else if is_text(sym_name, "jp") {
                    jp(state, form)
                } else if is_text(sym_name, "inc") {
                    inc(state, form)
                } else if is_text(sym_name, "dec") {
                    dec(state, form)
                } else if is_text(sym_name, "jr") {
                    jr(state, form)
                } else if is_text(sym_name, "cp") {
                    cp(state, form)
                } else if is_text(sym_name, "nop") {
                    nop(state)
                } else if is_text(sym_name, "") {
                    Ok(())
                } else {
                    Err(AsmError::with(ErrorKind::UnknownTopLevel, sym_name.as_str()))
                };
                match done {
                    Ok(()) => Ok(None),
                    Err(e) => Err(e),
                }
            }
        },
        sym => {
            let text = sym.debug_text();
            Err(AsmError::with(ErrorKind::IllegalTopLevel, text.as_str()))
        },
    }
}

/// How far a run over the forms of a unit came.
pub enum Progress {
    /// Behind the last form.
    Done,
    /// At an `include`: the file `file_name` is to be assembled into the
    /// same state, and the run goes on at the form `resume_at`.
    Include { file_name: String, resume_at: usize },
}

/// What a `Progress` holds.
pub enum ProgressView {
    Done,
    Include { file_name: Seq<char>, resume_at: nat },
}

impl View for Progress {
    type V = ProgressView;

    open spec fn view(&self) -> ProgressView {
        match self {
            Progress::Done => ProgressView::Done,
            Progress::Include { file_name, resume_at } => ProgressView::Include {
                file_name: file_name@,
                resume_at: *resume_at as nat,
            },
        }
    }
}

/// The state after the forms `forms[start..]`, up to the end or up to the
/// first `include`.
pub open spec fn run(forms: Seq<FormView>, start: int, st: StateView) -> Result<
    (StateView, ProgressView),
    AsmErrorView,
>
    decreases forms.len() - start,
{
    if start < 0 || start >= forms.len() {
        Ok((st, ProgressView::Done))
    } else {
        match step(st, forms[start]) {
            Err(e) => Err(e),
            Ok((next, Some(file_name))) => Ok(
                (next, ProgressView::Include { file_name, resume_at: (start + 1) as nat }),
            ),
            Ok((next, None)) => run(forms, start + 1, next),
        }
    }
}

/// The state that a run over `forms[start..]` leaves: that behind the last
/// form, behind the first `include`, or before the first form that fails.
pub open spec fn run_state(forms: Seq<FormView>, start: int, st: StateView) -> StateView
    decreases forms.len() - start,
{
    if start < 0 || start >= forms.len() {
        st
    } else {
        match step(st, forms[start]) {
            Err(_) => st,
            Ok((next, Some(_))) => next,
            Ok((next, None)) => run_state(forms, start + 1, next),
        }
    }
}

/// Assembles the forms of `pasm` from the form `start` on into `state`, up
/// to the end or up to the first `include`. Where a form fails, the state
/// is the one that the forms before it left.
pub fn assemble_in_state(pasm: &TopLevel, start: usize, state: &mut State) -> (r: Result<
    Progress,
    AsmError,
>)
    requires
        old(state)@.wf(),
    ensures
        match run(pasm@, start as int, old(state)@) {
            Ok((st, progress)) => r matches Ok(x) && x@ == progress && final(state)@ == st,
            Err(e) => r matches Err(x) && x@ == e,
        },
        final(state)@ == run_state(pasm@, start as int, old(state)@),
        final(state)@.wf(),
{
    let mut i: usize = start;
    while i < pasm.forms.len()
        invariant
            state@.wf(),
            run(pasm@, start as int, old(state)@) == run(pasm@, i as int, state@),
            run_state(pasm@, start as int, old(state)@) == run_state(pasm@, i as int, state@),
        decreases pasm.forms.len() - i,
    {
        match assemble_form(state, &pasm.forms[i])? {
            Some(file_name) => {
                return Ok(Progress::Include { file_name, resume_at: i + 1 });
            },
            None => {},
        }
        i += 1;
    }
    Ok(Progress::Done)
}

/// The image of the state `st` after its waiting places got their bytes.
pub open spec fn finish_spec(st: StateView, flat: bool) -> Result<Seq<u8>, AsmErrorView> {
    match resolve_from(st.sections, st.labels, st.pending, 0) {
        Err(e) => Err(e),
        Ok(sections) => if flat {
            flat_image(sections)
        } else {
            Err(plain(ErrorKind::ObjectFileUnsupported))
        },
    }
}

/// Whether an image result stands for `spec`.
pub open spec fn image_is(r: Result<Vec<u8>, AsmError>, spec: Result<Seq<u8>, AsmErrorView>) -> bool {
    match spec {
        Ok(bytes) => r matches Ok(out) && out@ == bytes,
        Err(e) => r matches Err(x) && x@ == e,
    }
}

/// Ends an assembly: gives the waiting places their bytes and lays the
/// sections out as a flat image. The state keeps the bytes of the places
/// that were filled, and is else as it was.
pub fn finish(state: &mut State, flat: bool) -> (r: Result<Vec<u8>, AsmError>)
    requires
        old(state)@.wf(),
    ensures
        image_is(r, finish_spec(old(state)@, flat)),
        r matches Ok(out) ==> out@.len() == image_len(old(state)@.sections),
        final(state)@ == (StateView {
            sections: resolved_sections(
                old(state)@.sections,
                old(state)@.labels,
                old(state)@.pending,
                0,
            ),
            ..old(state)@
        }),
{
    try_resolve(state)?;
    proof {
        lemma_image_len_of_shape(old(state)@.sections, state@.sections);
    }
    if flat {
        state_to_flat(state)
    } else {
        Err(AsmError::plain(ErrorKind::ObjectFileUnsupported))
    }
}

/// The image that the forms `forms` assemble to. A unit with an `include`
/// has none here: its files are for a driver to read.
pub open spec fn assemble_spec(forms: Seq<FormView>, flat: bool) -> Result<Seq<u8>, AsmErrorView> {
    match run(forms, 0, initial_state()) {
        Err(e) => Err(e),
        Ok((st, ProgressView::Include { file_name, .. })) => Err(
            failure(ErrorKind::IncludeUnavailable, file_name),
        ),
        Ok((st, ProgressView::Done)) => finish_spec(st, flat),
    }
}

/// Assembles a unit that includes no files into its image.
pub fn assemble(pasm: TopLevel, options: Options) -> (r: Result<Vec<u8>, AsmError>)
    ensures
        image_is(r, assemble_spec(pasm@, options.flat)),
        r matches Ok(out) ==> run(pasm@, 0, initial_state()) matches Ok((st, _)) && out@.len()
            == image_len(st.sections),
{
    assemble_image(&pasm, options.flat)
}

/// Assembles a unit that includes no files into its image, a flat one
/// where `flat` is set.
pub fn assemble_image(pasm: &TopLevel, flat: bool) -> (r: Result<Vec<u8>, AsmError>)
    ensures
        image_is(r, assemble_spec(pasm@, flat)),
        r matches Ok(out) ==> run(pasm@, 0, initial_state()) matches Ok((st, _)) && out@.len()
            == image_len(st.sections),
{
    let mut state = State::new();
    match assemble_in_state(pasm, 0, &mut state)? {
        Progress::Include { file_name, .. } => Err(
            AsmError::with(ErrorKind::IncludeUnavailable, file_name.as_str()),
        ),
        Progress::Done => finish(&mut state, flat),
    }
}

} // verus!

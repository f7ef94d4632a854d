use crate::arch::sm83::{
    FLAG_C, FLAG_NZ, OP_CP, OP_DEC_A, OP_DEC_B, OP_DEC_BC, OP_DEC_DE, OP_DEC_HL, OP_INC_A,
    OP_INC_B, OP_INC_BC, OP_INC_DE, OP_INC_HL, OP_JP, OP_JP_C, OP_JR, OP_JR_C, OP_JR_NZ, OP_LD_A,
    OP_LD_B, OP_LD_BC, OP_LD_DE, OP_LD_HL, OP_LD_TO_ADDRESS_FROM_A, OP_LD_TO_A_FROM_ADDRESS,
    OP_LD_TO_A_FROM_DEREF_BC, OP_LD_TO_A_FROM_DEREF_DE, OP_LD_TO_A_FROM_DEREF_HL,
    OP_LD_TO_A_FROM_DEREF_HL_INC, OP_LD_TO_DEREF_BC_FROM_A, OP_LD_TO_DEREF_DE_FROM_A,
    OP_LD_TO_DEREF_HL, OP_LD_TO_DEREF_HL_FROM_A, OP_NOP, REG_A, REG_B, REG_BC, REG_DE, REG_HL,
};
use crate::assembly::error::{failure, plain, AsmError, AsmErrorView, ErrorKind};
use crate::assembly::parser::{
    sexp_debug_text, symbol_debug_text, Form, FormView, Label, SExp, SExpView, Symbol, SymbolView,
};
use crate::assembly::text::{debug_quoted, is_text, quote};
use vstd::prelude::*;

verus! {

/// What is still to be written into the last bytes of an instruction.
pub enum Patch {
    /// Nothing.
    Nothing,
    /// Into the last byte, the distance from behind the instruction to the
    /// label.
    Relative(Label),
    /// Into the last two bytes, the value of the expression.
    Absolute(SExp),
}

/// What a `Patch` holds.
pub enum PatchView {
    Nothing,
    Relative(Seq<char>),
    Absolute(SExpView),
}

impl View for Patch {
    type V = PatchView;

    open spec fn view(&self) -> PatchView {
        match self {
            Patch::Nothing => PatchView::Nothing,
            Patch::Relative(l) => PatchView::Relative(l@),
            Patch::Absolute(e) => PatchView::Absolute(e@),
        }
    }
}

impl PatchView {
    /// The number of bytes that the patch fills.
    pub open spec fn width(self) -> nat {
        match self {
            PatchView::Nothing => 0,
            PatchView::Relative(_) => 1,
            PatchView::Absolute(_) => 2,
        }
    }
}

/// The bytes of one instruction, with zeros where `patch` goes.
pub struct Encoding {
    pub bytes: Vec<u8>,
    pub patch: Patch,
}

/// What an `Encoding` holds.
pub struct EncodingView {
    pub bytes: Seq<u8>,
    pub patch: PatchView,
}

impl View for Encoding {
    type V = EncodingView;

    open spec fn view(&self) -> EncodingView {
        EncodingView { bytes: self.bytes@, patch: self.patch@ }
    }
}

impl EncodingView {
    /// The patch has room in the bytes.
    pub open spec fn wf(self) -> bool {
        self.patch.width() <= self.bytes.len()
    }
}

/// The instruction `bytes` without a patch.
pub open spec fn complete(bytes: Seq<u8>) -> EncodingView {
    EncodingView { bytes, patch: PatchView::Nothing }
}

/// The low eight bits of `v`.
pub open spec fn low_byte(v: u64) -> u8 {
    (v % 256) as u8
}

/// The second eight bits of `v`.
pub open spec fn high_byte(v: u64) -> u8 {
    ((v / 256) % 256) as u8
}

/// Whether an encoder's result stands for `spec`.
pub open spec fn encoded_is(
    r: Result<Encoding, AsmError>,
    spec: Result<EncodingView, AsmErrorView>,
) -> bool {
    match spec {
        Ok(enc) => r matches Ok(x) && x@ == enc && enc.wf(),
        Err(e) => r matches Err(x) && x@ == e,
    }
}

/// The pair of `a` and `b` in `Debug` notation: both quoted, in brackets.
pub open spec fn pair_debug_text(a: Seq<char>, b: Seq<char>) -> Seq<char> {
    "("@ + debug_quoted(a) + ", "@ + debug_quoted(b) + ")"@
}

fn illegal(kind: ErrorKind, exp: &SExp) -> (r: AsmError)
    ensures
        r@ == failure(kind, sexp_debug_text(exp@)),
{
    let text = exp.debug_text();
    AsmError::with(kind, text.as_str())
}

fn illegal_deref(f: &Form) -> (r: AsmError)
    ensures
        r@ == failure(ErrorKind::LdIllegalDeref, symbol_debug_text(f@.op)),
{
    proof {
        f.lemma_view();
    }
    let text = f.op.debug_text();
    AsmError::with(ErrorKind::LdIllegalDeref, text.as_str())
}

fn illegal_pair(a: &str, b: &str) -> (r: AsmError)
    ensures
        r@ == failure(ErrorKind::LdIllegalDerefFromReg, pair_debug_text(a@, b@)),
{
    let mut text = String::from_str("(");
    let first = quote(a);
    let second = quote(b);
    text.append(first.as_str());
    text.append(", ");
    text.append(second.as_str());
    text.append(")");
    AsmError::with(ErrorKind::LdIllegalDerefFromReg, text.as_str())
}

fn low(v: u64) -> (r: u8)
    ensures
        r == low_byte(v),
{
    (v % 256) as u8
}

fn high(v: u64) -> (r: u8)
    ensures
        r == high_byte(v),
{
    ((v / 256) % 256) as u8
}

fn one(a: u8) -> (r: Encoding)
    ensures
        r@ == complete(seq![a]),
{
    let mut bytes = Vec::new();
    bytes.push(a);
    Encoding { bytes, patch: Patch::Nothing }
}

fn two(a: u8, b: u8) -> (r: Encoding)
    ensures
        r@ == complete(seq![a, b]),
{
    let mut bytes = Vec::new();
    bytes.push(a);
    bytes.push(b);
    assert(bytes@ =~= seq![a, b]);
    Encoding { bytes, patch: Patch::Nothing }
}

fn three(a: u8, b: u8, c: u8, patch: Patch) -> (r: Encoding)
    ensures
        r@ == (EncodingView { bytes: seq![a, b, c], patch: patch@ }),
{
    let mut bytes = Vec::new();
    bytes.push(a);
    bytes.push(b);
    bytes.push(c);
    assert(bytes@ =~= seq![a, b, c]);
    Encoding { bytes, patch }
}

/// `nop`: one byte.
pub open spec fn nop_encoding() -> EncodingView {
    complete(seq![OP_NOP])
}

/// Encodes `nop`.
pub fn encode_nop() -> (r: Encoding)
    ensures
        r@ == nop_encoding(),
        r@.wf(),
{
    one(OP_NOP)
}

/// `cp` with a number: the opcode and the number's low byte.
pub open spec fn cp_encoding(form: FormView) -> Result<EncodingView, AsmErrorView> {
    if form.exps.len() != 1 {
        Err(plain(ErrorKind::CpNeedsOneArgument))
    } else {
        match form.exps[0] {
            SExpView::Immediate(v) => Ok(complete(seq![OP_CP, low_byte(v)])),
            other => Err(failure(ErrorKind::CpIllegalArgument, sexp_debug_text(other))),
        }
    }
}

/// Encodes `cp`.
pub fn encode_cp(form: &Form) -> (r: Result<Encoding, AsmError>)
    ensures
        encoded_is(r, cp_encoding(form@)),
{
    proof {
        form.lemma_view();
    }
    if form.exps.len() != 1 {
        return Err(AsmError::plain(ErrorKind::CpNeedsOneArgument));
    }
    match &form.exps[0] {
        SExp::Immediate(v) => Ok(two(OP_CP, low(*v))),
        other => Err(illegal(ErrorKind::CpIllegalArgument, other)),
    }
}

/// The opcode that increments the register `reg`.
pub open spec fn inc_opcode(reg: Seq<char>) -> Option<u8> {
    if reg == REG_A@ {
        Some(OP_INC_A)
    } else if reg == REG_B@ {
        Some(OP_INC_B)
    } else if reg == REG_BC@ {
        Some(OP_INC_BC)
    } else if reg == REG_DE@ {
        Some(OP_INC_DE)
    } else if reg == REG_HL@ {
        Some(OP_INC_HL)
    } else {
        None
    }
}

/// The opcode that decrements the register `reg`.
pub open spec fn dec_opcode(reg: Seq<char>) -> Option<u8> {
    if reg == REG_A@ {
        Some(OP_DEC_A)
    } else if reg == REG_B@ {
        Some(OP_DEC_B)
    } else if reg == REG_BC@ {
        Some(OP_DEC_BC)
    } else if reg == REG_DE@ {
        Some(OP_DEC_DE)
    } else if reg == REG_HL@ {
        Some(OP_DEC_HL)
    } else {
        None
    }
}

/// `inc` of a register: one byte.
pub open spec fn inc_encoding(form: FormView) -> Result<EncodingView, AsmErrorView> {
    if form.exps.len() != 1 {
        Err(plain(ErrorKind::IncNeedsOneArgument))
    } else {
        match form.exps[0] {
            SExpView::Symbol(SymbolView::Reg(reg)) => match inc_opcode(reg) {
                Some(op) => Ok(complete(seq![op])),
                None => Err(failure(ErrorKind::IncUnknownRegister, reg)),
            },
            other => Err(failure(ErrorKind::IncIllegalArgument, sexp_debug_text(other))),
        }
    }
}

/// `dec` of a register: one byte.
pub open spec fn dec_encoding(form: FormView) -> Result<EncodingView, AsmErrorView> {
    if form.exps.len() != 1 {
        Err(plain(ErrorKind::DecNeedsOneArgument))
    } else {
        match form.exps[0] {
            SExpView::Symbol(SymbolView::Reg(reg)) => match dec_opcode(reg) {
                Some(op) => Ok(complete(seq![op])),
                None => Err(failure(ErrorKind::DecUnknownRegister, reg)),
            },
            other => Err(failure(ErrorKind::DecIllegalArgument, sexp_debug_text(other))),
        }
    }
}

fn opcode_of_inc(reg: &String) -> (r: Option<u8>)
    ensures
        r == inc_opcode(reg@),
{
    if is_text(reg, REG_A) {
        Some(OP_INC_A)
    } else if is_text(reg, REG_B) {
        Some(OP_INC_B)
    } else if is_text(reg, REG_BC) {
        Some(OP_INC_BC)
    } else if is_text(reg, REG_DE) {
        Some(OP_INC_DE)
    } else if is_text(reg, REG_HL) {
        Some(OP_INC_HL)
    } else {
        None
    }
}

fn opcode_of_dec(reg: &String) -> (r: Option<u8>)
    ensures
        r == dec_opcode(reg@),
{
    if is_text(reg, REG_A) {
        Some(OP_DEC_A)
    } else if is_text(reg, REG_B) {
        Some(OP_DEC_B)
    } else if is_text(reg, REG_BC) {
        Some(OP_DEC_BC)
    } else if is_text(reg, REG_DE) {
        Some(OP_DEC_DE)
    } else if is_text(reg, REG_HL) {
        Some(OP_DEC_HL)
    } else {
        None
    }
}

/// Encodes `inc`.
pub fn encode_inc(form: &Form) -> (r: Result<Encoding, AsmError>)
    ensures
        encoded_is(r, inc_encoding(form@)),
{
    proof {
        form.lemma_view();
    }
    if form.exps.len() != 1 {
        return Err(AsmError::plain(ErrorKind::IncNeedsOneArgument));
    }
    match &form.exps[0] {
        SExp::Symbol(Symbol::Reg(reg)) => match opcode_of_inc(reg) {
            Some(op) => Ok(one(op)),
            None => Err(AsmError::with(ErrorKind::IncUnknownRegister, reg.as_str())),
        },
        other => Err(illegal(ErrorKind::IncIllegalArgument, other)),
    }
}

/// Encodes `dec`.
pub fn encode_dec(form: &Form) -> (r: Result<Encoding, AsmError>)
    ensures
        encoded_is(r, dec_encoding(form@)),
{
    proof {
        form.lemma_view();
    }
    if form.exps.len() != 1 {
        return Err(AsmError::plain(ErrorKind::DecNeedsOneArgument));
    }
    match &form.exps[0] {
        SExp::Symbol(Symbol::Reg(reg)) => match opcode_of_dec(reg) {
            Some(op) => Ok(one(op)),
            None => Err(AsmError::with(ErrorKind::DecUnknownRegister, reg.as_str())),
        },
        other => Err(illegal(ErrorKind::DecIllegalArgument, other)),
    }
}

/// The opcode of the absolute jump taken on `flag`.
pub open spec fn jp_opcode(flag: Option<Seq<char>>) -> Option<u8> {
    match flag {
        None => Some(OP_JP),
        Some(f) => if f == FLAG_C@ {
            Some(OP_JP_C)
        } else {
            None
        },
    }
}

/// The opcode of the relative jump taken on `flag`.
pub open spec fn jr_opcode(flag: Option<Seq<char>>) -> Option<u8> {
    match flag {
        None => Some(OP_JR),
        Some(f) => if f == FLAG_NZ@ {
            Some(OP_JR_NZ)
        } else if f == FLAG_C@ {
            Some(OP_JR_C)
        } else {
            None
        },
    }
}

/// `jp` to a label, or on a flag to a label: the opcode and two bytes for
/// the label's address.
pub open spec fn jp_encoding(form: FormView) -> Result<EncodingView, AsmErrorView> {
    let n = form.exps.len();
    if n != 1 && n != 2 {
        Err(plain(ErrorKind::JpNeedsArgument))
    } else if n == 2 && !(form.exps[0] matches SExpView::Symbol(SymbolView::Flag(_))) {
        Err(plain(ErrorKind::JpNeedsArgument))
    } else {
        let flag = if n == 2 {
            Some(form.exps[0]->Symbol_0->Flag_0)
        } else {
            None
        };
        match form.exps[n - 1] {
            SExpView::Symbol(SymbolView::Label(_)) => match jp_opcode(flag) {
                Some(op) => Ok(
                    EncodingView {
                        bytes: seq![op, 0u8, 0u8],
                        patch: PatchView::Absolute(form.exps[n - 1]),
                    },
                ),
                None => Err(failure(ErrorKind::JpUnknownFlag, flag->0)),
            },
            _ => Err(plain(ErrorKind::LabelExpected)),
        }
    }
}

/// `jr` to a label, or on a flag to a label: the opcode and one byte for
/// the distance. What follows the label is not read.
pub open spec fn jr_encoding(form: FormView) -> Result<EncodingView, AsmErrorView> {
    if form.exps.len() == 0 {
        Err(plain(ErrorKind::JrNeedsArgument))
    } else {
        let flagged = form.exps[0] matches SExpView::Symbol(SymbolView::Flag(_));
        let flag = if flagged {
            Some(form.exps[0]->Symbol_0->Flag_0)
        } else {
            None
        };
        let at: int = if flagged {
            1
        } else {
            0
        };
        if at >= form.exps.len() {
            Err(plain(ErrorKind::JrNeedsArgument))
        } else {
            match form.exps[at] {
                SExpView::Symbol(SymbolView::Label(name)) => match jr_opcode(flag) {
                    Some(op) => Ok(
                        EncodingView { bytes: seq![op, 0u8], patch: PatchView::Relative(name) },
                    ),
                    None => Err(failure(ErrorKind::JrUnknownFlag, flag->0)),
                },
                _ => Err(failure(ErrorKind::JrOnlyLabels, sexp_debug_text(form.exps[0]))),
            }
        }
    }
}

/// The flag that `exp` is, if it is one.
pub fn is_flag(exp: &SExp) -> (r: Option<&String>)
    ensures
        match exp@ {
            SExpView::Symbol(SymbolView::Flag(f)) => r matches Some(s) && s@ == f,
            _ => r is None,
        },
{
    match exp {
        SExp::Symbol(Symbol::Flag(flg)) => Some(flg),
        _ => None,
    }
}

/// The label that `exp` is, if it is one.
pub fn is_label(exp: &SExp) -> (r: Option<&Label>)
    ensures
        match exp@ {
            SExpView::Symbol(SymbolView::Label(l)) => r matches Some(s) && s@ == l,
            _ => r is None,
        },
{
    match exp {
        SExp::Symbol(Symbol::Label(lbl)) => Some(lbl),
        _ => None,
    }
}

/// Encodes `jp`.
pub fn encode_jp(form: &Form) -> (r: Result<Encoding, AsmError>)
    ensures
        encoded_is(r, jp_encoding(form@)),
{
    proof {
        form.lemma_view();
    }
    let n = form.exps.len();
    if n != 1 && n != 2 {
        return Err(AsmError::plain(ErrorKind::JpNeedsArgument));
    }
    let flag: Option<&String> = if n == 2 {
        match is_flag(&form.exps[0]) {
            Some(f) => Some(f),
            None => {
                return Err(AsmError::plain(ErrorKind::JpNeedsArgument));
            },
        }
    } else {
        None
    };
    if is_label(&form.exps[n - 1]).is_none() {
        return Err(AsmError::plain(ErrorKind::LabelExpected));
    }
    let op = match flag {
        None => OP_JP,
        Some(f) => if is_text(f, FLAG_C) {
            OP_JP_C
        } else {
            return Err(AsmError::with(ErrorKind::JpUnknownFlag, f.as_str()));
        },
    };
    Ok(three(op, 0, 0, Patch::Absolute(form.exps[n - 1].clone())))
}

/// Encodes `jr`.
pub fn encode_jr(form: &Form) -> (r: Result<Encoding, AsmError>)
    ensures
        encoded_is(r, jr_encoding(form@)),
{
    proof {
        form.lemma_view();
    }
    if form.exps.len() == 0 {
        return Err(AsmError::plain(ErrorKind::JrNeedsArgument));
    }
    let flag = is_flag(&form.exps[0]);
    let at: usize = if flag.is_some() {
        1
    } else {
        0
    };
    if at >= form.exps.len() {
        return Err(AsmError::plain(ErrorKind::JrNeedsArgument));
    }
    match is_label(&form.exps[at]) {
        None => Err(illegal(ErrorKind::JrOnlyLabels, &form.exps[0])),
        Some(lbl) => {
            let op = match flag {
                None => OP_JR,
                Some(f) => if is_text(f, FLAG_NZ) {
                    OP_JR_NZ
                } else if is_text(f, FLAG_C) {
                    OP_JR_C
                } else {
                    return Err(AsmError::with(ErrorKind::JrUnknownFlag, f.as_str()));
                },
            };
            let mut bytes = Vec::new();
            bytes.push(op);
            bytes.push(0u8);
            assert(bytes@ =~= seq![op, 0u8]);
            Ok(Encoding { bytes, patch: Patch::Relative(lbl.clone()) })
        },
    }
}


/// The opcode that loads a 16-bit value into the register pair `reg`.
pub open spec fn ld_pair_opcode(reg: Seq<char>) -> Option<u8> {
    if reg == REG_BC@ {
        Some(OP_LD_BC)
    } else if reg == REG_DE@ {
        Some(OP_LD_DE)
    } else if reg == REG_HL@ {
        Some(OP_LD_HL)
    } else {
        None
    }
}

/// The opcode that loads `a` from the memory at the register pair `reg`.
pub open spec fn ld_from_deref_opcode(reg: Seq<char>) -> Option<u8> {
    if reg == REG_BC@ {
        Some(OP_LD_TO_A_FROM_DEREF_BC)
    } else if reg == REG_DE@ {
        Some(OP_LD_TO_A_FROM_DEREF_DE)
    } else if reg == REG_HL@ {
        Some(OP_LD_TO_A_FROM_DEREF_HL)
    } else {
        None
    }
}

/// The opcode that stores `a` to the memory at the register pair `reg`.
pub open spec fn ld_to_deref_opcode(reg: Seq<char>) -> Option<u8> {
    if reg == REG_BC@ {
        Some(OP_LD_TO_DEREF_BC_FROM_A)
    } else if reg == REG_DE@ {
        Some(OP_LD_TO_DEREF_DE_FROM_A)
    } else if reg == REG_HL@ {
        Some(OP_LD_TO_DEREF_HL_FROM_A)
    } else {
        None
    }
}

/// The label that the form dereferences, if it is `('label)`.
pub open spec fn deref_label(f: FormView) -> Option<Seq<char>> {
    if f.label is Some && f.op == SymbolView::Sym(Seq::empty()) && f.exps.len() == 0 {
        f.label
    } else {
        None
    }
}

/// The three bytes that load the value of `expr` into the pair `reg`.
pub open spec fn ld_pair_encoding(reg: Seq<char>, expr: SExpView) -> Result<
    EncodingView,
    AsmErrorView,
> {
    match ld_pair_opcode(reg) {
        Some(op) => Ok(EncodingView { bytes: seq![op, 0u8, 0u8], patch: PatchView::Absolute(expr) }),
        None => Err(failure(ErrorKind::LdUnknownTargetRegister, reg)),
    }
}

/// `ld` of a number into the register `reg`: two bytes for `a` and `b`,
/// three for `hl`, which takes sixteen bits.
pub open spec fn ld_immediate_encoding(reg: Seq<char>, v: u64) -> Result<
    EncodingView,
    AsmErrorView,
> {
    if reg == REG_A@ {
        Ok(complete(seq![OP_LD_A, low_byte(v)]))
    } else if reg == REG_B@ {
        Ok(complete(seq![OP_LD_B, low_byte(v)]))
    } else if reg == REG_HL@ {
        Ok(complete(seq![OP_LD_HL, low_byte(v), high_byte(v)]))
    } else {
        Err(failure(ErrorKind::LdUnknownTargetRegister, reg))
    }
}

/// `ld` into the register `reg` from what the form `f` stands for: the
/// memory at a register pair, `(%hl +)`, the memory at a label, or else the
/// value of `f` as an address expression.
pub open spec fn ld_from_form_encoding(reg: Seq<char>, f: FormView) -> Result<
    EncodingView,
    AsmErrorView,
> {
    match f.op {
        SymbolView::Reg(src) => if reg != REG_A@ {
            Err(failure(ErrorKind::LdUnknownTargetRegister, reg))
        } else if f.exps.len() == 0 {
            match ld_from_deref_opcode(src) {
                Some(op) => Ok(complete(seq![op])),
                None => Err(failure(ErrorKind::LdUnknownDerefRegister, src)),
            }
        } else if f.exps[0] == SExpView::Symbol(SymbolView::Sym("+"@)) {
            if src == REG_HL@ {
                Ok(complete(seq![OP_LD_TO_A_FROM_DEREF_HL_INC]))
            } else {
                Err(failure(ErrorKind::LdUnknownDerefRegister, src))
            }
        } else {
            Err(failure(ErrorKind::LdIllegalDeref, symbol_debug_text(f.op)))
        },
        _ => if f.label is Some {
            match deref_label(f) {
                None => Err(failure(ErrorKind::LdIllegalDeref, symbol_debug_text(f.op))),
                Some(l) => if reg == REG_A@ {
                    Ok(
                        EncodingView {
                            bytes: seq![OP_LD_TO_A_FROM_ADDRESS, 0u8, 0u8],
                            patch: PatchView::Absolute(SExpView::Symbol(SymbolView::Label(l))),
                        },
                    )
                } else {
                    Err(failure(ErrorKind::LdUnknownTargetRegister, reg))
                },
            }
        } else {
            ld_pair_encoding(reg, SExpView::Form(f))
        },
    }
}

/// `ld` of a number to the memory that the form `f` names: `(%hl)` only.
pub open spec fn ld_to_deref_immediate_encoding(f: FormView, v: u64) -> Result<
    EncodingView,
    AsmErrorView,
> {
    match f.op {
        SymbolView::Reg(dst) => if dst == REG_HL@ {
            Ok(complete(seq![OP_LD_TO_DEREF_HL, low_byte(v)]))
        } else {
            Err(failure(ErrorKind::LdUnknownDerefRegister, dst))
        },
        _ => Err(failure(ErrorKind::LdIllegalDeref, symbol_debug_text(f.op))),
    }
}

/// `ld` of the register `src` to the memory that the form `f` names: at a
/// register pair or at a label, from `a` only.
pub open spec fn ld_to_deref_encoding(f: FormView, src: Seq<char>) -> Result<
    EncodingView,
    AsmErrorView,
> {
    match f.op {
        SymbolView::Reg(dst) => if src == REG_A@ {
            match ld_to_deref_opcode(dst) {
                Some(op) => Ok(complete(seq![op])),
                None => Err(failure(ErrorKind::LdIllegalDerefFromReg, pair_debug_text(dst, src))),
            }
        } else {
            Err(failure(ErrorKind::LdIllegalDerefFromReg, pair_debug_text(dst, src)))
        },
        _ => match deref_label(f) {
            None => Err(failure(ErrorKind::LdIllegalDeref, symbol_debug_text(f.op))),
            Some(l) => if src == REG_A@ {
                Ok(
                    EncodingView {
                        bytes: seq![OP_LD_TO_ADDRESS_FROM_A, 0u8, 0u8],
                        patch: PatchView::Absolute(SExpView::Symbol(SymbolView::Label(l))),
                    },
                )
            } else {
                Err(failure(ErrorKind::LdIllegalDerefFromReg, pair_debug_text(l, src)))
            },
        },
    }
}

/// `ld` with a target and a source; their shapes choose the instruction.
/// What follows the source is not read.
pub open spec fn ld_encoding(form: FormView) -> Result<EncodingView, AsmErrorView> {
    if form.exps.len() < 2 {
        Err(plain(ErrorKind::LdNeedsTwoArguments))
    } else {
        match (form.exps[0], form.exps[1]) {
            (
                SExpView::Symbol(SymbolView::Reg(reg)),
                SExpView::Symbol(SymbolView::Label(_)),
            ) => ld_pair_encoding(reg, form.exps[1]),
            (SExpView::Symbol(SymbolView::Reg(reg)), SExpView::Immediate(v)) => {
                ld_immediate_encoding(reg, v)
            },
            (SExpView::Symbol(SymbolView::Reg(reg)), SExpView::Form(f)) => ld_from_form_encoding(
                reg,
                f,
            ),
            (SExpView::Form(f), SExpView::Immediate(v)) => ld_to_deref_immediate_encoding(f, v),
            (SExpView::Form(f), SExpView::Symbol(SymbolView::Reg(src))) => ld_to_deref_encoding(
                f,
                src,
            ),
            _ => Err(
                failure(
                    ErrorKind::LdIllegalParameters,
                    sexp_debug_text(form.exps[0]) + " "@ + sexp_debug_text(form.exps[1]),
                ),
            ),
        }
    }
}

fn opcode_of_ld_pair(reg: &String) -> (r: Option<u8>)
    ensures
        r == ld_pair_opcode(reg@),
{
    if is_text(reg, REG_BC) {
        Some(OP_LD_BC)
    } else if is_text(reg, REG_DE) {
        Some(OP_LD_DE)
    } else if is_text(reg, REG_HL) {
        Some(OP_LD_HL)
    } else {
        None
    }
}

fn opcode_of_ld_from_deref(reg: &String) -> (r: Option<u8>)
    ensures
        r == ld_from_deref_opcode(reg@),
{
    if is_text(reg, REG_BC) {
        Some(OP_LD_TO_A_FROM_DEREF_BC)
    } else if is_text(reg, REG_DE) {
        Some(OP_LD_TO_A_FROM_DEREF_DE)
    } else if is_text(reg, REG_HL) {
        Some(OP_LD_TO_A_FROM_DEREF_HL)
    } else {
        None
    }
}

fn opcode_of_ld_to_deref(reg: &String) -> (r: Option<u8>)
    ensures
        r == ld_to_deref_opcode(reg@),
{
    if is_text(reg, REG_BC) {
        Some(OP_LD_TO_DEREF_BC_FROM_A)
    } else if is_text(reg, REG_DE) {
        Some(OP_LD_TO_DEREF_DE_FROM_A)
    } else if is_text(reg, REG_HL) {
        Some(OP_LD_TO_DEREF_HL_FROM_A)
    } else {
        None
    }
}

/// The label that the form dereferences, if it is `('label)`.
pub fn expect_deref_label(f: &Form) -> (r: Option<&Label>)
    ensures
        match deref_label(f@) {
            Some(l) => r matches Some(x) && x@ == l,
            None => r is None,
        },
{
    proof {
        f.lemma_view();
    }
    match &f.label {
        None => None,
        Some(l) => match &f.op {
            Symbol::Sym(op) => if is_text(op, "") && f.exps.len() == 0 {
                proof {
                    reveal_strlit("");
                    assert(op@ =~= Seq::empty());
                }
                Some(l)
            } else {
                proof {
                    reveal_strlit("");
                    assert(""@ =~= Seq::<char>::empty());
                }
                None
            },
            _ => None,
        },
    }
}

fn encode_ld_pair(reg: &String, expr: SExp) -> (r: Result<Encoding, AsmError>)
    ensures
        encoded_is(r, ld_pair_encoding(reg@, expr@)),
{
    match opcode_of_ld_pair(reg) {
        Some(op) => Ok(three(op, 0, 0, Patch::Absolute(expr))),
        None => Err(AsmError::with(ErrorKind::LdUnknownTargetRegister, reg.as_str())),
    }
}

fn encode_ld_immediate(reg: &String, v: u64) -> (r: Result<Encoding, AsmError>)
    ensures
        encoded_is(r, ld_immediate_encoding(reg@, v)),
{
    if is_text(reg, REG_A) {
        Ok(two(OP_LD_A, low(v)))
    } else if is_text(reg, REG_B) {
        Ok(two(OP_LD_B, low(v)))
    } else if is_text(reg, REG_HL) {
        Ok(three(OP_LD_HL, low(v), high(v), Patch::Nothing))
    } else {
        Err(AsmError::with(ErrorKind::LdUnknownTargetRegister, reg.as_str()))
    }
}

fn is_plus(exp: &SExp) -> (r: bool)
    ensures
        r == (exp@ == SExpView::Symbol(SymbolView::Sym("+"@))),
{
    match exp {
        SExp::Symbol(Symbol::Sym(s)) => is_text(s, "+"),
        _ => false,
    }
}

fn label_expression(l: &Label) -> (r: SExp)
    ensures
        r@ == SExpView::Symbol(SymbolView::Label(l@)),
{
    SExp::Symbol(Symbol::Label(l.clone()))
}

fn encode_ld_from_form(reg: &String, f: &Form) -> (r: Result<Encoding, AsmError>)
    ensures
        encoded_is(r, ld_from_form_encoding(reg@, f@)),
{
    proof {
        f.lemma_view();
    }
    match &f.op {
        Symbol::Reg(src) => {
            if !is_text(reg, REG_A) {
                Err(AsmError::with(ErrorKind::LdUnknownTargetRegister, reg.as_str()))
            } else if f.exps.len() == 0 {
                match opcode_of_ld_from_deref(src) {
                    Some(op) => Ok(one(op)),
                    None => Err(AsmError::with(ErrorKind::LdUnknownDerefRegister, src.as_str())),
                }
            } else if is_plus(&f.exps[0]) {
                if is_text(src, REG_HL) {
                    Ok(one(OP_LD_TO_A_FROM_DEREF_HL_INC))
                } else {
                    Err(AsmError::with(ErrorKind::LdUnknownDerefRegister, src.as_str()))
                }
            } else {
                Err(illegal_deref(f))
            }
        },
        _ => {
            if f.label.is_some() {
                match expect_deref_label(f) {
                    None => Err(illegal_deref(f)),
                    Some(l) => if is_text(reg, REG_A) {
                        Ok(three(OP_LD_TO_A_FROM_ADDRESS, 0, 0, Patch::Absolute(label_expression(l))))
                    } else {
                        Err(AsmError::with(ErrorKind::LdUnknownTargetRegister, reg.as_str()))
                    },
                }
            } else {
                encode_ld_pair(reg, SExp::Form(f.clone()))
            }
        },
    }
}

fn encode_ld_to_deref_immediate(f: &Form, v: u64) -> (r: Result<Encoding, AsmError>)
    ensures
        encoded_is(r, ld_to_deref_immediate_encoding(f@, v)),
{
    proof {
        f.lemma_view();
    }
    match &f.op {
        Symbol::Reg(dst) => if is_text(dst, REG_HL) {
            Ok(two(OP_LD_TO_DEREF_HL, low(v)))
        } else {
            Err(AsmError::with(ErrorKind::LdUnknownDerefRegister, dst.as_str()))
        },
        _ => Err(illegal_deref(f)),
    }
}

fn encode_ld_to_deref(f: &Form, src: &String) -> (r: Result<Encoding, AsmError>)
    ensures
        encoded_is(r, ld_to_deref_encoding(f@, src@)),
{
    proof {
        f.lemma_view();
    }
    match &f.op {
        Symbol::Reg(dst) => if is_text(src, REG_A) {
            match opcode_of_ld_to_deref(dst) {
                Some(op) => Ok(one(op)),
                None => Err(illegal_pair(dst.as_str(), src.as_str())),
            }
        } else {
            Err(illegal_pair(dst.as_str(), src.as_str()))
        },
        _ => match expect_deref_label(f) {
            None => Err(illegal_deref(f)),
            Some(l) => if is_text(src, REG_A) {
                Ok(three(OP_LD_TO_ADDRESS_FROM_A, 0, 0, Patch::Absolute(label_expression(l))))
            } else {
                Err(illegal_pair(l.name(), src.as_str()))
            },
        },
    }
}

/// Encodes `ld`.
pub fn encode_ld(form: &Form) -> (r: Result<Encoding, AsmError>)
    ensures
        encoded_is(r, ld_encoding(form@)),
{
    proof {
        form.lemma_view();
    }
    if form.exps.len() < 2 {
        return Err(AsmError::plain(ErrorKind::LdNeedsTwoArguments));
    }
    match (&form.exps[0], &form.exps[1]) {
        (SExp::Symbol(Symbol::Reg(reg)), SExp::Symbol(Symbol::Label(_))) => encode_ld_pair(
            reg,
            form.exps[1].clone(),
        ),
        (SExp::Symbol(Symbol::Reg(reg)), SExp::Immediate(v)) => encode_ld_immediate(reg, *v),
        (SExp::Symbol(Symbol::Reg(reg)), SExp::Form(f)) => encode_ld_from_form(reg, f),
        (SExp::Form(f), SExp::Immediate(v)) => encode_ld_to_deref_immediate(f, *v),
        (SExp::Form(f), SExp::Symbol(Symbol::Reg(src))) => encode_ld_to_deref(f, src),
        _ => {
            let mut text = form.exps[0].debug_text();
            let second = form.exps[1].debug_text();
            text.append(" ");
            text.append(second.as_str());
            Err(AsmError::with(ErrorKind::LdIllegalParameters, text.as_str()))
        },
    }
}

} // verus!

use crate::assembly::error::{failure, plain, AsmError, AsmErrorView, ErrorKind};
use crate::assembly::parser::{
    exps_view, sexp_debug_text, symbol_debug_text, Address, Form, SExp, SExpView, Symbol, SymbolView,
};
use crate::assembly::state::LabelTable;
use crate::assembly::text::{decimal, decimal_text, is_text};
use vstd::prelude::*;

verus! {

/// The address that the expression `e` stands for, given the labels'
/// addresses: a label stands for its address, `(+ ..)` for the sum of its
/// arguments and `(- a b ..)` for `a` less the others, taken one by one.
/// The arguments are taken from the left and the first failure is the
/// result; no intermediate result lies below zero or above `u64::MAX`.
pub open spec fn eval(e: SExpView, labels: Map<Seq<char>, Address>) -> Result<u64, AsmErrorView>
    decreases e, 0nat,
{
    match e {
        SExpView::Symbol(SymbolView::Label(name)) => if labels.contains_key(name) {
            Ok(labels[name].0)
        } else {
            Err(failure(ErrorKind::UndefinedLabel, name))
        },
        SExpView::Form(f) => match f.op {
            SymbolView::Sym(op) => if op == "-"@ {
                difference(f.exps, labels)
            } else if op == "+"@ {
                sum_from(f.exps, labels, 0, 0)
            } else {
                Err(failure(ErrorKind::IllegalOperator, op))
            },
            other => Err(failure(ErrorKind::IllegalOperatorSymbol, symbol_debug_text(other))),
        },
        other => Err(failure(ErrorKind::IllegalExpression, sexp_debug_text(other))),
    }
}

/// `acc` plus the values of `exps[i..]`.
pub open spec fn sum_from(
    exps: Seq<SExpView>,
    labels: Map<Seq<char>, Address>,
    i: int,
    acc: u64,
) -> Result<u64, AsmErrorView>
    decreases exps, exps.len() - i,
{
    if i < 0 || i >= exps.len() {
        Ok(acc)
    } else {
        match eval(exps[i], labels) {
            Err(e) => Err(e),
            Ok(v) => if acc + v > u64::MAX {
                Err(plain(ErrorKind::AddressOverflow))
            } else {
                sum_from(exps, labels, i + 1, (acc + v) as u64)
            },
        }
    }
}

/// `acc` less the values of `exps[i..]`, one by one.
pub open spec fn difference_from(
    exps: Seq<SExpView>,
    labels: Map<Seq<char>, Address>,
    i: int,
    acc: u64,
) -> Result<u64, AsmErrorView>
    decreases exps, exps.len() - i,
{
    if i < 0 || i >= exps.len() {
        Ok(acc)
    } else {
        match eval(exps[i], labels) {
            Err(e) => Err(e),
            Ok(v) => if acc < v {
                Err(plain(ErrorKind::NegativeAddress))
            } else {
                difference_from(exps, labels, i + 1, (acc - v) as u64)
            },
        }
    }
}

/// The value of the first of `exps` less the others; there are at least two.
pub open spec fn difference(exps: Seq<SExpView>, labels: Map<Seq<char>, Address>) -> Result<
    u64,
    AsmErrorView,
>
    decreases exps, exps.len() + 1,
{
    if exps.len() <= 1 {
        Err(failure(ErrorKind::MinusArity, decimal_text(exps.len())))
    } else {
        match eval(exps[0], labels) {
            Err(e) => Err(e),
            Ok(first) => difference_from(exps, labels, 1, first),
        }
    }
}

/// Whether an evaluation result stands for `spec`.
pub open spec fn eval_is(r: Result<Address, AsmError>, spec: Result<u64, AsmErrorView>) -> bool {
    match spec {
        Ok(v) => r matches Ok(a) && a.0 == v,
        Err(e) => r matches Err(x) && x@ == e,
    }
}

/// Evaluates an address expression.
pub fn eval_aar(sexp: &SExp, label_addresses: &LabelTable) -> (r: Result<Address, AsmError>)
    ensures
        eval_is(r, eval(sexp@, label_addresses@)),
    decreases sexp,
{
    match sexp {
        SExp::Symbol(Symbol::Label(lbl)) => {
            match label_addresses.get(lbl) {
                Some(address) => Ok(address),
                None => Err(AsmError::with(ErrorKind::UndefinedLabel, lbl.name())),
            }
        },
        SExp::Form(form) => {
            match &form.op {
                Symbol::Sym(op) => {
                    if is_text(op, "-") {
                        eval_aar_minus(form, label_addresses)
                    } else if is_text(op, "+") {
                        eval_aar_plus(form, label_addresses)
                    } else {
                        Err(AsmError::with(ErrorKind::IllegalOperator, op.as_str()))
                    }
                },
                invalid => {
                    let text = invalid.debug_text();
                    Err(AsmError::with(ErrorKind::IllegalOperatorSymbol, text.as_str()))
                },
            }
        },
        other => {
            let text = other.debug_text();
            Err(AsmError::with(ErrorKind::IllegalExpression, text.as_str()))
        },
    }
}

/// Evaluates the arguments of `-`.
pub fn eval_aar_minus(form: &Form, label_addresses: &LabelTable) -> (r: Result<Address, AsmError>)
    ensures
        eval_is(r, difference(form@.exps, label_addresses@)),
    decreases form,
{
    if form.exps.len() <= 1 {
        let n = decimal(form.exps.len() as u64);
        return Err(AsmError::with(ErrorKind::MinusArity, n.as_str()));
    }
    assert(form@.exps == exps_view(form.exps@));
    let first = eval_aar(&form.exps[0], label_addresses)?;
    let mut address: u64 = first.0;
    let mut i: usize = 1;
    while i < form.exps.len()
        invariant
            1 <= i <= form.exps.len(),
            decreases_to!(form => form.exps@),
            form@.exps == exps_view(form.exps@),
            difference(form@.exps, label_addresses@) == difference_from(
                form@.exps,
                label_addresses@,
                i as int,
                address,
            ),
        decreases form.exps.len() - i,
    {
        let value = eval_aar(&form.exps[i], label_addresses)?;
        if address < value.0 {
            return Err(AsmError::plain(ErrorKind::NegativeAddress));
        }
        address = address - value.0;
        i += 1;
    }
    Ok(Address(address))
}

/// Evaluates the arguments of `+`.
pub fn eval_aar_plus(form: &Form, label_addresses: &LabelTable) -> (r: Result<Address, AsmError>)
    ensures
        eval_is(r, sum_from(form@.exps, label_addresses@, 0, 0)),
    decreases form,
{
    let mut address: u64 = 0;
    let mut i: usize = 0;
    while i < form.exps.len()
        invariant
            i <= form.exps.len(),
            decreases_to!(form => form.exps@),
            form@.exps == exps_view(form.exps@),
            sum_from(form@.exps, label_addresses@, 0, 0) == sum_from(
                form@.exps,
                label_addresses@,
                i as int,
                address,
            ),
        decreases form.exps.len() - i,
    {
        let value = eval_aar(&form.exps[i], label_addresses)?;
        if value.0 > u64::MAX - address {
            return Err(AsmError::plain(ErrorKind::AddressOverflow));
        }
        address = address + value.0;
        i += 1;
    }
    Ok(Address(address))
}

} // verus!

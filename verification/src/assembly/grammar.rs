use crate::assembly::error::{plain_fault, FaultView, ParseErrorKind, ParseErrorView};
use crate::assembly::parser::{FormView, SExpView, SymbolView};
use crate::assembly::text::{is_hex_digit, CharClass};
use vstd::prelude::*;

verus! {

/// The position behind the line that `pos` lies in: behind its newline, or
/// the end of the text.
pub open spec fn line_end(s: Seq<char>, pos: int) -> int
    decreases s.len() - pos,
{
    if pos < 0 || pos >= s.len() {
        pos
    } else if s[pos] == '\n' {
        pos + 1
    } else {
        line_end(s, pos + 1)
    }
}

/// The first position at or behind `pos` that holds neither white space nor
/// a comment, which runs from `;` to the end of its line.
pub open spec fn blank_end(s: Seq<char>, k: Seq<CharClass>, pos: int) -> int
    decreases s.len() - pos,
{
    if pos < 0 || pos >= s.len() {
        pos
    } else if k[pos].whitespace {
        blank_end(s, k, pos + 1)
    } else if s[pos] == ';' {
        let q = line_end(s, pos + 1);
        proof {
            lemma_line_end_bounds(s, pos + 1);
        }
        blank_end(s, k, q)
    } else {
        pos
    }
}

/// Whether `c` may stand inside a symbol's name.
pub open spec fn is_name_char(c: char, class: CharClass) -> bool {
    class.alphanumeric || c == '-'
}

/// The first position at or behind `pos` that holds no name character.
pub open spec fn name_end(s: Seq<char>, k: Seq<CharClass>, pos: int) -> int
    decreases s.len() - pos,
{
    if 0 <= pos < s.len() && is_name_char(s[pos], k[pos]) {
        name_end(s, k, pos + 1)
    } else {
        pos
    }
}

/// Whether `c` in front of a name says what kind of symbol it is.
pub open spec fn is_prefix(c: char) -> bool {
    c == ':' || c == '.' || c == '\'' || c == '%' || c == '#'
}

/// The symbol named `name` of the kind that `first` stands for.
pub open spec fn make_symbol(first: char, name: Seq<char>) -> SymbolView {
    if first == ':' {
        SymbolView::Keyword(name)
    } else if first == '.' {
        SymbolView::Section(name)
    } else if first == '\'' {
        SymbolView::Label(name)
    } else if first == '%' {
        SymbolView::Reg(name)
    } else if first == '#' {
        SymbolView::Flag(name)
    } else {
        SymbolView::Sym(name)
    }
}

/// The symbol that starts at `pos`, with the position behind it. Its first
/// character is a prefix or, whatever it is, the start of a plain word; name
/// characters follow.
pub open spec fn symbol_at(s: Seq<char>, k: Seq<CharClass>, pos: int) -> Result<(SymbolView, int), FaultView> {
    if pos < 0 || pos >= s.len() {
        Err(plain_fault(ParseErrorKind::UnexpectedEndOfSymbol))
    } else {
        let end = name_end(s, k, pos + 1);
        let name = if is_prefix(s[pos]) {
            s.subrange(pos + 1, end)
        } else {
            s.subrange(pos, end)
        };
        if name.len() == 0 {
            Err(plain_fault(ParseErrorKind::EmptySymbol))
        } else {
            Ok((make_symbol(s[pos], name), end))
        }
    }
}

/// The value of `c` as a digit in base `radix`, if it is one.
pub open spec fn digit_value(c: char, radix: nat) -> Option<nat> {
    let d: int = if '0' <= c && c <= '9' {
        c as u32 - 48
    } else if 'a' <= c && c <= 'z' {
        c as u32 - 97 + 10
    } else if 'A' <= c && c <= 'Z' {
        c as u32 - 65 + 10
    } else {
        radix as int
    };
    if d < radix {
        Some(d as nat)
    } else {
        None
    }
}

/// The number that `acc` becomes when the digits of `text` in base `radix`
/// are appended to it, read from the left; the first character that is no
/// digit, or the first step above `u64::MAX`, ends the reading.
pub open spec fn number_from(text: Seq<char>, radix: nat, acc: nat) -> Result<
    nat,
    ParseErrorKind,
>
    decreases text.len(),
{
    if text.len() == 0 {
        Ok(acc)
    } else {
        match digit_value(text[0], radix) {
            None => Err(ParseErrorKind::InvalidDigit),
            Some(d) => if acc * radix + d > u64::MAX {
                Err(ParseErrorKind::NumberTooLarge)
            } else {
                number_from(text.drop_first(), radix, acc * radix + d)
            },
        }
    }
}

/// The first position at or behind `pos` that holds no character of a
/// number: no numeric character and, where `hex` is set, no hexadecimal digit.
pub open spec fn digits_end(s: Seq<char>, k: Seq<CharClass>, pos: int, hex: bool) -> int
    decreases s.len() - pos,
{
    if 0 <= pos < s.len() && (k[pos].numeric || (hex && is_hex_digit(s[pos]))) {
        digits_end(s, k, pos + 1, hex)
    } else {
        pos
    }
}

/// The number written in `text` in base 16 or 2; the fault names the text.
pub open spec fn radix_value(text: Seq<char>, radix: nat, kind: ParseErrorKind) -> Result<
    u64,
    FaultView,
> {
    match number_from(text, radix, 0) {
        Ok(v) => if text.len() > 0 {
            Ok(v as u64)
        } else {
            Err(FaultView { kind, detail: text })
        },
        Err(_) => Err(FaultView { kind, detail: text }),
    }
}

/// The number written in `text` in base 10.
pub open spec fn decimal_value(text: Seq<char>) -> Result<u64, FaultView> {
    match number_from(text, 10, 0) {
        Ok(v) => Ok(v as u64),
        Err(kind) => Err(plain_fault(kind)),
    }
}

/// Whether a number in base 16 or 2 starts at `pos`: `0` and then `mark`.
pub open spec fn has_radix_mark(s: Seq<char>, pos: int, mark: char) -> bool {
    0 <= pos && pos + 1 < s.len() && s[pos] == '0' && s[pos + 1] == mark
}

/// The number that starts at `pos`, with the position behind it: behind
/// `0x` a hexadecimal number, behind `0b` a binary one, else a decimal one.
pub open spec fn immediate_at(s: Seq<char>, k: Seq<CharClass>, pos: int) -> Result<
    (u64, int),
    FaultView,
> {
    if pos < 0 || pos >= s.len() {
        Err(plain_fault(ParseErrorKind::UnexpectedEndOfImmediate))
    } else if !k[pos].numeric {
        Err(plain_fault(ParseErrorKind::IllegalImmediate))
    } else if has_radix_mark(s, pos, 'x') {
        let end = digits_end(s, k, pos + 2, true);
        match radix_value(s.subrange(pos + 2, end), 16, ParseErrorKind::InvalidHex) {
            Ok(v) => Ok((v, end)),
            Err(e) => Err(e),
        }
    } else if has_radix_mark(s, pos, 'b') {
        let end = digits_end(s, k, pos + 2, false);
        match radix_value(s.subrange(pos + 2, end), 2, ParseErrorKind::InvalidBinary) {
            Ok(v) => Ok((v, end)),
            Err(e) => Err(e),
        }
    } else {
        let end = digits_end(s, k, pos + 1, false);
        match decimal_value(s.subrange(pos, end)) {
            Ok(v) => Ok((v, end)),
            Err(e) => Err(e),
        }
    }
}

/// The first position at or behind `pos` that holds `"`, or the end of the
/// text.
pub open spec fn quote_pos(s: Seq<char>, pos: int) -> int
    decreases s.len() - pos,
{
    if 0 <= pos < s.len() && s[pos] != '"' {
        quote_pos(s, pos + 1)
    } else {
        pos
    }
}

/// The string whose opening `"` stands at `pos`, with the position behind
/// its closing `"`. Nothing is escaped.
pub open spec fn string_at(s: Seq<char>, pos: int) -> Result<(Seq<char>, int), FaultView> {
    let end = quote_pos(s, pos + 1);
    if 0 <= end < s.len() {
        Ok((s.subrange(pos + 1, end), end + 1))
    } else {
        Err(plain_fault(ParseErrorKind::UnexpectedEndOfString))
    }
}

/// The form without an operator that only attaches `name` to its place.
pub open spec fn label_only_form(name: Seq<char>) -> FormView {
    FormView { label: Some(name), op: SymbolView::Sym(Seq::empty()), exps: Seq::empty() }
}

/// The form whose `(` stands at `pos`, with the position behind it.
///
/// Behind `(` and blanks comes a symbol. If it is a label, it is attached to
/// the form, and the operator follows it; where `)` follows it instead, the
/// form is the label-only form. The arguments follow up to `)`; a text that
/// ends before it is no form.
pub open spec fn form_at(s: Seq<char>, k: Seq<CharClass>, pos: int) -> Result<(FormView, int), FaultView>
    decreases s.len() - pos, 0int,
{
    if pos < 0 || pos >= s.len() {
        Err(plain_fault(ParseErrorKind::UnexpectedEnd))
    } else if s[pos] != '(' {
        Err(FaultView { kind: ParseErrorKind::ExpectedOpen, detail: seq![s[pos]] })
    } else {
        let first_at = blank_end(s, k, pos + 1);
        proof {
            lemma_blank_end_bounds(s, k, pos + 1);
        }
        if first_at >= s.len() {
            Err(plain_fault(ParseErrorKind::UnexpectedFormEnd))
        } else {
            proof {
                lemma_atoms_advance(s, k, first_at);
            }
            match symbol_at(s, k, first_at) {
                Err(e) => Err(e),
                Ok((SymbolView::Label(name), first_end)) => {
                    let second_at = blank_end(s, k, first_end);
                    proof {
                        lemma_blank_end_bounds(s, k, first_end);
                    }
                    if second_at < s.len() && s[second_at] == ')' {
                        Ok((label_only_form(name), second_at + 1))
                    } else {
                        proof {
                            if second_at < s.len() {
                                lemma_atoms_advance(s, k, second_at);
                            }
                        }
                        match symbol_at(s, k, second_at) {
                            Err(e) => Err(e),
                            Ok((op, second_end)) => match exps_at(s, k, second_end, Seq::empty()) {
                                Err(e) => Err(e),
                                Ok((exps, end)) => Ok(
                                    (FormView { label: Some(name), op, exps }, end),
                                ),
                            },
                        }
                    }
                },
                Ok((op, first_end)) => match exps_at(s, k, first_end, Seq::empty()) {
                    Err(e) => Err(e),
                    Ok((exps, end)) => Ok((FormView { label: None, op, exps }, end)),
                },
            }
        }
    }
}

/// The arguments of a form from `pos` on, appended to `acc`, with the
/// position behind the form. Each argument is a form, a string, a number or
/// a symbol, by its first character. (A form inside the text ends behind
/// its start and inside the text, by `lemma_form_advances`: the test on its
/// end is always met.)
pub open spec fn exps_at(s: Seq<char>, k: Seq<CharClass>, pos: int, acc: Seq<SExpView>) -> Result<
    (Seq<SExpView>, int),
    FaultView,
>
    decreases s.len() - pos, 1int,
{
    if pos < 0 || pos > s.len() {
        Err(plain_fault(ParseErrorKind::UnexpectedFormEnd))
    } else {
        let p = blank_end(s, k, pos);
        proof {
            lemma_blank_end_bounds(s, k, pos);
        }
        if p >= s.len() {
            Err(plain_fault(ParseErrorKind::UnexpectedFormEnd))
        } else {
            proof {
                lemma_atoms_advance(s, k, p);
            }
            if s[p] == ')' {
                Ok((acc, p + 1))
            } else if s[p] == '(' {
                match form_at(s, k, p) {
                    Err(e) => Err(e),
                    Ok((f, q)) => if p < q <= s.len() {
                        exps_at(s, k, q, acc.push(SExpView::Form(f)))
                    } else {
                        Err(plain_fault(ParseErrorKind::UnexpectedEnd))
                    },
                }
            } else if s[p] == '"' {
                match string_at(s, p) {
                    Err(e) => Err(e),
                    Ok((text, q)) => exps_at(s, k, q, acc.push(SExpView::String(text))),
                }
            } else if k[p].numeric {
                match immediate_at(s, k, p) {
                    Err(e) => Err(e),
                    Ok((v, q)) => exps_at(s, k, q, acc.push(SExpView::Immediate(v))),
                }
            } else {
                match symbol_at(s, k, p) {
                    Err(e) => Err(e),
                    Ok((sym, q)) => exps_at(s, k, q, acc.push(SExpView::Symbol(sym))),
                }
            }
        }
    }
}

/// The forms of the text from `pos` on, appended to `acc`. A fault carries
/// the number of the form it lies in, counted from one.
pub open spec fn forms_at(s: Seq<char>, k: Seq<CharClass>, pos: int, acc: Seq<FormView>) -> Result<
    Seq<FormView>,
    ParseErrorView,
>
    decreases s.len() - pos,
{
    if pos < 0 || pos > s.len() {
        Ok(acc)
    } else {
        let p = blank_end(s, k, pos);
        proof {
            lemma_blank_end_bounds(s, k, pos);
            lemma_form_advances(s, k, p);
        }
        if p >= s.len() {
            Ok(acc)
        } else {
            match form_at(s, k, p) {
                Err(e) => Err(
                    ParseErrorView { form: acc.len() + 1, kind: e.kind, detail: e.detail },
                ),
                Ok((f, q)) => forms_at(s, k, q, acc.push(f)),
            }
        }
    }
}

/// What a source text parses to.
pub open spec fn parse_text(s: Seq<char>, k: Seq<CharClass>) -> Result<Seq<FormView>, ParseErrorView> {
    forms_at(s, k, 0, Seq::empty())
}

/// `line_end` stays inside the text and moves forward.
pub proof fn lemma_line_end_bounds(s: Seq<char>, pos: int)
    requires
        0 <= pos <= s.len(),
    ensures
        pos <= line_end(s, pos) <= s.len(),
        pos < s.len() ==> pos < line_end(s, pos),
    decreases s.len() - pos,
{
    if pos < s.len() && s[pos] != '\n' {
        lemma_line_end_bounds(s, pos + 1);
    }
}

/// `blank_end` stays inside the text and moves forward; where it stops
/// inside the text, neither white space nor a comment starts.
pub proof fn lemma_blank_end_bounds(s: Seq<char>, k: Seq<CharClass>, pos: int)
    requires
        0 <= pos <= s.len(),
    ensures
        pos <= blank_end(s, k, pos) <= s.len(),
        blank_end(s, k, pos) < s.len() ==> !k[blank_end(s, k, pos)].whitespace && s[blank_end(
            s,
            k,
            pos,
        )] != ';',
    decreases s.len() - pos,
{
    if pos < s.len() {
        if k[pos].whitespace {
            lemma_blank_end_bounds(s, k, pos + 1);
        } else if s[pos] == ';' {
            lemma_line_end_bounds(s, pos + 1);
            lemma_blank_end_bounds(s, k, line_end(s, pos + 1));
        }
    }
}

/// `name_end` stays inside the text and moves forward.
pub proof fn lemma_name_end_bounds(s: Seq<char>, k: Seq<CharClass>, pos: int)
    requires
        0 <= pos <= s.len(),
    ensures
        pos <= name_end(s, k, pos) <= s.len(),
    decreases s.len() - pos,
{
    if pos < s.len() && is_name_char(s[pos], k[pos]) {
        lemma_name_end_bounds(s, k, pos + 1);
    }
}

/// `digits_end` stays inside the text and moves forward.
pub proof fn lemma_digits_end_bounds(s: Seq<char>, k: Seq<CharClass>, pos: int, hex: bool)
    requires
        0 <= pos <= s.len(),
    ensures
        pos <= digits_end(s, k, pos, hex) <= s.len(),
    decreases s.len() - pos,
{
    if pos < s.len() && (k[pos].numeric || (hex && is_hex_digit(s[pos]))) {
        lemma_digits_end_bounds(s, k, pos + 1, hex);
    }
}

/// `quote_pos` stays inside the text and moves forward.
pub proof fn lemma_quote_pos_bounds(s: Seq<char>, pos: int)
    requires
        0 <= pos <= s.len(),
    ensures
        pos <= quote_pos(s, pos) <= s.len(),
    decreases s.len() - pos,
{
    if pos < s.len() && s[pos] != '"' {
        lemma_quote_pos_bounds(s, pos + 1);
    }
}

/// A symbol, a number and a string each take at least one character and end
/// inside the text.
pub proof fn lemma_atoms_advance(s: Seq<char>, k: Seq<CharClass>, pos: int)
    requires
        0 <= pos < s.len(),
    ensures
        symbol_at(s, k, pos) matches Ok((_, q)) ==> pos < q <= s.len(),
        immediate_at(s, k, pos) matches Ok((_, q)) ==> pos < q <= s.len(),
        string_at(s, pos) matches Ok((_, q)) ==> pos < q <= s.len(),
{
    lemma_name_end_bounds(s, k, pos + 1);
    lemma_quote_pos_bounds(s, pos + 1);
    lemma_digits_end_bounds(s, k, pos + 1, false);
    if pos + 1 < s.len() {
        lemma_digits_end_bounds(s, k, pos + 2, false);
        lemma_digits_end_bounds(s, k, pos + 2, true);
    }
}

/// A form takes at least one character and ends inside the text.
pub proof fn lemma_form_advances(s: Seq<char>, k: Seq<CharClass>, pos: int)
    requires
        0 <= pos <= s.len(),
    ensures
        form_at(s, k, pos) matches Ok((_, q)) ==> pos < q <= s.len(),
    decreases s.len() - pos, 0int,
{
    if pos < s.len() && s[pos] == '(' {
        lemma_blank_end_bounds(s, k, pos + 1);
        let first_at = blank_end(s, k, pos + 1);
        if first_at < s.len() {
            lemma_atoms_advance(s, k, first_at);
            match symbol_at(s, k, first_at) {
                Err(e) => {},
                Ok((SymbolView::Label(name), first_end)) => {
                    lemma_blank_end_bounds(s, k, first_end);
                    let second_at = blank_end(s, k, first_end);
                    if second_at < s.len() {
                        lemma_atoms_advance(s, k, second_at);
                    }
                    match symbol_at(s, k, second_at) {
                        Err(e) => {},
                        Ok((op, second_end)) => {
                            lemma_exps_advance(s, k, second_end, Seq::empty());
                        },
                    }
                },
                Ok((op, first_end)) => {
                    lemma_exps_advance(s, k, first_end, Seq::empty());
                },
            }
        }
    }
}

/// The arguments of a form end inside the text, at or behind their start.
pub proof fn lemma_exps_advance(s: Seq<char>, k: Seq<CharClass>, pos: int, acc: Seq<SExpView>)
    requires
        0 <= pos <= s.len(),
    ensures
        exps_at(s, k, pos, acc) matches Ok((_, q)) ==> pos <= q <= s.len(),
    decreases s.len() - pos, 1int,
{
    lemma_blank_end_bounds(s, k, pos);
    let p = blank_end(s, k, pos);
    if p < s.len() {
        lemma_atoms_advance(s, k, p);
        if s[p] == ')' {
        } else if s[p] == '(' {
            lemma_form_advances(s, k, p);
            match form_at(s, k, p) {
                Err(e) => {},
                Ok((f, q)) => {
                    lemma_exps_advance(s, k, q, acc.push(SExpView::Form(f)));
                },
            }
        } else if s[p] == '"' {
            match string_at(s, p) {
                Err(e) => {},
                Ok((text, q)) => {
                    lemma_exps_advance(s, k, q, acc.push(SExpView::String(text)));
                },
            }
        } else if k[p].numeric {
            match immediate_at(s, k, p) {
                Err(e) => {},
                Ok((v, q)) => {
                    lemma_exps_advance(s, k, q, acc.push(SExpView::Immediate(v)));
                },
            }
        } else {
            match symbol_at(s, k, p) {
                Err(e) => {},
                Ok((sym, q)) => {
                    lemma_exps_advance(s, k, q, acc.push(SExpView::Symbol(sym)));
                },
            }
        }
    }
}

/// Every form ends with `)`: a text that ends before it is no form.
pub proof fn lemma_form_ends_closed(s: Seq<char>, k: Seq<CharClass>, pos: int)
    requires
        0 <= pos <= s.len(),
    ensures
        form_at(s, k, pos) matches Ok((_, q)) ==> pos < q <= s.len() && s[q - 1] == ')',
    decreases s.len() - pos, 0int,
{
    lemma_form_advances(s, k, pos);
    if pos < s.len() && s[pos] == '(' {
        lemma_blank_end_bounds(s, k, pos + 1);
        let first_at = blank_end(s, k, pos + 1);
        if first_at < s.len() {
            lemma_atoms_advance(s, k, first_at);
            match symbol_at(s, k, first_at) {
                Err(e) => {},
                Ok((SymbolView::Label(name), first_end)) => {
                    lemma_blank_end_bounds(s, k, first_end);
                    let second_at = blank_end(s, k, first_end);
                    if second_at < s.len() {
                        lemma_atoms_advance(s, k, second_at);
                    }
                    match symbol_at(s, k, second_at) {
                        Err(e) => {},
                        Ok((op, second_end)) => {
                            lemma_exps_end_closed(s, k, second_end, Seq::empty());
                        },
                    }
                },
                Ok((op, first_end)) => {
                    lemma_exps_end_closed(s, k, first_end, Seq::empty());
                },
            }
        }
    }
}

/// The arguments of a form end with the form's `)`.
pub proof fn lemma_exps_end_closed(s: Seq<char>, k: Seq<CharClass>, pos: int, acc: Seq<SExpView>)
    requires
        0 <= pos <= s.len(),
    ensures
        exps_at(s, k, pos, acc) matches Ok((_, q)) ==> pos < q <= s.len() && s[q - 1] == ')',
    decreases s.len() - pos, 1int,
{
    lemma_exps_advance(s, k, pos, acc);
    lemma_blank_end_bounds(s, k, pos);
    let p = blank_end(s, k, pos);
    if p < s.len() {
        lemma_atoms_advance(s, k, p);
        if s[p] == ')' {
        } else if s[p] == '(' {
            lemma_form_advances(s, k, p);
            match form_at(s, k, p) {
                Err(e) => {},
                Ok((f, q)) => {
                    lemma_exps_end_closed(s, k, q, acc.push(SExpView::Form(f)));
                },
            }
        } else if s[p] == '"' {
            match string_at(s, p) {
                Err(e) => {},
                Ok((text, q)) => {
                    lemma_exps_end_closed(s, k, q, acc.push(SExpView::String(text)));
                },
            }
        } else if k[p].numeric {
            match immediate_at(s, k, p) {
                Err(e) => {},
                Ok((v, q)) => {
                    lemma_exps_end_closed(s, k, q, acc.push(SExpView::Immediate(v)));
                },
            }
        } else {
            match symbol_at(s, k, p) {
                Err(e) => {},
                Ok((sym, q)) => {
                    lemma_exps_end_closed(s, k, q, acc.push(SExpView::Symbol(sym)));
                },
            }
        }
    }
}

} // verus!

use crate::assembly::error::{plain_fault, Fault, FaultView, ParseError, ParseErrorKind, ParseErrorView};
use crate::assembly::grammar::{
    blank_end, digit_value, digits_end, exps_at, form_at, forms_at, immediate_at,
    lemma_atoms_advance, lemma_form_advances, line_end, name_end, number_from, parse_text,
    quote_pos, string_at, symbol_at,
};
use crate::assembly::text::{
    chars_of, classes_of, classify, debug_quoted, decimal, decimal_text, hex_digit, quote,
    string_of, CharClass,
};
use vstd::prelude::*;

verus! {

/// The name of a place in the program.
#[derive(Debug, Hash, Eq, PartialEq)]
pub struct Label(String);

impl View for Label {
    type V = Seq<char>;

    closed spec fn view(&self) -> Seq<char> {
        self.0@
    }
}

impl Clone for Label {
    fn clone(&self) -> (r: Self)
        ensures
            r@ == self@,
    {
        Label(self.0.clone())
    }
}

impl Label {
    /// The label named `str`.
    pub fn from_string(str: String) -> (r: Label)
        ensures
            r@ == str@,
    {
        Label(str)
    }

    /// The label's name.
    pub fn name(&self) -> (r: &str)
        ensures
            r@ == self@,
    {
        self.0.as_str()
    }
}

/// An offset into the target address space, counted in bytes.
#[derive(Debug, PartialEq, Eq, PartialOrd, Ord, Clone, Copy, Structural)]
pub struct Address(pub u64);

impl Address {
    /// Moves the address forward by `n` bytes.
    pub fn add_bytes(&mut self, n: u64)
        requires
            old(self).0 + n <= u64::MAX,
        ensures
            final(self).0 == old(self).0 + n,
    {
        self.0 = self.0 + n;
    }
}

/// A symbol; the variant is what its first character in the source said.
#[derive(Debug, PartialEq)]
pub enum Symbol {
    /// `:name`, a named option of a directive.
    Keyword(String),
    /// `.name`, a section.
    Section(String),
    /// `%name`, a register.
    Reg(String),
    /// `'name`, a label.
    Label(Label),
    /// `#name`, a condition flag.
    Flag(String),
    /// A mnemonic, an operator or a plain word.
    Sym(String),
}

/// An expression of the source language.
#[derive(Debug, PartialEq)]
pub enum SExp {
    Symbol(Symbol),
    Form(Form),
    String(String),
    Immediate(u64),
}

/// `(op exps...)`, with the label that was written in front of `op`, if any.
#[derive(Debug, PartialEq)]
pub struct Form {
    pub label: Option<Label>,
    pub op: Symbol,
    pub exps: Vec<SExp>,
}

/// The forms of a source text, in order.
#[derive(Debug, PartialEq)]
pub struct TopLevel {
    pub forms: Vec<Form>,
}

/// What a `Symbol` holds.
pub enum SymbolView {
    Keyword(Seq<char>),
    Section(Seq<char>),
    Reg(Seq<char>),
    Label(Seq<char>),
    Flag(Seq<char>),
    Sym(Seq<char>),
}

/// What an `SExp` holds.
pub enum SExpView {
    Symbol(SymbolView),
    Form(FormView),
    String(Seq<char>),
    Immediate(u64),
}

/// What a `Form` holds.
pub struct FormView {
    pub label: Option<Seq<char>>,
    pub op: SymbolView,
    pub exps: Seq<SExpView>,
}

impl View for Symbol {
    type V = SymbolView;

    open spec fn view(&self) -> SymbolView {
        match self {
            Symbol::Keyword(s) => SymbolView::Keyword(s@),
            Symbol::Section(s) => SymbolView::Section(s@),
            Symbol::Reg(s) => SymbolView::Reg(s@),
            Symbol::Label(l) => SymbolView::Label(l@),
            Symbol::Flag(s) => SymbolView::Flag(s@),
            Symbol::Sym(s) => SymbolView::Sym(s@),
        }
    }
}

impl View for SExp {
    type V = SExpView;

    open spec fn view(&self) -> SExpView
        decreases self,
    {
        match self {
            SExp::Symbol(s) => SExpView::Symbol(s@),
            SExp::Form(f) => SExpView::Form(f.view()),
            SExp::String(s) => SExpView::String(s@),
            SExp::Immediate(v) => SExpView::Immediate(*v),
        }
    }
}

/// The views of the expressions in `exps`, in order.
pub open spec fn exps_view(exps: Seq<SExp>) -> Seq<SExpView>
    decreases exps,
{
    Seq::new(
        exps.len(),
        |i: int|
            if 0 <= i < exps.len() {
                exps[i].view()
            } else {
                SExpView::Immediate(0)
            },
    )
}

/// The view of an attached label.
pub open spec fn label_view(label: Option<Label>) -> Option<Seq<char>> {
    match label {
        Some(l) => Some(l@),
        None => None,
    }
}

impl View for Form {
    type V = FormView;

    open spec fn view(&self) -> FormView
        decreases self,
    {
        FormView { label: label_view(self.label), op: self.op@, exps: exps_view(self.exps@) }
    }
}

/// The views of the forms in `forms`, in order.
pub open spec fn forms_view(forms: Seq<Form>) -> Seq<FormView> {
    Seq::new(forms.len(), |i: int| forms[i]@)
}

impl View for TopLevel {
    type V = Seq<FormView>;

    open spec fn view(&self) -> Seq<FormView> {
        forms_view(self.forms@)
    }
}

impl Clone for Symbol {
    fn clone(&self) -> (r: Self)
        ensures
            r@ == self@,
    {
        match self {
            Symbol::Keyword(s) => Symbol::Keyword(s.clone()),
            Symbol::Section(s) => Symbol::Section(s.clone()),
            Symbol::Reg(s) => Symbol::Reg(s.clone()),
            Symbol::Label(l) => Symbol::Label(l.clone()),
            Symbol::Flag(s) => Symbol::Flag(s.clone()),
            Symbol::Sym(s) => Symbol::Sym(s.clone()),
        }
    }
}

impl Clone for SExp {
    fn clone(&self) -> (r: Self)
        ensures
            r@ == self@,
        decreases self,
    {
        match self {
            SExp::Symbol(s) => SExp::Symbol(s.clone()),
            SExp::Form(f) => SExp::Form(f.clone()),
            SExp::String(s) => SExp::String(s.clone()),
            SExp::Immediate(v) => SExp::Immediate(*v),
        }
    }
}

impl Clone for Form {
    fn clone(&self) -> (r: Self)
        ensures
            r@ == self@,
        decreases self,
    {
        let label = match &self.label {
            Some(l) => Some(l.clone()),
            None => None,
        };
        let op = self.op.clone();
        let mut exps: Vec<SExp> = Vec::new();
        let mut i: usize = 0;
        while i < self.exps.len()
            invariant
                i <= self.exps.len(),
                exps.len() == i,
                decreases_to!(self => self.exps@),
                forall|j: int| 0 <= j < i ==> exps@[j]@ == self.exps@[j]@,
            decreases self.exps.len() - i,
        {
            let e = self.exps[i].clone();
            exps.push(e);
            i += 1;
        }
        assert(exps_view(exps@) =~= exps_view(self.exps@));
        Form { label, op, exps }
    }
}


/// Whether a symbol result of the parser stands for `spec`.
pub open spec fn symbol_result_is(
    r: Result<(Symbol, usize), Fault>,
    spec: Result<(SymbolView, int), FaultView>,
) -> bool {
    match spec {
        Ok((sym, q)) => r matches Ok((x, p)) && x@ == sym && p == q,
        Err(e) => r matches Err(x) && x@ == e,
    }
}

/// Whether a form result of the parser stands for `spec`.
pub open spec fn form_result_is(
    r: Result<(Form, usize), Fault>,
    spec: Result<(FormView, int), FaultView>,
) -> bool {
    match spec {
        Ok((f, q)) => r matches Ok((x, p)) && x@ == f && p == q,
        Err(e) => r matches Err(x) && x@ == e,
    }
}

/// Whether an argument-list result of the parser stands for `spec`.
pub open spec fn exps_result_is(
    r: Result<(Vec<SExp>, usize), Fault>,
    spec: Result<(Seq<SExpView>, int), FaultView>,
) -> bool {
    match spec {
        Ok((es, q)) => r matches Ok((x, p)) && exps_view(x@) == es && p == q,
        Err(e) => r matches Err(x) && x@ == e,
    }
}

/// Whether a parse result stands for `spec`.
pub open spec fn parse_result_is(
    r: Result<TopLevel, ParseError>,
    spec: Result<Seq<FormView>, ParseErrorView>,
) -> bool {
    match spec {
        Ok(forms) => r matches Ok(tl) && tl@ == forms,
        Err(e) => r matches Err(x) && x@ == e,
    }
}

/// Parses a source text into its forms.
pub fn parse_from_string(str: &str) -> (r: Result<TopLevel, ParseError>)
    ensures
        parse_result_is(r, parse_text(str@, classes_of(str@))),
{
    let chars = chars_of(str);
    parse(&chars)
}

/// Parses the characters of a source text into its forms.
pub fn parse(chars: &Vec<char>) -> (r: Result<TopLevel, ParseError>)
    ensures
        parse_result_is(r, parse_text(chars@, classes_of(chars@))),
{
    let classes = classify(chars);
    parse_classified(chars, &classes)
}

/// Parses characters into forms, given the class of each character. What
/// a text parses to depends on its characters and their classes alone.
pub fn parse_classified(chars: &Vec<char>, classes: &Vec<CharClass>) -> (r: Result<
    TopLevel,
    ParseError,
>)
    requires
        classes.len() == chars.len(),
    ensures
        parse_result_is(r, parse_text(chars@, classes@)),
{
    let mut forms: Vec<Form> = Vec::new();
    let mut pos: usize = 0;
    assert(forms_view(forms@) =~= Seq::empty());
    loop
        invariant
            classes.len() == chars.len(),
            pos <= chars.len(),
            forms.len() <= pos,
            parse_text(chars@, classes@) == forms_at(
                chars@,
                classes@,
                pos as int,
                forms_view(forms@),
            ),
        decreases chars.len() - pos,
    {
        let p = skip_whitespace_and_comment(chars, classes, pos);
        if p >= chars.len() {
            return Ok(TopLevel { forms });
        }
        proof {
            lemma_form_advances(chars@, classes@, p as int);
        }
        match parse_form(chars, classes, p) {
            Ok((form, q)) => {
                assert(forms_view(forms@.push(form)) == forms_view(forms@).push(form@));
                forms.push(form);
                pos = q;
            },
            Err(fault) => {
                return Err(ParseError { form: forms.len() + 1, kind: fault.kind, detail: fault.detail });
            },
        }
    }
}

/// Parses the form whose `(` stands at `pos`.
pub fn parse_form(chars: &Vec<char>, classes: &Vec<CharClass>, pos: usize) -> (r: Result<
    (Form, usize),
    Fault,
>)
    requires
        classes.len() == chars.len(),
        pos <= chars.len(),
    ensures
        form_result_is(r, form_at(chars@, classes@, pos as int)),
        r matches Ok((_, q)) ==> pos < q <= chars.len(),
    decreases chars.len() - pos, 0int,
{
    proof {
        lemma_form_advances(chars@, classes@, pos as int);
    }
    let opened = expect(chars, pos)?;
    let first_at = skip_whitespace_and_comment(chars, classes, opened);
    if first_at >= chars.len() {
        return Err(Fault::plain(ParseErrorKind::UnexpectedFormEnd));
    }
    let (first, first_end) = parse_symbol(chars, classes, first_at)?;
    if is_label(&first) {
        let label = sym_get_label(first)?;
        let second_at = skip_whitespace_and_comment(chars, classes, first_end);
        if second_at < chars.len() && chars[second_at] == ')' {
            let form = Form { label: Some(label), op: Symbol::Sym(String::new()), exps: Vec::new() };
            assert(form@.exps =~= Seq::empty());
            return Ok((form, second_at + 1));
        }
        let (op, second_end) = parse_symbol(chars, classes, second_at)?;
        let (exps, end) = parse_exps(chars, classes, second_end)?;
        Ok((Form { label: Some(label), op, exps }, end))
    } else {
        let (exps, end) = parse_exps(chars, classes, first_end)?;
        Ok((Form { label: None, op: first, exps }, end))
    }
}

/// Parses the arguments of a form from `pos` up to its end.
pub fn parse_exps(chars: &Vec<char>, classes: &Vec<CharClass>, pos: usize) -> (r: Result<
    (Vec<SExp>, usize),
    Fault,
>)
    requires
        classes.len() == chars.len(),
        0 < pos <= chars.len(),
    ensures
        exps_result_is(r, exps_at(chars@, classes@, pos as int, Seq::empty())),
        r matches Ok((_, q)) ==> pos <= q <= chars.len(),
    decreases chars.len() - pos, 1int,
{
    let mut exps: Vec<SExp> = Vec::new();
    let mut cur: usize = pos;
    assert(exps_view(exps@) =~= Seq::empty());
    loop
        invariant
            classes.len() == chars.len(),
            pos <= cur <= chars.len(),
            exps_at(chars@, classes@, pos as int, Seq::empty()) == exps_at(
                chars@,
                classes@,
                cur as int,
                exps_view(exps@),
            ),
        decreases chars.len() - cur,
    {
        let p = skip_whitespace_and_comment(chars, classes, cur);
        if p >= chars.len() {
            return Err(Fault::plain(ParseErrorKind::UnexpectedFormEnd));
        }
        proof {
            lemma_atoms_advance(chars@, classes@, p as int);
            lemma_form_advances(chars@, classes@, p as int);
        }
        let c = chars[p];
        let ghost before = exps_view(exps@);
        if c == ')' {
            return Ok((exps, p + 1));
        } else if c == '(' {
            let (form, q) = parse_form(chars, classes, p)?;
            let e = SExp::Form(form);
            assert(exps_view(exps@.push(e)) == before.push(e@));
            exps.push(e);
            cur = q;
        } else if c == '"' {
            let (text, q) = parse_string(chars, p)?;
            let e = SExp::String(text);
            assert(exps_view(exps@.push(e)) == before.push(e@));
            exps.push(e);
            cur = q;
        } else if classes[p].numeric {
            let (value, q) = parse_immediate(chars, classes, p)?;
            let e = SExp::Immediate(value);
            assert(exps_view(exps@.push(e)) == before.push(e@));
            exps.push(e);
            cur = q;
        } else {
            let (sym, q) = parse_symbol(chars, classes, p)?;
            let e = SExp::Symbol(sym);
            assert(exps_view(exps@.push(e)) == before.push(e@));
            exps.push(e);
            cur = q;
        }
    }
}

/// Parses the symbol that starts at `pos`.
pub fn parse_symbol(chars: &Vec<char>, classes: &Vec<CharClass>, pos: usize) -> (r: Result<
    (Symbol, usize),
    Fault,
>)
    requires
        classes.len() == chars.len(),
        pos <= chars.len(),
    ensures
        symbol_result_is(r, symbol_at(chars@, classes@, pos as int)),
        r matches Ok((_, q)) ==> pos < q <= chars.len(),
{
    if pos >= chars.len() {
        return Err(Fault::plain(ParseErrorKind::UnexpectedEndOfSymbol));
    }
    let first = chars[pos];
    let mut end: usize = pos + 1;
    while end < chars.len() && (classes[end].alphanumeric || chars[end] == '-')
        invariant
            classes.len() == chars.len(),
            pos < end <= chars.len(),
            name_end(chars@, classes@, pos + 1) == name_end(chars@, classes@, end as int),
        decreases chars.len() - end,
    {
        end += 1;
    }
    let prefixed = first == ':' || first == '.' || first == '\'' || first == '%' || first == '#';
    let from = if prefixed {
        pos + 1
    } else {
        pos
    };
    if from == end {
        return Err(Fault::plain(ParseErrorKind::EmptySymbol));
    }
    let name = string_of(chars, from, end);
    let sym = if first == ':' {
        Symbol::Keyword(name)
    } else if first == '.' {
        Symbol::Section(name)
    } else if first == '\'' {
        Symbol::Label(Label::from_string(name))
    } else if first == '%' {
        Symbol::Reg(name)
    } else if first == '#' {
        Symbol::Flag(name)
    } else {
        Symbol::Sym(name)
    };
    Ok((sym, end))
}

/// The value of `c` as a digit in base `radix`.
fn digit_of(c: char, radix: u64) -> (r: Option<u64>)
    ensures
        r == match digit_value(c, radix as nat) {
            Some(d) => Some(d as u64),
            None => None,
        },
        r matches Some(d) ==> d < radix,
{
    let d: u64 = if '0' <= c && c <= '9' {
        (c as u32 - 48) as u64
    } else if 'a' <= c && c <= 'z' {
        (c as u32 - 97 + 10) as u64
    } else if 'A' <= c && c <= 'Z' {
        (c as u32 - 65 + 10) as u64
    } else {
        radix
    };
    if d < radix {
        Some(d)
    } else {
        None
    }
}

/// Whether a number result stands for `spec`.
pub open spec fn number_result_is(
    r: Result<u64, ParseErrorKind>,
    spec: Result<nat, ParseErrorKind>,
) -> bool {
    match spec {
        Ok(v) => r == Ok::<u64, ParseErrorKind>(v as u64) && v <= u64::MAX,
        Err(kind) => r == Err::<u64, ParseErrorKind>(kind),
    }
}

/// Reads `chars[from..to]` as a number in base `radix`.
pub fn parse_number_value(chars: &Vec<char>, from: usize, to: usize, radix: u64) -> (r: Result<
    u64,
    ParseErrorKind,
>)
    requires
        from <= to <= chars.len(),
        2 <= radix <= 36,
    ensures
        number_result_is(r, number_from(chars@.subrange(from as int, to as int), radix as nat, 0)),
{
    let mut acc: u64 = 0;
    let mut i: usize = from;
    while i < to
        invariant
            from <= i <= to <= chars.len(),
            2 <= radix <= 36,
            number_from(chars@.subrange(from as int, to as int), radix as nat, 0) == number_from(
                chars@.subrange(i as int, to as int),
                radix as nat,
                acc as nat,
            ),
        decreases to - i,
    {
        let ghost rest = chars@.subrange(i as int, to as int);
        assert(rest.drop_first() == chars@.subrange(i + 1, to as int));
        match digit_of(chars[i], radix) {
            None => {
                return Err(ParseErrorKind::InvalidDigit);
            },
            Some(d) => {
                let next = match acc.checked_mul(radix) {
                    Some(m) => m.checked_add(d),
                    None => None,
                };
                match next {
                    Some(v) => {
                        acc = v;
                    },
                    None => {
                        assert(acc * radix + d > u64::MAX) by (nonlinear_arith)
                            requires
                                acc * radix > u64::MAX || acc * radix + d > u64::MAX,
                                d >= 0,
                        ;
                        return Err(ParseErrorKind::NumberTooLarge);
                    },
                }
            },
        }
        i += 1;
    }
    Ok(acc)
}

/// Parses the number that starts at `pos`.
pub fn parse_immediate(chars: &Vec<char>, classes: &Vec<CharClass>, pos: usize) -> (r: Result<
    (u64, usize),
    Fault,
>)
    requires
        classes.len() == chars.len(),
        pos <= chars.len(),
    ensures
        match immediate_at(chars@, classes@, pos as int) {
            Ok((v, q)) => r matches Ok((x, p)) && x == v && p == q,
            Err(e) => r matches Err(x) && x@ == e,
        },
        r matches Ok((_, q)) ==> pos < q <= chars.len(),
{
    if pos >= chars.len() {
        return Err(Fault::plain(ParseErrorKind::UnexpectedEndOfImmediate));
    }
    if !classes[pos].numeric {
        return Err(Fault::plain(ParseErrorKind::IllegalImmediate));
    }
    let marked = pos + 1 < chars.len() && chars[pos] == '0';
    let hex = marked && chars[pos + 1] == 'x';
    let binary = marked && chars[pos + 1] == 'b';
    let from: usize = if hex || binary {
        pos + 2
    } else {
        pos
    };
    let mut end: usize = if hex || binary {
        pos + 2
    } else {
        pos + 1
    };
    let ghost start = end;
    while end < chars.len() && (classes[end].numeric || (hex && hex_digit(chars[end])))
        invariant
            classes.len() == chars.len(),
            start <= end <= chars.len(),
            digits_end(chars@, classes@, start as int, hex) == digits_end(chars@, classes@, end as int, hex),
        decreases chars.len() - end,
    {
        end += 1;
    }
    if hex {
        match parse_number_value(chars, from, end, 16) {
            Ok(v) => if from < end {
                Ok((v, end))
            } else {
                Err(Fault { kind: ParseErrorKind::InvalidHex, detail: string_of(chars, from, end) })
            },
            Err(_) => Err(
                Fault { kind: ParseErrorKind::InvalidHex, detail: string_of(chars, from, end) },
            ),
        }
    } else if binary {
        match parse_number_value(chars, from, end, 2) {
            Ok(v) => if from < end {
                Ok((v, end))
            } else {
                Err(
                    Fault { kind: ParseErrorKind::InvalidBinary, detail: string_of(chars, from, end) },
                )
            },
            Err(_) => Err(
                Fault { kind: ParseErrorKind::InvalidBinary, detail: string_of(chars, from, end) },
            ),
        }
    } else {
        match parse_number_value(chars, from, end, 10) {
            Ok(v) => Ok((v, end)),
            Err(kind) => Err(Fault::plain(kind)),
        }
    }
}

/// Parses the string whose opening `"` stands at `pos`.
pub fn parse_string(chars: &Vec<char>, pos: usize) -> (r: Result<(String, usize), Fault>)
    requires
        pos < chars.len(),
    ensures
        match string_at(chars@, pos as int) {
            Ok((text, q)) => r matches Ok((x, p)) && x@ == text && p == q,
            Err(e) => r matches Err(x) && x@ == e,
        },
        r matches Ok((_, q)) ==> pos < q <= chars.len(),
{
    let mut end: usize = pos + 1;
    while end < chars.len() && chars[end] != '"'
        invariant
            pos < end <= chars.len(),
            quote_pos(chars@, pos + 1) == quote_pos(chars@, end as int),
        decreases chars.len() - end,
    {
        end += 1;
    }
    if end >= chars.len() {
        return Err(Fault::plain(ParseErrorKind::UnexpectedEndOfString));
    }
    Ok((string_of(chars, pos + 1, end), end + 1))
}

/// Takes the `(` that opens a form.
fn expect(chars: &Vec<char>, pos: usize) -> (r: Result<usize, Fault>)
    requires
        pos <= chars.len(),
    ensures
        pos < chars.len() && chars@[pos as int] == '(' ==> r == Ok::<usize, Fault>(
            (pos + 1) as usize,
        ),
        pos >= chars.len() ==> (r matches Err(e) && e@ == plain_fault(
            ParseErrorKind::UnexpectedEnd,
        )),
        pos < chars.len() && chars@[pos as int] != '(' ==> (r matches Err(e) && e@ == (FaultView {
            kind: ParseErrorKind::ExpectedOpen,
            detail: seq![chars@[pos as int]],
        })),
{
    if pos >= chars.len() {
        return Err(Fault::plain(ParseErrorKind::UnexpectedEnd));
    }
    if chars[pos] == '(' {
        return Ok(pos + 1);
    }
    let detail = string_of(chars, pos, pos + 1);
    assert(detail@ =~= seq![chars@[pos as int]]);
    Err(Fault { kind: ParseErrorKind::ExpectedOpen, detail })
}

/// Skips white space and comments from `pos` on.
pub fn skip_whitespace_and_comment(chars: &Vec<char>, classes: &Vec<CharClass>, pos: usize) -> (r:
    usize)
    requires
        classes.len() == chars.len(),
        pos <= chars.len(),
    ensures
        r == blank_end(chars@, classes@, pos as int),
        pos <= r <= chars.len(),
{
    let mut cur: usize = pos;
    loop
        invariant
            classes.len() == chars.len(),
            pos <= cur <= chars.len(),
            blank_end(chars@, classes@, pos as int) == blank_end(chars@, classes@, cur as int),
        decreases chars.len() - cur,
    {
        if cur >= chars.len() {
            return cur;
        }
        let c = chars[cur];
        if classes[cur].whitespace {
            cur += 1;
        } else if c == ';' {
            cur = skip_line_comment(chars, cur);
        } else {
            return cur;
        }
    }
}

/// Skips the comment whose `;` stands at `pos`.
pub fn skip_line_comment(chars: &Vec<char>, pos: usize) -> (r: usize)
    requires
        pos < chars.len(),
    ensures
        r == line_end(chars@, pos + 1),
        pos < r <= chars.len(),
{
    let mut cur: usize = pos + 1;
    loop
        invariant
            pos < cur <= chars.len(),
            line_end(chars@, pos + 1) == line_end(chars@, cur as int),
        decreases chars.len() - cur,
    {
        if cur >= chars.len() {
            return cur;
        }
        if chars[cur] == '\n' {
            return cur + 1;
        }
        cur += 1;
    }
}

/// Whether `sym` is a label.
pub fn is_label(sym: &Symbol) -> (r: bool)
    ensures
        r == (sym@ is Label),
{
    match sym {
        Symbol::Label(_) => true,
        _ => false,
    }
}

/// The label that `sym` is.
pub fn sym_get_label(sym: Symbol) -> (r: Result<Label, Fault>)
    ensures
        match sym@ {
            SymbolView::Label(name) => r matches Ok(l) && l@ == name,
            _ => r matches Err(e) && e@ == plain_fault(ParseErrorKind::SymbolNotALabel),
        },
{
    match sym {
        Symbol::Label(lbl) => Ok(lbl),
        _ => Err(Fault::plain(ParseErrorKind::SymbolNotALabel)),
    }
}


/// The symbol in `Debug` notation: its variant, and in brackets its name
/// between double quotes; a label's name stands in `Label(..)` once more.
pub open spec fn symbol_debug_text(sym: SymbolView) -> Seq<char> {
    match sym {
        SymbolView::Keyword(name) => "Keyword("@ + debug_quoted(name) + ")"@,
        SymbolView::Section(name) => "Section("@ + debug_quoted(name) + ")"@,
        SymbolView::Reg(name) => "Reg("@ + debug_quoted(name) + ")"@,
        SymbolView::Label(name) => "Label(Label("@ + debug_quoted(name) + "))"@,
        SymbolView::Flag(name) => "Flag("@ + debug_quoted(name) + ")"@,
        SymbolView::Sym(name) => "Sym("@ + debug_quoted(name) + ")"@,
    }
}

fn wrapped(open: &str, name: &str, close: &str) -> (r: String)
    ensures
        r@ == open@ + debug_quoted(name@) + close@,
{
    let mut s = String::from_str(open);
    let q = quote(name);
    s.append(q.as_str());
    s.append(close);
    s
}

impl Symbol {
    /// Writes the symbol in `Debug` notation.
    pub fn debug_text(&self) -> (r: String)
        ensures
            r@ == symbol_debug_text(self@),
    {
        match self {
            Symbol::Keyword(name) => wrapped("Keyword(", name.as_str(), ")"),
            Symbol::Section(name) => wrapped("Section(", name.as_str(), ")"),
            Symbol::Reg(name) => wrapped("Reg(", name.as_str(), ")"),
            Symbol::Label(label) => wrapped("Label(Label(", label.name(), "))"),
            Symbol::Flag(name) => wrapped("Flag(", name.as_str(), ")"),
            Symbol::Sym(name) => wrapped("Sym(", name.as_str(), ")"),
        }
    }
}


/// An attached label in `Debug` notation: `None`, or the label in
/// `Some(Label(..))`.
pub open spec fn label_debug_text(label: Option<Seq<char>>) -> Seq<char> {
    match label {
        None => "None"@,
        Some(name) => "Some(Label("@ + debug_quoted(name) + "))"@,
    }
}

/// The expression in `Debug` notation: its variant, and in brackets what
/// it holds, a number in decimal notation.
pub open spec fn sexp_debug_text(e: SExpView) -> Seq<char>
    decreases e, 0nat,
{
    match e {
        SExpView::Symbol(sym) => "Symbol("@ + symbol_debug_text(sym) + ")"@,
        SExpView::Form(f) => "Form("@ + form_debug_text(f) + ")"@,
        SExpView::String(text) => "String("@ + debug_quoted(text) + ")"@,
        SExpView::Immediate(v) => "Immediate("@ + decimal_text(v as nat) + ")"@,
    }
}

/// The form in `Debug` notation: `Form { label: .., op: .., exps: [..] }`.
pub open spec fn form_debug_text(f: FormView) -> Seq<char>
    decreases f, 0nat,
{
    "Form { label: "@ + label_debug_text(f.label) + ", op: "@ + symbol_debug_text(f.op)
        + ", exps: ["@ + exps_debug_text(f.exps, f.exps.len() as int) + "] }"@
}

/// The first `n` of `exps` in `Debug` notation, with `, ` between them.
pub open spec fn exps_debug_text(exps: Seq<SExpView>, n: int) -> Seq<char>
    decreases exps, n,
{
    if n <= 0 || n > exps.len() {
        Seq::empty()
    } else if n == 1 {
        sexp_debug_text(exps[0])
    } else {
        exps_debug_text(exps, n - 1) + ", "@ + sexp_debug_text(exps[n - 1])
    }
}

impl SExp {
    /// Writes the expression in `Debug` notation.
    pub fn debug_text(&self) -> (r: String)
        ensures
            r@ == sexp_debug_text(self@),
        decreases self,
    {
        match self {
            SExp::Symbol(sym) => {
                let inner = sym.debug_text();
                let mut s = String::from_str("Symbol(");
                s.append(inner.as_str());
                s.append(")");
                s
            },
            SExp::Form(f) => {
                let inner = f.debug_text();
                let mut s = String::from_str("Form(");
                s.append(inner.as_str());
                s.append(")");
                s
            },
            SExp::String(text) => wrapped("String(", text.as_str(), ")"),
            SExp::Immediate(v) => {
                let inner = decimal(*v);
                let mut s = String::from_str("Immediate(");
                s.append(inner.as_str());
                s.append(")");
                s
            },
        }
    }
}

impl Form {
    /// Writes the form in `Debug` notation.
    pub fn debug_text(&self) -> (r: String)
        ensures
            r@ == form_debug_text(self@),
        decreases self,
    {
        proof {
            self.lemma_view();
        }
        let mut s = String::from_str("Form { label: ");
        match &self.label {
            None => {
                s.append("None");
            },
            Some(label) => {
                let inner = wrapped("Some(Label(", label.name(), "))");
                s.append(inner.as_str());
            },
        }
        s.append(", op: ");
        let op = self.op.debug_text();
        s.append(op.as_str());
        s.append(", exps: [");
        let ghost head = s@;
        let ghost exps = self@.exps;
        let mut i: usize = 0;
        assert(s@ =~= head + exps_debug_text(exps, 0));
        while i < self.exps.len()
            invariant
                i <= self.exps.len(),
                decreases_to!(self => self.exps@),
                exps == exps_view(self.exps@),
                exps.len() == self.exps.len(),
                s@ == head + exps_debug_text(exps, i as int),
            decreases self.exps.len() - i,
        {
            if i > 0 {
                s.append(", ");
            }
            assert(exps[i as int] == self.exps@[i as int]@);
            let inner = self.exps[i].debug_text();
            s.append(inner.as_str());
            i += 1;
            assert(s@ =~= head + exps_debug_text(exps, i as int));
        }
        s.append("] }");
        assert(s@ =~= form_debug_text(self@));
        s
    }

    /// What the view of a form is made of.
    pub proof fn lemma_view(&self)
        ensures
            self@.label == label_view(self.label),
            self@.op == self.op@,
            self@.exps == exps_view(self.exps@),
            self@.exps.len() == self.exps@.len(),
            forall|i: int| 0 <= i < self.exps@.len() ==> self@.exps[i] == (#[trigger] self.exps@[i])@,
    {
    }
}

} // verus!

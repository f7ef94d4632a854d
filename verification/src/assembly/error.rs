use crate::assembly::text::{debug_quoted, decimal, decimal_text, quote};
use vstd::prelude::*;

verus! {

/// Why a text is no form.
#[derive(Debug, Clone, Copy, PartialEq, Eq, Structural)]
pub enum ParseErrorKind {
    /// A form was expected and the text ended.
    UnexpectedEnd,
    /// A form was expected; the detail is the character found in place of `(`.
    ExpectedOpen,
    /// The text ended inside a form, before its `)`.
    UnexpectedFormEnd,
    /// A symbol was expected and the text ended.
    UnexpectedEndOfSymbol,
    /// A symbol without a name.
    EmptySymbol,
    /// A number was expected and the text ended.
    UnexpectedEndOfImmediate,
    /// A number that does not start with a numeric character.
    IllegalImmediate,
    /// A decimal number with a character that is no decimal digit.
    InvalidDigit,
    /// A decimal number above `u64::MAX`.
    NumberTooLarge,
    /// No hexadecimal number of 64 bits; the detail is the text behind `x`.
    InvalidHex,
    /// No binary number of 64 bits; the detail is the text behind `b`.
    InvalidBinary,
    /// A string without its closing `"`.
    UnexpectedEndOfString,
    /// A label was asked of a symbol that is none.
    SymbolNotALabel,
}

/// What went wrong inside one form: the kind and the text that goes with it.
pub struct Fault {
    pub kind: ParseErrorKind,
    pub detail: String,
}

/// What a `Fault` holds.
pub struct FaultView {
    pub kind: ParseErrorKind,
    pub detail: Seq<char>,
}

impl View for Fault {
    type V = FaultView;

    open spec fn view(&self) -> FaultView {
        FaultView { kind: self.kind, detail: self.detail@ }
    }
}

/// The fault of kind `kind` without a detail.
pub open spec fn plain_fault(kind: ParseErrorKind) -> FaultView {
    FaultView { kind, detail: Seq::empty() }
}

impl Fault {
    /// The fault of kind `kind` without a detail.
    pub fn plain(kind: ParseErrorKind) -> (r: Fault)
        ensures
            r@ == plain_fault(kind),
    {
        Fault { kind, detail: String::new() }
    }
}

/// A parse failure: the number of the top-level form it happened in, counted
/// from one, and the fault.
#[derive(Debug)]
pub struct ParseError {
    pub form: usize,
    pub kind: ParseErrorKind,
    pub detail: String,
}

/// What a `ParseError` holds.
pub struct ParseErrorView {
    pub form: nat,
    pub kind: ParseErrorKind,
    pub detail: Seq<char>,
}

impl View for ParseError {
    type V = ParseErrorView;

    open spec fn view(&self) -> ParseErrorView {
        ParseErrorView { form: self.form as nat, kind: self.kind, detail: self.detail@ }
    }
}

/// The fixed part of the text for a fault of kind `kind`.
pub open spec fn parse_kind_text(kind: ParseErrorKind) -> Seq<char> {
    match kind {
        ParseErrorKind::UnexpectedEnd => "unexpected end"@,
        ParseErrorKind::ExpectedOpen => "expected (, but got "@,
        ParseErrorKind::UnexpectedFormEnd => "unexpected form end"@,
        ParseErrorKind::UnexpectedEndOfSymbol => "unexpected end of symbol"@,
        ParseErrorKind::EmptySymbol => "error: empty symbol"@,
        ParseErrorKind::UnexpectedEndOfImmediate => "unexpected end of immediate value"@,
        ParseErrorKind::IllegalImmediate => "illegal immediate value"@,
        ParseErrorKind::InvalidDigit => "invalid digit found in string"@,
        ParseErrorKind::NumberTooLarge => "number too large to fit in target type"@,
        ParseErrorKind::InvalidHex => "invalid hex immediate: "@,
        ParseErrorKind::InvalidBinary => "invalid binary immediate: "@,
        ParseErrorKind::UnexpectedEndOfString => "unexpected end of string"@,
        ParseErrorKind::SymbolNotALabel => "symbol not a label"@,
    }
}

/// The text of the fault alone: its fixed part and its detail.
pub open spec fn parse_cause_text(e: ParseErrorView) -> Seq<char> {
    parse_kind_text(e.kind) + e.detail
}

/// The text of a parse failure, given the fault's text between quotes:
/// the form's number, then the quoted text in `Some(..)`.
pub open spec fn parse_error_text_with(e: ParseErrorView, quoted: Seq<char>) -> Seq<char> {
    "error parsing form #"@ + decimal_text(e.form) + ": Some("@ + quoted + ")"@
}

/// The text of a parse failure: the form's number, then the fault's text,
/// quoted.
pub open spec fn parse_error_text(e: ParseErrorView) -> Seq<char> {
    parse_error_text_with(e, debug_quoted(parse_cause_text(e)))
}

fn parse_kind_str(kind: ParseErrorKind) -> (r: &'static str)
    ensures
        r@ == parse_kind_text(kind),
{
    match kind {
        ParseErrorKind::UnexpectedEnd => "unexpected end",
        ParseErrorKind::ExpectedOpen => "expected (, but got ",
        ParseErrorKind::UnexpectedFormEnd => "unexpected form end",
        ParseErrorKind::UnexpectedEndOfSymbol => "unexpected end of symbol",
        ParseErrorKind::EmptySymbol => "error: empty symbol",
        ParseErrorKind::UnexpectedEndOfImmediate => "unexpected end of immediate value",
        ParseErrorKind::IllegalImmediate => "illegal immediate value",
        ParseErrorKind::InvalidDigit => "invalid digit found in string",
        ParseErrorKind::NumberTooLarge => "number too large to fit in target type",
        ParseErrorKind::InvalidHex => "invalid hex immediate: ",
        ParseErrorKind::InvalidBinary => "invalid binary immediate: ",
        ParseErrorKind::UnexpectedEndOfString => "unexpected end of string",
        ParseErrorKind::SymbolNotALabel => "symbol not a label",
    }
}

impl ParseError {
    /// The fault as text, without the form's number.
    pub fn cause(&self) -> (r: String)
        ensures
            r@ == parse_cause_text(self@),
    {
        let mut cause = String::from_str(parse_kind_str(self.kind));
        cause.append(self.detail.as_str());
        cause
    }

    /// The failure as one line of text, given the fault's text between
    /// quotes.
    pub fn message_with(&self, quoted: &str) -> (r: String)
        ensures
            r@ == parse_error_text_with(self@, quoted@),
    {
        let number = decimal(self.form as u64);
        let mut s = String::from_str("error parsing form #");
        s.append(number.as_str());
        s.append(": Some(");
        s.append(quoted);
        s.append(")");
        s
    }

    /// The failure as one line of text.
    pub fn message(&self) -> (r: String)
        ensures
            r@ == parse_error_text(self@),
    {
        let cause = self.cause();
        let quoted = quote(cause.as_str());
        self.message_with(quoted.as_str())
    }
}


/// Why an assembly failed. Where a kind has a detail, its line says what it
/// holds.
#[derive(Debug, Clone, Copy, PartialEq, Eq, Structural)]
pub enum ErrorKind {
    /// Bytes or a label-free directive came before any `section`.
    NotInSection,
    /// Bytes were to go into a label-only section; the detail is its name.
    SectionLabelOnly,
    /// `section` named a section that was not defined; the detail is the name.
    NoSuchSection,
    /// The bytes do not fit into the current section; the detail is its name.
    SectionFull,
    /// The current address would pass `u64::MAX`, or a sum of addresses did.
    AddressOverflow,
    /// A label was defined twice; the detail is its name.
    DuplicateLabel,
    /// An expression names a label that has no address; the detail is its name.
    UndefinedLabel,
    /// A relative jump names a label that has no address; the detail is its name.
    NoAddressForLabel,
    /// A top-level form with an unknown operator; the detail is the operator.
    UnknownTopLevel,
    /// A top-level form whose operator is no plain word; the detail is the
    /// operator in `Debug` notation.
    IllegalTopLevel,
    /// `def-section` without arguments.
    IllegalDefSection,
    /// `def-section` with a length that no buffer can have.
    SectionTooLong,
    /// `section` with other than one argument.
    IllegalSection,
    /// A section name was expected.
    SectionNameExpected,
    /// A keyword stands last, without its value.
    NoValueForKeyword,
    /// A number was expected; the detail is what stands there, in `Debug`
    /// notation.
    NotAnImmediate,
    /// A symbol was expected.
    NotASymbol,
    /// `true` or `false` was expected and the argument is no plain word.
    NotABoolSymbol,
    /// `true` or `false` was expected and the word is another.
    SymbolNotBool,
    /// A string was expected.
    StringExpected,
    /// A label was expected.
    LabelExpected,
    /// `include` with fewer than the arguments it needs.
    IncludeNeedsFile,
    /// An argument is missing; the detail says which.
    ExpectedButNothing,
    /// A unit that includes a file was assembled without a driver that
    /// reads files; the detail is the file's name.
    IncludeUnavailable,
    /// `ds` without a length.
    DsNeedsLen,
    /// `label` without an argument.
    LabelNeedsArgument,
    /// `label` with an argument that is no label.
    LabelNeedsLabel,
    /// `ld` with fewer than two arguments.
    LdNeedsTwoArguments,
    /// `ld` into a register that this form cannot load; the detail is its name.
    LdUnknownTargetRegister,
    /// `ld` through a register that cannot be dereferenced here; the detail
    /// is its name.
    LdUnknownDerefRegister,
    /// `ld` with a dereference that is none of the known shapes; the detail
    /// is its operator in `Debug` notation.
    LdIllegalDeref,
    /// `ld` from a register into a dereference that does not take it; the
    /// detail is the pair of the target and the register, both quoted.
    LdIllegalDerefFromReg,
    /// `ld` with arguments of shapes that no rule covers; the detail is the
    /// two arguments in `Debug` notation.
    LdIllegalParameters,
    /// `jp` with other than one or two arguments.
    JpNeedsArgument,
    /// `jp` on a flag it does not know; the detail is the flag.
    JpUnknownFlag,
    /// `jr` without arguments.
    JrNeedsArgument,
    /// `jr` on a flag it does not know; the detail is the flag.
    JrUnknownFlag,
    /// `jr` to something that is no label; the detail is the first argument
    /// in `Debug` notation.
    JrOnlyLabels,
    /// A relative jump further back than 128; the detail is the distance.
    JrTooFarBack,
    /// A relative jump further forward than 127; the detail is the distance.
    JrTooFarForward,
    /// An absolute address above 65535; the detail is the address.
    JpTooFarForward,
    /// `inc` with other than one argument.
    IncNeedsOneArgument,
    /// `inc` of an unknown register; the detail is its name.
    IncUnknownRegister,
    /// `inc` of something that is no register; the detail is the argument
    /// in `Debug` notation.
    IncIllegalArgument,
    /// `dec` with other than one argument.
    DecNeedsOneArgument,
    /// `dec` of an unknown register; the detail is its name.
    DecUnknownRegister,
    /// `dec` of something that is no register; the detail is the argument
    /// in `Debug` notation.
    DecIllegalArgument,
    /// `cp` with other than one argument.
    CpNeedsOneArgument,
    /// `cp` with something that is no number; the detail is the argument in
    /// `Debug` notation.
    CpIllegalArgument,
    /// `-` with fewer than two arguments; the detail is their number.
    MinusArity,
    /// A difference of addresses below zero.
    NegativeAddress,
    /// An operator other than `+` and `-`; the detail is the operator.
    IllegalOperator,
    /// An operator that is no plain word; the detail is the operator in
    /// `Debug` notation.
    IllegalOperatorSymbol,
    /// An expression that is neither a label nor a form; the detail is the
    /// expression in `Debug` notation.
    IllegalExpression,
    /// A section without a length in a flat image; the detail is its name.
    FlatNeedsLength,
    /// Two sections of a flat image overlap.
    SectionOverlap,
    /// A flat image that no buffer can hold.
    ImageTooLarge,
    /// Something other than a flat image was asked for.
    ObjectFileUnsupported,
}

/// An assembly failure: its kind and the text that goes with it.
#[derive(Debug)]
pub struct AsmError {
    pub kind: ErrorKind,
    pub detail: String,
}

/// What an `AsmError` holds.
pub struct AsmErrorView {
    pub kind: ErrorKind,
    pub detail: Seq<char>,
}

impl View for AsmError {
    type V = AsmErrorView;

    open spec fn view(&self) -> AsmErrorView {
        AsmErrorView { kind: self.kind, detail: self.detail@ }
    }
}

/// The failure of kind `kind` without a detail.
pub open spec fn plain(kind: ErrorKind) -> AsmErrorView {
    AsmErrorView { kind, detail: Seq::empty() }
}

/// The failure of kind `kind` with the detail `detail`.
pub open spec fn failure(kind: ErrorKind, detail: Seq<char>) -> AsmErrorView {
    AsmErrorView { kind, detail }
}

/// The text in front of the detail.
pub open spec fn kind_prefix(kind: ErrorKind) -> Seq<char> {
    match kind {
        ErrorKind::NotInSection => "not in a section"@,
        ErrorKind::SectionLabelOnly => "section "@,
        ErrorKind::NoSuchSection => "no such section: "@,
        ErrorKind::SectionFull => "section "@,
        ErrorKind::AddressOverflow => "address overflow"@,
        ErrorKind::DuplicateLabel => "duplicate label definition: '"@,
        ErrorKind::UndefinedLabel => "undefined label: Label("@,
        ErrorKind::NoAddressForLabel => "no address for label '"@,
        ErrorKind::UnknownTopLevel => "unknown top-level: "@,
        ErrorKind::IllegalTopLevel => "illegal top-level form: "@,
        ErrorKind::IllegalDefSection => "illegal def-section"@,
        ErrorKind::SectionTooLong => "def-section: length too large"@,
        ErrorKind::IllegalSection => "illegal section"@,
        ErrorKind::SectionNameExpected => "section name expected"@,
        ErrorKind::NoValueForKeyword => "no value for keyword"@,
        ErrorKind::NotAnImmediate => "not an immediate value: "@,
        ErrorKind::NotASymbol => "not a symbol"@,
        ErrorKind::NotABoolSymbol => "not a bool symbol"@,
        ErrorKind::SymbolNotBool => "symbol but not true|false"@,
        ErrorKind::StringExpected => "string expected"@,
        ErrorKind::LabelExpected => "label expected"@,
        ErrorKind::IncludeNeedsFile => "include must at least provide file to include"@,
        ErrorKind::ExpectedButNothing => "expected a '"@,
        ErrorKind::IncludeUnavailable => "include: no driver to read "@,
        ErrorKind::DsNeedsLen => "ds needs at least a len"@,
        ErrorKind::LabelNeedsArgument => "label: needs at one argument"@,
        ErrorKind::LabelNeedsLabel => "label: need a label as argument"@,
        ErrorKind::LdNeedsTwoArguments => "ld: needs at least two arguments"@,
        ErrorKind::LdUnknownTargetRegister => "ld: unknown target register: "@,
        ErrorKind::LdUnknownDerefRegister => "ld: unknown deref register: "@,
        ErrorKind::LdIllegalDeref => "ld: illegal deref: "@,
        ErrorKind::LdIllegalDerefFromReg => "ld: illegal deref from reg: "@,
        ErrorKind::LdIllegalParameters => "ld: illegal parameters: "@,
        ErrorKind::JpNeedsArgument => "jp: needs one or two arguments"@,
        ErrorKind::JpUnknownFlag => "jp: unknown flag '"@,
        ErrorKind::JrNeedsArgument => "jr: needs at least one argument"@,
        ErrorKind::JrUnknownFlag => "jr: unknown flag '"@,
        ErrorKind::JrOnlyLabels => "jr currently only supports labels, was: "@,
        ErrorKind::JrTooFarBack => "jr: max -128 jumps back, was "@,
        ErrorKind::JrTooFarForward => "jr: max 127 jumps forward, was "@,
        ErrorKind::JpTooFarForward => "jp: max 65535 jumps forward, was "@,
        ErrorKind::IncNeedsOneArgument => "inc: needs exactly one argument"@,
        ErrorKind::IncUnknownRegister => "inc: unknow register: "@,
        ErrorKind::IncIllegalArgument => "inc: illegal argument: "@,
        ErrorKind::DecNeedsOneArgument => "dec: needs exactly one argument"@,
        ErrorKind::DecUnknownRegister => "dec: unknow register: "@,
        ErrorKind::DecIllegalArgument => "dec: illegal argument: "@,
        ErrorKind::CpNeedsOneArgument => "cp: needs exactly one argument"@,
        ErrorKind::CpIllegalArgument => "cp: illegal argument: "@,
        ErrorKind::MinusArity => "-: invalid number or arguments "@,
        ErrorKind::NegativeAddress => "-: negative address"@,
        ErrorKind::IllegalOperator => "illegal arithmetic address operator: "@,
        ErrorKind::IllegalOperatorSymbol => "illegal arithmetic address operator: "@,
        ErrorKind::IllegalExpression => "illegal address arithmetic expression: "@,
        ErrorKind::FlatNeedsLength => "flat assembly needs sections with specified length: "@,
        ErrorKind::SectionOverlap => "flat assembly needs sections that do not overlap"@,
        ErrorKind::ImageTooLarge => "flat assembly too large"@,
        ErrorKind::ObjectFileUnsupported => "object file assembly currently not supported"@,
    }
}

/// The text behind the detail.
pub open spec fn kind_suffix(kind: ErrorKind) -> Seq<char> {
    match kind {
        ErrorKind::SectionLabelOnly => " is label-only"@,
        ErrorKind::SectionFull => " is full"@,
        ErrorKind::UndefinedLabel => ")"@,
        ErrorKind::ExpectedButNothing => "' but got nothing"@,
        ErrorKind::JpUnknownFlag => "'"@,
        ErrorKind::JrUnknownFlag => "'"@,
        _ => ""@,
    }
}

/// Whether the detail stands in the text in `Debug` notation, between
/// double quotes.
pub open spec fn kind_quotes(kind: ErrorKind) -> bool {
    kind == ErrorKind::UndefinedLabel || kind == ErrorKind::UnknownTopLevel || kind
        == ErrorKind::IllegalOperator
}

/// The text of an assembly failure, given its detail between quotes: the
/// detail stands in it as it is or, for the kinds that quote it, quoted.
pub open spec fn error_text_with(e: AsmErrorView, quoted: Seq<char>) -> Seq<char> {
    kind_prefix(e.kind) + (if kind_quotes(e.kind) {
        quoted
    } else {
        e.detail
    }) + kind_suffix(e.kind)
}

/// The text of an assembly failure.
pub open spec fn error_text(e: AsmErrorView) -> Seq<char> {
    error_text_with(e, debug_quoted(e.detail))
}

fn kind_prefix_str(kind: ErrorKind) -> (r: &'static str)
    ensures
        r@ == kind_prefix(kind),
{
    match kind {
        ErrorKind::NotInSection => "not in a section",
        ErrorKind::SectionLabelOnly => "section ",
        ErrorKind::NoSuchSection => "no such section: ",
        ErrorKind::SectionFull => "section ",
        ErrorKind::AddressOverflow => "address overflow",
        ErrorKind::DuplicateLabel => "duplicate label definition: '",
        ErrorKind::UndefinedLabel => "undefined label: Label(",
        ErrorKind::NoAddressForLabel => "no address for label '",
        ErrorKind::UnknownTopLevel => "unknown top-level: ",
        ErrorKind::IllegalTopLevel => "illegal top-level form: ",
        ErrorKind::IllegalDefSection => "illegal def-section",
        ErrorKind::SectionTooLong => "def-section: length too large",
        ErrorKind::IllegalSection => "illegal section",
        ErrorKind::SectionNameExpected => "section name expected",
        ErrorKind::NoValueForKeyword => "no value for keyword",
        ErrorKind::NotAnImmediate => "not an immediate value: ",
        ErrorKind::NotASymbol => "not a symbol",
        ErrorKind::NotABoolSymbol => "not a bool symbol",
        ErrorKind::SymbolNotBool => "symbol but not true|false",
        ErrorKind::StringExpected => "string expected",
        ErrorKind::LabelExpected => "label expected",
        ErrorKind::IncludeNeedsFile => "include must at least provide file to include",
        ErrorKind::ExpectedButNothing => "expected a '",
        ErrorKind::IncludeUnavailable => "include: no driver to read ",
        ErrorKind::DsNeedsLen => "ds needs at least a len",
        ErrorKind::LabelNeedsArgument => "label: needs at one argument",
        ErrorKind::LabelNeedsLabel => "label: need a label as argument",
        ErrorKind::LdNeedsTwoArguments => "ld: needs at least two arguments",
        ErrorKind::LdUnknownTargetRegister => "ld: unknown target register: ",
        ErrorKind::LdUnknownDerefRegister => "ld: unknown deref register: ",
        ErrorKind::LdIllegalDeref => "ld: illegal deref: ",
        ErrorKind::LdIllegalDerefFromReg => "ld: illegal deref from reg: ",
        ErrorKind::LdIllegalParameters => "ld: illegal parameters: ",
        ErrorKind::JpNeedsArgument => "jp: needs one or two arguments",
        ErrorKind::JpUnknownFlag => "jp: unknown flag '",
        ErrorKind::JrNeedsArgument => "jr: needs at least one argument",
        ErrorKind::JrUnknownFlag => "jr: unknown flag '",
        ErrorKind::JrOnlyLabels => "jr currently only supports labels, was: ",
        ErrorKind::JrTooFarBack => "jr: max -128 jumps back, was ",
        ErrorKind::JrTooFarForward => "jr: max 127 jumps forward, was ",
        ErrorKind::JpTooFarForward => "jp: max 65535 jumps forward, was ",
        ErrorKind::IncNeedsOneArgument => "inc: needs exactly one argument",
        ErrorKind::IncUnknownRegister => "inc: unknow register: ",
        ErrorKind::IncIllegalArgument => "inc: illegal argument: ",
        ErrorKind::DecNeedsOneArgument => "dec: needs exactly one argument",
        ErrorKind::DecUnknownRegister => "dec: unknow register: ",
        ErrorKind::DecIllegalArgument => "dec: illegal argument: ",
        ErrorKind::CpNeedsOneArgument => "cp: needs exactly one argument",
        ErrorKind::CpIllegalArgument => "cp: illegal argument: ",
        ErrorKind::MinusArity => "-: invalid number or arguments ",
        ErrorKind::NegativeAddress => "-: negative address",
        ErrorKind::IllegalOperator => "illegal arithmetic address operator: ",
        ErrorKind::IllegalOperatorSymbol => "illegal arithmetic address operator: ",
        ErrorKind::IllegalExpression => "illegal address arithmetic expression: ",
        ErrorKind::FlatNeedsLength => "flat assembly needs sections with specified length: ",
        ErrorKind::SectionOverlap => "flat assembly needs sections that do not overlap",
        ErrorKind::ImageTooLarge => "flat assembly too large",
        ErrorKind::ObjectFileUnsupported => "object file assembly currently not supported",
    }
}

fn kind_suffix_str(kind: ErrorKind) -> (r: &'static str)
    ensures
        r@ == kind_suffix(kind),
{
    match kind {
        ErrorKind::SectionLabelOnly => " is label-only",
        ErrorKind::SectionFull => " is full",
        ErrorKind::UndefinedLabel => ")",
        ErrorKind::ExpectedButNothing => "' but got nothing",
        ErrorKind::JpUnknownFlag => "'",
        ErrorKind::JrUnknownFlag => "'",
        _ => "",
    }
}

impl AsmError {
    /// The failure of kind `kind` without a detail.
    pub fn plain(kind: ErrorKind) -> (r: AsmError)
        ensures
            r@ == plain(kind),
    {
        AsmError { kind, detail: String::new() }
    }

    /// The failure of kind `kind` with the detail `detail`.
    pub fn with(kind: ErrorKind, detail: &str) -> (r: AsmError)
        ensures
            r@ == failure(kind, detail@),
    {
        AsmError { kind, detail: String::from_str(detail) }
    }

    /// Whether the detail stands in the text between quotes.
    pub fn quotes(&self) -> (r: bool)
        ensures
            r == kind_quotes(self.kind),
    {
        match self.kind {
            ErrorKind::UndefinedLabel => true,
            ErrorKind::UnknownTopLevel => true,
            ErrorKind::IllegalOperator => true,
            _ => false,
        }
    }

    /// The failure as one line of text, given its detail between quotes.
    pub fn message_with(&self, quoted: &str) -> (r: String)
        ensures
            r@ == error_text_with(self@, quoted@),
    {
        let mut s = String::from_str(kind_prefix_str(self.kind));
        if self.quotes() {
            s.append(quoted);
        } else {
            s.append(self.detail.as_str());
        }
        s.append(kind_suffix_str(self.kind));
        s
    }

    /// The failure as one line of text.
    pub fn message(&self) -> (r: String)
        ensures
            r@ == error_text(self@),
    {
        if self.quotes() {
            let quoted = quote(self.detail.as_str());
            self.message_with(quoted.as_str())
        } else {
            self.message_with("")
        }
    }
}

} // verus!

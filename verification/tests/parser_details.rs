use psy::assembly::error::ParseErrorKind;
use psy::assembly::parser::{parse_from_string, Form, Label, SExp, Symbol, TopLevel};

fn parsed(source: &str) -> TopLevel {
    match parse_from_string(source) {
        Ok(tl) => tl,
        Err(e) => panic!("{} does not parse: {}", source, e.message()),
    }
}

fn failure(source: &str) -> (usize, ParseErrorKind, String, String) {
    let e = parse_from_string(source).expect_err("the parse fails");
    let message = e.message();
    (e.form, e.kind, e.detail, message)
}

fn sym(name: &str) -> SExp {
    SExp::Symbol(Symbol::Sym(name.to_string()))
}

fn label(name: &str) -> Label {
    Label::from_string(name.to_string())
}

#[test]
fn an_empty_text_has_no_forms() {
    assert_eq!(parsed("").forms.len(), 0);
    assert_eq!(parsed("  \n\t ; only a comment").forms.len(), 0);
    assert_eq!(parsed("; one\n; two\n").forms.len(), 0);
}

#[test]
fn symbols_are_told_apart_by_their_prefix() {
    let tl = parsed("(op :key .sec %reg 'lbl #flg word with-dash x2)");
    assert_eq!(tl.forms.len(), 1);
    assert_eq!(tl.forms[0].op, Symbol::Sym("op".to_string()));
    assert_eq!(
        tl.forms[0].exps,
        vec![
            SExp::Symbol(Symbol::Keyword("key".to_string())),
            SExp::Symbol(Symbol::Section("sec".to_string())),
            SExp::Symbol(Symbol::Reg("reg".to_string())),
            SExp::Symbol(Symbol::Label(label("lbl"))),
            SExp::Symbol(Symbol::Flag("flg".to_string())),
            sym("word"),
            sym("with-dash"),
            sym("x2"),
        ]
    );
}

#[test]
fn operators_are_plain_words() {
    let tl = parsed("(+ 'a (- 'b 'c))");
    assert_eq!(tl.forms[0].op, Symbol::Sym("+".to_string()));
    match &tl.forms[0].exps[1] {
        SExp::Form(f) => {
            assert_eq!(f.op, Symbol::Sym("-".to_string()));
            assert_eq!(f.exps.len(), 2);
        }
        other => panic!("no form: {:?}", other),
    }
}

#[test]
fn names_may_hold_letters_of_any_script() {
    let tl = parsed("(größe 'żółw)");
    assert_eq!(tl.forms[0].op, Symbol::Sym("größe".to_string()));
    assert_eq!(tl.forms[0].exps, vec![SExp::Symbol(Symbol::Label(label("żółw")))]);
}

#[test]
fn numbers_in_three_notations() {
    let tl = parsed("(db 0 7 42 0x10 0xfF 0b101 0b0 18446744073709551615 0xFFFFFFFFFFFFFFFF)");
    assert_eq!(
        tl.forms[0].exps,
        vec![
            SExp::Immediate(0),
            SExp::Immediate(7),
            SExp::Immediate(42),
            SExp::Immediate(16),
            SExp::Immediate(255),
            SExp::Immediate(5),
            SExp::Immediate(0),
            SExp::Immediate(u64::MAX),
            SExp::Immediate(u64::MAX),
        ]
    );
}

#[test]
fn only_a_zero_marks_another_base() {
    let tl = parsed("(db 5x10 9b11 00x1)");
    assert_eq!(
        tl.forms[0].exps,
        vec![
            SExp::Immediate(5),
            sym("x10"),
            SExp::Immediate(9),
            sym("b11"),
            SExp::Immediate(0),
            sym("x1"),
        ]
    );
}

#[test]
fn a_number_ends_where_its_digits_end() {
    let tl = parsed("(db 12abc 0x1g)");
    assert_eq!(
        tl.forms[0].exps,
        vec![SExp::Immediate(12), sym("abc"), SExp::Immediate(1), sym("g")]
    );
}

#[test]
fn number_failures() {
    assert_eq!(
        failure("(db 18446744073709551616)"),
        (
            1,
            ParseErrorKind::NumberTooLarge,
            "".to_string(),
            "error parsing form #1: Some(\"number too large to fit in target type\")".to_string()
        )
    );
    assert_eq!(
        failure("(nop)(db 0x)"),
        (
            2,
            ParseErrorKind::InvalidHex,
            "".to_string(),
            "error parsing form #2: Some(\"invalid hex immediate: \")".to_string()
        )
    );
    assert_eq!(
        failure("(db 0x10000000000000000)"),
        (
            1,
            ParseErrorKind::InvalidHex,
            "10000000000000000".to_string(),
            "error parsing form #1: Some(\"invalid hex immediate: 10000000000000000\")".to_string()
        )
    );
    assert_eq!(
        failure("(db 0b102)"),
        (
            1,
            ParseErrorKind::InvalidBinary,
            "102".to_string(),
            "error parsing form #1: Some(\"invalid binary immediate: 102\")".to_string()
        )
    );
    // a numeric character that is no decimal digit
    assert_eq!(
        failure("(db 1\u{0663})"),
        (
            1,
            ParseErrorKind::InvalidDigit,
            "".to_string(),
            "error parsing form #1: Some(\"invalid digit found in string\")".to_string()
        )
    );
}

#[test]
fn strings_run_to_the_next_quote() {
    let tl = parsed("(include \"a b;c(d)\" \"\")");
    assert_eq!(
        tl.forms[0].exps,
        vec![SExp::String("a b;c(d)".to_string()), SExp::String("".to_string())]
    );
    assert_eq!(
        failure("(include \"abc)"),
        (
            1,
            ParseErrorKind::UnexpectedEndOfString,
            "".to_string(),
            "error parsing form #1: Some(\"unexpected end of string\")".to_string()
        )
    );
}

#[test]
fn comments_and_white_space_are_skipped() {
    let tl = parsed("; head\n(nop) ; behind\n\t( ld ; inside\n %a\r\n 1 )\n(nop);end");
    assert_eq!(tl.forms.len(), 3);
    assert_eq!(tl.forms[1].op, Symbol::Sym("ld".to_string()));
    assert_eq!(
        tl.forms[1].exps,
        vec![SExp::Symbol(Symbol::Reg("a".to_string())), SExp::Immediate(1)]
    );
}

#[test]
fn arguments_need_no_blank_between_them() {
    let tl = parsed("(ld(%hl)1)(nop)");
    assert_eq!(tl.forms.len(), 2);
    assert_eq!(tl.forms[0].exps.len(), 2);
    assert_eq!(
        tl.forms[0].exps[0],
        SExp::Form(Form {
            label: None,
            op: Symbol::Reg("hl".to_string()),
            exps: vec![],
        })
    );
}

#[test]
fn a_label_in_front_is_attached() {
    let tl = parsed("('start ld %a 1)('only)( 'spaced  )('l 'm)");
    assert_eq!(tl.forms.len(), 4);
    assert_eq!(tl.forms[0].label, Some(label("start")));
    assert_eq!(tl.forms[0].op, Symbol::Sym("ld".to_string()));
    assert_eq!(tl.forms[0].exps.len(), 2);
    for (i, name) in [(1, "only"), (2, "spaced")] {
        assert_eq!(tl.forms[i].label, Some(label(name)));
        assert_eq!(tl.forms[i].op, Symbol::Sym("".to_string()));
        assert!(tl.forms[i].exps.is_empty());
    }
    assert_eq!(tl.forms[3].label, Some(label("l")));
    assert_eq!(tl.forms[3].op, Symbol::Label(label("m")));
}

#[test]
fn a_dereferenced_label_is_a_label_only_form() {
    let tl = parsed("(ld %a ('data))");
    assert_eq!(
        tl.forms[0].exps[1],
        SExp::Form(Form {
            label: Some(label("data")),
            op: Symbol::Sym("".to_string()),
            exps: vec![],
        })
    );
}

#[test]
fn a_form_that_is_never_closed_fails() {
    for source in ["(nop", "(ds 1", "(ds 1 ", "(ld (%hl)", "(ld (%hl", "(ld ; c", "('l nop"] {
        let (form, kind, detail, message) = failure(source);
        assert_eq!(form, 1, "{}", source);
        assert_eq!(kind, ParseErrorKind::UnexpectedFormEnd, "{}", source);
        assert_eq!(detail, "", "{}", source);
        assert_eq!(message, "error parsing form #1: Some(\"unexpected form end\")");
    }
    assert_eq!(failure("(nop)(nop").0, 2);
}

#[test]
fn form_failures() {
    assert_eq!(
        failure("(nop) nop"),
        (
            2,
            ParseErrorKind::ExpectedOpen,
            "n".to_string(),
            "error parsing form #2: Some(\"expected (, but got n\")".to_string()
        )
    );
    assert_eq!(
        failure("(nop))"),
        (
            2,
            ParseErrorKind::ExpectedOpen,
            ")".to_string(),
            "error parsing form #2: Some(\"expected (, but got )\")".to_string()
        )
    );
    assert_eq!(
        failure("(nop)(nop)(  ; nothing more"),
        (
            3,
            ParseErrorKind::UnexpectedFormEnd,
            "".to_string(),
            "error parsing form #3: Some(\"unexpected form end\")".to_string()
        )
    );
    assert_eq!(
        failure("(:)"),
        (
            1,
            ParseErrorKind::EmptySymbol,
            "".to_string(),
            "error parsing form #1: Some(\"error: empty symbol\")".to_string()
        )
    );
    assert_eq!(
        failure("(ld % 1)"),
        (
            1,
            ParseErrorKind::EmptySymbol,
            "".to_string(),
            "error parsing form #1: Some(\"error: empty symbol\")".to_string()
        )
    );
    assert_eq!(
        failure("('lbl "),
        (
            1,
            ParseErrorKind::UnexpectedEndOfSymbol,
            "".to_string(),
            "error parsing form #1: Some(\"unexpected end of symbol\")".to_string()
        )
    );
    // a fault inside a nested form carries the number of the outer form
    assert_eq!(failure("(nop)(ld (%hl \"x) 1)").0, 2);
}

#[test]
fn a_quote_in_a_fault_is_escaped() {
    let (_, kind, detail, message) = failure("\"");
    assert_eq!(kind, ParseErrorKind::ExpectedOpen);
    assert_eq!(detail, "\"");
    assert_eq!(message, "error parsing form #1: Some(\"expected (, but got \\\"\")");
}

#[test]
fn parsing_twice_gives_the_same_forms() {
    let source = "('a ld %hl (- 'x 'y)) ; c\n(db 1 0x2 0b11 \"s\")";
    assert_eq!(parsed(source), parsed(source));
}

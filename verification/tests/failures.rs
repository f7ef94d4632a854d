use psy::arch::sm83::decode;
use psy::assembly::assembler::{
    assemble_form, assemble_in_state, cp, dec, inc, jp, jr, ld, Progress,
};
use psy::assembly::error::{AsmError, ErrorKind, ParseErrorKind};
use psy::assembly::parser::{
    parse_classified, parse_from_string, sym_get_label, Address, Form, Label, SExp, Symbol,
};
use psy::assembly::resolver::try_resolve;
use psy::assembly::state::{LabelTable, Memory, Section, State, UnresolvedReference};
use psy::assembly::text::{chars_of, classify, CharClass};
use psy::dasm::gb::instr_line;

const TEST_SEC_NAME: &str = "test-section";

fn test_state() -> State {
    let mut state = State::new();
    state.sections.push(Section {
        name: TEST_SEC_NAME.to_string(),
        length: Some(100),
        offset: Address(0x4000),
        label_only: false,
        memory: Memory {
            mem: vec![0; 100],
            mem_ptr: 0,
        },
    });
    state.current_section_name = Some(TEST_SEC_NAME.to_string());
    state.current_section_address = Address(0x4000);
    state
}

fn label(name: &str) -> Label {
    Label::from_string(name.to_string())
}

fn form(source: &str) -> Form {
    parse_from_string(source).expect("parses").forms.pop().expect("a form")
}

fn assert_untouched(state: &State, labels: &[&str]) {
    let sec = state.lookup_section(TEST_SEC_NAME).expect("test sec");
    assert_eq!(sec.memory.mem_ptr, 0);
    assert!(sec.memory.mem.iter().all(|b| *b == 0));
    assert_eq!(sec.memory.mem.len(), 100);
    assert_eq!(state.sections.len(), 1);
    assert_eq!(state.current_section_address, Address(0x4000));
    assert_eq!(state.current_section_name, Some(TEST_SEC_NAME.to_string()));
    assert!(state.pending_refs.is_empty());
    for name in labels {
        assert_eq!(state.label_addresses.get(&label(name)), None, "{}", name);
    }
}

#[test]
fn ld_names_the_arguments_that_no_rule_covers() {
    let mut state = test_state();
    let r = ld(&mut state, &form("(ld 1 2)"));
    assert_eq!(
        r.unwrap_err().message(),
        "ld: illegal parameters: Immediate(1) Immediate(2)"
    );
    assert_untouched(&state, &[]);
}

#[test]
fn an_instruction_that_fails_changes_nothing() {
    let cases: [(&str, &str); 12] = [
        ("(jr)", "jr: needs at least one argument"),
        ("(jr #tz 'x)", "jr: unknown flag 'tz'"),
        ("(jp)", "jp: needs one or two arguments"),
        ("(jp #c 'x 'y)", "jp: needs one or two arguments"),
        ("(jp 'x 'y 'z)", "jp: needs one or two arguments"),
        ("(ld)", "ld: needs at least two arguments"),
        ("(ld %de 42)", "ld: unknown target register: de"),
        ("(inc)", "inc: needs exactly one argument"),
        ("(inc %a %b)", "inc: needs exactly one argument"),
        ("(dec %a %b)", "dec: needs exactly one argument"),
        ("(cp)", "cp: needs exactly one argument"),
        ("(cp 1 2)", "cp: needs exactly one argument"),
    ];
    for (source, err) in cases {
        let mut state = test_state();
        let f = form(source);
        let r = match source.as_bytes()[1] {
            b'j' if source.starts_with("(jr") => jr(&mut state, &f),
            b'j' => jp(&mut state, &f),
            b'l' => ld(&mut state, &f),
            b'i' => inc(&mut state, &f),
            b'd' => dec(&mut state, &f),
            _ => cp(&mut state, &f),
        };
        assert_eq!(r.unwrap_err().message(), err, "{}", source);
        assert_untouched(&state, &[]);
    }
}

#[test]
fn an_instruction_whose_address_is_out_of_range_changes_nothing() {
    let mut state = test_state();
    state.label_addresses.insert(label("far"), Address(0x4000 + 130));
    let r = jr(&mut state, &form("(jr 'far)"));
    assert_eq!(r.unwrap_err().message(), "jr: max 127 jumps forward, was 128");
    assert_untouched(&state, &[]);

    let mut state = test_state();
    state.label_addresses.insert(label("far"), Address(0x10000));
    let r = jp(&mut state, &form("(jp 'far)"));
    assert_eq!(r.unwrap_err().message(), "jp: max 65535 jumps forward, was 65536");
    assert_untouched(&state, &[]);
    let r = ld(&mut state, &form("(ld %hl 'far)"));
    assert_eq!(r.unwrap_err().message(), "jp: max 65535 jumps forward, was 65536");
    assert_untouched(&state, &[]);
}

#[test]
fn an_instruction_for_a_full_section_changes_nothing() {
    let mut state = test_state();
    state.sections[0].memory.mem_ptr = 99;
    let r = jp(&mut state, &form("(jp 'x)"));
    assert_eq!(r.unwrap_err().message(), "section test-section is full");
    assert_eq!(state.sections[0].memory.mem_ptr, 99);
    assert_eq!(state.current_section_address, Address(0x4000));
    assert!(state.pending_refs.is_empty());
    assert!(state.sections[0].memory.mem.iter().all(|b| *b == 0));
}

#[test]
fn a_form_that_fails_changes_nothing() {
    let cases = [
        ("(foo)", "unknown top-level: \"foo\""),
        ("('x foo)", "unknown top-level: \"foo\""),
        ("(%hl)", "illegal top-level form: Reg(\"hl\")"),
        ("('x %hl)", "illegal top-level form: Reg(\"hl\")"),
        ("('x jr 5)", "jr currently only supports labels, was: Immediate(5)"),
        ("('x def-section)", "illegal def-section"),
        ("('x section .nowhere)", "no such section: nowhere"),
        ("('x include)", "include must at least provide file to include"),
        ("('x label 'x)", "duplicate label definition: 'x"),
    ];
    for (source, err) in cases {
        let mut state = test_state();
        let r = assemble_form(&mut state, &form(source));
        assert_eq!(r.unwrap_err().message(), err, "{}", source);
        assert_untouched(&state, &["x"]);
    }
    // a label that was there before stays
    let mut state = test_state();
    state.label_addresses.insert(label("x"), Address(7));
    let r = assemble_form(&mut state, &form("('x nop)"));
    assert_eq!(r.unwrap_err().message(), "duplicate label definition: 'x");
    assert_eq!(state.label_addresses.get(&label("x")), Some(Address(7)));
}

#[test]
fn a_run_stops_before_the_form_that_fails() {
    let mut state = State::new();
    let tl = parse_from_string("(foo)").unwrap();
    let r = assemble_in_state(&tl, 0, &mut state);
    assert_eq!(r.err().map(|e| e.message()), Some("unknown top-level: \"foo\"".to_string()));
    assert!(state.sections.is_empty());
    assert!(state.pending_refs.is_empty());
    assert_eq!(state.current_section_name, None);

    let mut state = State::new();
    let tl = parse_from_string(
        "(def-section .code :offset 8 :length 4)(section .code)('a nop)('b frob)('c nop)",
    )
    .unwrap();
    let r = assemble_in_state(&tl, 0, &mut state);
    assert_eq!(r.err().map(|e| e.message()), Some("unknown top-level: \"frob\"".to_string()));
    assert_eq!(state.sections.len(), 1);
    assert_eq!(state.sections[0].memory.mem_ptr, 1);
    assert_eq!(state.current_section_address, Address(9));
    assert_eq!(state.label_addresses.get(&label("a")), Some(Address(8)));
    assert_eq!(state.label_addresses.get(&label("b")), None);
    assert_eq!(state.label_addresses.get(&label("c")), None);
    assert!(matches!(
        assemble_in_state(&tl, 4, &mut state),
        Ok(Progress::Done)
    ));
    assert_eq!(state.label_addresses.get(&label("c")), Some(Address(9)));
}

#[test]
fn a_place_that_fails_leaves_the_bytes() {
    let mut state = test_state();
    state.sections[0].memory.mem_ptr = 2;
    state.label_addresses.insert(label("far"), Address(0x40CA));
    state.pending_refs.push(UnresolvedReference::Relative {
        origin: Address(0x4002),
        label: label("far"),
        sec_name: TEST_SEC_NAME.to_string(),
        patch_index: 1,
    });
    assert!(state.is_well_formed());
    let r = try_resolve(&mut state);
    assert_eq!(r.unwrap_err().message(), "jr: max 127 jumps forward, was 200");
    assert!(state.sections[0].memory.mem.iter().all(|b| *b == 0));
    assert_eq!(state.sections[0].memory.mem_ptr, 2);
    assert_eq!(state.current_section_address, Address(0x4000));
    assert_eq!(state.label_addresses.get(&label("far")), Some(Address(0x40CA)));
    assert_eq!(state.pending_refs.len(), 1);
}

#[test]
fn the_places_before_one_that_fails_have_their_bytes() {
    let mut state = test_state();
    state.sections[0].memory.mem_ptr = 6;
    state.label_addresses.insert(label("near"), Address(0x4001));
    let at = |name: &str, index: usize| UnresolvedReference::Absolute {
        expr: SExp::Symbol(Symbol::Label(label(name))),
        sec_name: TEST_SEC_NAME.to_string(),
        patch_index: index,
    };
    state.pending_refs.push(at("near", 0));
    state.pending_refs.push(at("nowhere", 2));
    state.pending_refs.push(at("near", 4));
    assert!(state.is_well_formed());
    let r = try_resolve(&mut state);
    assert_eq!(r.unwrap_err().message(), "undefined label: Label(\"nowhere\")");
    assert_eq!(&state.sections[0].memory.mem[0..6], &[0x01, 0x40, 0, 0, 0, 0]);
}

#[test]
fn debug_notation_is_that_of_the_derived_impls() {
    let sources = [
        "(nop)",
        "('start ld %hl (- 'end 'start) 0x10 \"a \\\\ b\")",
        "(x :k .s %r 'l #f w (a (b (c))) ('deref) \"\" 0)",
        "(db 1 2 3)",
        "('only)",
    ];
    for source in sources {
        let f = form(source);
        assert_eq!(f.debug_text(), format!("{:?}", f), "{}", source);
        for e in &f.exps {
            assert_eq!(e.debug_text(), format!("{:?}", e), "{}", source);
        }
        assert_eq!(f.op.debug_text(), format!("{:?}", f.op), "{}", source);
        let whole = SExp::Form(f);
        assert_eq!(whole.debug_text(), format!("{:?}", whole), "{}", source);
    }
    let quoted = SExp::String("a\"b\n".to_string());
    assert_eq!(quoted.debug_text(), "String(\"a\\\"b\\n\")");
}

#[test]
fn a_text_parses_as_the_classes_of_its_characters_say() {
    let chars = chars_of("(ld\u{a0}%a 1)");
    let classes = classify(&chars);
    assert!(classes[3].whitespace && !classes[3].alphanumeric && !classes[3].numeric);
    assert!(classes[1].alphanumeric && !classes[1].numeric && !classes[1].whitespace);
    assert!(classes[7].numeric && classes[7].alphanumeric);
    let tl = parse_classified(&chars, &classes).map_err(|e| e.message()).unwrap();
    assert_eq!(tl.forms[0].op, Symbol::Sym("ld".to_string()));
    assert_eq!(tl.forms[0].exps.len(), 2);

    // other classes, another reading: here `x` is white space and `l` a number
    let chars = chars_of("(adxbxl)");
    let mut other: Vec<CharClass> = Vec::new();
    for c in &chars {
        other.push(CharClass {
            whitespace: *c == 'x',
            alphanumeric: *c == 'a' || *c == 'b' || *c == 'd' || *c == 'l',
            numeric: *c == 'l',
        });
    }
    let e = parse_classified(&chars, &other).unwrap_err();
    assert_eq!((e.form, e.kind), (1, ParseErrorKind::InvalidDigit));
    let chars = chars_of("(adxbx7)");
    let mut other: Vec<CharClass> = Vec::new();
    for c in &chars {
        other.push(CharClass {
            whitespace: *c == 'x',
            alphanumeric: *c == 'a' || *c == 'b' || *c == 'd',
            numeric: *c == '7',
        });
    }
    let tl = parse_classified(&chars, &other).map_err(|e| e.message()).unwrap();
    assert_eq!(tl.forms[0].op, Symbol::Sym("ad".to_string()));
    assert_eq!(
        tl.forms[0].exps,
        vec![SExp::Symbol(Symbol::Sym("b".to_string())), SExp::Immediate(7)]
    );
}

#[test]
fn a_symbol_that_is_no_label_gives_no_label() {
    assert_eq!(
        sym_get_label(Symbol::Label(label("x"))).map_err(|e| e.kind),
        Ok(label("x"))
    );
    let e = sym_get_label(Symbol::Reg("a".to_string())).unwrap_err();
    assert_eq!(e.kind, ParseErrorKind::SymbolNotALabel);
    assert_eq!(e.detail, "");
}

#[test]
fn texts_with_the_quoted_part_given() {
    let e = AsmError::with(ErrorKind::UndefinedLabel, "a");
    assert!(e.quotes());
    assert_eq!(e.message_with("<a>"), "undefined label: Label(<a>)");
    assert_eq!(e.message(), "undefined label: Label(\"a\")");
    let e = AsmError::with(ErrorKind::NoSuchSection, "rom");
    assert!(!e.quotes());
    assert_eq!(e.message_with("<rom>"), "no such section: rom");
    let p = parse_from_string("(db 0b12)").unwrap_err();
    assert_eq!(p.cause(), "invalid binary immediate: 12");
    assert_eq!(p.message_with("<q>"), "error parsing form #1: Some(<q>)");
    let instr = decode(0xC3).unwrap();
    assert_eq!(instr_line(&instr, "<JP>", &[0xC3, 0x50, 0x01], 1), "(<JP> 0x150)");
}

#[test]
fn a_label_can_be_taken_out_of_the_table() {
    let mut t = LabelTable::new();
    t.insert(label("a"), Address(1));
    t.insert(label("b"), Address(2));
    t.remove(&label("a"));
    assert_eq!(t.get(&label("a")), None);
    assert_eq!(t.get(&label("b")), Some(Address(2)));
    t.remove(&label("a"));
    assert_eq!(t.get(&label("b")), Some(Address(2)));
}

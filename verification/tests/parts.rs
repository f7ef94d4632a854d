use psy::assembly::assembler::{
    assemble, define_label, expect_bool_sym, expect_has_sexp_at, expect_immediate,
    expect_immediate_value_or, expect_label_name, expect_section_name, expect_string, is_keyword,
    key_value, Options,
};
use psy::assembly::error::{AsmError, ErrorKind, ParseErrorKind};
use psy::assembly::interpreter::eval_aar;
use psy::assembly::parser::{
    parse_form, parse_from_string, parse_immediate, parse_number_value, parse_string,
    parse_symbol, skip_line_comment, skip_whitespace_and_comment, Address, Label, SExp, Symbol,
};
use psy::assembly::resolver::{check_16_bit_address_range, check_jr_jump, try_resolve};
use psy::assembly::state::{
    emit, expect_in_section, expect_in_w_sec, LabelTable, Memory, Section, State,
    UnresolvedReference,
};
use psy::assembly::text::{
    chars_of, classify, decimal, hex, hex_digit, is_text, string_of,
};
use std::path::PathBuf;

fn label(name: &str) -> Label {
    Label::from_string(name.to_string())
}

fn exps(source: &str) -> Vec<SExp> {
    parse_from_string(source).expect("parses").forms.pop().expect("a form").exps
}

fn section(name: &str, offset: u64, length: usize) -> Section {
    Section {
        name: name.to_string(),
        offset: Address(offset),
        length: Some(length as u64),
        label_only: false,
        memory: Memory {
            mem: vec![0; length],
            mem_ptr: 0,
        },
    }
}

#[test]
fn numbers_as_text() {
    assert_eq!(decimal(0), "0");
    assert_eq!(decimal(7), "7");
    assert_eq!(decimal(10), "10");
    assert_eq!(decimal(65536), "65536");
    assert_eq!(decimal(u64::MAX), "18446744073709551615");
    assert_eq!(hex(0, false), "0");
    assert_eq!(hex(10, false), "a");
    assert_eq!(hex(10, true), "A");
    assert_eq!(hex(0xBEEF, false), "beef");
    assert_eq!(hex(0xBEEF, true), "BEEF");
    assert_eq!(hex(u64::MAX, false), "ffffffffffffffff");
    assert_eq!(hex(0x1000, true), "1000");
}

#[test]
fn text_helpers() {
    assert_eq!(chars_of("a-ż"), vec!['a', '-', 'ż']);
    assert_eq!(chars_of(""), Vec::<char>::new());
    let chars = chars_of("hello");
    assert_eq!(string_of(&chars, 1, 4), "ell");
    assert_eq!(string_of(&chars, 2, 2), "");
    assert!(is_text(&"ld".to_string(), "ld"));
    assert!(!is_text(&"ld".to_string(), "l"));
    assert!(!is_text(&"ld".to_string(), "ldx"));
    for c in ['0', '9', 'a', 'f', 'A', 'F'] {
        assert!(hex_digit(c), "{}", c);
    }
    for c in ['g', 'G', 'x', ' ', '/', ':', '@', '`', '\u{0663}'] {
        assert!(!hex_digit(c), "{}", c);
    }
}

#[test]
fn labels_and_addresses() {
    let l = label("main");
    assert_eq!(l.name(), "main");
    assert_eq!(l.clone(), l);
    let mut a = Address(0x4000);
    a.add_bytes(3);
    assert_eq!(a, Address(0x4003));
    a.add_bytes(0);
    assert_eq!(a, Address(0x4003));
    assert!(Address(1) < Address(2));
}

#[test]
fn the_label_table_keeps_one_address_for_each_name() {
    let mut t = LabelTable::new();
    assert_eq!(t.get(&label("a")), None);
    assert!(!t.contains_key(&label("a")));
    t.insert(label("a"), Address(1));
    t.insert(label("b"), Address(2));
    assert!(t.contains_key(&label("a")));
    assert_eq!(t.get(&label("a")), Some(Address(1)));
    assert_eq!(t.get(&label("b")), Some(Address(2)));
    t.insert(label("a"), Address(3));
    assert_eq!(t.get(&label("a")), Some(Address(3)));
    assert_eq!(t.get(&label("")), None);
}

#[test]
fn memory_is_written_at_the_cursor() {
    let mut m = Memory {
        mem: vec![9, 9, 9],
        mem_ptr: 1,
    };
    m.push_u8(1);
    assert_eq!((m.mem.clone(), m.mem_ptr), (vec![9, 1, 9], 2));
    m.push_u8(2);
    m.push_u8(3);
    assert_eq!((m.mem.clone(), m.mem_ptr), (vec![9, 1, 2, 3], 4));
    m.push_u16(0xABCD);
    assert_eq!((m.mem.clone(), m.mem_ptr), (vec![9, 1, 2, 3, 0xCD, 0xAB], 6));
    let mut m = Memory {
        mem: vec![0; 4],
        mem_ptr: 1,
    };
    m.push_u16(0x0102);
    assert_eq!((m.mem.clone(), m.mem_ptr), (vec![0, 2, 1, 0], 3));
}

#[test]
fn a_fresh_state_is_empty_and_in_order() {
    let state = State::new();
    assert!(state.sections.is_empty());
    assert!(state.pending_refs.is_empty());
    assert_eq!(state.current_section_name, None);
    assert_eq!(state.current_section_address, Address(0));
    assert!(state.is_well_formed());
    assert!(state.lookup_section("code").is_none());
    assert_eq!(state.section_index("code"), None);
}

#[test]
fn states_out_of_order_are_told() {
    let mut state = State::new();
    state.sections.push(section("a", 0, 4));
    state.current_section_name = Some("a".to_string());
    assert!(state.is_well_formed());
    assert_eq!(state.section_index("a"), Some(0));

    state.current_section_name = Some("b".to_string());
    assert!(!state.is_well_formed());
    state.current_section_name = None;

    state.sections[0].memory.mem_ptr = 5;
    assert!(!state.is_well_formed());
    state.sections[0].memory.mem_ptr = 2;

    state.sections[0].length = Some(5);
    assert!(!state.is_well_formed());
    state.sections[0].length = None;
    assert!(!state.is_well_formed());
    state.sections[0].length = Some(4);

    let place = |index: usize| UnresolvedReference::Relative {
        origin: Address(0),
        label: label("l"),
        sec_name: "a".to_string(),
        patch_index: index,
    };
    state.pending_refs.push(place(1));
    assert!(state.is_well_formed());
    state.pending_refs.push(place(2));
    assert!(!state.is_well_formed());
    state.pending_refs.pop();
    state.pending_refs.push(place(0));
    assert!(!state.is_well_formed());
    state.pending_refs.pop();
    state.pending_refs.push(UnresolvedReference::Relative {
        origin: Address(0),
        label: label("l"),
        sec_name: "nowhere".to_string(),
        patch_index: 0,
    });
    assert!(!state.is_well_formed());
    state.pending_refs.pop();
    state.sections[0].label_only = true;
    assert!(!state.is_well_formed());
}

#[test]
fn bytes_go_to_the_current_section() {
    let mut state = State::new();
    assert_eq!(expect_in_section(&state).unwrap_err().kind, ErrorKind::NotInSection);
    assert_eq!(expect_in_w_sec(&state).unwrap_err().kind, ErrorKind::NotInSection);
    state.sections.push(section("a", 0x100, 4));
    state.current_section_name = Some("a".to_string());
    state.current_section_address = Address(0x100);
    assert!(expect_in_section(&state).is_ok());
    assert_eq!(expect_in_w_sec(&state).map_err(|e| e.message()), Ok(0));
    emit(&mut state, &vec![1, 2, 3]).map_err(|e| e.message()).unwrap();
    assert_eq!(state.sections[0].memory.mem, vec![1, 2, 3, 0]);
    assert_eq!(state.sections[0].memory.mem_ptr, 3);
    assert_eq!(state.current_section_address, Address(0x103));
    let full = emit(&mut state, &vec![4, 5]).unwrap_err();
    assert_eq!((full.kind, full.detail.as_str()), (ErrorKind::SectionFull, "a"));
    assert_eq!(state.sections[0].memory.mem, vec![1, 2, 3, 0]);
    assert_eq!(state.current_section_address, Address(0x103));
    emit(&mut state, &vec![]).map_err(|e| e.message()).unwrap();
    emit(&mut state, &vec![4]).map_err(|e| e.message()).unwrap();
    assert_eq!(state.sections[0].memory.mem, vec![1, 2, 3, 4]);
}

#[test]
fn define_label_takes_the_current_address() {
    let mut state = State::new();
    state.current_section_address = Address(0x77);
    define_label(&mut state, label("x")).map_err(|e| e.message()).unwrap();
    assert_eq!(state.label_addresses.get(&label("x")), Some(Address(0x77)));
    state.current_section_address = Address(0x78);
    let e = define_label(&mut state, label("x")).unwrap_err();
    assert_eq!((e.kind, e.detail.as_str()), (ErrorKind::DuplicateLabel, "x"));
    assert_eq!(state.label_addresses.get(&label("x")), Some(Address(0x77)));
}

#[test]
fn relative_distances() {
    assert_eq!(check_jr_jump(10, 10).map_err(|e| e.message()), Ok(0x00));
    assert_eq!(check_jr_jump(10, 11).map_err(|e| e.message()), Ok(0x01));
    assert_eq!(check_jr_jump(10, 9).map_err(|e| e.message()), Ok(0xFF));
    assert_eq!(check_jr_jump(0, 127).map_err(|e| e.message()), Ok(0x7F));
    assert_eq!(check_jr_jump(128, 0).map_err(|e| e.message()), Ok(0x80));
    assert_eq!(
        check_jr_jump(0, 128).map_err(|e| e.message()),
        Err("jr: max 127 jumps forward, was 128".to_string())
    );
    assert_eq!(
        check_jr_jump(129, 0).map_err(|e| e.message()),
        Err("jr: max -128 jumps back, was -129".to_string())
    );
    assert_eq!(
        check_jr_jump(u64::MAX, 0).map_err(|e| e.message()),
        Err("jr: max -128 jumps back, was -18446744073709551615".to_string())
    );
    assert_eq!(
        check_jr_jump(0, u64::MAX).map_err(|e| e.message()),
        Err("jr: max 127 jumps forward, was 18446744073709551615".to_string())
    );
}

#[test]
fn absolute_addresses() {
    assert_eq!(check_16_bit_address_range(0).map_err(|e| e.message()), Ok((0, 0)));
    assert_eq!(check_16_bit_address_range(0x1234).map_err(|e| e.message()), Ok((0x34, 0x12)));
    assert_eq!(check_16_bit_address_range(0xFFFF).map_err(|e| e.message()), Ok((0xFF, 0xFF)));
    assert_eq!(
        check_16_bit_address_range(0x10000).map_err(|e| e.message()),
        Err("jp: max 65535 jumps forward, was 65536".to_string())
    );
}

#[test]
fn waiting_places_are_filled_in_their_order() {
    let mut state = State::new();
    state.sections.push(section("a", 0, 8));
    state.sections[0].memory.mem = vec![0xC3, 0, 0, 0x18, 0, 0x21, 0, 0];
    state.sections[0].memory.mem_ptr = 8;
    state.label_addresses.insert(label("x"), Address(0x1234));
    state.label_addresses.insert(label("near"), Address(0x0A));
    let at = |name: &str| SExp::Symbol(Symbol::Label(label(name)));
    state.pending_refs.push(UnresolvedReference::Absolute {
        expr: at("x"),
        sec_name: "a".to_string(),
        patch_index: 1,
    });
    state.pending_refs.push(UnresolvedReference::Relative {
        origin: Address(5),
        label: label("near"),
        sec_name: "a".to_string(),
        patch_index: 4,
    });
    state.pending_refs.push(UnresolvedReference::Absolute {
        expr: SExp::Form(parse_from_string("(- 'x 'near)").unwrap().forms.pop().unwrap()),
        sec_name: "a".to_string(),
        patch_index: 6,
    });
    assert!(state.is_well_formed());
    try_resolve(&mut state).map_err(|e| e.message()).unwrap();
    assert_eq!(
        state.sections[0].memory.mem,
        vec![0xC3, 0x34, 0x12, 0x18, 0x05, 0x21, 0x2A, 0x12]
    );
    assert_eq!(state.pending_refs.len(), 3);
}

#[test]
fn evaluation_failures() {
    let t = LabelTable::new();
    let message = |e: SExp, t: &LabelTable| eval_aar(&e, t).unwrap_err().message();
    assert_eq!(
        message(SExp::Immediate(5), &t),
        "illegal address arithmetic expression: Immediate(5)"
    );
    assert_eq!(
        message(SExp::String("s".to_string()), &t),
        "illegal address arithmetic expression: String(\"s\")"
    );
    assert_eq!(
        message(SExp::Symbol(Symbol::Reg("a".to_string())), &t),
        "illegal address arithmetic expression: Symbol(Reg(\"a\"))"
    );
    let form = |source: &str| SExp::Form(parse_from_string(source).unwrap().forms.pop().unwrap());
    assert_eq!(
        message(form("(%hl 'a)"), &t),
        "illegal arithmetic address operator: Reg(\"hl\")"
    );
    assert_eq!(
        message(form("('a 'b)"), &t),
        "illegal arithmetic address operator: Label(Label(\"b\"))"
    );
    assert_eq!(
        message(form("(+ 1)"), &t),
        "illegal address arithmetic expression: Immediate(1)"
    );
    let mut t = LabelTable::new();
    t.insert(label("big"), Address(u64::MAX));
    t.insert(label("one"), Address(1));
    assert_eq!(message(form("(+ 'big 'one)"), &t), "address overflow");
    assert_eq!(eval_aar(&form("(+ 'big)"), &t).map_err(|e| e.message()), Ok(Address(u64::MAX)));
    assert_eq!(
        eval_aar(&form("(- 'big 'one 'one)"), &t).map_err(|e| e.message()),
        Ok(Address(u64::MAX - 2))
    );
    // the first argument that fails decides
    assert_eq!(message(form("(+ 'one 'x (- 'one 'big))"), &t), "undefined label: Label(\"x\")");
    assert_eq!(message(form("(+ (- 'one 'big) 'x)"), &t), "-: negative address");
}

#[test]
fn an_image_that_no_buffer_holds_fails() {
    let tl = parse_from_string("(def-section .a :offset 0xFFFFFFFFFFFFFFFF :length 1)").unwrap();
    let r = assemble(
        tl,
        Options {
            flat: true,
            out: PathBuf::new(),
        },
    );
    let e = r.unwrap_err();
    assert_eq!(e.kind, ErrorKind::ImageTooLarge);
    assert_eq!(e.message(), "flat assembly too large");
}

#[test]
fn directive_arguments() {
    let args = exps("(x :offset 5 :length .sec :flag true 'lbl \"str\" :last)");
    assert!(is_keyword(&args[0], "offset"));
    assert!(!is_keyword(&args[0], "length"));
    assert!(!is_keyword(&args[1], "offset"));
    assert_eq!(key_value(&args, "offset").map_err(|e| e.message()), Ok(Some(&args[1])));
    assert_eq!(key_value(&args, "length").map_err(|e| e.message()), Ok(Some(&args[3])));
    assert_eq!(key_value(&args, "none").map_err(|e| e.message()), Ok(None));
    assert_eq!(
        key_value(&args, "last").map_err(|e| e.message()),
        Err("no value for keyword".to_string())
    );
    assert_eq!(expect_immediate(&args[1]).map_err(|e| e.message()), Ok(5));
    assert_eq!(
        expect_immediate(&args[3]).map_err(|e| e.message()),
        Err("not an immediate value: Symbol(Section(\"sec\"))".to_string())
    );
    assert_eq!(expect_immediate_value_or(None, 9).map_err(|e| e.message()), Ok(9));
    assert_eq!(expect_immediate_value_or(Some(&args[1]), 9).map_err(|e| e.message()), Ok(5));
    assert_eq!(expect_section_name(&args[3]).map_err(|e| e.message()), Ok("sec".to_string()));
    assert_eq!(
        expect_section_name(&args[1]).map_err(|e| e.message()),
        Err("section name expected".to_string())
    );
    assert_eq!(expect_label_name(&args[6]).map_err(|e| e.message()), Ok(label("lbl")));
    assert_eq!(
        expect_label_name(&args[7]).map_err(|e| e.message()),
        Err("label expected".to_string())
    );
    assert_eq!(expect_string(&args[7]).map_err(|e| e.message()), Ok("str".to_string()));
    assert_eq!(
        expect_string(&args[6]).map_err(|e| e.message()),
        Err("string expected".to_string())
    );
    assert_eq!(
        expect_bool_sym(&Symbol::Sym("true".to_string())).map_err(|e| e.message()),
        Ok(true)
    );
    assert_eq!(
        expect_bool_sym(&Symbol::Sym("false".to_string())).map_err(|e| e.message()),
        Ok(false)
    );
    assert_eq!(
        expect_bool_sym(&Symbol::Sym("yes".to_string())).map_err(|e| e.message()),
        Err("symbol but not true|false".to_string())
    );
    assert!(expect_has_sexp_at(&args, 8, "x").is_ok());
    assert_eq!(
        expect_has_sexp_at(&args, 9, "path").map_err(|e| e.message()),
        Err("expected a 'path' but got nothing".to_string())
    );
}

#[test]
fn failures_have_a_kind_a_detail_and_a_text() {
    let e = AsmError::with(ErrorKind::NoSuchSection, "rom");
    assert_eq!(e.kind, ErrorKind::NoSuchSection);
    assert_eq!(e.detail, "rom");
    assert_eq!(e.message(), "no such section: rom");
    let e = AsmError::plain(ErrorKind::NegativeAddress);
    assert_eq!(e.detail, "");
    assert_eq!(e.message(), "-: negative address");
    let e = AsmError::with(ErrorKind::UndefinedLabel, "a\"b");
    assert_eq!(e.message(), "undefined label: Label(\"a\\\"b\")");
    let e = AsmError::with(ErrorKind::SectionTooLong, "");
    assert_eq!(e.message(), "def-section: length too large");
}

#[test]
fn the_parts_of_the_parser() {
    let chars = chars_of("  ; c\n (ld %a 0x1F \"s\") x");
    let classes = classify(&chars);
    assert_eq!(classes.len(), chars.len());
    assert_eq!(skip_whitespace_and_comment(&chars, &classes, 0), 7);
    assert_eq!(skip_whitespace_and_comment(&chars, &classes, 7), 7);
    assert_eq!(skip_line_comment(&chars, 2), 6);
    let (form, end) = parse_form(&chars, &classes, 7).map_err(|e| e.kind).unwrap();
    assert_eq!(end, 23);
    assert_eq!(form.op, Symbol::Sym("ld".to_string()));
    assert_eq!(form.exps.len(), 3);
    assert_eq!(
        parse_symbol(&chars, &classes, 11).map_err(|e| e.kind),
        Ok((Symbol::Reg("a".to_string()), 13))
    );
    assert_eq!(parse_immediate(&chars, &classes, 14).map_err(|e| e.kind), Ok((0x1F, 18)));
    assert_eq!(parse_string(&chars, 19).map_err(|e| e.kind), Ok(("s".to_string(), 22)));
    assert_eq!(parse_number_value(&chars, 16, 18, 16), Ok(0x1F));
    assert_eq!(parse_number_value(&chars, 16, 18, 10), Err(ParseErrorKind::InvalidDigit));
    assert_eq!(parse_number_value(&chars, 16, 16, 10), Ok(0));

    let end = chars.len();
    assert_eq!(parse_form(&chars, &classes, end).map_err(|e| e.kind).unwrap_err(), ParseErrorKind::UnexpectedEnd);
    assert_eq!(
        parse_symbol(&chars, &classes, end).map_err(|e| e.kind).unwrap_err(),
        ParseErrorKind::UnexpectedEndOfSymbol
    );
    assert_eq!(
        parse_immediate(&chars, &classes, end).map_err(|e| e.kind).unwrap_err(),
        ParseErrorKind::UnexpectedEndOfImmediate
    );
    assert_eq!(
        parse_immediate(&chars, &classes, 8).map_err(|e| e.kind).unwrap_err(),
        ParseErrorKind::IllegalImmediate
    );
    assert_eq!(skip_whitespace_and_comment(&chars, &classes, end), end);
}

use psy::assembly::assembler::{
    assemble, assemble_image, assemble_in_state, finish, Options, Progress,
};
use psy::assembly::error::ErrorKind;
use psy::assembly::parser::{parse_from_string, Address, Label};
use psy::assembly::state::State;
use std::path::PathBuf;

fn options(flat: bool) -> Options {
    Options {
        flat,
        out: PathBuf::from("a.out"),
    }
}

fn assemble_text(source: &str) -> Result<Vec<u8>, String> {
    let tl = parse_from_string(source).map_err(|e| e.message())?;
    let image = assemble_image(&tl, true).map_err(|e| e.message());
    assert_eq!(image, assemble(tl, options(true)).map_err(|e| e.message()));
    image
}

fn kind_of(source: &str) -> ErrorKind {
    let tl = parse_from_string(source).expect("the source parses");
    assemble(tl, options(true)).unwrap_err().kind
}

const CODE: &str = "(def-section .code :offset 0 :length 16)(section .code)";

#[test]
fn four_nops_fill_the_section() {
    let out = assemble_text(
        "(def-section .code :offset 0 :length 4)(section .code)(nop)(nop)(nop)(nop)",
    );
    assert_eq!(out, Ok(vec![0x00, 0x00, 0x00, 0x00]));
}

#[test]
fn jp_to_a_label_behind_it() {
    let out =
        assemble_text("(def-section .code :offset 0 :length 3)(section .code)(jp 'here)(label 'here)");
    assert_eq!(out, Ok(vec![0xC3, 0x03, 0x00]));
}

#[test]
fn jr_back_to_a_loop_label() {
    let out = assemble_text(
        "(def-section .code :offset 0 :length 4)(section .code)(label 'loop)(nop)(jr 'loop)",
    );
    assert_eq!(out, Ok(vec![0x00, 0x18, 0xFD, 0x00]));
}

#[test]
fn ld_hl_from_a_label_behind_it() {
    let out = assemble_text(
        "(def-section .code :offset 0 :length 5)(section .code)(ld %hl 'data)(label 'data)(nop)(nop)",
    );
    assert_eq!(out, Ok(vec![0x21, 0x03, 0x00, 0x00, 0x00]));
}

#[test]
fn cp_with_an_immediate() {
    let out = assemble_text("(def-section .code :offset 0 :length 3)(section .code)(cp 144)");
    assert_eq!(out, Ok(vec![0xFE, 0x90, 0x00]));
}

#[test]
fn a_label_defined_twice_fails() {
    let out = assemble_text(
        "(def-section .code :offset 0 :length 3)(section .code)(label 'x)(label 'x)",
    );
    assert_eq!(out, Err("duplicate label definition: 'x".to_string()));
}

#[test]
fn an_attached_label_defined_twice_fails() {
    let out = assemble_text(
        "(def-section .code :offset 0 :length 3)(section .code)('x nop)('x nop)",
    );
    assert_eq!(out, Err("duplicate label definition: 'x".to_string()));
}

#[test]
fn jr_over_two_hundred_bytes_fails() {
    let out = assemble_text(
        "(def-section .code :offset 0 :length 300)(section .code)(jr 'far)(ds 200)(label 'far)",
    );
    assert_eq!(out, Err("jr: max 127 jumps forward, was 200".to_string()));
}

#[test]
fn jr_forward_by_127_is_the_limit() {
    let out = assemble_text(
        "(def-section .code :offset 0 :length 130)(section .code)(jr 'far)(ds 127)(label 'far)",
    )
    .expect("assembles");
    assert_eq!(out.len(), 130);
    assert_eq!(&out[0..2], &[0x18, 0x7F]);
    let out = assemble_text(
        "(def-section .code :offset 0 :length 131)(section .code)(jr 'far)(ds 128)(label 'far)",
    );
    assert_eq!(out, Err("jr: max 127 jumps forward, was 128".to_string()));
}

#[test]
fn jr_back_by_128_is_the_limit() {
    let out = assemble_text(
        "(def-section .code :offset 0 :length 130)(section .code)(label 'top)(ds 126)(jr 'top)",
    )
    .expect("assembles");
    assert_eq!(&out[126..128], &[0x18, 0x80]);
    let out = assemble_text(
        "(def-section .code :offset 0 :length 130)(section .code)(label 'top)(ds 127)(jr 'top)",
    );
    assert_eq!(out, Err("jr: max -128 jumps back, was -129".to_string()));
}

#[test]
fn ld_bc_from_a_difference_of_labels() {
    let out = assemble_text(
        "(def-section .code :offset 0 :length 3)\
         (def-section .low :offset 0x4000 :label-only true)\
         (def-section .high :offset 0x4100 :label-only true)\
         (section .low)(label 'start)\
         (section .high)(label 'end)\
         (section .code)(ld %bc (- 'end 'start))",
    );
    assert_eq!(out, Ok(vec![0x01, 0x00, 0x01]));
}

#[test]
fn an_expression_may_name_later_labels() {
    let out = assemble_text(
        "(def-section .code :offset 0x10 :length 5)(section .code)\
         (ld %de (+ 'a 'b))(label 'a)(nop)(label 'b)(nop)",
    );
    // a = 0x13, b = 0x14; sixteen bytes of padding come first
    let mut want = vec![0u8; 16];
    want.extend_from_slice(&[0x11, 0x27, 0x00, 0x00, 0x00]);
    assert_eq!(out, Ok(want));
}

#[test]
fn an_absolute_address_above_sixteen_bits_fails() {
    let out = assemble_text(
        "(def-section .code :offset 0 :length 3)\
         (def-section .far :offset 0x10000 :label-only true)\
         (section .far)(label 'far)(section .code)(jp 'far)",
    );
    assert_eq!(out, Err("jp: max 65535 jumps forward, was 65536".to_string()));
}

#[test]
fn the_highest_absolute_address_is_written_low_byte_first() {
    let out = assemble_text(
        "(def-section .code :offset 0 :length 3)\
         (def-section .far :offset 0xFFFE :label-only true)\
         (section .far)(label 'far)(section .code)(jp #c 'far)",
    );
    assert_eq!(out, Ok(vec![0xDA, 0xFE, 0xFF]));
}

#[test]
fn gaps_between_sections_hold_zeros() {
    let out = assemble_text(
        "(def-section .b :offset 6 :length 1)(def-section .a :offset 2 :length 2)\
         (section .a)(db 1 2)(section .b)(db 3)",
    );
    assert_eq!(out, Ok(vec![0, 0, 1, 2, 0, 0, 3]));
}

#[test]
fn the_image_ends_with_the_last_section() {
    let out = assemble_text("(def-section .a :offset 3 :length 4)(section .a)(nop)").unwrap();
    assert_eq!(out.len(), 7);
    let out = assemble_text("(def-section .l :offset 100 :label-only true)").unwrap();
    assert_eq!(out.len(), 0);
    let out = assemble_text("").unwrap();
    assert_eq!(out.len(), 0);
}

#[test]
fn a_label_only_section_has_no_place_in_the_image() {
    let out = assemble_text(
        "(def-section .code :offset 0 :length 2)\
         (def-section .vars :offset 0xC000 :length 16 :label-only true)\
         (section .vars)(label 'v)(section .code)(nop)",
    );
    assert_eq!(out, Ok(vec![0, 0]));
}

#[test]
fn bytes_for_a_label_only_section_fail() {
    let out =
        assemble_text("(def-section .vars :offset 0 :label-only true)(section .vars)(nop)");
    assert_eq!(out, Err("section vars is label-only".to_string()));
}

#[test]
fn overlapping_sections_fail() {
    assert_eq!(
        kind_of("(def-section .a :offset 0 :length 4)(def-section .b :offset 3 :length 4)"),
        ErrorKind::SectionOverlap
    );
    assert_eq!(
        kind_of("(def-section .b :offset 3 :length 4)(def-section .a :offset 0 :length 4)"),
        ErrorKind::SectionOverlap
    );
    assert_eq!(
        kind_of("(def-section .b :offset 0 :length 8)(def-section .a :offset 4 :length 0)"),
        ErrorKind::SectionOverlap
    );
    // sections that touch do not overlap, nor does an empty one at a border
    let out = assemble_text(
        "(def-section .b :offset 3 :length 2)(def-section .a :offset 0 :length 3)\
         (def-section .e :offset 3 :length 0)(section .a)(db 1 2 3)(section .b)(db 4 5)",
    );
    assert_eq!(out, Ok(vec![1, 2, 3, 4, 5]));
}

#[test]
fn a_section_without_length_has_no_flat_image() {
    let out = assemble_text("(def-section .a :offset 0)(section .a)(nop)");
    assert_eq!(
        out,
        Err("flat assembly needs sections with specified length: a".to_string())
    );
}

#[test]
fn a_section_without_length_grows() {
    let tl = parse_from_string("(def-section .a :offset 8)(section .a)(db 1 2 3)(ds 2)").unwrap();
    let mut state = State::new();
    assemble_in_state(&tl, 0, &mut state).map_err(|e| e.message()).unwrap();
    let sec = state.lookup_section("a").unwrap();
    assert_eq!(sec.memory.mem, vec![1, 2, 3, 0, 0]);
    assert_eq!(sec.memory.mem_ptr, 5);
    assert_eq!(state.current_section_address, Address(13));
}

#[test]
fn only_flat_images_are_made() {
    let tl = parse_from_string("(def-section .a :offset 0 :length 1)").unwrap();
    let r = assemble(tl, options(false));
    assert_eq!(
        r.unwrap_err().message(),
        "object file assembly currently not supported"
    );
}

#[test]
fn a_full_section_takes_no_more_bytes() {
    let out = assemble_text("(def-section .a :offset 0 :length 2)(section .a)(nop)(nop)(nop)");
    assert_eq!(out, Err("section a is full".to_string()));
    let out = assemble_text("(def-section .a :offset 0 :length 2)(section .a)(ds 3)");
    assert_eq!(out, Err("section a is full".to_string()));
    let out = assemble_text("(def-section .a :offset 0 :length 2)(section .a)(ds 2)");
    assert_eq!(out, Ok(vec![0, 0]));
}

#[test]
fn the_address_does_not_pass_its_range() {
    let out = assemble_text(
        "(def-section .a :offset 0xFFFFFFFFFFFFFFFF :length 2)(section .a)(nop)(nop)",
    );
    assert_eq!(out, Err("address overflow".to_string()));
}

#[test]
fn bytes_need_a_section() {
    for source in ["(nop)", "(db 1)", "(ds 1)", "(cp 1)", "(inc %a)", "(jp 'x)"] {
        assert_eq!(assemble_text(source), Err("not in a section".to_string()), "{}", source);
    }
}

#[test]
fn db_writes_the_low_byte_of_each_value() {
    let out = assemble_text(&format!("{}(db 1 0xFF 0x1234 256)", CODE)).unwrap();
    assert_eq!(&out[0..5], &[0x01, 0xFF, 0x34, 0x00, 0x00]);
}

#[test]
fn db_without_values_takes_one_byte() {
    let tl = parse_from_string(&format!("{}(nop)('value1 db)(label 'behind)", CODE)).unwrap();
    let mut state = State::new();
    assemble_in_state(&tl, 0, &mut state).map_err(|e| e.message()).unwrap();
    let value1 = Label::from_string("value1".to_string());
    let behind = Label::from_string("behind".to_string());
    assert_eq!(state.label_addresses.get(&value1), Some(Address(1)));
    assert_eq!(state.label_addresses.get(&behind), Some(Address(2)));
    assert_eq!(state.lookup_section("code").unwrap().memory.mem_ptr, 2);
}

#[test]
fn db_takes_numbers_only() {
    let out = assemble_text(&format!("{}(db 1 %a)", CODE));
    assert_eq!(
        out,
        Err("not an immediate value: Symbol(Reg(\"a\"))".to_string())
    );
}

#[test]
fn ds_needs_a_number() {
    assert_eq!(assemble_text(&format!("{}(ds)", CODE)), Err("ds needs at least a len".to_string()));
    assert_eq!(
        assemble_text(&format!("{}(ds 'x)", CODE)),
        Err("not an immediate value: Symbol(Label(Label(\"x\")))".to_string())
    );
}

#[test]
fn labels_get_the_address_of_their_place() {
    let tl = parse_from_string(
        "(def-section .code :offset 0x150 :length 16)(section .code)\
         ('first nop)(label 'second)(ld %hl 0x1234)('third)(nop)('fourth db 1 2)",
    )
    .unwrap();
    let mut state = State::new();
    assemble_in_state(&tl, 0, &mut state).map_err(|e| e.message()).unwrap();
    let at = |name: &str| state.label_addresses.get(&Label::from_string(name.to_string()));
    assert_eq!(at("first"), Some(Address(0x150)));
    assert_eq!(at("second"), Some(Address(0x151)));
    assert_eq!(at("third"), Some(Address(0x154)));
    assert_eq!(at("fourth"), Some(Address(0x155)));
    assert_eq!(at("fifth"), None);
    assert_eq!(state.current_section_address, Address(0x157));
}

#[test]
fn a_section_selected_again_starts_at_its_offset() {
    let tl = parse_from_string(
        "(def-section .a :offset 0x10 :length 8)(def-section .b :offset 0x20 :length 8)\
         (section .a)(nop)(nop)(section .b)(nop)(section .a)(label 'again)(db 7)",
    )
    .unwrap();
    let mut state = State::new();
    assemble_in_state(&tl, 0, &mut state).map_err(|e| e.message()).unwrap();
    let again = Label::from_string("again".to_string());
    assert_eq!(state.label_addresses.get(&again), Some(Address(0x10)));
    let sec = state.lookup_section("a").unwrap();
    assert_eq!(sec.memory.mem_ptr, 3);
    assert_eq!(sec.memory.mem[2], 7);
}

#[test]
fn the_first_of_two_sections_of_one_name_is_found() {
    let out = assemble_text(
        "(def-section .a :offset 0 :length 2)(def-section .a :offset 4 :length 2)(section .a)(db 9)",
    );
    assert_eq!(out, Ok(vec![9, 0, 0, 0, 0, 0]));
}

#[test]
fn def_section_reads_its_keywords() {
    let tl = parse_from_string(
        "(def-section .a)(def-section .b :length 3 :offset 0x100)\
         (def-section .c :label-only true :length 5)(def-section .d :label-only false)",
    )
    .unwrap();
    let mut state = State::new();
    assemble_in_state(&tl, 0, &mut state).map_err(|e| e.message()).unwrap();
    assert_eq!(state.sections.len(), 4);
    let a = &state.sections[0];
    assert_eq!((a.name.as_str(), a.offset, a.length, a.label_only), ("a", Address(0), None, false));
    assert!(a.memory.mem.is_empty());
    let b = &state.sections[1];
    assert_eq!(
        (b.name.as_str(), b.offset, b.length, b.label_only),
        ("b", Address(0x100), Some(3), false)
    );
    assert_eq!(b.memory.mem, vec![0, 0, 0]);
    let c = &state.sections[2];
    assert_eq!((c.length, c.label_only), (Some(5), true));
    assert!(c.memory.mem.is_empty());
    assert!(!state.sections[3].label_only);
    assert_eq!(state.current_section_name, None);
}

#[test]
fn def_section_failures() {
    let cases = [
        ("(def-section)", "illegal def-section"),
        ("(def-section 'a)", "section name expected"),
        ("(def-section .a :offset)", "no value for keyword"),
        (
            "(def-section .a :offset .b)",
            "not an immediate value: Symbol(Section(\"b\"))",
        ),
        (
            "(def-section .a :length \"x\")",
            "not an immediate value: String(\"x\")",
        ),
        ("(def-section .a :label-only 1)", "not a symbol"),
        ("(def-section .a :label-only %a)", "not a bool symbol"),
        ("(def-section .a :label-only maybe)", "symbol but not true|false"),
    ];
    for (source, err) in cases {
        assert_eq!(assemble_text(source), Err(err.to_string()), "{}", source);
    }
}

#[test]
fn section_failures() {
    let cases = [
        ("(section)", "illegal section"),
        ("(section .a .b)", "illegal section"),
        ("(section 'a)", "section name expected"),
        ("(section .nowhere)", "no such section: nowhere"),
    ];
    for (source, err) in cases {
        assert_eq!(assemble_text(source), Err(err.to_string()), "{}", source);
    }
}

#[test]
fn label_failures() {
    assert_eq!(assemble_text("(label)"), Err("label: needs at one argument".to_string()));
    assert_eq!(assemble_text("(label 5)"), Err("label: need a label as argument".to_string()));
}

#[test]
fn top_level_failures() {
    assert_eq!(assemble_text("(frobnicate 1)"), Err("unknown top-level: \"frobnicate\"".to_string()));
    assert_eq!(assemble_text("(%hl)"), Err("illegal top-level form: Reg(\"hl\")".to_string()));
    assert_eq!(assemble_text("(:key)"), Err("illegal top-level form: Keyword(\"key\")".to_string()));
    assert_eq!(assemble_text("(.sec)"), Err("illegal top-level form: Section(\"sec\")".to_string()));
    assert_eq!(assemble_text("(#nz)"), Err("illegal top-level form: Flag(\"nz\")".to_string()));
    assert_eq!(
        assemble_text("('a 'b)"),
        Err("illegal top-level form: Label(Label(\"b\"))".to_string())
    );
}

#[test]
fn sub_section_and_label_only_forms_change_nothing_else() {
    let out = assemble_text(
        "(def-section .code :offset 0 :length 2)(section .code)(sub-section)('here)(jr 'here)",
    );
    assert_eq!(out, Ok(vec![0x18, 0xFE]));
}

#[test]
fn an_undefined_label_fails_at_the_end() {
    assert_eq!(
        assemble_text(&format!("{}(jp 'nowhere)", CODE)),
        Err("undefined label: Label(\"nowhere\")".to_string())
    );
    assert_eq!(
        assemble_text(&format!("{}(jr 'nowhere)", CODE)),
        Err("no address for label 'nowhere".to_string())
    );
    assert_eq!(
        assemble_text(&format!("{}(ld %hl (+ 'nowhere))", CODE)),
        Err("undefined label: Label(\"nowhere\")".to_string())
    );
}

#[test]
fn the_first_reference_that_fails_is_reported() {
    let out = assemble_text(&format!("{}(jr 'one)(jp 'two)", CODE));
    assert_eq!(out, Err("no address for label 'one".to_string()));
    let out = assemble_text(&format!("{}(jp 'two)(jr 'one)", CODE));
    assert_eq!(out, Err("undefined label: Label(\"two\")".to_string()));
}

#[test]
fn assembling_twice_gives_the_same_bytes() {
    let source = "(def-section .code :offset 2 :length 12)(section .code)\
                  ('start ld %hl 'data)(jr #nz 'start)(jp 'end)(label 'data)(db 1 2 3)('end nop)";
    let first = assemble_text(source);
    let second = assemble_text(source);
    assert!(first.is_ok());
    assert_eq!(first, second);
    assert_eq!(
        first.unwrap(),
        vec![0, 0, 0x21, 0x0A, 0x00, 0x20, 0xFB, 0xC3, 0x0D, 0x00, 1, 2, 3, 0x00]
    );
}

#[test]
fn include_hands_the_file_name_to_the_driver() {
    let tl = parse_from_string(
        "(def-section .code :offset 0 :length 8)(section .code)(nop)\
         ('inc include \"gb_dma\")(nop)(include :std \"hw\")(nop)",
    )
    .unwrap();
    let mut state = State::new();
    let first = assemble_in_state(&tl, 0, &mut state).map_err(|e| e.message()).unwrap();
    let resume = match first {
        Progress::Include { file_name, resume_at } => {
            assert_eq!(file_name, "gb_dma.asm");
            assert_eq!(resume_at, 4);
            resume_at
        }
        Progress::Done => panic!("the include was passed over"),
    };
    let inc = Label::from_string("inc".to_string());
    assert_eq!(state.label_addresses.get(&inc), Some(Address(1)));

    // what the driver does with the file
    let included = parse_from_string("(label 'dma)(db 0xAA)(jp 'later)").unwrap();
    let inner = assemble_in_state(&included, 0, &mut state).map_err(|e| e.message()).unwrap();
    assert!(matches!(inner, Progress::Done));

    let second = assemble_in_state(&tl, resume, &mut state).map_err(|e| e.message()).unwrap();
    match second {
        Progress::Include { file_name, resume_at } => {
            assert_eq!(file_name, "stdlib/hw.asm");
            assert_eq!(resume_at, 6);
        }
        Progress::Done => panic!("the include was passed over"),
    }
    assert_eq!(state.lookup_section("code").unwrap().memory.mem_ptr, 6);
}

#[test]
fn a_label_behind_an_include_is_found_from_inside_it() {
    let outer = parse_from_string(
        "(def-section .code :offset 0 :length 5)(section .code)(include \"part\")('later nop)",
    )
    .unwrap();
    let mut state = State::new();
    let p = assemble_in_state(&outer, 0, &mut state).map_err(|e| e.message()).unwrap();
    let resume = match p {
        Progress::Include { resume_at, .. } => resume_at,
        Progress::Done => panic!("the include was passed over"),
    };
    let part = parse_from_string("(jp 'later)(nop)").unwrap();
    assemble_in_state(&part, 0, &mut state).map_err(|e| e.message()).unwrap();
    let p = assemble_in_state(&outer, resume, &mut state).map_err(|e| e.message()).unwrap();
    assert!(matches!(p, Progress::Done));
    let out = finish(&mut state, true).map_err(|e| e.message());
    assert_eq!(out, Ok(vec![0xC3, 0x04, 0x00, 0x00, 0x00]));
}

#[test]
fn include_failures() {
    assert_eq!(
        assemble_text("(include)"),
        Err("include must at least provide file to include".to_string())
    );
    assert_eq!(assemble_text("(include 5)"), Err("string expected".to_string()));
    assert_eq!(
        assemble_text("(include :std)"),
        Err("expected a 'std include path required' but got nothing".to_string())
    );
    assert_eq!(assemble_text("(include :std 'x)"), Err("string expected".to_string()));
    assert_eq!(
        assemble_text("(include \"part\")"),
        Err("include: no driver to read part.asm".to_string())
    );
}

#[test]
fn a_section_longer_than_any_buffer_fails() {
    assert_eq!(
        assemble_text("(def-section .a :offset 0 :length 0x8000000000000000)"),
        Err("def-section: length too large".to_string())
    );
    assert_eq!(
        assemble_text("(def-section .a :offset 0 :length 0xFFFFFFFFFFFFFFFF :label-only true)"),
        Ok(vec![])
    );
}

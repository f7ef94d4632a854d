use psy::arch::sm83::{OP_JP, OP_JR, OP_JR_NZ, OP_LD_DE, OP_LD_HL};
use psy::assembly::assembler::{ds, expect_label_name, jp, jr, ld};
use psy::assembly::parser::{parse_from_string, Address, Label, SExp, Symbol};
use psy::assembly::state::{Memory, Section, State, UnresolvedReference};

const TEST_SEC_NAME: &str = "test-section";
const TEST_SEC_ADDR: Address = Address(0x4000);

/// What a test expects of the place that an instruction left waiting.
struct Expected {
    relative_from: Option<Address>,
    label: Label,
    sec_name: String,
    patch_index: usize,
    patch_width: usize,
}

fn assert_eq_unresolved_label(got: Option<&UnresolvedReference>, expect: Option<Expected>) {
    assert!(got.is_some() == expect.is_some());

    if let Some(expect_unresolved) = expect {
        let got_unresolved = got.expect("got is some");
        match got_unresolved {
            UnresolvedReference::Relative { origin, label, .. } => {
                assert_eq!(Some(*origin), expect_unresolved.relative_from, "relative_from");
                assert_eq!(*label, expect_unresolved.label, "label");
            }
            UnresolvedReference::Absolute { expr, .. } => {
                assert_eq!(None, expect_unresolved.relative_from, "relative_from");
                assert_eq!(
                    *expr,
                    SExp::Symbol(Symbol::Label(expect_unresolved.label.clone())),
                    "label"
                );
            }
        }
        assert_eq!(
            *got_unresolved.sec_name(),
            expect_unresolved.sec_name,
            "sec_name"
        );
        assert_eq!(
            got_unresolved.patch_index(),
            expect_unresolved.patch_index,
            "patch_index"
        );
        assert_eq!(
            got_unresolved.patch_width(),
            expect_unresolved.patch_width,
            "patch_width"
        );
    }
}

fn test_state() -> State {
    let mut state = State::new();
    state.sections.push(Section {
        name: TEST_SEC_NAME.to_string(),
        length: Some(100),
        offset: TEST_SEC_ADDR,
        label_only: false,
        memory: Memory {
            mem: vec![0; 100],
            mem_ptr: 0,
        },
    });
    state.current_section_name = Some(TEST_SEC_NAME.to_string());
    state.current_section_address = TEST_SEC_ADDR;
    state
}

#[test]
fn test_ds_ok() -> Result<(), String> {
    let cases = [("(ds 0)", 0), ("(ds 1)", 1), ("(ds 66)", 66)];

    for (exp, mem_ptr) in cases {
        let mut state = test_state();
        let tl = parse_from_string(exp).map_err(|e| e.message())?;

        ds(&mut state, &tl.forms[0]).map_err(|e| e.message())?;

        let sec = state.lookup_section(TEST_SEC_NAME).expect("test sec");
        assert_eq!(sec.memory.mem_ptr, mem_ptr);
    }

    Ok(())
}

#[test]
fn test_jr_fails() -> Result<(), String> {
    let cases = [
        ("(jr)", Address(0), "jr: needs at least one argument"),
        (
            "(jr 'lbl)",
            Address(0x4000 - 127),
            "jr: max -128 jumps back, was -129",
        ),
        (
            "(jr 'lbl)",
            Address(0x4000 + 130),
            "jr: max 127 jumps forward, was 128",
        ),
        (
            // unknown flag
            "(jr #tz 'lbl)",
            Address(0x4000 + 2),
            "jr: unknown flag 'tz'",
        ),
    ];

    for (exp, lbl_address, err) in cases {
        let mut state = test_state();
        let tl = parse_from_string(exp).map_err(|e| e.message())?;

        if !tl.forms[0].exps.is_empty() {
            let lbl = expect_label_name(&tl.forms[0].exps[tl.forms[0].exps.len() - 1])
                .map_err(|e| e.message())?;
            state.label_addresses.insert(lbl, lbl_address);
        }

        let r = jr(&mut state, &tl.forms[0]);

        assert_eq!(r.unwrap_err().message(), err);
    }
    Ok(())
}

#[test]
fn test_jr_ok() -> Result<(), String> {
    let cases = [
        // jump to self
        ("(jr 'lbl)", Some(Address(0x4000)), None, OP_JR, 0xFE),
        // jump maximum backward
        ("(jr 'lbl)", Some(Address(0x4000 - 126)), None, OP_JR, 0x80),
        // jump maximum forward
        ("(jr 'lbl)", Some(Address(0x4000 + 129)), None, OP_JR, 0x7F),
        // jump nz
        (
            "(jr #nz 'lbl)",
            Some(Address(0x4000 + 129)),
            None,
            OP_JR_NZ,
            0x7F,
        ),
        // forward jump, address not yet defined
        (
            "(jr 'forward)",
            None,
            Some(Expected {
                relative_from: Some(Address(16386)), // TEST_SEC_ADDRESS +2 bytes
                label: Label::from_string("forward".to_string()),
                sec_name: TEST_SEC_NAME.to_string(),
                patch_index: 1, // address bytes start at byte 1
                patch_width: 1,
            }),
            OP_JR,
            0x00,
        ),
    ];

    for (exp, may_lbl_address, expect_unresolved_info, inst1, inst2) in cases {
        let mut state = test_state();
        let tl = parse_from_string(exp).map_err(|e| e.message())?;
        let lbl = expect_label_name(&tl.forms[0].exps[tl.forms[0].exps.len() - 1])
            .map_err(|e| e.message())?;
        let mut expect_address = 0;
        if let Some(lbl_address) = may_lbl_address {
            state.label_addresses.insert(lbl, lbl_address);
            expect_address = lbl_address.0 as i32;
        }

        jr(&mut state, &tl.forms[0]).map_err(|e| e.message())?;

        assert_eq_unresolved_label(state.pending_refs.last(), expect_unresolved_info);

        let sec = state.lookup_section(TEST_SEC_NAME).expect("test sec");
        assert_eq!(
            sec.memory.mem[0], inst1,
            "address={:?}, inst1 was {:x}",
            expect_address, sec.memory.mem[0]
        );
        assert_eq!(
            sec.memory.mem[1], inst2,
            "address={:?}, inst2 was {:x}",
            expect_address, sec.memory.mem[1]
        );
    }

    Ok(())
}

#[test]
fn test_jp_ok() -> Result<(), String> {
    let cases = [
        // jump to self
        ("(jp 'lbl)", Some(Address(0x4000)), None, OP_JP, 0x00, 0x40),
        // forward jump, address not yet defined
        (
            "(jp 'forward)",
            None,
            Some(Expected {
                relative_from: None,
                label: Label::from_string("forward".to_string()),
                sec_name: TEST_SEC_NAME.to_string(),
                patch_index: 1, // address bytes start at byte 1
                patch_width: 2,
            }),
            OP_JP,
            0x00,
            0x00,
        ),
    ];

    for (exp, may_lbl_address, expect_unresolved_info, inst1, inst2, inst3) in cases {
        let mut state = test_state();
        let tl = parse_from_string(exp).map_err(|e| e.message())?;
        let lbl = expect_label_name(&tl.forms[0].exps[0]).map_err(|e| e.message())?;
        let mut expect_address = 0;
        if let Some(lbl_address) = may_lbl_address {
            state.label_addresses.insert(lbl, lbl_address);
            expect_address = lbl_address.0 as i32;
        }

        jp(&mut state, &tl.forms[0]).map_err(|e| e.message())?;

        assert_eq_unresolved_label(state.pending_refs.last(), expect_unresolved_info);

        let sec = state.lookup_section(TEST_SEC_NAME).expect("test sec");
        assert_eq!(
            sec.memory.mem[0], inst1,
            "address={:?}, inst1 was {:x}",
            expect_address, sec.memory.mem[0]
        );
        assert_eq!(
            sec.memory.mem[1], inst2,
            "address={:?}, inst2 was {:x}",
            expect_address, sec.memory.mem[1]
        );
        assert_eq!(
            sec.memory.mem[2], inst3,
            "address={:?}, inst3 was {:x}",
            expect_address, sec.memory.mem[2]
        );
    }
    Ok(())
}

#[test]
fn test_ld_fails() -> Result<(), String> {
    let cases = [
        ("(ld)", Address(0), "ld: needs at least two arguments"),
        // a register pair takes no immediate value but hl
        ("(ld %de 42)", Address(0), "ld: unknown target register: de"),
    ];

    for (exp, lbl_address, err) in cases {
        let mut state = test_state();
        let tl = parse_from_string(exp).map_err(|e| e.message())?;

        if !tl.forms[0].exps.is_empty() {
            if let Ok(lbl) = expect_label_name(&tl.forms[0].exps[tl.forms[0].exps.len() - 1]) {
                state.label_addresses.insert(lbl, lbl_address);
            }
        }

        let r = ld(&mut state, &tl.forms[0]);

        assert_eq!(r.unwrap_err().message(), err);
    }
    Ok(())
}

#[test]
fn test_ld_ok() -> Result<(), String> {
    let cases = [
        // load mem hl to reg
        (
            "(ld %hl 'lbl)",
            Some(Address(0x4000)),
            None,
            OP_LD_HL,
            0x00,
            0x40,
        ),
        // load hl mem to reg forward
        (
            "(ld %hl 'forward)",
            None,
            Some(Expected {
                relative_from: None,
                label: Label::from_string("forward".to_string()),
                sec_name: TEST_SEC_NAME.to_string(),
                patch_index: 1,
                patch_width: 2,
            }),
            OP_LD_HL,
            0x00,
            0x00,
        ),
        (
            "(ld %de 'lbl)",
            Some(Address(0x5001)),
            None,
            OP_LD_DE,
            0x01,
            0x50,
        ),
        // load immediate to reg
        ("(ld %b 42)", None, None, 0x06, 0x2A, 0x00),
        ("(ld %a 42)", None, None, 0x3E, 0x2A, 0x00),
        ("(ld %hl 0x1234)", None, None, OP_LD_HL, 0x34, 0x12),
    ];

    for (exp, may_lbl_address, expect_unresolved_info, inst1, inst2, inst3) in cases {
        let mut state = test_state();
        let tl = parse_from_string(exp).map_err(|e| e.message())?;

        let mut expect_address = 0;
        if let Some(lbl_address) = may_lbl_address {
            let lbl = expect_label_name(&tl.forms[0].exps[tl.forms[0].exps.len() - 1])
                .map_err(|e| e.message())?;
            state.label_addresses.insert(lbl, lbl_address);
            expect_address = lbl_address.0 as i32;
        }

        ld(&mut state, &tl.forms[0]).map_err(|e| e.message())?;

        assert_eq_unresolved_label(state.pending_refs.last(), expect_unresolved_info);

        let sec = state.lookup_section(TEST_SEC_NAME).expect("test sec");
        assert_eq!(
            sec.memory.mem[0], inst1,
            "address={:?}, inst1 was {:x}",
            expect_address, sec.memory.mem[0]
        );
        assert_eq!(
            sec.memory.mem[1], inst2,
            "address={:?}, inst2 was {:x}",
            expect_address, sec.memory.mem[1]
        );
        assert_eq!(
            sec.memory.mem[2], inst3,
            "address={:?}, inst3 was {:x}",
            expect_address, sec.memory.mem[2]
        );
    }
    Ok(())
}

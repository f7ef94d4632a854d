use psy::assembly::interpreter::eval_aar;
use psy::assembly::parser::{parse_from_string, Address, Label, SExp, Symbol};
use psy::assembly::state::LabelTable;

fn label(name: &str) -> Label {
    Label::from_string(name.to_string())
}

fn table(entries: &[(&str, u64)]) -> LabelTable {
    let mut t = LabelTable::new();
    for (name, address) in entries {
        t.insert(label(name), Address(*address));
    }
    t
}

fn must_parse_form(str: &str) -> SExp {
    SExp::Form(
        parse_from_string(str)
            .expect("parse form")
            .forms
            .pop()
            .expect("test form"),
    )
}

#[test]
fn test_eval_aar_fails() -> Result<(), String> {
    let cases = [
        ("(-)", table(&[]), "-: invalid number or arguments 0"),
        ("(- 'a)", table(&[]), "-: invalid number or arguments 1"),
        ("(- 'a 'b)", table(&[]), "undefined label: Label(\"a\")"),
        (
            "(- 'a 'b)", // negative address not allowed
            table(&[("a", 0x00), ("b", 0x01)]),
            "-: negative address",
        ),
        (
            "(x 'a)",
            table(&[]),
            "illegal arithmetic address operator: \"x\"",
        ),
    ];
    for (exp, label_addresses, err) in cases {
        let sexp = must_parse_form(exp);
        let r = eval_aar(&sexp, &label_addresses);

        assert!(
            r.is_err(),
            "expected error '{}' on expression = {:?}",
            err,
            exp
        );
        assert_eq!(r.unwrap_err().message(), err, "exp={:?}", exp);
    }

    Ok(())
}

#[test]
fn test_eval_aar_ok() -> Result<(), String> {
    let cases = [
        (
            "label only expression",
            SExp::Symbol(Symbol::Label(label("test-label"))),
            table(&[("test-label", 0x666)]),
            Address(0x666),
        ),
        (
            "subtract - 2 labels",
            must_parse_form("(- 'lbl2 'lbl1)"),
            table(&[("lbl1", 0x4000), ("lbl2", 0x5000)]),
            Address(0x1000),
        ),
        (
            "subtract - 3 labels",
            must_parse_form("(- 'lbl3 'lbl2 'lbl1)"),
            table(&[("lbl1", 0x3000), ("lbl2", 0x5000), ("lbl3", 0x10000)]),
            Address(0x8000),
        ),
        (
            "subtract - expression tree",
            must_parse_form("(- (- 'lbl3 'lbl2) (- 'lbl1 (- 'lbl0 'lblX)))"),
            table(&[
                ("lbl1", 0x3000),
                ("lbl2", 0x5000),
                ("lbl3", 0x10000),
                ("lbl0", 0x2000),
                ("lblX", 0x500),
            ]),
            Address(0x9B00),
        ),
        (
            "add - 0 labels",
            must_parse_form("(+)"),
            table(&[]),
            Address(0x00),
        ),
        (
            "add - 1 labels",
            must_parse_form("(+ 'lbl1)"),
            table(&[("lbl1", 0x4000)]),
            Address(0x4000),
        ),
        (
            "add - 2 labels",
            must_parse_form("(+ 'lbl2 'lbl1)"),
            table(&[("lbl1", 0x4000), ("lbl2", 0x5000)]),
            Address(0x9000),
        ),
        (
            "add - 3 labels",
            must_parse_form("(+ 'lbl3 'lbl2 'lbl1)"),
            table(&[("lbl1", 0x4000), ("lbl2", 0x5000), ("lbl3", 0x100)]),
            Address(0x9100),
        ),
        (
            "expression - mixed",
            must_parse_form("(+ 'lbl3 (- 'lbl2 'lbl1))"),
            table(&[("lbl1", 0x4000), ("lbl2", 0x5000), ("lbl3", 0x100)]),
            Address(0x1100),
        ),
    ];
    for (test, sexp, label_addresses, want_result_address) in cases {
        let got_result_address = eval_aar(&sexp, &label_addresses).map_err(|e| e.message())?;
        assert_eq!(got_result_address, want_result_address, "test: {}", test);
    }
    Ok(())
}

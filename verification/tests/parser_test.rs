use psy::assembly::parser::{parse, Label, SExp, Symbol};

fn chars(str: &'static str) -> Vec<char> {
    str.chars().collect()
}

#[test]
fn test_parse_label_only_form() -> Result<(), String> {
    let tl = parse(&chars("('value1 db)")).map_err(|e| e.message())?;
    assert_eq!(tl.forms.len(), 1);
    assert_eq!(
        tl.forms[0].label,
        Some(Label::from_string("value1".to_string()))
    );
    assert_eq!(tl.forms[0].op, Symbol::Sym("db".to_string()));
    assert!(tl.forms[0].exps.is_empty());
    Ok(())
}

#[test]
fn test_parse_include() -> Result<(), String> {
    let tl = parse(&chars("(include \"gb_dma\")")).map_err(|e| e.message())?;
    assert_eq!(tl.forms.len(), 1);
    assert_eq!(tl.forms[0].label, None);
    assert_eq!(tl.forms[0].op, Symbol::Sym("include".to_string()));
    assert_eq!(tl.forms[0].exps.len(), 1);
    assert_eq!(tl.forms[0].exps[0], SExp::String("gb_dma".to_string()));
    Ok(())
}

#[test]
fn test_parse_deref_reg() -> Result<(), String> {
    let tl = parse(&chars("(%hl)")).map_err(|e| e.message())?;
    assert_eq!(tl.forms.len(), 1);
    assert_eq!(tl.forms[0].label, None);
    assert_eq!(tl.forms[0].op, Symbol::Reg("hl".to_string()));
    Ok(())
}

#[test]
fn test_parse_ld_deref_immediate() -> Result<(), String> {
    let tl = parse(&chars("(ld (%hl) 1)")).map_err(|e| e.message())?;
    assert_eq!(tl.forms.len(), 1);
    assert_eq!(tl.forms[0].label, None);
    assert_eq!(tl.forms[0].op, Symbol::Sym("ld".to_string()));
    Ok(())
}

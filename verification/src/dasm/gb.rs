use crate::arch::sm83::{decode, instruction, Sm83Instr, Sm83InstrView};
use crate::assembly::text::{debug_quoted, hex, hex_text, quote};
use vstd::prelude::*;

verus! {

/// The implied arguments `args`, each with a blank in front of it.
pub open spec fn args_text(args: Seq<Seq<char>>) -> Seq<char>
    decreases args.len(),
{
    if args.len() == 0 {
        Seq::empty()
    } else {
        args_text(args.drop_last()) + " "@ + args.last()
    }
}

/// The value of the operand bytes, the low one first.
pub open spec fn operand_value(operands: Seq<u8>) -> nat {
    if operands.len() == 1 {
        operands[0] as nat
    } else if operands.len() == 2 {
        (operands[0] + 256 * operands[1]) as nat
    } else {
        0
    }
}

/// The line for the instruction `i` with the operand bytes `operands`:
/// in brackets the mnemonic between double quotes, the implied arguments,
/// and the operand, if there is one, in hexadecimal notation behind `0x`.
pub open spec fn instr_text(i: Sm83InstrView, operands: Seq<u8>) -> Seq<char> {
    instr_text_with(i, debug_quoted(i.mnemonic), operands)
}

/// The line for the instruction `i`, given its mnemonic between quotes.
pub open spec fn instr_text_with(i: Sm83InstrView, quoted: Seq<char>, operands: Seq<u8>) -> Seq<
    char,
> {
    let head = "("@ + quoted + args_text(i.immediate_args);
    if i.stream_args == 0 {
        head + ")"@
    } else if i.stream_args <= 2 {
        head + " 0x"@ + hex_text(operand_value(operands), false) + ")"@
    } else {
        head
    }
}

/// The text that says that the data end inside an instruction.
pub open spec fn truncated_text() -> Seq<char> {
    "unexpected end of data inside an instruction"@
}

/// The lines for the instructions in `data[ip..]`, behind the lines `acc`:
/// one line for each instruction, `???` for a byte that is no opcode. Data
/// that end inside an instruction have no lines.
pub open spec fn lines_from(data: Seq<u8>, ip: int, acc: Seq<Seq<char>>) -> Result<
    Seq<Seq<char>>,
    Seq<char>,
>
    decreases data.len() - ip,
{
    if ip < 0 || ip >= data.len() {
        Ok(acc)
    } else {
        match instruction(data[ip]) {
            None => lines_from(data, ip + 1, acc.push("???"@)),
            Some(i) => if ip + 1 + i.stream_args > data.len() {
                Err(truncated_text())
            } else {
                lines_from(
                    data,
                    ip + 1 + i.stream_args,
                    acc.push(instr_text(i, data.subrange(ip + 1, ip + 1 + i.stream_args))),
                )
            },
        }
    }
}

/// The lines for the instructions in `data`.
pub open spec fn disassembly(data: Seq<u8>) -> Result<Seq<Seq<char>>, Seq<char>> {
    lines_from(data, 0, Seq::empty())
}

/// The texts of `lines`, in order.
pub open spec fn lines_view(lines: Seq<String>) -> Seq<Seq<char>> {
    Seq::new(lines.len(), |i: int| lines[i]@)
}

/// Writes the line for the instruction `instr` with the operand bytes at
/// `data[at..]`, given its mnemonic between quotes.
pub fn instr_line(instr: &Sm83Instr, quoted: &str, data: &[u8], at: usize) -> (r: String)
    requires
        instr.stream_args <= 2,
        at + instr.stream_args <= data.len(),
    ensures
        r@ == instr_text_with(
            instr@,
            quoted@,
            data@.subrange(at as int, at + instr.stream_args),
        ),
{
    let mut s = String::from_str("(");
    s.append(quoted);
    let ghost base = s@;
    let ghost args = instr@.immediate_args;
    let mut j: usize = 0;
    while j < instr.immediate_args.len()
        invariant
            j <= instr.immediate_args.len(),
            args == instr@.immediate_args,
            args.len() == instr.immediate_args@.len(),
            s@ == base + args_text(args.take(j as int)),
        decreases instr.immediate_args.len() - j,
    {
        assert(args.take(j + 1).drop_last() =~= args.take(j as int));
        s.append(" ");
        s.append(instr.immediate_args[j]);
        j += 1;
    }
    assert(args.take(args.len() as int) =~= args);
    if instr.stream_args == 0 {
        s.append(")");
    } else if instr.stream_args == 1 {
        let text = hex(data[at] as u64, false);
        s.append(" 0x");
        s.append(text.as_str());
        s.append(")");
    } else {
        let a16: u64 = data[at] as u64 + 256 * (data[at + 1] as u64);
        let text = hex(a16, false);
        s.append(" 0x");
        s.append(text.as_str());
        s.append(")");
    }
    s
}

/// Writes the instructions in `data` as lines of text.
pub fn disassemble(data: &[u8]) -> (r: Result<Vec<String>, String>)
    ensures
        match disassembly(data@) {
            Ok(lines) => r matches Ok(x) && lines_view(x@) == lines,
            Err(e) => r matches Err(x) && x@ == e,
        },
{
    let mut result: Vec<String> = Vec::new();
    let mut ip: usize = 0;
    assert(lines_view(result@) =~= Seq::empty());
    while ip < data.len()
        invariant
            ip <= data.len(),
            disassembly(data@) == lines_from(data@, ip as int, lines_view(result@)),
        decreases data.len() - ip,
    {
        let ghost before = lines_view(result@);
        match decode(data[ip]) {
            Err(_) => {
                let line = String::from_str("???");
                assert(lines_view(result@.push(line)) =~= before.push("???"@));
                result.push(line);
                ip += 1;
            },
            Ok(instr) => {
                if instr.stream_args > data.len() - ip - 1 {
                    return Err(String::from_str("unexpected end of data inside an instruction"));
                }
                let name = quote(instr.mnemonic);
                let line = instr_line(&instr, name.as_str(), data, ip + 1);
                assert(lines_view(result@.push(line)) =~= before.push(line@));
                result.push(line);
                ip += 1 + instr.stream_args;
            },
        }
    }
    Ok(result)
}

} // verus!

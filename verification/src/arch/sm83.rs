use crate::assembly::text::{hex, hex_text};
use vstd::prelude::*;

verus! {

/// One instruction of the SM83: how the disassembler names it, its opcode,
/// the arguments that the opcode implies, and the number of operand bytes
/// that follow the opcode in the stream.
#[derive(Debug, Clone, Copy)]
pub struct Sm83Instr {
    pub mnemonic: &'static str,
    pub op_code: u8,
    pub immediate_args: &'static [&'static str],
    pub stream_args: usize,
}

/// What an `Sm83Instr` holds.
pub struct Sm83InstrView {
    pub mnemonic: Seq<char>,
    pub op_code: u8,
    pub immediate_args: Seq<Seq<char>>,
    pub stream_args: nat,
}

impl View for Sm83Instr {
    type V = Sm83InstrView;

    open spec fn view(&self) -> Sm83InstrView {
        Sm83InstrView {
            mnemonic: self.mnemonic@,
            op_code: self.op_code,
            immediate_args: Seq::new(self.immediate_args@.len(), |i: int| self.immediate_args@[i]@),
            stream_args: self.stream_args as nat,
        }
    }
}

pub const REG_HL: &'static str = "hl";

pub const REG_DE: &'static str = "de";

pub const REG_BC: &'static str = "bc";

pub const REG_A: &'static str = "a";

pub const REG_B: &'static str = "b";

pub const FLAG_NZ: &'static str = "nz";

pub const FLAG_C: &'static str = "c";

pub const OP_NOP: u8 = 0x00;

pub const OP_RST_38: u8 = 0xFF;

pub const OP_JP: u8 = 0xC3;

pub const OP_JP_C: u8 = 0xDA;

pub const OP_JR: u8 = 0x18;

pub const OP_JR_NZ: u8 = 0x20;

pub const OP_JR_C: u8 = 0x38;

pub const OP_CP: u8 = 0xFE;

pub const OP_INC_A: u8 = 0x3C;

pub const OP_INC_B: u8 = 0x04;

pub const OP_INC_BC: u8 = 0x03;

pub const OP_INC_DE: u8 = 0x13;

pub const OP_INC_HL: u8 = 0x23;

pub const OP_DEC_A: u8 = 0x3D;

pub const OP_DEC_B: u8 = 0x05;

pub const OP_DEC_BC: u8 = 0x0B;

pub const OP_DEC_DE: u8 = 0x1B;

pub const OP_DEC_HL: u8 = 0x2B;

pub const OP_LD_BC: u8 = 0x01;

pub const OP_LD_DE: u8 = 0x11;

pub const OP_LD_HL: u8 = 0x21;

pub const OP_LD_A: u8 = 0x3E;

pub const OP_LD_B: u8 = 0x06;

pub const OP_LD_TO_DEREF_HL: u8 = 0x36;

pub const OP_LD_TO_DEREF_BC_FROM_A: u8 = 0x02;

pub const OP_LD_TO_DEREF_DE_FROM_A: u8 = 0x12;

pub const OP_LD_TO_DEREF_HL_FROM_A: u8 = 0x77;

pub const OP_LD_TO_A_FROM_DEREF_BC: u8 = 0x0A;

pub const OP_LD_TO_A_FROM_DEREF_DE: u8 = 0x1A;

pub const OP_LD_TO_A_FROM_DEREF_HL: u8 = 0x7E;

pub const OP_LD_TO_A_FROM_DEREF_HL_INC: u8 = 0x2A;

pub const OP_LD_TO_A_FROM_ADDRESS: u8 = 0xFA;

pub const OP_LD_TO_ADDRESS_FROM_A: u8 = 0xEA;

/// The table entry without implied arguments.
pub open spec fn entry(mnemonic: Seq<char>, op_code: u8, stream_args: nat) -> Sm83InstrView {
    Sm83InstrView { mnemonic, op_code, immediate_args: Seq::empty(), stream_args }
}

/// The instruction table: the entry of the opcode `op`, if it has one.
pub open spec fn instruction(op: u8) -> Option<Sm83InstrView> {
    if op == OP_NOP {
        Some(entry("NOP"@, op, 0))
    } else if op == OP_RST_38 {
        Some(
            Sm83InstrView {
                mnemonic: "RST"@,
                op_code: op,
                immediate_args: seq!["0x38"@],
                stream_args: 0,
            },
        )
    } else if op == OP_JP {
        Some(entry("JP"@, op, 2))
    } else if op == OP_JP_C {
        Some(entry("JP #C"@, op, 2))
    } else if op == OP_JR {
        Some(entry("JR"@, op, 1))
    } else if op == OP_JR_NZ {
        Some(entry("JR #NZ"@, op, 1))
    } else if op == OP_JR_C {
        Some(entry("JR #C"@, op, 1))
    } else if op == OP_CP {
        Some(entry("CP"@, op, 1))
    } else if op == OP_INC_A {
        Some(entry("INC %a"@, op, 0))
    } else if op == OP_INC_B {
        Some(entry("INC %b"@, op, 0))
    } else if op == OP_INC_BC {
        Some(entry("INC %bc"@, op, 0))
    } else if op == OP_INC_DE {
        Some(entry("INC %de"@, op, 0))
    } else if op == OP_INC_HL {
        Some(entry("INC %hl"@, op, 0))
    } else if op == OP_DEC_A {
        Some(entry("DEC %a"@, op, 0))
    } else if op == OP_DEC_B {
        Some(entry("DEC %b"@, op, 0))
    } else if op == OP_DEC_BC {
        Some(entry("DEC %bc"@, op, 0))
    } else if op == OP_DEC_DE {
        Some(entry("DEC %de"@, op, 0))
    } else if op == OP_DEC_HL {
        Some(entry("DEC %hl"@, op, 0))
    } else if op == OP_LD_BC {
        Some(entry("LD %bc"@, op, 2))
    } else if op == OP_LD_DE {
        Some(entry("LD %de"@, op, 2))
    } else if op == OP_LD_HL {
        Some(entry("LD %hl"@, op, 2))
    } else if op == OP_LD_A {
        Some(entry("LD %a"@, op, 1))
    } else if op == OP_LD_B {
        Some(entry("LD %b"@, op, 1))
    } else if op == OP_LD_TO_DEREF_HL {
        Some(entry("LD (%hl)"@, op, 1))
    } else if op == OP_LD_TO_DEREF_BC_FROM_A {
        Some(entry("LD (%bc) %a"@, op, 0))
    } else if op == OP_LD_TO_DEREF_DE_FROM_A {
        Some(entry("LD (%de) %a"@, op, 0))
    } else if op == OP_LD_TO_DEREF_HL_FROM_A {
        Some(entry("LD (%hl) %a"@, op, 0))
    } else if op == OP_LD_TO_A_FROM_DEREF_BC {
        Some(entry("LD %a (%bc)"@, op, 0))
    } else if op == OP_LD_TO_A_FROM_DEREF_DE {
        Some(entry("LD %a (%de)"@, op, 0))
    } else if op == OP_LD_TO_A_FROM_DEREF_HL {
        Some(entry("LD %a (%hl)"@, op, 0))
    } else if op == OP_LD_TO_A_FROM_DEREF_HL_INC {
        Some(entry("LD %a (%hl +)"@, op, 0))
    } else if op == OP_LD_TO_A_FROM_ADDRESS {
        Some(entry("LD %a ()"@, op, 2))
    } else if op == OP_LD_TO_ADDRESS_FROM_A {
        Some(entry("LD () %a"@, op, 2))
    } else {
        None
    }
}

fn make(mnemonic: &'static str, op_code: u8, stream_args: usize) -> (r: Sm83Instr)
    ensures
        r@ == entry(mnemonic@, op_code, stream_args as nat),
{
    let r = Sm83Instr { mnemonic, op_code, immediate_args: &[], stream_args };
    assert(r@.immediate_args =~= Seq::empty());
    r
}

/// Whether a decoding result stands for `spec`: the entry, or the text
/// that names the unknown opcode in capital hexadecimal digits.
pub open spec fn decoded_is(r: Result<Sm83Instr, String>, op: u8) -> bool {
    match instruction(op) {
        Some(i) => r matches Ok(x) && x@ == i,
        None => r matches Err(s) && s@ == "unknown instruction: "@ + hex_text(op as nat, true),
    }
}

/// Looks the opcode `op` up in the instruction table.
pub fn decode(op: u8) -> (r: Result<Sm83Instr, String>)
    ensures
        decoded_is(r, op),
{
    if op == OP_NOP {
        Ok(make("NOP", op, 0))
    } else if op == OP_RST_38 {
        let r = Sm83Instr { mnemonic: "RST", op_code: op, immediate_args: &["0x38"], stream_args: 0 };
        assert(r@.immediate_args =~= seq!["0x38"@]);
        Ok(r)
    } else if op == OP_JP {
        Ok(make("JP", op, 2))
    } else if op == OP_JP_C {
        Ok(make("JP #C", op, 2))
    } else if op == OP_JR {
        Ok(make("JR", op, 1))
    } else if op == OP_JR_NZ {
        Ok(make("JR #NZ", op, 1))
    } else if op == OP_JR_C {
        Ok(make("JR #C", op, 1))
    } else if op == OP_CP {
        Ok(make("CP", op, 1))
    } else if op == OP_INC_A {
        Ok(make("INC %a", op, 0))
    } else if op == OP_INC_B {
        Ok(make("INC %b", op, 0))
    } else if op == OP_INC_BC {
        Ok(make("INC %bc", op, 0))
    } else if op == OP_INC_DE {
        Ok(make("INC %de", op, 0))
    } else if op == OP_INC_HL {
        Ok(make("INC %hl", op, 0))
    } else if op == OP_DEC_A {
        Ok(make("DEC %a", op, 0))
    } else if op == OP_DEC_B {
        Ok(make("DEC %b", op, 0))
    } else if op == OP_DEC_BC {
        Ok(make("DEC %bc", op, 0))
    } else if op == OP_DEC_DE {
        Ok(make("DEC %de", op, 0))
    } else if op == OP_DEC_HL {
        Ok(make("DEC %hl", op, 0))
    } else if op == OP_LD_BC {
        Ok(make("LD %bc", op, 2))
    } else if op == OP_LD_DE {
        Ok(make("LD %de", op, 2))
    } else if op == OP_LD_HL {
        Ok(make("LD %hl", op, 2))
    } else if op == OP_LD_A {
        Ok(make("LD %a", op, 1))
    } else if op == OP_LD_B {
        Ok(make("LD %b", op, 1))
    } else if op == OP_LD_TO_DEREF_HL {
        Ok(make("LD (%hl)", op, 1))
    } else if op == OP_LD_TO_DEREF_BC_FROM_A {
        Ok(make("LD (%bc) %a", op, 0))
    } else if op == OP_LD_TO_DEREF_DE_FROM_A {
        Ok(make("LD (%de) %a", op, 0))
    } else if op == OP_LD_TO_DEREF_HL_FROM_A {
        Ok(make("LD (%hl) %a", op, 0))
    } else if op == OP_LD_TO_A_FROM_DEREF_BC {
        Ok(make("LD %a (%bc)", op, 0))
    } else if op == OP_LD_TO_A_FROM_DEREF_DE {
        Ok(make("LD %a (%de)", op, 0))
    } else if op == OP_LD_TO_A_FROM_DEREF_HL {
        Ok(make("LD %a (%hl)", op, 0))
    } else if op == OP_LD_TO_A_FROM_DEREF_HL_INC {
        Ok(make("LD %a (%hl +)", op, 0))
    } else if op == OP_LD_TO_A_FROM_ADDRESS {
        Ok(make("LD %a ()", op, 2))
    } else if op == OP_LD_TO_ADDRESS_FROM_A {
        Ok(make("LD () %a", op, 2))
    } else {
        let mut s = String::from_str("unknown instruction: ");
        let h = hex(op as u64, true);
        s.append(h.as_str());
        Err(s)
    }
}

} // verus!

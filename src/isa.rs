use vstd::prelude::*;

use crate::emulator::opcode_takes_immediate;

verus! {

/// An item of the instruction set that source text names by a keyword.
pub trait Named: Sized + Copy {
    /// The keyword, in lower case.
    spec fn name(&self) -> Seq<char>;

    fn name_chars(&self) -> (r: Vec<char>)
        ensures
            r@ == self.name(),
    ;
}

/// The operations of the instruction set.
#[allow(non_camel_case_types)]
#[derive(Debug, Clone, Copy, PartialEq, Eq, Hash, Structural)]
pub enum Opcode {
    ADD,
    SUB,
    AND,
    OR,
    XOR,
    SLL,
    SRL,
    SRA,
    ADDI,
    ANDI,
    ORI,
    XORI,
    SLLI,
    SRAI,
    LD,
    ST,
    DEI,
    DEO,
    RCSR,
    WCSR,
    SWPR,
    LDIO,
    STIO,
    JAL,
    JSH,
    BEQ,
    BNE,
    BLT,
    BGE,
    BLTU,
    BGEU,
}

impl Opcode {
    /// The opcode field of the instruction.
    pub open spec fn spec_code(self) -> u16 {
        match self {
            Opcode::ADD => 0x0,
            Opcode::SUB => 0x1,
            Opcode::AND => 0x2,
            Opcode::OR => 0x3,
            Opcode::XOR => 0x4,
            Opcode::SLL => 0x5,
            Opcode::SRL => 0x6,
            Opcode::SRA => 0x7,
            Opcode::ADDI => 0x8,
            Opcode::ANDI => 0xa,
            Opcode::ORI => 0xb,
            Opcode::XORI => 0xc,
            Opcode::SLLI => 0xd,
            Opcode::SRAI => 0xf,
            Opcode::LD => 0x10,
            Opcode::ST => 0x11,
            Opcode::DEI => 0x12,
            Opcode::DEO => 0x13,
            Opcode::RCSR => 0x14,
            Opcode::WCSR => 0x15,
            Opcode::SWPR => 0x16,
            Opcode::LDIO => 0x18,
            Opcode::STIO => 0x19,
            Opcode::JAL => 0x28,
            Opcode::JSH => 0x29,
            Opcode::BEQ => 0x2a,
            Opcode::BNE => 0x2b,
            Opcode::BLT => 0x2c,
            Opcode::BGE => 0x2d,
            Opcode::BLTU => 0x2e,
            Opcode::BGEU => 0x2f,
        }
    }

    pub fn code(self) -> (r: u16)
        ensures
            r == self.spec_code(),
    {
        match self {
            Opcode::ADD => 0x0,
            Opcode::SUB => 0x1,
            Opcode::AND => 0x2,
            Opcode::OR => 0x3,
            Opcode::XOR => 0x4,
            Opcode::SLL => 0x5,
            Opcode::SRL => 0x6,
            Opcode::SRA => 0x7,
            Opcode::ADDI => 0x8,
            Opcode::ANDI => 0xa,
            Opcode::ORI => 0xb,
            Opcode::XORI => 0xc,
            Opcode::SLLI => 0xd,
            Opcode::SRAI => 0xf,
            Opcode::LD => 0x10,
            Opcode::ST => 0x11,
            Opcode::DEI => 0x12,
            Opcode::DEO => 0x13,
            Opcode::RCSR => 0x14,
            Opcode::WCSR => 0x15,
            Opcode::SWPR => 0x16,
            Opcode::LDIO => 0x18,
            Opcode::STIO => 0x19,
            Opcode::JAL => 0x28,
            Opcode::JSH => 0x29,
            Opcode::BEQ => 0x2a,
            Opcode::BNE => 0x2b,
            Opcode::BLT => 0x2c,
            Opcode::BGE => 0x2d,
            Opcode::BLTU => 0x2e,
            Opcode::BGEU => 0x2f,
        }
    }

    /// Every variant, in declaration order.
    pub open spec fn spec_all() -> Seq<Opcode> {
        seq![Opcode::ADD, Opcode::SUB, Opcode::AND, Opcode::OR, Opcode::XOR, Opcode::SLL, Opcode::SRL, Opcode::SRA, Opcode::ADDI, Opcode::ANDI, Opcode::ORI, Opcode::XORI, Opcode::SLLI, Opcode::SRAI, Opcode::LD, Opcode::ST, Opcode::DEI, Opcode::DEO, Opcode::RCSR, Opcode::WCSR, Opcode::SWPR, Opcode::LDIO, Opcode::STIO, Opcode::JAL, Opcode::JSH, Opcode::BEQ, Opcode::BNE, Opcode::BLT, Opcode::BGE, Opcode::BLTU, Opcode::BGEU]
    }

    pub fn all() -> (r: Vec<Opcode>)
        ensures
            r@ == Self::spec_all(),
    {
        vec![Opcode::ADD, Opcode::SUB, Opcode::AND, Opcode::OR, Opcode::XOR, Opcode::SLL, Opcode::SRL, Opcode::SRA, Opcode::ADDI, Opcode::ANDI, Opcode::ORI, Opcode::XORI, Opcode::SLLI, Opcode::SRAI, Opcode::LD, Opcode::ST, Opcode::DEI, Opcode::DEO, Opcode::RCSR, Opcode::WCSR, Opcode::SWPR, Opcode::LDIO, Opcode::STIO, Opcode::JAL, Opcode::JSH, Opcode::BEQ, Opcode::BNE, Opcode::BLT, Opcode::BGE, Opcode::BLTU, Opcode::BGEU]
    }
}

impl Named for Opcode {
    open spec fn name(&self) -> Seq<char> {
        match *self {
            Opcode::ADD => seq!['a', 'd', 'd'],
            Opcode::SUB => seq!['s', 'u', 'b'],
            Opcode::AND => seq!['a', 'n', 'd'],
            Opcode::OR => seq!['o', 'r'],
            Opcode::XOR => seq!['x', 'o', 'r'],
            Opcode::SLL => seq!['s', 'l', 'l'],
            Opcode::SRL => seq!['s', 'r', 'l'],
            Opcode::SRA => seq!['s', 'r', 'a'],
            Opcode::ADDI => seq!['a', 'd', 'd', 'i'],
            Opcode::ANDI => seq!['a', 'n', 'd', 'i'],
            Opcode::ORI => seq!['o', 'r', 'i'],
            Opcode::XORI => seq!['x', 'o', 'r', 'i'],
            Opcode::SLLI => seq!['s', 'l', 'l', 'i'],
            Opcode::SRAI => seq!['s', 'r', 'a', 'i'],
            Opcode::LD => seq!['l', 'd'],
            Opcode::ST => seq!['s', 't'],
            Opcode::DEI => seq!['d', 'e', 'i'],
            Opcode::DEO => seq!['d', 'e', 'o'],
            Opcode::RCSR => seq!['r', 'c', 's', 'r'],
            Opcode::WCSR => seq!['w', 'c', 's', 'r'],
            Opcode::SWPR => seq!['s', 'w', 'p', 'r'],
            Opcode::LDIO => seq!['l', 'd', 'i', 'o'],
            Opcode::STIO => seq!['s', 't', 'i', 'o'],
            Opcode::JAL => seq!['j', 'a', 'l'],
            Opcode::JSH => seq!['j', 's', 'h'],
            Opcode::BEQ => seq!['b', 'e', 'q'],
            Opcode::BNE => seq!['b', 'n', 'e'],
            Opcode::BLT => seq!['b', 'l', 't'],
            Opcode::BGE => seq!['b', 'g', 'e'],
            Opcode::BLTU => seq!['b', 'l', 't', 'u'],
            Opcode::BGEU => seq!['b', 'g', 'e', 'u'],
        }
    }

    fn name_chars(&self) -> (r: Vec<char>) {
        match *self {
            Opcode::ADD => vec!['a', 'd', 'd'],
            Opcode::SUB => vec!['s', 'u', 'b'],
            Opcode::AND => vec!['a', 'n', 'd'],
            Opcode::OR => vec!['o', 'r'],
            Opcode::XOR => vec!['x', 'o', 'r'],
            Opcode::SLL => vec!['s', 'l', 'l'],
            Opcode::SRL => vec!['s', 'r', 'l'],
            Opcode::SRA => vec!['s', 'r', 'a'],
            Opcode::ADDI => vec!['a', 'd', 'd', 'i'],
            Opcode::ANDI => vec!['a', 'n', 'd', 'i'],
            Opcode::ORI => vec!['o', 'r', 'i'],
            Opcode::XORI => vec!['x', 'o', 'r', 'i'],
            Opcode::SLLI => vec!['s', 'l', 'l', 'i'],
            Opcode::SRAI => vec!['s', 'r', 'a', 'i'],
            Opcode::LD => vec!['l', 'd'],
            Opcode::ST => vec!['s', 't'],
            Opcode::DEI => vec!['d', 'e', 'i'],
            Opcode::DEO => vec!['d', 'e', 'o'],
            Opcode::RCSR => vec!['r', 'c', 's', 'r'],
            Opcode::WCSR => vec!['w', 'c', 's', 'r'],
            Opcode::SWPR => vec!['s', 'w', 'p', 'r'],
            Opcode::LDIO => vec!['l', 'd', 'i', 'o'],
            Opcode::STIO => vec!['s', 't', 'i', 'o'],
            Opcode::JAL => vec!['j', 'a', 'l'],
            Opcode::JSH => vec!['j', 's', 'h'],
            Opcode::BEQ => vec!['b', 'e', 'q'],
            Opcode::BNE => vec!['b', 'n', 'e'],
            Opcode::BLT => vec!['b', 'l', 't'],
            Opcode::BGE => vec!['b', 'g', 'e'],
            Opcode::BLTU => vec!['b', 'l', 't', 'u'],
            Opcode::BGEU => vec!['b', 'g', 'e', 'u'],
        }
    }
}
/// The general-purpose registers.
#[allow(non_camel_case_types)]
#[derive(Debug, Clone, Copy, PartialEq, Eq, Hash, Structural)]
pub enum Register {
    R0,
    R1,
    R2,
    R3,
    R4,
    R5,
    R6,
    R7,
    R8,
    R9,
    R10,
    R11,
    R12,
    R13,
    R14,
    R15,
    R16,
    R17,
    R18,
    R19,
    R20,
    R21,
    R22,
    R23,
    R24,
    R25,
    R26,
    R27,
    R28,
    R29,
    R30,
    R31,
}

impl Register {
    /// The register's index in an instruction's register fields.
    pub open spec fn spec_index(self) -> u16 {
        match self {
            Register::R0 => 0x0,
            Register::R1 => 0x1,
            Register::R2 => 0x2,
            Register::R3 => 0x3,
            Register::R4 => 0x4,
            Register::R5 => 0x5,
            Register::R6 => 0x6,
            Register::R7 => 0x7,
            Register::R8 => 0x8,
            Register::R9 => 0x9,
            Register::R10 => 0xa,
            Register::R11 => 0xb,
            Register::R12 => 0xc,
            Register::R13 => 0xd,
            Register::R14 => 0xe,
            Register::R15 => 0xf,
            Register::R16 => 0x10,
            Register::R17 => 0x11,
            Register::R18 => 0x12,
            Register::R19 => 0x13,
            Register::R20 => 0x14,
            Register::R21 => 0x15,
            Register::R22 => 0x16,
            Register::R23 => 0x17,
            Register::R24 => 0x18,
            Register::R25 => 0x19,
            Register::R26 => 0x1a,
            Register::R27 => 0x1b,
            Register::R28 => 0x1c,
            Register::R29 => 0x1d,
            Register::R30 => 0x1e,
            Register::R31 => 0x1f,
        }
    }

    pub fn index(self) -> (r: u16)
        ensures
            r == self.spec_index(),
    {
        match self {
            Register::R0 => 0x0,
            Register::R1 => 0x1,
            Register::R2 => 0x2,
            Register::R3 => 0x3,
            Register::R4 => 0x4,
            Register::R5 => 0x5,
            Register::R6 => 0x6,
            Register::R7 => 0x7,
            Register::R8 => 0x8,
            Register::R9 => 0x9,
            Register::R10 => 0xa,
            Register::R11 => 0xb,
            Register::R12 => 0xc,
            Register::R13 => 0xd,
            Register::R14 => 0xe,
            Register::R15 => 0xf,
            Register::R16 => 0x10,
            Register::R17 => 0x11,
            Register::R18 => 0x12,
            Register::R19 => 0x13,
            Register::R20 => 0x14,
            Register::R21 => 0x15,
            Register::R22 => 0x16,
            Register::R23 => 0x17,
            Register::R24 => 0x18,
            Register::R25 => 0x19,
            Register::R26 => 0x1a,
            Register::R27 => 0x1b,
            Register::R28 => 0x1c,
            Register::R29 => 0x1d,
            Register::R30 => 0x1e,
            Register::R31 => 0x1f,
        }
    }

    /// Every variant, in declaration order.
    pub open spec fn spec_all() -> Seq<Register> {
        seq![Register::R0, Register::R1, Register::R2, Register::R3, Register::R4, Register::R5, Register::R6, Register::R7, Register::R8, Register::R9, Register::R10, Register::R11, Register::R12, Register::R13, Register::R14, Register::R15, Register::R16, Register::R17, Register::R18, Register::R19, Register::R20, Register::R21, Register::R22, Register::R23, Register::R24, Register::R25, Register::R26, Register::R27, Register::R28, Register::R29, Register::R30, Register::R31]
    }

    pub fn all() -> (r: Vec<Register>)
        ensures
            r@ == Self::spec_all(),
    {
        vec![Register::R0, Register::R1, Register::R2, Register::R3, Register::R4, Register::R5, Register::R6, Register::R7, Register::R8, Register::R9, Register::R10, Register::R11, Register::R12, Register::R13, Register::R14, Register::R15, Register::R16, Register::R17, Register::R18, Register::R19, Register::R20, Register::R21, Register::R22, Register::R23, Register::R24, Register::R25, Register::R26, Register::R27, Register::R28, Register::R29, Register::R30, Register::R31]
    }
}

impl Named for Register {
    open spec fn name(&self) -> Seq<char> {
        match *self {
            Register::R0 => seq!['r', '0'],
            Register::R1 => seq!['r', '1'],
            Register::R2 => seq!['r', '2'],
            Register::R3 => seq!['r', '3'],
            Register::R4 => seq!['r', '4'],
            Register::R5 => seq!['r', '5'],
            Register::R6 => seq!['r', '6'],
            Register::R7 => seq!['r', '7'],
            Register::R8 => seq!['r', '8'],
            Register::R9 => seq!['r', '9'],
            Register::R10 => seq!['r', '1', '0'],
            Register::R11 => seq!['r', '1', '1'],
            Register::R12 => seq!['r', '1', '2'],
            Register::R13 => seq!['r', '1', '3'],
            Register::R14 => seq!['r', '1', '4'],
            Register::R15 => seq!['r', '1', '5'],
            Register::R16 => seq!['r', '1', '6'],
            Register::R17 => seq!['r', '1', '7'],
            Register::R18 => seq!['r', '1', '8'],
            Register::R19 => seq!['r', '1', '9'],
            Register::R20 => seq!['r', '2', '0'],
            Register::R21 => seq!['r', '2', '1'],
            Register::R22 => seq!['r', '2', '2'],
            Register::R23 => seq!['r', '2', '3'],
            Register::R24 => seq!['r', '2', '4'],
            Register::R25 => seq!['r', '2', '5'],
            Register::R26 => seq!['r', '2', '6'],
            Register::R27 => seq!['r', '2', '7'],
            Register::R28 => seq!['r', '2', '8'],
            Register::R29 => seq!['r', '2', '9'],
            Register::R30 => seq!['r', '3', '0'],
            Register::R31 => seq!['r', '3', '1'],
        }
    }

    fn name_chars(&self) -> (r: Vec<char>) {
        match *self {
            Register::R0 => vec!['r', '0'],
            Register::R1 => vec!['r', '1'],
            Register::R2 => vec!['r', '2'],
            Register::R3 => vec!['r', '3'],
            Register::R4 => vec!['r', '4'],
            Register::R5 => vec!['r', '5'],
            Register::R6 => vec!['r', '6'],
            Register::R7 => vec!['r', '7'],
            Register::R8 => vec!['r', '8'],
            Register::R9 => vec!['r', '9'],
            Register::R10 => vec!['r', '1', '0'],
            Register::R11 => vec!['r', '1', '1'],
            Register::R12 => vec!['r', '1', '2'],
            Register::R13 => vec!['r', '1', '3'],
            Register::R14 => vec!['r', '1', '4'],
            Register::R15 => vec!['r', '1', '5'],
            Register::R16 => vec!['r', '1', '6'],
            Register::R17 => vec!['r', '1', '7'],
            Register::R18 => vec!['r', '1', '8'],
            Register::R19 => vec!['r', '1', '9'],
            Register::R20 => vec!['r', '2', '0'],
            Register::R21 => vec!['r', '2', '1'],
            Register::R22 => vec!['r', '2', '2'],
            Register::R23 => vec!['r', '2', '3'],
            Register::R24 => vec!['r', '2', '4'],
            Register::R25 => vec!['r', '2', '5'],
            Register::R26 => vec!['r', '2', '6'],
            Register::R27 => vec!['r', '2', '7'],
            Register::R28 => vec!['r', '2', '8'],
            Register::R29 => vec!['r', '2', '9'],
            Register::R30 => vec!['r', '3', '0'],
            Register::R31 => vec!['r', '3', '1'],
        }
    }
}
/// The control/status registers that have a defined use.
#[allow(non_camel_case_types)]
#[derive(Debug, Clone, Copy, PartialEq, Eq, Hash, Structural)]
pub enum ControlStatusRegister {
    IM0,
    IM1,
    IM2,
    IM3,
    IM4,
    IM5,
    IM6,
    IM7,
    IM8,
    IM9,
    IM10,
    IM11,
    IM12,
    IM13,
    IM14,
    IM15,
    IV,
    IPC,
    IC,
    MPC0,
    MPC1,
    MPA0,
    MPA1,
    MPA2,
    MPA3,
    MPA4,
    MPA5,
    MPA6,
    MPA7,
}

impl ControlStatusRegister {
    /// The register's index in the control/status register file.
    pub open spec fn spec_index(self) -> u16 {
        match self {
            ControlStatusRegister::IM0 => 0x0,
            ControlStatusRegister::IM1 => 0x1,
            ControlStatusRegister::IM2 => 0x2,
            ControlStatusRegister::IM3 => 0x3,
            ControlStatusRegister::IM4 => 0x4,
            ControlStatusRegister::IM5 => 0x5,
            ControlStatusRegister::IM6 => 0x6,
            ControlStatusRegister::IM7 => 0x7,
            ControlStatusRegister::IM8 => 0x8,
            ControlStatusRegister::IM9 => 0x9,
            ControlStatusRegister::IM10 => 0xa,
            ControlStatusRegister::IM11 => 0xb,
            ControlStatusRegister::IM12 => 0xc,
            ControlStatusRegister::IM13 => 0xd,
            ControlStatusRegister::IM14 => 0xe,
            ControlStatusRegister::IM15 => 0xf,
            ControlStatusRegister::IV => 0x10,
            ControlStatusRegister::IPC => 0x11,
            ControlStatusRegister::IC => 0x12,
            ControlStatusRegister::MPC0 => 0x16,
            ControlStatusRegister::MPC1 => 0x17,
            ControlStatusRegister::MPA0 => 0x18,
            ControlStatusRegister::MPA1 => 0x19,
            ControlStatusRegister::MPA2 => 0x1a,
            ControlStatusRegister::MPA3 => 0x1b,
            ControlStatusRegister::MPA4 => 0x1c,
            ControlStatusRegister::MPA5 => 0x1d,
            ControlStatusRegister::MPA6 => 0x1e,
            ControlStatusRegister::MPA7 => 0x1f,
        }
    }

    pub fn index(self) -> (r: u16)
        ensures
            r == self.spec_index(),
    {
        match self {
            ControlStatusRegister::IM0 => 0x0,
            ControlStatusRegister::IM1 => 0x1,
            ControlStatusRegister::IM2 => 0x2,
            ControlStatusRegister::IM3 => 0x3,
            ControlStatusRegister::IM4 => 0x4,
            ControlStatusRegister::IM5 => 0x5,
            ControlStatusRegister::IM6 => 0x6,
            ControlStatusRegister::IM7 => 0x7,
            ControlStatusRegister::IM8 => 0x8,
            ControlStatusRegister::IM9 => 0x9,
            ControlStatusRegister::IM10 => 0xa,
            ControlStatusRegister::IM11 => 0xb,
            ControlStatusRegister::IM12 => 0xc,
            ControlStatusRegister::IM13 => 0xd,
            ControlStatusRegister::IM14 => 0xe,
            ControlStatusRegister::IM15 => 0xf,
            ControlStatusRegister::IV => 0x10,
            ControlStatusRegister::IPC => 0x11,
            ControlStatusRegister::IC => 0x12,
            ControlStatusRegister::MPC0 => 0x16,
            ControlStatusRegister::MPC1 => 0x17,
            ControlStatusRegister::MPA0 => 0x18,
            ControlStatusRegister::MPA1 => 0x19,
            ControlStatusRegister::MPA2 => 0x1a,
            ControlStatusRegister::MPA3 => 0x1b,
            ControlStatusRegister::MPA4 => 0x1c,
            ControlStatusRegister::MPA5 => 0x1d,
            ControlStatusRegister::MPA6 => 0x1e,
            ControlStatusRegister::MPA7 => 0x1f,
        }
    }

    /// Every variant, in declaration order.
    pub open spec fn spec_all() -> Seq<ControlStatusRegister> {
        seq![ControlStatusRegister::IM0, ControlStatusRegister::IM1, ControlStatusRegister::IM2, ControlStatusRegister::IM3, ControlStatusRegister::IM4, ControlStatusRegister::IM5, ControlStatusRegister::IM6, ControlStatusRegister::IM7, ControlStatusRegister::IM8, ControlStatusRegister::IM9, ControlStatusRegister::IM10, ControlStatusRegister::IM11, ControlStatusRegister::IM12, ControlStatusRegister::IM13, ControlStatusRegister::IM14, ControlStatusRegister::IM15, ControlStatusRegister::IV, ControlStatusRegister::IPC, ControlStatusRegister::IC, ControlStatusRegister::MPC0, ControlStatusRegister::MPC1, ControlStatusRegister::MPA0, ControlStatusRegister::MPA1, ControlStatusRegister::MPA2, ControlStatusRegister::MPA3, ControlStatusRegister::MPA4, ControlStatusRegister::MPA5, ControlStatusRegister::MPA6, ControlStatusRegister::MPA7]
    }

    pub fn all() -> (r: Vec<ControlStatusRegister>)
        ensures
            r@ == Self::spec_all(),
    {
        vec![ControlStatusRegister::IM0, ControlStatusRegister::IM1, ControlStatusRegister::IM2, ControlStatusRegister::IM3, ControlStatusRegister::IM4, ControlStatusRegister::IM5, ControlStatusRegister::IM6, ControlStatusRegister::IM7, ControlStatusRegister::IM8, ControlStatusRegister::IM9, ControlStatusRegister::IM10, ControlStatusRegister::IM11, ControlStatusRegister::IM12, ControlStatusRegister::IM13, ControlStatusRegister::IM14, ControlStatusRegister::IM15, ControlStatusRegister::IV, ControlStatusRegister::IPC, ControlStatusRegister::IC, ControlStatusRegister::MPC0, ControlStatusRegister::MPC1, ControlStatusRegister::MPA0, ControlStatusRegister::MPA1, ControlStatusRegister::MPA2, ControlStatusRegister::MPA3, ControlStatusRegister::MPA4, ControlStatusRegister::MPA5, ControlStatusRegister::MPA6, ControlStatusRegister::MPA7]
    }
}

impl Named for ControlStatusRegister {
    open spec fn name(&self) -> Seq<char> {
        match *self {
            ControlStatusRegister::IM0 => seq!['i', 'm', '0'],
            ControlStatusRegister::IM1 => seq!['i', 'm', '1'],
            ControlStatusRegister::IM2 => seq!['i', 'm', '2'],
            ControlStatusRegister::IM3 => seq!['i', 'm', '3'],
            ControlStatusRegister::IM4 => seq!['i', 'm', '4'],
            ControlStatusRegister::IM5 => seq!['i', 'm', '5'],
            ControlStatusRegister::IM6 => seq!['i', 'm', '6'],
            ControlStatusRegister::IM7 => seq!['i', 'm', '7'],
            ControlStatusRegister::IM8 => seq!['i', 'm', '8'],
            ControlStatusRegister::IM9 => seq!['i', 'm', '9'],
            ControlStatusRegister::IM10 => seq!['i', 'm', '1', '0'],
            ControlStatusRegister::IM11 => seq!['i', 'm', '1', '1'],
            ControlStatusRegister::IM12 => seq!['i', 'm', '1', '2'],
            ControlStatusRegister::IM13 => seq!['i', 'm', '1', '3'],
            ControlStatusRegister::IM14 => seq!['i', 'm', '1', '4'],
            ControlStatusRegister::IM15 => seq!['i', 'm', '1', '5'],
            ControlStatusRegister::IV => seq!['i', 'v'],
            ControlStatusRegister::IPC => seq!['i', 'p', 'c'],
            ControlStatusRegister::IC => seq!['i', 'c'],
            ControlStatusRegister::MPC0 => seq!['m', 'p', 'c', '0'],
            ControlStatusRegister::MPC1 => seq!['m', 'p', 'c', '1'],
            ControlStatusRegister::MPA0 => seq!['m', 'p', 'a', '0'],
            ControlStatusRegister::MPA1 => seq!['m', 'p', 'a', '1'],
            ControlStatusRegister::MPA2 => seq!['m', 'p', 'a', '2'],
            ControlStatusRegister::MPA3 => seq!['m', 'p', 'a', '3'],
            ControlStatusRegister::MPA4 => seq!['m', 'p', 'a', '4'],
            ControlStatusRegister::MPA5 => seq!['m', 'p', 'a', '5'],
            ControlStatusRegister::MPA6 => seq!['m', 'p', 'a', '6'],
            ControlStatusRegister::MPA7 => seq!['m', 'p', 'a', '7'],
        }
    }

    fn name_chars(&self) -> (r: Vec<char>) {
        match *self {
            ControlStatusRegister::IM0 => vec!['i', 'm', '0'],
            ControlStatusRegister::IM1 => vec!['i', 'm', '1'],
            ControlStatusRegister::IM2 => vec!['i', 'm', '2'],
            ControlStatusRegister::IM3 => vec!['i', 'm', '3'],
            ControlStatusRegister::IM4 => vec!['i', 'm', '4'],
            ControlStatusRegister::IM5 => vec!['i', 'm', '5'],
            ControlStatusRegister::IM6 => vec!['i', 'm', '6'],
            ControlStatusRegister::IM7 => vec!['i', 'm', '7'],
            ControlStatusRegister::IM8 => vec!['i', 'm', '8'],
            ControlStatusRegister::IM9 => vec!['i', 'm', '9'],
            ControlStatusRegister::IM10 => vec!['i', 'm', '1', '0'],
            ControlStatusRegister::IM11 => vec!['i', 'm', '1', '1'],
            ControlStatusRegister::IM12 => vec!['i', 'm', '1', '2'],
            ControlStatusRegister::IM13 => vec!['i', 'm', '1', '3'],
            ControlStatusRegister::IM14 => vec!['i', 'm', '1', '4'],
            ControlStatusRegister::IM15 => vec!['i', 'm', '1', '5'],
            ControlStatusRegister::IV => vec!['i', 'v'],
            ControlStatusRegister::IPC => vec!['i', 'p', 'c'],
            ControlStatusRegister::IC => vec!['i', 'c'],
            ControlStatusRegister::MPC0 => vec!['m', 'p', 'c', '0'],
            ControlStatusRegister::MPC1 => vec!['m', 'p', 'c', '1'],
            ControlStatusRegister::MPA0 => vec!['m', 'p', 'a', '0'],
            ControlStatusRegister::MPA1 => vec!['m', 'p', 'a', '1'],
            ControlStatusRegister::MPA2 => vec!['m', 'p', 'a', '2'],
            ControlStatusRegister::MPA3 => vec!['m', 'p', 'a', '3'],
            ControlStatusRegister::MPA4 => vec!['m', 'p', 'a', '4'],
            ControlStatusRegister::MPA5 => vec!['m', 'p', 'a', '5'],
            ControlStatusRegister::MPA6 => vec!['m', 'p', 'a', '6'],
            ControlStatusRegister::MPA7 => vec!['m', 'p', 'a', '7'],
        }
    }
}
impl Opcode {
    /// Whether an instruction with this opcode is followed by an immediate word.
    pub fn takes_immediate(self) -> (r: bool)
        ensures
            r == opcode_takes_immediate(self.spec_code()),
    {
        let code = self.code();
        code & 0x08 != 0 && code != 0x29
    }
}

} // verus!

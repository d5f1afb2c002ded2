use vstd::prelude::*;

use crate::devices::{Device, Devices, InterruptLines};
use crate::machine::{
    add16, is_positive16, sar16, shift_left, shift_right, shift_right_arithmetic, shl16, shr16,
    signed16, signed_less16, signed_shift, sub16, wrapping_add16, wrapping_sub16,
};


verus! {

/// The general-purpose registers. Register 0 is the zero register: it always reads as 0 and
/// writes to it are discarded, whatever the backing array holds at that index.
#[derive(Debug, Clone, Copy, PartialEq, Eq, Hash)]
pub struct Registers(pub [u16; 32]);

/// The value a register index reads as.
pub open spec fn register_value(registers: Seq<u16>, index: u16) -> u16 {
    if index == 0 {
        0
    } else {
        registers[index as int]
    }
}

/// The register file after a write; a write to register 0 changes nothing.
pub open spec fn register_write(registers: Seq<u16>, index: u16, value: u16) -> Seq<u16> {
    if index == 0 {
        registers
    } else {
        registers.update(index as int, value)
    }
}

impl View for Registers {
    type V = Seq<u16>;

    open spec fn view(&self) -> Seq<u16> {
        self.0@
    }
}

impl Registers {
    pub fn new() -> (r: Registers)
        ensures
            forall|i: int| 0 <= i < 32 ==> r@[i] == 0,
    {
        Registers([0u16; 32])
    }

    pub fn read(&self, index: u16) -> (r: u16)
        requires
            index < 32,
        ensures
            r == register_value(self@, index),
    {
        if index == 0 {
            0
        } else {
            self.0[index as usize]
        }
    }

    pub fn write(&mut self, index: u16, value: u16)
        requires
            index < 32,
        ensures
            final(self)@ == register_write(old(self)@, index, value),
    {
        if index != 0 {
            self.0[index as usize] = value;
        }
    }
}

/// The control/status registers: sixteen interrupt-mask words, the interrupt vector, the
/// interrupted program counter, the interrupt context, and the memory-protection words.
/// Indices 0b10011 to 0b10101 are reserved and name none of them.
#[derive(Debug, Clone, Copy, PartialEq, Eq, Hash)]
pub struct ControlStatusRegisters {
    pub im: [u16; 16],
    pub iv: u16,
    pub ipc: u16,
    pub ic: u16,
    pub mpc: [u16; 2],
    pub mpa: [u16; 8],
}

/// The mathematical content of the control/status registers.
pub struct CsrState {
    pub im: Seq<u16>,
    pub iv: u16,
    pub ipc: u16,
    pub ic: u16,
    pub mpc: Seq<u16>,
    pub mpa: Seq<u16>,
}

/// Whether a control/status register index is one of the three reserved ones.
pub open spec fn csr_reserved(index: u16) -> bool {
    0x13 <= index <= 0x15
}

/// What reading control/status register `index` yields; `None` for a reserved index.
pub open spec fn csr_value(c: CsrState, index: u16) -> Option<u16> {
    if index < 0x10 {
        Some(c.im[index as int])
    } else if index == 0x10 {
        Some(c.iv)
    } else if index == 0x11 {
        Some(c.ipc)
    } else if index == 0x12 {
        Some(c.ic)
    } else if csr_reserved(index) {
        None
    } else if index < 0x18 {
        Some(c.mpc[(index - 0x16) as int])
    } else {
        Some(c.mpa[(index - 0x18) as int])
    }
}

/// The registers after writing `value` to index `index`; `None` for a reserved index.
pub open spec fn csr_update(c: CsrState, index: u16, value: u16) -> Option<CsrState> {
    if index < 0x10 {
        Some(CsrState { im: c.im.update(index as int, value), ..c })
    } else if index == 0x10 {
        Some(CsrState { iv: value, ..c })
    } else if index == 0x11 {
        Some(CsrState { ipc: value, ..c })
    } else if index == 0x12 {
        Some(CsrState { ic: value, ..c })
    } else if csr_reserved(index) {
        None
    } else if index < 0x18 {
        Some(CsrState { mpc: c.mpc.update((index - 0x16) as int, value), ..c })
    } else {
        Some(CsrState { mpa: c.mpa.update((index - 0x18) as int, value), ..c })
    }
}

impl View for ControlStatusRegisters {
    type V = CsrState;

    open spec fn view(&self) -> CsrState {
        CsrState {
            im: self.im@,
            iv: self.iv,
            ipc: self.ipc,
            ic: self.ic,
            mpc: self.mpc@,
            mpa: self.mpa@,
        }
    }
}

impl ControlStatusRegisters {
    pub fn new() -> (r: ControlStatusRegisters)
        ensures
            forall|i: u16| i < 32 && !csr_reserved(i) ==> csr_value(r@, i) == Some(0u16),
    {
        ControlStatusRegisters {
            im: [0u16; 16],
            iv: 0,
            ipc: 0,
            ic: 0,
            mpc: [0u16; 2],
            mpa: [0u16; 8],
        }
    }

    /// Reads a register; a reserved index gives `None` rather than a value.
    pub fn read(&self, index: u16) -> (r: Option<u16>)
        requires
            index < 32,
        ensures
            r == csr_value(self@, index),
    {
        if index < 0x10 {
            Some(self.im[index as usize])
        } else if index == 0x10 {
            Some(self.iv)
        } else if index == 0x11 {
            Some(self.ipc)
        } else if index == 0x12 {
            Some(self.ic)
        } else if index >= 0x13 && index <= 0x15 {
            None
        } else if index < 0x18 {
            Some(self.mpc[(index - 0x16) as usize])
        } else {
            Some(self.mpa[(index - 0x18) as usize])
        }
    }

    /// Writes a register and returns `true`; a reserved index is left alone and gives `false`.
    pub fn write(&mut self, index: u16, value: u16) -> (r: bool)
        requires
            index < 32,
        ensures
            r == csr_update(old(self)@, index, value).is_some(),
            r ==> final(self)@ == csr_update(old(self)@, index, value).unwrap(),
            !r ==> *final(self) == *old(self),
    {
        if index < 0x10 {
            self.im[index as usize] = value;
        } else if index == 0x10 {
            self.iv = value;
        } else if index == 0x11 {
            self.ipc = value;
        } else if index == 0x12 {
            self.ic = value;
        } else if index >= 0x13 && index <= 0x15 {
            return false;
        } else if index < 0x18 {
            self.mpc[(index - 0x16) as usize] = value;
        } else {
            self.mpa[(index - 0x18) as usize] = value;
        }
        true
    }
}

/// The main memory: 65 536 words, addressed by a word.
#[derive(Debug, Clone, Copy, PartialEq, Eq, Hash)]
pub struct Ram(pub [u16; 65536]);

impl View for Ram {
    type V = Seq<u16>;

    open spec fn view(&self) -> Seq<u16> {
        self.0@
    }
}

impl Ram {
    pub fn new() -> (r: Ram)
        ensures
            forall|i: int| 0 <= i < 65536 ==> r@[i] == 0,
    {
        Ram([0u16; 65536])
    }

    pub fn read(&self, address: u16) -> (r: u16)
        ensures
            r == self@[address as int],
    {
        self.0[address as usize]
    }

    pub fn write(&mut self, address: u16, value: u16)
        ensures
            final(self)@ == old(self)@.update(address as int, value),
    {
        self.0[address as usize] = value;
    }
}


/// The architectural state of the processor, as the instruction set defines it.
pub struct CpuState {
    pub pc: u16,
    pub privileged: bool,
    pub registers: Seq<u16>,
    pub csrs: CsrState,
    pub ram: Seq<u16>,
}

/// Why a step stopped short: the instruction depends on behaviour the instruction set leaves
/// undefined. The state is left as it was before the step.
#[derive(Debug, Clone, Copy, PartialEq, Eq, Hash)]
pub enum Trap {
    /// The opcode field names no instruction.
    ReservedOpcode(u16),
    /// A control/status register access names a reserved index.
    ReservedControlStatusRegister(u16),
    /// A device access names slot 0, or reads from an empty slot.
    ReservedDevice(u8),
}

pub open spec fn opcode_field(instr: u16) -> u16 {
    instr & 0x3f
}

pub open spec fn dst_field(instr: u16) -> u16 {
    (instr >> 6) & 0x1f
}

pub open spec fn src_field(instr: u16) -> u16 {
    instr >> 11
}

/// Whether an instruction with this opcode is followed by an immediate word.
pub open spec fn opcode_takes_immediate(opc: u16) -> bool {
    opc & 0x08 != 0 && opc != 0x29
}

/// The ten-bit displacement of a short jump, sign-extended to a word.
pub open spec fn short_jump_displacement(instr: u16) -> u16 {
    let field = instr >> 6;
    if field & 0x200 != 0 {
        field | 0xfc00
    } else {
        field
    }
}

/// The memory-protection predicates. This revision of the instruction set does not define
/// the protection mechanism, so every address may be read, written and executed.
pub open spec fn readable(s: CpuState, address: u16) -> bool {
    true
}

pub open spec fn writable(s: CpuState, address: u16) -> bool {
    true
}

pub open spec fn executable(s: CpuState, address: u16) -> bool {
    true
}

pub open spec fn reg(s: CpuState, index: u16) -> u16 {
    register_value(s.registers, index)
}

pub open spec fn with_reg(s: CpuState, index: u16, value: u16) -> CpuState {
    CpuState { registers: register_write(s.registers, index, value), ..s }
}

pub open spec fn with_pc(s: CpuState, pc: u16) -> CpuState {
    CpuState { pc, ..s }
}

pub open spec fn advanced(s: CpuState, length: u16) -> CpuState {
    with_pc(s, add16(s.pc, length))
}

/// Enters the interrupt handler: masks interrupts globally, records where to resume and why,
/// and jumps to the interrupt vector in privileged mode.
pub open spec fn enter_interrupt(s: CpuState, resume: u16, context: u16) -> CpuState {
    CpuState {
        pc: s.csrs.iv,
        privileged: true,
        csrs: CsrState { im: s.csrs.im.update(0, s.csrs.im[0] | 1), ipc: resume, ic: context, ..s.csrs },
        ..s
    }
}

/// A software interrupt raised by the instruction at the program counter, which is
/// `length` words long; the cause is in the high byte of the context.
pub open spec fn software_interrupt_state(s: CpuState, cause: u8, length: u16) -> CpuState {
    enter_interrupt(s, add16(s.pc, length), (cause as u16 * 256) as u16)
}

/// A hardware interrupt taken before the instruction at the program counter runs.
pub open spec fn hardware_interrupt_state(s: CpuState, context: u16) -> CpuState {
    enter_interrupt(s, s.pc, context)
}

/// A conditional branch: to the immediate when taken, else to the next instruction.
pub open spec fn branch(s: CpuState, length: u16, taken: bool, target: u16) -> CpuState {
    if taken {
        with_pc(s, target)
    } else {
        advanced(s, length)
    }
}

/// The effect of executing the instruction at the program counter. `occupied` tells which
/// device slots hold a device, and `input` is the word a device read returns.
pub open spec fn execute_state(s: CpuState, occupied: Seq<bool>, input: u16) -> Result<CpuState, Trap> {
    let instr = s.ram[s.pc as int];
    let opc = opcode_field(instr);
    let d = dst_field(instr);
    let si = src_field(instr);
    let dst = reg(s, d);
    let src = reg(s, si);
    let takes_imm = opcode_takes_immediate(opc);
    let length: u16 = if takes_imm { 2 } else { 1 };
    let imm = if takes_imm { s.ram[add16(s.pc, 1) as int] } else { 0 };
    let device = (src / 256) as u8;
    let address = add16(src, imm);
    if !executable(s, s.pc) || (takes_imm && !executable(s, add16(s.pc, 1))) {
        Ok(software_interrupt_state(s, 0x01, length))
    } else if opc == 0x00 {
        Ok(advanced(with_reg(s, d, add16(dst, src)), length))
    } else if opc == 0x01 {
        Ok(advanced(with_reg(s, d, sub16(dst, src)), length))
    } else if opc == 0x02 {
        Ok(advanced(with_reg(s, d, dst & src), length))
    } else if opc == 0x03 {
        Ok(advanced(with_reg(s, d, dst | src), length))
    } else if opc == 0x04 {
        Ok(advanced(with_reg(s, d, dst ^ src), length))
    } else if opc == 0x05 {
        Ok(advanced(with_reg(s, d, signed_shift(dst, src, |x: u16, n: u16| shl16(x, n), |x: u16, n: u16| shr16(x, n))), length))
    } else if opc == 0x06 {
        Ok(advanced(with_reg(s, d, signed_shift(dst, src, |x: u16, n: u16| shr16(x, n), |x: u16, n: u16| shl16(x, n))), length))
    } else if opc == 0x07 {
        Ok(advanced(with_reg(s, d, signed_shift(dst, src, |x: u16, n: u16| sar16(x, n), |x: u16, n: u16| shl16(x, n))), length))
    } else if opc == 0x08 {
        Ok(advanced(with_reg(s, d, add16(src, imm)), length))
    } else if opc == 0x0a {
        Ok(advanced(with_reg(s, d, src & imm), length))
    } else if opc == 0x0b {
        Ok(advanced(with_reg(s, d, src | imm), length))
    } else if opc == 0x0c {
        Ok(advanced(with_reg(s, d, src ^ imm), length))
    } else if opc == 0x0d {
        Ok(advanced(with_reg(s, d, signed_shift(src, imm, |x: u16, n: u16| shl16(x, n), |x: u16, n: u16| shr16(x, n))), length))
    } else if opc == 0x0f {
        Ok(advanced(with_reg(s, d, signed_shift(src, imm, |x: u16, n: u16| sar16(x, n), |x: u16, n: u16| shl16(x, n))), length))
    } else if opc == 0x10 {
        if !readable(s, src) {
            Ok(software_interrupt_state(s, 0x04, 1))
        } else {
            Ok(advanced(with_reg(s, d, s.ram[src as int]), length))
        }
    } else if opc == 0x11 {
        if !writable(s, src) {
            Ok(software_interrupt_state(s, 0x02, 1))
        } else {
            Ok(advanced(CpuState { ram: s.ram.update(src as int, dst), ..s }, length))
        }
    } else if opc == 0x12 {
        if !s.privileged {
            Ok(software_interrupt_state(s, 0x0c, 1))
        } else if device == 0 || !occupied[device as int] {
            Err(Trap::ReservedDevice(device))
        } else {
            Ok(advanced(with_reg(s, d, input), length))
        }
    } else if opc == 0x13 {
        if !s.privileged {
            Ok(software_interrupt_state(s, 0x0a, 1))
        } else if device == 0 {
            Err(Trap::ReservedDevice(device))
        } else {
            Ok(advanced(s, length))
        }
    } else if opc == 0x14 {
        if !s.privileged {
            Ok(software_interrupt_state(s, 0x14, 1))
        } else {
            match csr_value(s.csrs, si) {
                Some(v) => Ok(advanced(with_reg(s, d, v), length)),
                None => Err(Trap::ReservedControlStatusRegister(si)),
            }
        }
    } else if opc == 0x15 {
        if !s.privileged {
            Ok(software_interrupt_state(s, 0x12, 1))
        } else {
            match csr_update(s.csrs, d, src) {
                Some(c) => Ok(advanced(CpuState { csrs: c, ..s }, length)),
                None => Err(Trap::ReservedControlStatusRegister(d)),
            }
        }
    } else if opc == 0x16 {
        if s.privileged {
            Ok(CpuState { pc: s.csrs.ipc, privileged: false, ..s })
        } else {
            Ok(software_interrupt_state(s, 0x00, 1))
        }
    } else if opc == 0x18 {
        if !readable(s, address) {
            Ok(software_interrupt_state(s, 0x04, 2))
        } else {
            Ok(advanced(with_reg(s, d, s.ram[address as int]), length))
        }
    } else if opc == 0x19 {
        if !writable(s, address) {
            Ok(software_interrupt_state(s, 0x02, 2))
        } else {
            Ok(advanced(CpuState { ram: s.ram.update(address as int, dst), ..s }, length))
        }
    } else if opc == 0x28 {
        Ok(with_pc(with_reg(s, d, add16(s.pc, 2)), address))
    } else if opc == 0x29 {
        Ok(with_pc(s, add16(s.pc, short_jump_displacement(instr))))
    } else if opc == 0x2a {
        Ok(branch(s, length, dst == src, imm))
    } else if opc == 0x2b {
        Ok(branch(s, length, dst != src, imm))
    } else if opc == 0x2c {
        Ok(branch(s, length, signed16(dst) < signed16(src), imm))
    } else if opc == 0x2d {
        Ok(branch(s, length, signed16(dst) >= signed16(src), imm))
    } else if opc == 0x2e {
        Ok(branch(s, length, dst < src, imm))
    } else if opc == 0x2f {
        Ok(branch(s, length, dst >= src, imm))
    } else {
        Err(Trap::ReservedOpcode(opc))
    }
}


/// What an execution step came to: the state after it, or the trap that stopped it.
pub open spec fn outcome(after: CpuState, r: Result<(), Trap>) -> Result<CpuState, Trap> {
    match r {
        Ok(()) => Ok(after),
        Err(t) => Err(t),
    }
}

/// The state with the global interrupt mask bit set, and nothing else changed.
pub open spec fn globally_masked(s: CpuState) -> CpuState {
    CpuState { csrs: CsrState { im: s.csrs.im.update(0, s.csrs.im[0] | 1), ..s.csrs }, ..s }
}

/// The outcomes a step may have. `Ok(Some(context))`: a pending hardware interrupt carrying
/// `context`, the word its device sent, was taken before any instruction. `Ok(None)`: the
/// instruction at the program counter ran, where `input` is what a device read returned.
/// `Err`: that instruction trapped and the state is as it was.
pub open spec fn step_outcome(before: CpuState, occupied: Seq<bool>, after: CpuState, r: Result<Option<u16>, Trap>) -> bool {
    match r {
        Ok(Some(context)) => after == hardware_interrupt_state(before, context),
        Ok(None) => exists|input: u16| #[trigger] execute_state(before, occupied, input) == Ok::<CpuState, Trap>(after),
        Err(t) => after == before && exists|input: u16|
            #[trigger] execute_state(before, occupied, input) == Err::<CpuState, Trap>(t),
    }
}

proof fn lemma_mask_then_interrupt(s: CpuState, context: u16)
    requires
        s.csrs.im.len() == 16,
    ensures
        hardware_interrupt_state(globally_masked(s), context) == hardware_interrupt_state(s, context),
{
    let x = s.csrs.im[0];
    assert((x | 1) | 1 == x | 1) by (bit_vector);
    assert(globally_masked(s).csrs.im.update(0, globally_masked(s).csrs.im[0] | 1) =~= s.csrs.im.update(0, x | 1));
}

/// An emulator for a computer built on the lawa instruction set.
pub struct Emulator {
    pub program_counter: u16,
    pub privileged: bool,
    pub registers: Registers,
    pub control_status_registers: ControlStatusRegisters,
    pub devices: Devices,
    pub ram: Ram,
    pub interrupts: InterruptLines,
}

impl Emulator {
    /// The architectural state.
    pub open spec fn state(&self) -> CpuState {
        CpuState {
            pc: self.program_counter,
            privileged: self.privileged,
            registers: self.registers@,
            csrs: self.control_status_registers@,
            ram: self.ram@,
        }
    }

    pub open spec fn wf(&self) -> bool {
        &&& self.devices.wf()
        &&& self.interrupts.capacity() == Some(1usize)
    }

    /// A powered-on machine: everything zero, in privileged mode, with no device attached.
    pub fn new() -> (r: Emulator)
        ensures
            r.wf(),
            r.program_counter == 0,
            r.privileged,
            forall|i: int| 0 <= i < 32 ==> r.registers@[i] == 0,
            forall|i: int| 0 <= i < 65536 ==> r.ram@[i] == 0,
            forall|i: u16| i < 32 && !csr_reserved(i) ==> csr_value(r.control_status_registers@, i) == Some(0u16),
            forall|i: int| 0 <= i < 256 ==> !r.devices.occupied()[i],
    {
        let control_status_registers = ControlStatusRegisters::new();
        let interrupts = InterruptLines::new(control_status_registers.im);
        Emulator {
            program_counter: 0,
            privileged: true,
            registers: Registers::new(),
            control_status_registers,
            devices: Devices::new(),
            ram: Ram::new(),
            interrupts,
        }
    }

    /// Attaches `device` at slot `index` and hands it its interrupt handle. Slot 0 is
    /// reserved: it gives `false`, and the device is neither initialised nor attached.
    pub fn attach(&mut self, index: u8, device: Box<dyn Device>) -> (r: bool)
        requires
            old(self).wf(),
        ensures
            final(self).wf(),
            final(self).state() == old(self).state(),
            r == (index != 0),
            r ==> final(self).devices.occupied() == old(self).devices.occupied().update(index as int, true),
            !r ==> final(self).devices.occupied() == old(self).devices.occupied(),
    {
        if index == 0 {
            return false;
        }
        let mut device = device;
        let handle = self.interrupts.handle(index);
        device.init(handle);
        self.devices.insert(index, device)
    }

    /// Whether the instruction set lets the current state read `address`.
    pub fn readable(&self, address: u16) -> (r: bool)
        ensures
            r == readable(self.state(), address),
    {
        true
    }

    /// Whether the instruction set lets the current state write `address`.
    pub fn writable(&self, address: u16) -> (r: bool)
        ensures
            r == writable(self.state(), address),
    {
        true
    }

    /// Whether the instruction set lets the current state execute `address`.
    pub fn executable(&self, address: u16) -> (r: bool)
        ensures
            r == executable(self.state(), address),
    {
        true
    }

    fn set_global_mask(&mut self)
        ensures
            final(self).state() == globally_masked(old(self).state()),
            final(self).devices == old(self).devices,
            final(self).interrupts == old(self).interrupts,
    {
        let im0 = self.control_status_registers.im[0];
        self.control_status_registers.im[0] = im0 | 1;
    }

    /// Raises a software interrupt for the instruction at the program counter, which is
    /// `length` words long.
    pub fn software_interrupt(&mut self, cause: u8, length: u16)
        ensures
            final(self).state() == software_interrupt_state(old(self).state(), cause, length),
            final(self).devices == old(self).devices,
            final(self).interrupts == old(self).interrupts,
    {
        self.set_global_mask();
        self.control_status_registers.ipc = wrapping_add16(self.program_counter, length);
        self.control_status_registers.ic = cause as u16 * 256;
        self.program_counter = self.control_status_registers.iv;
        self.privileged = true;
    }

    /// Takes a hardware interrupt with the given context before the instruction at the
    /// program counter runs.
    pub fn hardware_interrupt(&mut self, context: u16)
        ensures
            final(self).state() == hardware_interrupt_state(old(self).state(), context),
            final(self).devices == old(self).devices,
            final(self).interrupts == old(self).interrupts,
    {
        self.set_global_mask();
        self.control_status_registers.ipc = self.program_counter;
        self.control_status_registers.ic = context;
        self.program_counter = self.control_status_registers.iv;
        self.privileged = true;
    }

    /// Executes the instruction at the program counter.
    #[verifier::rlimit(50)]
    pub fn execute(&mut self) -> (r: Result<(), Trap>)
        requires
            old(self).wf(),
        ensures
            final(self).wf(),
            final(self).devices.occupied() == old(self).devices.occupied(),
            final(self).interrupts == old(self).interrupts,
            r is Err ==> final(self).state() == old(self).state(),
            exists|input: u16|
                #[trigger] execute_state(old(self).state(), old(self).devices.occupied(), input) == outcome(final(self).state(), r),
    {
        let ghost before = self.state();
        let ghost occupied = self.devices.occupied();
        let ghost mut input: u16 = 0;
        let pc = self.program_counter;
        let instr = self.ram.read(pc);
        let opc = instr & 0x3f;
        let d = (instr >> 6) & 0x1f;
        let si = instr >> 11;
        assert(d < 32 && si < 32 && opc < 64) by (bit_vector)
            requires
                d == (instr >> 6) & 0x1f,
                si == instr >> 11,
                opc == instr & 0x3f,
        ;
        let dst = self.registers.read(d);
        let src = self.registers.read(si);
        let takes_imm = opc & 0x08 != 0 && opc != 0x29;
        let length: u16 = if takes_imm { 2 } else { 1 };
        let next = wrapping_add16(pc, 1);
        let imm = if takes_imm { self.ram.read(next) } else { 0 };
        let device = (src / 256) as u8;
        let context = (src % 256) as u8;
        let address = wrapping_add16(src, imm);
        if !self.executable(pc) || (takes_imm && !self.executable(next)) {
            self.software_interrupt(0x01, length);
            proof {
                assert(execute_state(before, occupied, input) == outcome(self.state(), Ok(())));
            }
            return Ok(());
        }
        if opc == 0x00 {
            self.registers.write(d, wrapping_add16(dst, src));
        } else if opc == 0x01 {
            self.registers.write(d, wrapping_sub16(dst, src));
        } else if opc == 0x02 {
            self.registers.write(d, dst & src);
        } else if opc == 0x03 {
            self.registers.write(d, dst | src);
        } else if opc == 0x04 {
            self.registers.write(d, dst ^ src);
        } else if opc == 0x05 {
            let v = if is_positive16(src) {
                shift_left(dst, src)
            } else {
                shift_right(dst, wrapping_sub16(0, src))
            };
            self.registers.write(d, v);
        } else if opc == 0x06 {
            let v = if is_positive16(src) {
                shift_right(dst, src)
            } else {
                shift_left(dst, wrapping_sub16(0, src))
            };
            self.registers.write(d, v);
        } else if opc == 0x07 {
            let v = if is_positive16(src) {
                shift_right_arithmetic(dst, src)
            } else {
                shift_left(dst, wrapping_sub16(0, src))
            };
            self.registers.write(d, v);
        } else if opc == 0x08 {
            self.registers.write(d, wrapping_add16(src, imm));
        } else if opc == 0x0a {
            self.registers.write(d, src & imm);
        } else if opc == 0x0b {
            self.registers.write(d, src | imm);
        } else if opc == 0x0c {
            self.registers.write(d, src ^ imm);
        } else if opc == 0x0d {
            let v = if is_positive16(imm) {
                shift_left(src, imm)
            } else {
                shift_right(src, wrapping_sub16(0, imm))
            };
            self.registers.write(d, v);
        } else if opc == 0x0f {
            let v = if is_positive16(imm) {
                shift_right_arithmetic(src, imm)
            } else {
                shift_left(src, wrapping_sub16(0, imm))
            };
            self.registers.write(d, v);
        } else if opc == 0x10 {
            if !self.readable(src) {
                self.software_interrupt(0x04, 1);
                proof {
                    assert(execute_state(before, occupied, input) == outcome(self.state(), Ok(())));
                }
                return Ok(());
            }
            let v = self.ram.read(src);
            self.registers.write(d, v);
        } else if opc == 0x11 {
            if !self.writable(src) {
                self.software_interrupt(0x02, 1);
                proof {
                    assert(execute_state(before, occupied, input) == outcome(self.state(), Ok(())));
                }
                return Ok(());
            }
            self.ram.write(src, dst);
        } else if opc == 0x12 {
            if !self.privileged {
                self.software_interrupt(0x0c, 1);
                proof {
                    assert(execute_state(before, occupied, input) == outcome(self.state(), Ok(())));
                }
                return Ok(());
            }
            if device == 0 {
                proof {
                    assert(execute_state(before, occupied, input) == outcome(self.state(), Err(Trap::ReservedDevice(device))));
                }
                return Err(Trap::ReservedDevice(device));
            }
            match self.devices.input(device, context) {
                Some(v) => {
                    proof {
                        input = v;
                    }
                    self.registers.write(d, v);
                },
                None => {
                    proof {
                        assert(execute_state(before, occupied, input) == outcome(self.state(), Err(Trap::ReservedDevice(device))));
                    }
                    return Err(Trap::ReservedDevice(device));
                },
            }
        } else if opc == 0x13 {
            if !self.privileged {
                self.software_interrupt(0x0a, 1);
                proof {
                    assert(execute_state(before, occupied, input) == outcome(self.state(), Ok(())));
                }
                return Ok(());
            }
            if device == 0 {
                proof {
                    assert(execute_state(before, occupied, input) == outcome(self.state(), Err(Trap::ReservedDevice(device))));
                }
                return Err(Trap::ReservedDevice(device));
            }
            self.devices.output(device, context, dst);
        } else if opc == 0x14 {
            if !self.privileged {
                self.software_interrupt(0x14, 1);
                proof {
                    assert(execute_state(before, occupied, input) == outcome(self.state(), Ok(())));
                }
                return Ok(());
            }
            match self.control_status_registers.read(si) {
                Some(v) => self.registers.write(d, v),
                None => {
                    proof {
                        assert(execute_state(before, occupied, input) == outcome(self.state(), Err(Trap::ReservedControlStatusRegister(si))));
                    }
                    return Err(Trap::ReservedControlStatusRegister(si));
                },
            }
        } else if opc == 0x15 {
            if !self.privileged {
                self.software_interrupt(0x12, 1);
                proof {
                    assert(execute_state(before, occupied, input) == outcome(self.state(), Ok(())));
                }
                return Ok(());
            }
            if !self.control_status_registers.write(d, src) {
                proof {
                    assert(execute_state(before, occupied, input) == outcome(self.state(), Err(Trap::ReservedControlStatusRegister(d))));
                }
                return Err(Trap::ReservedControlStatusRegister(d));
            }
        } else if opc == 0x16 {
            if self.privileged {
                self.program_counter = self.control_status_registers.ipc;
                self.privileged = false;
            } else {
                self.software_interrupt(0x00, 1);
            }
            proof {
                assert(execute_state(before, occupied, input) == outcome(self.state(), Ok(())));
            }
            return Ok(());
        } else if opc == 0x18 {
            if !self.readable(address) {
                self.software_interrupt(0x04, 2);
                proof {
                    assert(execute_state(before, occupied, input) == outcome(self.state(), Ok(())));
                }
                return Ok(());
            }
            let v = self.ram.read(address);
            self.registers.write(d, v);
        } else if opc == 0x19 {
            if !self.writable(address) {
                self.software_interrupt(0x02, 2);
                proof {
                    assert(execute_state(before, occupied, input) == outcome(self.state(), Ok(())));
                }
                return Ok(());
            }
            self.ram.write(address, dst);
        } else if opc == 0x28 {
            self.registers.write(d, wrapping_add16(pc, 2));
            self.program_counter = address;
            proof {
                assert(execute_state(before, occupied, input) == outcome(self.state(), Ok(())));
            }
            return Ok(());
        } else if opc == 0x29 {
            let field = instr >> 6;
            let displacement = if field & 0x200 != 0 {
                field | 0xfc00
            } else {
                field
            };
            self.program_counter = wrapping_add16(pc, displacement);
            proof {
                assert(execute_state(before, occupied, input) == outcome(self.state(), Ok(())));
            }
            return Ok(());
        } else if opc >= 0x2a && opc <= 0x2f {
            let taken = if opc == 0x2a {
                dst == src
            } else if opc == 0x2b {
                dst != src
            } else if opc == 0x2c {
                signed_less16(dst, src)
            } else if opc == 0x2d {
                !signed_less16(dst, src)
            } else if opc == 0x2e {
                dst < src
            } else {
                dst >= src
            };
            if taken {
                self.program_counter = imm;
                proof {
                    assert(execute_state(before, occupied, input) == outcome(self.state(), Ok(())));
                }
                return Ok(());
            }
        } else {
            proof {
                assert(execute_state(before, occupied, input) == outcome(self.state(), Err(Trap::ReservedOpcode(opc))));
            }
            return Err(Trap::ReservedOpcode(opc));
        }
        self.program_counter = wrapping_add16(pc, length);
        proof {
            if opc <= 0x04 {
                assert(execute_state(before, occupied, input) == outcome(self.state(), Ok(())));
            } else if opc <= 0x05 {
                assert(execute_state(before, occupied, input) == outcome(self.state(), Ok(())));
            } else if opc <= 0x06 {
                assert(execute_state(before, occupied, input) == outcome(self.state(), Ok(())));
            } else if opc <= 0x07 {
                assert(execute_state(before, occupied, input) == outcome(self.state(), Ok(())));
            } else if opc <= 0x0c {
                assert(execute_state(before, occupied, input) == outcome(self.state(), Ok(())));
            } else if opc <= 0x0f {
                assert(execute_state(before, occupied, input) == outcome(self.state(), Ok(())));
            } else if opc <= 0x15 {
                assert(execute_state(before, occupied, input) == outcome(self.state(), Ok(())));
            } else if opc <= 0x19 {
                assert(execute_state(before, occupied, input) == outcome(self.state(), Ok(())));
            } else {
                assert(execute_state(before, occupied, input) == outcome(self.state(), Ok(())));
            }
        }
        Ok(())
    }

    /// Finishes taking a hardware interrupt with what the channel gave: the word of the
    /// interrupt, which enters the handler with it, or nothing, which changes nothing.
    pub fn take_interrupt(&mut self, taken: Option<u16>) -> (r: Option<u16>)
        ensures
            r == taken,
            match taken {
                Some(context) => final(self).state() == hardware_interrupt_state(old(self).state(), context),
                None => final(self).state() == old(self).state(),
            },
            final(self).devices == old(self).devices,
            final(self).interrupts == old(self).interrupts,
    {
        match taken {
            Some(context) => {
                self.hardware_interrupt(context);
                Some(context)
            },
            None => None,
        }
    }

    /// Takes the pending hardware interrupt if there is one, returning the word it carried;
    /// else executes the instruction at the program counter. Afterwards the devices' handles
    /// see the current mask.
    pub fn step(&mut self) -> (r: Result<Option<u16>, Trap>)
        requires
            old(self).wf(),
        ensures
            final(self).wf(),
            final(self).devices.occupied() == old(self).devices.occupied(),
            final(self).interrupts == old(self).interrupts,
            step_outcome(old(self).state(), old(self).devices.occupied(), final(self).state(), r),
    {
        if self.interrupts.pending() {
            // The global mask goes up before the channel is drained, so that no device can
            // slip a second interrupt in between.
            let saved = self.control_status_registers.im[0];
            self.set_global_mask();
            self.interrupts.publish(self.control_status_registers.im);
            let taken = self.interrupts.take();
            match self.take_interrupt(taken) {
                Some(context) => {
                    proof {
                        lemma_mask_then_interrupt(old(self).state(), context);
                    }
                    self.interrupts.publish(self.control_status_registers.im);
                    return Ok(Some(context));
                },
                None => {
                    // The channel was drained by the time it was read: nothing was taken, so
                    // the mask goes back to what it was.
                    self.control_status_registers.im[0] = saved;
                    assert(self.control_status_registers@.im =~= old(self).control_status_registers@.im);
                },
            }
        }
        let r = self.execute();
        self.interrupts.publish(self.control_status_registers.im);
        match r {
            Ok(()) => Ok(None),
            Err(t) => Err(t),
        }
    }
}


/// The register file after a sequence of writes, each an index and a value.
pub open spec fn apply_register_writes(registers: Seq<u16>, writes: Seq<(u16, u16)>) -> Seq<u16>
    decreases writes.len(),
{
    if writes.len() == 0 {
        registers
    } else {
        let last = writes[writes.len() - 1];
        register_write(apply_register_writes(registers, writes.drop_last()), last.0, last.1)
    }
}

/// Whatever sequence of writes reaches the register file, register 0 reads as zero, and
/// the slot behind it keeps its value.
pub proof fn zero_register(registers: Seq<u16>, writes: Seq<(u16, u16)>)
    requires
        registers.len() == 32,
        forall|i: int| 0 <= i < writes.len() ==> (#[trigger] writes[i]).0 < 32,
    ensures
        register_value(apply_register_writes(registers, writes), 0) == 0,
        apply_register_writes(registers, writes).len() == 32,
        apply_register_writes(registers, writes)[0] == registers[0],
    decreases writes.len(),
{
    if writes.len() > 0 {
        assert forall|i: int| 0 <= i < writes.drop_last().len() implies (#[trigger] writes.drop_last()[i]).0 < 32 by {
            assert(writes[i].0 < 32);
        }
        zero_register(registers, writes.drop_last());
        assert(writes[writes.len() - 1].0 < 32);
    }
}

/// The reserved control/status registers hold nothing: reading one gives no value, writing
/// one changes nothing, and an instruction that names one traps with the state unchanged.
pub proof fn reserved_control_status_registers(s: CpuState, occupied: Seq<bool>, input: u16, index: u16, value: u16)
    requires
        0x13 <= index <= 0x15,
    ensures
        csr_value(s.csrs, index) is None,
        csr_update(s.csrs, index, value) is None,
        s.privileged && opcode_field(s.ram[s.pc as int]) == 0x14 && src_field(s.ram[s.pc as int]) == index
            ==> execute_state(s, occupied, input) == Err::<CpuState, Trap>(Trap::ReservedControlStatusRegister(index)),
        s.privileged && opcode_field(s.ram[s.pc as int]) == 0x15 && dst_field(s.ram[s.pc as int]) == index
            ==> execute_state(s, occupied, input) == Err::<CpuState, Trap>(Trap::ReservedControlStatusRegister(index)),
{
    let instr = s.ram[s.pc as int];
    if opcode_field(instr) == 0x14 || opcode_field(instr) == 0x15 {
        assert(opcode_field(instr) & 0x08 == 0) by (bit_vector)
            requires
                opcode_field(instr) == 0x14 || opcode_field(instr) == 0x15,
        ;
    }
}

/// The channel that carries hardware interrupts to the processor has room for one: there are
/// never two pending hardware interrupts. Construction establishes this and every operation
/// of the emulator keeps it.
pub proof fn interrupt_exclusivity(e: &Emulator)
    requires
        e.wf(),
    ensures
        e.interrupts.capacity() == Some(1usize),
{
}


impl Default for Registers {
    fn default() -> (r: Registers)
        ensures
            forall|i: int| 0 <= i < 32 ==> r@[i] == 0,
    {
        Registers::new()
    }
}

impl Default for ControlStatusRegisters {
    fn default() -> (r: ControlStatusRegisters)
        ensures
            forall|i: u16| i < 32 && !csr_reserved(i) ==> csr_value(r@, i) == Some(0u16),
    {
        ControlStatusRegisters::new()
    }
}

impl Default for Ram {
    fn default() -> (r: Ram)
        ensures
            forall|i: int| 0 <= i < 65536 ==> r@[i] == 0,
    {
        Ram::new()
    }
}

impl Default for Emulator {
    fn default() -> (r: Emulator)
        ensures
            r.wf(),
            r.program_counter == 0,
            r.privileged,
            forall|i: int| 0 <= i < 32 ==> r.registers@[i] == 0,
            forall|i: int| 0 <= i < 65536 ==> r.ram@[i] == 0,
            forall|i: int| 0 <= i < 256 ==> !r.devices.occupied()[i],
    {
        Emulator::new()
    }
}

} // verus!

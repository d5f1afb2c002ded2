use lawa::devices::{interrupt_request, Device, InterruptHandle, TryInterruptError};
use lawa::emulator::{ControlStatusRegisters, Emulator, Registers, Trap};
use lawa::machine::{shift_right_arithmetic, wrapping_add16, wrapping_sub16};

fn word(opcode: u16, dst: u16, src: u16) -> u16 {
    opcode | (dst << 6) | (src << 11)
}

fn machine_with(program: &[u16]) -> Emulator {
    let mut emulator = Emulator::new();
    for (i, w) in program.iter().enumerate() {
        emulator.ram.0[i] = *w;
    }
    emulator
}

#[test]
fn sub_wraps_at_the_sign_boundary() {
    let mut e = machine_with(&[word(0b000001, 1, 2)]);
    e.registers.0[1] = 0x8000;
    e.registers.0[2] = 1;
    assert_eq!(e.step(), Ok(None));
    assert_eq!(e.registers.read(1), 0x7FFF);
    assert_eq!(e.program_counter, 1);
    assert_eq!(wrapping_sub16(0, 1), 0xFFFF);
    assert_eq!(wrapping_add16(0xFFFF, 2), 1);
}

#[test]
fn shift_by_negative_amount_reverses() {
    let mut e = machine_with(&[word(0b000101, 1, 2)]);
    e.registers.0[1] = 0x8000;
    e.registers.0[2] = 0xFFFF;
    e.step().unwrap();
    assert_eq!(e.registers.read(1), 0x4000);
}

#[test]
fn arithmetic_shift_copies_sign() {
    let mut e = machine_with(&[word(0b000111, 1, 2), word(0b000111, 3, 4)]);
    e.registers.0[1] = 0x8000;
    e.registers.0[2] = 3;
    e.registers.0[3] = 0x8000;
    e.registers.0[4] = 20;
    e.step().unwrap();
    e.step().unwrap();
    assert_eq!(e.registers.read(1), 0xF000);
    assert_eq!(e.registers.read(3), 0xFFFF);
    assert_eq!(shift_right_arithmetic(0x7FFF, 20), 0);
}

#[test]
fn srai_with_negative_immediate_shifts_left() {
    let mut e = machine_with(&[word(0b001111, 1, 2), 0xFFFE]);
    e.registers.0[2] = 3;
    e.step().unwrap();
    assert_eq!(e.registers.read(1), 12);
    assert_eq!(e.program_counter, 2);
}

#[test]
fn short_jump_backwards() {
    let mut e = Emulator::new();
    e.program_counter = 5;
    e.ram.0[5] = 0x29 | (0x3FE << 6);
    e.step().unwrap();
    assert_eq!(e.program_counter, 3);
}

#[test]
fn jump_and_link() {
    let mut e = machine_with(&[0, 0, word(0b101000, 1, 2), 5]);
    e.program_counter = 2;
    e.registers.0[2] = 0x10;
    e.step().unwrap();
    assert_eq!(e.program_counter, 0x15);
    assert_eq!(e.registers.read(1), 4);
}

#[test]
fn load_and_store() {
    let mut e = machine_with(&[word(0b010000, 1, 2), word(0b010001, 1, 3), word(0b011000, 4, 2), 1]);
    e.registers.0[2] = 0x200;
    e.registers.0[3] = 0x300;
    e.ram.0[0x200] = 0xBEEF;
    e.ram.0[0x201] = 0x1234;
    e.step().unwrap();
    e.step().unwrap();
    e.step().unwrap();
    assert_eq!(e.registers.read(1), 0xBEEF);
    assert_eq!(e.ram.read(0x300), 0xBEEF);
    assert_eq!(e.registers.read(4), 0x1234);
    assert_eq!(e.program_counter, 4);
}

#[test]
fn signed_and_unsigned_branches() {
    let mut e = machine_with(&[word(0b101110, 1, 2), 40, word(0b101100, 1, 2), 30]);
    e.registers.0[1] = 0xFFFF;
    e.registers.0[2] = 1;
    e.step().unwrap();
    assert_eq!(e.program_counter, 2);
    e.step().unwrap();
    assert_eq!(e.program_counter, 30);
}

#[test]
fn unprivileged_device_read_interrupts() {
    let mut e = machine_with(&[0, 0, 0, word(0b010010, 1, 2)]);
    e.program_counter = 3;
    e.privileged = false;
    e.control_status_registers.iv = 0x40;
    e.step().unwrap();
    assert_eq!(e.control_status_registers.ic, 0x0C00);
    assert_eq!(e.control_status_registers.ipc, 4);
    assert_eq!(e.program_counter, 0x40);
    assert!(e.privileged);
    assert_eq!(e.control_status_registers.im[0] & 1, 1);
}

#[test]
fn supervisor_return() {
    let mut e = machine_with(&[0b010110]);
    e.control_status_registers.ipc = 0x77;
    e.step().unwrap();
    assert_eq!(e.program_counter, 0x77);
    assert!(!e.privileged);
    e.ram.0[0x77] = 0b010110;
    e.control_status_registers.iv = 0x10;
    e.step().unwrap();
    assert_eq!(e.control_status_registers.ic, 0);
    assert_eq!(e.control_status_registers.ipc, 0x78);
    assert_eq!(e.program_counter, 0x10);
}

#[test]
fn control_status_register_access() {
    let mut e = machine_with(&[word(0b010101, 0x10, 2), word(0b010100, 1, 0x10)]);
    e.registers.0[2] = 0xABCD;
    e.step().unwrap();
    assert_eq!(e.control_status_registers.iv, 0xABCD);
    e.step().unwrap();
    assert_eq!(e.registers.read(1), 0xABCD);
}

#[test]
fn reserved_control_status_register_traps() {
    let mut e = machine_with(&[word(0b010100, 1, 0x13)]);
    assert_eq!(e.step(), Err(Trap::ReservedControlStatusRegister(0x13)));
    assert_eq!(e.program_counter, 0);
    let mut csrs = ControlStatusRegisters::new();
    for i in 0x13..=0x15 {
        assert_eq!(csrs.read(i), None);
        assert!(!csrs.write(i, 5));
    }
    assert!(csrs.write(0x18, 5));
    assert_eq!(csrs.mpa[0], 5);
    assert_eq!(csrs.read(0x17), Some(0));
}

#[test]
fn reserved_opcode_traps() {
    let mut e = machine_with(&[0b001001]);
    assert_eq!(e.step(), Err(Trap::ReservedOpcode(0b001001)));
    assert_eq!(e.program_counter, 0);
}

#[test]
fn device_zero_traps() {
    let mut e = machine_with(&[word(0b010010, 1, 2)]);
    e.registers.0[2] = 0x0007;
    assert_eq!(e.step(), Err(Trap::ReservedDevice(0)));
    assert_eq!(e.registers.read(1), 0);
}

struct Echo {
    last_output: u16,
}

impl Device for Echo {
    fn init(&mut self, _interrupt_handle: InterruptHandle) {}

    fn input(&mut self, context: u8) -> u16 {
        0x1200 + context as u16 + self.last_output
    }

    fn output(&mut self, _context: u8, value: u16) {
        self.last_output = value;
    }
}

#[test]
fn device_input_and_output() {
    let mut e = machine_with(&[word(0b010011, 1, 2), word(0b010010, 3, 2)]);
    assert!(!e.attach(0, Box::new(Echo { last_output: 0 })));
    assert!(e.attach(3, Box::new(Echo { last_output: 0 })));
    e.registers.0[1] = 0x10;
    e.registers.0[2] = 0x0307;
    e.step().unwrap();
    e.step().unwrap();
    assert_eq!(e.registers.read(3), 0x1217);
}

#[test]
fn reading_an_empty_slot_traps() {
    let mut e = machine_with(&[word(0b010010, 1, 2)]);
    e.registers.0[2] = 0x0907;
    assert_eq!(e.step(), Err(Trap::ReservedDevice(9)));
}

#[test]
fn zero_register_ignores_writes() {
    let mut registers = Registers::new();
    registers.write(0, 0x1234);
    registers.write(5, 0x55);
    assert_eq!(registers.read(0), 0);
    assert_eq!(registers.read(5), 0x55);
    let mut e = machine_with(&[0x0008, 7]);
    e.step().unwrap();
    assert_eq!(e.registers.read(0), 0);
}

#[test]
fn interrupt_masking_decisions() {
    let mut mask = [0u16; 16];
    assert_eq!(interrupt_request(&mask, 3, 0x55), Ok(0x0355));
    mask[0] = 0b1000;
    assert_eq!(interrupt_request(&mask, 3, 0x55), Err(TryInterruptError::InterruptMasked));
    assert_eq!(interrupt_request(&mask, 0x13, 1), Ok(0x1301));
    mask[1] = 0b1000;
    assert_eq!(interrupt_request(&mask, 0x13, 1), Err(TryInterruptError::InterruptMasked));
    let all = {
        let mut m = [0u16; 16];
        m[0] = 1;
        m
    };
    assert_eq!(interrupt_request(&all, 0x20, 1), Err(TryInterruptError::InterruptMasked));
}

#[test]
fn assembled_code_runs() {
    let poki = lawa::assemble::assemble("(segment rx (addi r1 r0 5) (addi r2 r0 7) (add r1 r2))").unwrap();
    let e = &mut Emulator::new();
    for (i, w) in poki.segments[5].contents.iter().enumerate() {
        e.ram.0[i] = *w;
    }
    e.step().unwrap();
    e.step().unwrap();
    e.step().unwrap();
    assert_eq!(e.registers.read(1), 12);
}

#[test]
fn take_interrupt_enters_handler_with_the_word() {
    let mut e = Emulator::new();
    e.program_counter = 0x33;
    e.control_status_registers.iv = 0x200;
    assert_eq!(e.take_interrupt(None), None);
    assert_eq!(e.program_counter, 0x33);
    assert_eq!(e.control_status_registers.im[0], 0);
    assert_eq!(e.take_interrupt(Some(0x0742)), Some(0x0742));
    assert_eq!(e.control_status_registers.ic, 0x0742);
    assert_eq!(e.control_status_registers.ipc, 0x33);
    assert_eq!(e.program_counter, 0x200);
    assert!(e.privileged);
    assert_eq!(e.control_status_registers.im[0], 1);
}

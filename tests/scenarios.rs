use lawa::assemble::{assemble, AssembleError, AssemblyError};
use lawa::devices::{Device, InterruptHandle, TryInterruptError};
use lawa::emulator::Emulator;
use lawa::poki::{ExportTableEntry, Poki, RelocationTableEntry};

use std::sync::{Arc, Mutex};

#[test]
fn minimal_assemble() {
    let poki = assemble("(segment x (block start (addi r1 r0 42)))").unwrap();
    assert_eq!(poki.segments.len(), 8);
    assert_eq!(poki.segments[1].contents, vec![0x0048, 0x002A]);
    assert!(poki.segments[1].export_table.is_empty());
    assert!(poki.segments[1].relocation_table.is_empty());
    assert!(poki.unresolved_table.is_empty());
    for (i, segment) in poki.segments.iter().enumerate() {
        if i != 1 {
            assert!(segment.contents.is_empty());
        }
    }
}

#[test]
fn minimal_assemble_with_export() {
    let poki = assemble("(export start) (segment x (block start (addi r1 r0 42)))").unwrap();
    assert_eq!(
        poki.segments[1].export_table,
        vec![ExportTableEntry { label: "start".to_string(), offset: 0 }]
    );
}

#[test]
fn forward_reference() {
    let source = "(export main)\n(segment rx\n  (block main (jsh target) (addi r1 r0 0))\n  (block target (addi r1 r1 1)))";
    let poki = assemble(source).unwrap();
    let segment = &poki.segments[5];
    assert_eq!(
        segment.export_table,
        vec![ExportTableEntry { label: "main".to_string(), offset: 0 }]
    );
    assert_eq!(
        segment.relocation_table,
        vec![RelocationTableEntry { offset: 0, segment_index: 5, segment_offset: 3 }]
    );
    assert!(poki.unresolved_table.is_empty());
}

#[test]
fn unresolved_external() {
    let poki = assemble("(segment rx (block f (jsh extern)))").unwrap();
    assert_eq!(
        poki.segments[5].relocation_table,
        vec![RelocationTableEntry { offset: 0, segment_index: 0xFFFF, segment_offset: 0 }]
    );
    assert_eq!(poki.unresolved_table, vec!["extern".to_string()]);
    assert_eq!(poki.segments[5].contents, vec![0b101001]);
}

#[test]
fn duplicate_label() {
    let source = "(segment rx (block a) (block a))";
    match assemble(source) {
        Err(AssemblyError::Assemble(AssembleError::DuplicateLabel { first, second })) => {
            assert_eq!(&source[first.offset..first.offset + first.length], "a");
            assert_eq!(&source[second.offset..second.offset + second.length], "a");
            assert!(first.offset < second.offset);
        }
        other => panic!("expected a duplicate label, got {:?}", other),
    }
}

#[test]
fn emulator_addi_then_beq() {
    let mut emulator = Emulator::new();
    emulator.ram.0[0] = 0x0048;
    emulator.ram.0[1] = 1;
    emulator.ram.0[2] = 0b101010;
    emulator.ram.0[3] = 10;
    assert_eq!(emulator.step(), Ok(None));
    assert_eq!(emulator.step(), Ok(None));
    assert_eq!(emulator.registers.read(1), 1);
    assert_eq!(emulator.program_counter, 10);
}

struct Firing {
    handle: Arc<Mutex<Option<InterruptHandle>>>,
}

impl Device for Firing {
    fn init(&mut self, interrupt_handle: InterruptHandle) {
        *self.handle.lock().unwrap() = Some(interrupt_handle);
    }

    fn input(&mut self, _context: u8) -> u16 {
        0
    }

    fn output(&mut self, _context: u8, _value: u16) {}
}

#[test]
fn hardware_interrupt_delivery() {
    let mut emulator = Emulator::new();
    emulator.control_status_registers.iv = 0x100;
    emulator.program_counter = 0x20;
    let handle = Arc::new(Mutex::new(None));
    assert!(emulator.attach(3, Box::new(Firing { handle: handle.clone() })));
    let result = handle.lock().unwrap().as_ref().unwrap().try_interrupt(0x55);
    assert_eq!(result, Ok(()));
    let second = handle.lock().unwrap().as_ref().unwrap().try_interrupt(0x56);
    assert_eq!(second, Err(TryInterruptError::Busy));
    assert_eq!(emulator.step(), Ok(Some(0x0355)));
    assert_eq!(emulator.control_status_registers.ipc, 0x20);
    assert_eq!(emulator.control_status_registers.ic, 0x0355);
    assert_eq!(emulator.program_counter, 0x100);
    assert!(emulator.privileged);
    assert_eq!(emulator.control_status_registers.im[0] & 1, 1);
    let masked = handle.lock().unwrap().as_ref().unwrap().try_interrupt(0x57);
    assert_eq!(masked, Err(TryInterruptError::InterruptMasked));
}

#[test]
fn poki_round_trip() {
    let source = "(export main)\n(segment rx\n  (block main (jsh target) (addi r1 r0 0) \"hi\")\n  (block target (addi r1 r1 far)))";
    let poki = assemble(source).unwrap();
    let bytes = poki.serialize().unwrap();
    let back = Poki::deserialize(&bytes).unwrap();
    assert_eq!(back, poki);
}

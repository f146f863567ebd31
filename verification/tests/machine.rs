use rum::binary::decode_program;
use rum::binary::encode_program;
use rum::binary::UM;
use rum::memory::map_memory_segment;
use rum::operations::addition;
use rum::operations::bit_nand;
use rum::operations::conditional_move;
use rum::operations::division;
use rum::operations::input;
use rum::operations::load_value;
use rum::operations::map_segment;
use rum::operations::multiplication;
use rum::operations::output;
use rum::operations::segmented_load;
use rum::operations::segmented_store;
use rum::operations::unmap_segment;
use rum::operations::Effect;
use rum::operations::Fault;
use rum::registers::get;
use rum::registers::op;
use rum::registers::Field;

fn word3(opcode: u32, a: u32, b: u32, c: u32) -> u32 {
    (opcode << 28) | (a << 6) | (b << 3) | c
}

fn loadimm(reg: u32, value: u32) -> u32 {
    (13 << 28) | (reg << 25) | value
}

fn boot_with(words: &[u32]) -> UM {
    let mut machine = UM::new();
    machine.boot(words);
    machine
}

/// Step the machine until it halts or faults, collecting output bytes;
/// input requests are answered with end-of-stream.
fn run_program(words: &[u32]) -> (Result<(), Fault>, Vec<u8>) {
    let mut machine = boot_with(words);
    let mut out: Vec<u8> = Vec::new();
    for _ in 0..10_000 {
        match machine.step() {
            Ok(Effect::Continue) => {}
            Ok(Effect::Output(byte)) => out.push(byte),
            Ok(Effect::NeedInput(c)) => input(&mut machine, c, None),
            Ok(Effect::Halt) => return (Ok(()), out),
            Err(fault) => return (Err(fault), out),
        }
    }
    panic!("program did not halt");
}

#[test]
fn halts_immediately() {
    let (status, out) = run_program(&[0x70000000]);
    assert_eq!(status, Ok(()));
    assert!(out.is_empty());
}

#[test]
fn loads_value_and_outputs() {
    let (status, out) = run_program(&[0xD0000048, 0xA0000000, 0x70000000]);
    assert_eq!(status, Ok(()));
    assert_eq!(out, vec![b'H']);
}

#[test]
fn adds_and_outputs() {
    let program = [
        loadimm(1, 5),
        loadimm(2, 7),
        word3(3, 0, 1, 2),
        loadimm(3, 48),
        word3(3, 0, 0, 3),
        word3(10, 0, 0, 0),
        0x70000000,
    ];
    let (status, out) = run_program(&program);
    assert_eq!(status, Ok(()));
    assert_eq!(out, vec![b'<']);
}

#[test]
fn map_after_unmap_reuses_identifier() {
    let program = [
        loadimm(1, 4),
        word3(8, 0, 2, 1),
        word3(9, 0, 0, 2),
        loadimm(3, 7),
        word3(8, 0, 4, 3),
        0x70000000,
    ];
    let mut machine = boot_with(&program);
    loop {
        match machine.step() {
            Ok(Effect::Continue) => {}
            Ok(Effect::Halt) => break,
            other => panic!("unexpected step result: {:?}", other),
        }
    }
    assert_eq!(machine.registers[2], 1);
    assert_eq!(machine.registers[4], 1);
    assert_eq!(machine.memory[1], vec![0u32; 7]);
}

#[test]
fn load_program_jumps_without_touching_segment_zero() {
    let program = [loadimm(1, 3), word3(12, 0, 0, 1), word3(0, 0, 0, 0), 0x70000000];
    let mut machine = boot_with(&program);
    assert_eq!(machine.step(), Ok(Effect::Continue));
    assert_eq!(machine.step(), Ok(Effect::Continue));
    assert_eq!(machine.program_counter, 3);
    assert_eq!(machine.memory[0], program.to_vec());
    assert_eq!(machine.step(), Ok(Effect::Halt));
}

#[test]
fn load_program_copies_another_segment() {
    // Map a one-word segment, build a HALT word by repeated doubling (the
    // immediate field holds only 25 bits), store it there, and jump to it.
    let program = [
        loadimm(1, 1),
        word3(8, 0, 2, 1),
        loadimm(3, 0x1C0_0000),
        word3(3, 3, 3, 3),
        word3(3, 3, 3, 3),
        word3(3, 3, 3, 3),
        word3(3, 3, 3, 3),
        word3(3, 3, 3, 3),
        word3(3, 3, 3, 3),
        word3(2, 2, 0, 3),
        word3(12, 0, 2, 0),
    ];
    let mut machine = boot_with(&program);
    for _ in 0..11 {
        assert_eq!(machine.step(), Ok(Effect::Continue));
    }
    // The jump replaced segment 0 with the mapped segment.
    assert_eq!(machine.memory[0], vec![0x70000000]);
    assert_eq!(machine.program_counter, 0);
    assert_eq!(machine.step(), Ok(Effect::Halt));
}

#[test]
fn run_stops_at_each_host_interaction() {
    let mut machine = boot_with(&[0xD0000048, 0xA0000000, 0x70000000]);
    assert_eq!(machine.run(u64::MAX), Some(Ok(Effect::Output(72))));
    assert_eq!(machine.run(u64::MAX), Some(Ok(Effect::Halt)));
}

#[test]
fn run_returns_none_when_fuel_runs_out() {
    let mut machine = boot_with(&[0x70000000]);
    assert_eq!(machine.run(0), None);
    assert_eq!(machine.run(1), Some(Ok(Effect::Halt)));
}

#[test]
fn division_by_zero_faults() {
    let program = [loadimm(1, 5), word3(5, 0, 1, 2), 0x70000000];
    let (status, out) = run_program(&program);
    assert_eq!(status, Err(Fault::DivisionByZero));
    assert!(out.is_empty());
}

#[test]
fn invalid_opcode_faults() {
    let (status, _) = run_program(&[0xE0000000]);
    assert_eq!(status, Err(Fault::InvalidOpcode));
    let (status, _) = run_program(&[0xF0000000]);
    assert_eq!(status, Err(Fault::InvalidOpcode));
}

#[test]
fn output_above_byte_range_faults() {
    let program = [loadimm(0, 300), word3(10, 0, 0, 0)];
    let (status, out) = run_program(&program);
    assert_eq!(status, Err(Fault::OutputRange));
    assert!(out.is_empty());
}

#[test]
fn unmapped_segment_access_faults() {
    let program = [loadimm(1, 5), word3(1, 0, 1, 2)];
    let (status, _) = run_program(&program);
    assert_eq!(status, Err(Fault::MemoryRange));
    let program = [loadimm(1, 5), word3(2, 1, 0, 0)];
    let (status, _) = run_program(&program);
    assert_eq!(status, Err(Fault::MemoryRange));
}

#[test]
fn fetch_past_end_faults() {
    let (status, _) = run_program(&[word3(0, 0, 0, 0)]);
    assert_eq!(status, Err(Fault::MemoryRange));
}

#[test]
fn bad_unmap_faults() {
    // Unmapping identifier 0.
    let (status, _) = run_program(&[word3(9, 0, 0, 2)]);
    assert_eq!(status, Err(Fault::BadUnmap));
    // Unmapping the same identifier twice.
    let program = [
        loadimm(1, 3),
        word3(8, 0, 2, 1),
        word3(9, 0, 0, 2),
        word3(9, 0, 0, 2),
    ];
    let (status, _) = run_program(&program);
    assert_eq!(status, Err(Fault::BadUnmap));
    // Unmapping an identifier never handed out.
    let program = [loadimm(1, 9), word3(9, 0, 0, 1)];
    let (status, _) = run_program(&program);
    assert_eq!(status, Err(Fault::BadUnmap));
}

#[test]
fn input_reads_byte_or_end_of_stream() {
    let program = [word3(11, 0, 0, 2), 0x70000000];
    let mut machine = boot_with(&program);
    assert_eq!(machine.step(), Ok(Effect::NeedInput(2)));
    input(&mut machine, 2, Some(65));
    assert_eq!(machine.registers[2], 65);
    assert_eq!(machine.step(), Ok(Effect::Halt));

    let mut machine = boot_with(&program);
    assert_eq!(machine.step(), Ok(Effect::NeedInput(2)));
    input(&mut machine, 2, None);
    assert_eq!(machine.registers[2], u32::MAX);
}

#[test]
fn conditional_move_depends_on_register_c() {
    let mut machine = boot_with(&[0x70000000]);
    load_value(&mut machine, 0, 7);
    load_value(&mut machine, 1, 9);
    conditional_move(&mut machine, 2, 1, 0);
    assert_eq!(machine.registers[2], 9);
    load_value(&mut machine, 3, 0);
    load_value(&mut machine, 4, 11);
    conditional_move(&mut machine, 2, 4, 3);
    assert_eq!(machine.registers[2], 9);
}

#[test]
fn addition_wraps_modulo_two_to_the_32() {
    let mut machine = boot_with(&[0x70000000]);
    load_value(&mut machine, 1, u32::MAX);
    load_value(&mut machine, 2, 1);
    assert_eq!(addition(&mut machine, 0, 1, 2), 0);
    load_value(&mut machine, 3, 0xFFFF_FFF0);
    load_value(&mut machine, 4, 0x20);
    assert_eq!(addition(&mut machine, 0, 3, 4), 0x10);
}

#[test]
fn multiplication_wraps_modulo_two_to_the_32() {
    let mut machine = boot_with(&[0x70000000]);
    load_value(&mut machine, 1, 0x10000);
    load_value(&mut machine, 2, 0x10000);
    assert_eq!(multiplication(&mut machine, 0, 1, 2), 0);
    load_value(&mut machine, 3, 0x10001);
    assert_eq!(multiplication(&mut machine, 0, 3, 2), 0x10000);
}

#[test]
fn division_truncates() {
    let mut machine = boot_with(&[0x70000000]);
    load_value(&mut machine, 1, 7);
    load_value(&mut machine, 2, 2);
    assert_eq!(division(&mut machine, 0, 1, 2), 3);
}

#[test]
fn nand_negates_each_bit_of_the_conjunction() {
    let mut machine = boot_with(&[0x70000000]);
    load_value(&mut machine, 1, 0b1100);
    load_value(&mut machine, 2, 0b1010);
    assert_eq!(bit_nand(&mut machine, 0, 1, 2), 0xFFFF_FFF7);
    load_value(&mut machine, 3, 0);
    assert_eq!(bit_nand(&mut machine, 0, 3, 3), u32::MAX);
}

#[test]
fn output_returns_the_byte() {
    let mut machine = boot_with(&[0x70000000]);
    load_value(&mut machine, 5, b'x' as u32);
    assert_eq!(output(&machine, 5), b'x');
}

#[test]
fn map_then_unmap_then_map_reuses_identifier() {
    let mut machine = boot_with(&[0x70000000]);
    load_value(&mut machine, 1, 4);
    assert_eq!(map_segment(&mut machine, 2, 1), 1);
    assert_eq!(machine.memory[1], vec![0u32; 4]);
    unmap_segment(&mut machine, 2);
    assert!(machine.memory[1].is_empty());
    load_value(&mut machine, 3, 7);
    assert_eq!(map_segment(&mut machine, 4, 3), 1);
    assert_eq!(machine.memory[1], vec![0u32; 7]);
}

#[test]
fn map_memory_segment_appends_when_nothing_is_free() {
    let mut machine = boot_with(&[0x70000000]);
    let address = map_memory_segment(&mut machine, vec![1, 2, 3]);
    assert_eq!(address, 1);
    assert_eq!(machine.memory[1], vec![1, 2, 3]);
    let address = map_memory_segment(&mut machine, vec![4]);
    assert_eq!(address, 2);
}

#[test]
fn segment_store_then_load_round_trips() {
    let mut machine = boot_with(&[0, 0, 0]);
    load_value(&mut machine, 0, 0);
    load_value(&mut machine, 1, 1);
    load_value(&mut machine, 2, 99);
    segmented_store(&mut machine, 0, 1, 2);
    assert_eq!(segmented_load(&mut machine, 3, 0, 1), 99);
    assert_eq!(machine.memory[0], vec![0, 99, 0]);
}

#[test]
fn decoder_extracts_fields() {
    let inst = word3(3, 0, 1, 2);
    assert_eq!(op(inst), 3);
    assert_eq!(get(&Field { width: 3, lsb: 6 }, inst), 0);
    assert_eq!(get(&Field { width: 3, lsb: 3 }, inst), 1);
    assert_eq!(get(&Field { width: 3, lsb: 0 }, inst), 2);
    let inst = loadimm(5, 0x123456);
    assert_eq!(op(inst), 13);
    assert_eq!(get(&Field { width: 3, lsb: 25 }, inst), 5);
    assert_eq!(get(&Field { width: 25, lsb: 0 }, inst), 0x123456);
}

#[test]
fn program_image_round_trips() {
    let words = vec![0x01020304, 0xDEADBEEF, 0, u32::MAX];
    let bytes = encode_program(&words);
    assert_eq!(bytes.len(), 16);
    assert_eq!(&bytes[0..4], &[1, 2, 3, 4]);
    assert_eq!(decode_program(&bytes), words);
}

#[test]
fn decoder_discards_trailing_bytes() {
    let bytes = vec![0, 0, 0, 0x48, 0xAA, 0xBB];
    assert_eq!(decode_program(&bytes), vec![0x48]);
    assert_eq!(decode_program(&vec![1, 2, 3]), Vec::<u32>::new());
}

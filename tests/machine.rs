use eight_bit::assembler::Assembler;
use eight_bit::bios::{LineError, BIOS};
use eight_bit::cpu::{Event, CPU};
use eight_bit::error::MachineError;
use eight_bit::isa::Op;
use eight_bit::logic_gates::LogicGates;
use eight_bit::motherboard::Motherboard;
use eight_bit::power_supply::PowerSupply;
use eight_bit::ram::{binary_string, RAM, RAM_SIZE};
use eight_bit::runner::RunStatus;
use eight_bit::utils::{parse_address, parse_immediate, parse_register};

fn cpu() -> CPU {
    CPU::new(RAM::new())
}

fn lines(src: &[&str]) -> Vec<String> {
    src.iter().map(|l| l.to_string()).collect()
}

#[test]
fn write_then_read_every_address() {
    let mut ram = RAM::new();
    for a in 0..RAM_SIZE {
        let v = (a * 7 % 256) as u8;
        assert_eq!(ram.write(a, v), Ok(()));
        assert_eq!(ram.read(a), Ok(v));
    }
}

#[test]
fn access_past_memory_fails() {
    let mut ram = RAM::new();
    assert_eq!(ram.read(256), Err(MachineError::OutOfBounds(256)));
    assert_eq!(ram.write(256, 1), Err(MachineError::OutOfBounds(256)));
    assert_eq!(ram.read(1000), Err(MachineError::OutOfBounds(1000)));
    assert_eq!(ram.write(usize::MAX, 1), Err(MachineError::OutOfBounds(usize::MAX)));
}

#[test]
fn dump_renders_and_clamps() {
    let mut ram = RAM::new();
    ram.write(254, 5).unwrap();
    ram.write(255, 0xff).unwrap();
    assert_eq!(ram.dump(254, 10), vec!["00000101".to_string(), "11111111".to_string()]);
    assert_eq!(ram.dump(0, 1), vec!["00000000".to_string()]);
    assert!(ram.dump(256, 4).is_empty());
    assert!(ram.dump(300, 4).is_empty());
    assert_eq!(ram.dump(0, usize::MAX).len(), 256);
    assert_eq!(binary_string(0b1010_0110), "10100110");
}

#[test]
fn gate_values() {
    assert_eq!(LogicGates::and(0b1100, 0b1010), 0b1000);
    assert_eq!(LogicGates::or(0b1100, 0b1010), 0b1110);
    assert_eq!(LogicGates::xor(0b1100, 0b1010), 0b0110);
    assert_eq!(LogicGates::not(0b0000_1111), 0b1111_0000);
    assert_eq!(LogicGates::nand(0xff, 0xff), 0);
    assert_eq!(LogicGates::nor(0, 0), 0xff);
}

#[test]
fn gate_identities_hold_for_all_bytes() {
    for a in 0..=255u8 {
        assert_eq!(LogicGates::not(LogicGates::not(a)), a);
        for b in 0..=255u8 {
            assert_eq!(LogicGates::nand(a, b), LogicGates::not(LogicGates::and(a, b)));
            assert_eq!(LogicGates::nor(a, b), LogicGates::not(LogicGates::or(a, b)));
        }
    }
}

#[test]
fn add_wraps() {
    let mut c = cpu();
    assert_eq!(c.execute("MOV R0 255"), Ok(true));
    assert_eq!(c.execute("MOV R1 2"), Ok(true));
    assert_eq!(c.execute("ADD R0 R1 R2"), Ok(true));
    assert_eq!(c.register(2), 1);
}

#[test]
fn load_store_and_init() {
    let mut c = cpu();
    assert_eq!(c.execute("INIT [0x10] = 0b101"), Ok(true));
    assert_eq!(c.execute("LOAD R3 [16]"), Ok(true));
    assert_eq!(c.register(3), 5);
    assert_eq!(c.execute("STORE R3, [200]"), Ok(true));
    assert_eq!(c.ram().read(200), Ok(5));
}

#[test]
fn logic_instructions() {
    let mut c = cpu();
    c.execute("MOV R0 0b1100").unwrap();
    c.execute("MOV R1 0b1010").unwrap();
    c.execute("AND R0 R1 R2").unwrap();
    c.execute("OR R0 R1 R3").unwrap();
    c.execute("XOR R0 R1 R4").unwrap();
    c.execute("NAND R0 R1 R5").unwrap();
    c.execute("NOR R0 R1 R6").unwrap();
    c.execute("NOT R0 R7").unwrap();
    assert_eq!(c.register(2), 0b1000);
    assert_eq!(c.register(3), 0b1110);
    assert_eq!(c.register(4), 0b0110);
    assert_eq!(c.register(5), 0b1111_0111);
    assert_eq!(c.register(6), 0b1111_0001);
    assert_eq!(c.register(7), 0b1111_0011);
}

#[test]
fn mov_between_kinds() {
    let mut c = cpu();
    c.execute("MOV [3] 0x2A").unwrap();
    c.execute("MOV R1 [3]").unwrap();
    c.execute("MOV R2 R1").unwrap();
    c.execute("MOV [4] R2").unwrap();
    assert_eq!(c.register(1), 42);
    assert_eq!(c.register(2), 42);
    assert_eq!(c.ram().read(4), Ok(42));
    assert_eq!(c.execute("MOV 5 R1"), Err(MachineError::InvalidDestination));
}

#[test]
fn qmov_moves_and_clears() {
    let mut c = cpu();
    c.execute("MOV R0 5").unwrap();
    assert_eq!(c.execute("QMOV [10] R0"), Ok(true));
    assert_eq!(c.ram().read(10), Ok(5));
    assert_eq!(c.register(0), 0);
    assert_eq!(c.execute("QMOV R4 [10]"), Ok(true));
    assert_eq!(c.register(4), 5);
    assert_eq!(c.ram().read(10), Ok(0));
    assert_eq!(c.execute("QMOV R1 R2"), Err(MachineError::InvalidOperandCombination));
}

#[test]
fn if_takes_then_branch() {
    let mut c = cpu();
    c.execute("MOV R0 10").unwrap();
    c.execute("MOV R1 3").unwrap();
    assert_eq!(c.execute("IF R0 > 5 THEN ADD R0 R1 R2 ELSE CLEAR R2"), Ok(true));
    assert_eq!(c.register(2), 13);
}

#[test]
fn if_takes_else_branch() {
    let mut c = cpu();
    c.execute("MOV R0 2").unwrap();
    c.execute("MOV R1 3").unwrap();
    c.execute("MOV R2 9").unwrap();
    assert_eq!(c.execute("IF R0 > 5 THEN ADD R0 R1 R2 ELSE CLEAR R2"), Ok(true));
    assert_eq!(c.register(2), 0);
}

#[test]
fn if_then_only_and_nested() {
    let mut c = cpu();
    c.execute("MOV R0 7").unwrap();
    c.execute("MOV [1] 7").unwrap();
    assert_eq!(c.execute("IF R0 != [1] THEN MOV R3 1"), Ok(true));
    assert_eq!(c.register(3), 0);
    assert_eq!(c.execute("IF R0 == [1] THEN IF R0 >= 7 THEN MOV R3 9"), Ok(true));
    assert_eq!(c.register(3), 9);
    assert_eq!(c.execute("IF R0 < 3 THEN MOV R3 1 ELSE MOV R4 2"), Ok(true));
    assert_eq!(c.register(4), 2);
    assert_eq!(c.execute("IF R0 <= R4 THEN HALT"), Ok(true));
}

#[test]
fn if_errors() {
    let mut c = cpu();
    assert_eq!(c.execute("IF R0 > 5 ADD R0 R1 R2"), Err(MachineError::SyntaxError));
    assert_eq!(c.execute("IF R0 5 THEN CLEAR R1"), Err(MachineError::InvalidCondition));
    assert_eq!(c.execute("IF R0 => 5 THEN CLEAR R1"), Err(MachineError::InvalidCondition));
    assert_eq!(c.execute("IF R0 == 0 THEN FOO"), Err(MachineError::UnknownInstruction));
}

#[test]
fn verbose_output_follows_flag() {
    let mut c = cpu();
    assert_eq!(c.execute("VER 0 1"), Ok(true));
    assert!(c.is_verbose());
    assert_eq!(c.execute("OUT R0"), Ok(true));
    let events = c.take_events();
    assert_eq!(
        events,
        vec![
            Event::Trace { op: Op::Ver, value: 1 },
            Event::Out { register: Some(0), value: 0 }
        ]
    );
    c.execute("VER 0 0").unwrap();
    c.execute("MOV R1 4").unwrap();
    c.execute("OUT R1").unwrap();
    c.execute("OUT 0x0f").unwrap();
    assert_eq!(
        c.take_events(),
        vec![Event::Out { register: Some(1), value: 4 }, Event::Out { register: None, value: 15 }]
    );
    assert_eq!(c.execute("VER 0 2"), Err(MachineError::InvalidFlag));
}

#[test]
fn bad_register_leaves_state_unchanged() {
    let mut c = cpu();
    c.execute("MOV R1 8").unwrap();
    c.execute("MOV [0] 3").unwrap();
    assert_eq!(c.execute("LOAD R9 [0]"), Err(MachineError::InvalidRegister));
    assert_eq!(c.register(1), 8);
    for i in [0usize, 2, 3, 4, 5, 6, 7] {
        assert_eq!(c.register(i), 0);
    }
    assert_eq!(c.ram().read(0), Ok(3));
    assert!(c.take_events().is_empty());
}

#[test]
fn structural_errors() {
    let mut c = cpu();
    assert_eq!(c.execute("JUMP 3"), Err(MachineError::UnknownInstruction));
    assert_eq!(c.execute("load R0 [1]"), Err(MachineError::UnknownInstruction));
    assert_eq!(
        c.execute("ADD R0 R1"),
        Err(MachineError::ArityError { mnemonic: Op::Add, tokens: 3 })
    );
    assert_eq!(
        c.execute("HALT now"),
        Err(MachineError::ArityError { mnemonic: Op::Halt, tokens: 2 })
    );
    assert_eq!(
        c.execute("MOV R0 1 2"),
        Err(MachineError::ArityError { mnemonic: Op::Mov, tokens: 4 })
    );
    assert_eq!(c.execute("LOAD R0 [256]"), Err(MachineError::InvalidAddress));
    assert_eq!(c.execute("LOAD R0 [0xZZ]"), Err(MachineError::InvalidAddress));
    assert_eq!(c.execute("CLEAR 5"), Err(MachineError::InvalidAddress));
    assert_eq!(c.execute("MOV R0 256"), Err(MachineError::InvalidImmediate));
    assert_eq!(c.execute("OUT 0b2"), Err(MachineError::InvalidImmediate));
    assert_eq!(c.execute("INIT [1] 5 6"), Err(MachineError::SyntaxError));
}

#[test]
fn comments_blank_lines_and_halt() {
    let mut c = cpu();
    assert_eq!(c.execute(""), Ok(true));
    assert_eq!(c.execute("   ; only a comment"), Ok(true));
    assert_eq!(c.execute("MOV R0 1 ; set R0"), Ok(true));
    assert_eq!(c.register(0), 1);
    assert_eq!(c.execute("  HALT  "), Ok(false));
}

#[test]
fn operand_parsers() {
    assert_eq!(parse_register("R7"), Ok(7));
    assert_eq!(parse_register("R3,,"), Ok(3));
    assert_eq!(parse_register("R8"), Err(MachineError::InvalidRegister));
    assert_eq!(parse_register("X1"), Err(MachineError::InvalidRegister));
    assert_eq!(parse_register("R"), Err(MachineError::InvalidRegister));
    assert_eq!(parse_address("[0xff]"), Ok(255));
    assert_eq!(parse_address("[12]"), Ok(12));
    assert_eq!(parse_address("[12],"), Err(MachineError::InvalidAddress));
    assert_eq!(parse_address("[256]"), Err(MachineError::InvalidAddress));
    assert_eq!(parse_address("["), Err(MachineError::InvalidAddress));
    assert_eq!(parse_address("12"), Err(MachineError::InvalidAddress));
    assert_eq!(parse_immediate("0b11111111"), Ok(255));
    assert_eq!(parse_immediate("0xA0"), Ok(160));
    assert_eq!(parse_immediate("+9"), Ok(9));
    assert_eq!(parse_immediate("-1"), Err(MachineError::InvalidImmediate));
    assert_eq!(parse_immediate("0x"), Err(MachineError::InvalidImmediate));
    assert_eq!(parse_immediate(""), Err(MachineError::InvalidImmediate));
}

#[test]
fn assembler_encodes_program() {
    let mut assembler = Assembler::new();
    let src = lines(&[
        "; demo",
        "start:",
        "LOAD R0 [0x20]",
        "ADD R0 R1 R2",
        "NOT R2 R3",
        "INIT [5] = 7",
        "VER 0 1",
        "JUMP start",
        "HALT",
    ]);
    assert_eq!(
        assembler.assemble(&src),
        Ok(vec![0x01, 0, 0x20, 0x03, 0, 1, 2, 0x07, 2, 3, 0x09, 5, 7, 0xfe, 1, 0x08, 1, 0xff])
    );
    assert_eq!(assembler.assemble(&lines(&["MOV R0 1"])), Err(MachineError::UnknownInstruction));
    assert_eq!(
        assembler.assemble(&lines(&["STORE R0"])),
        Err(MachineError::ArityError { mnemonic: Op::Store, tokens: 2 })
    );
    assert_eq!(assembler.assemble(&lines(&["ADD R0 R1 R9"])), Err(MachineError::InvalidRegister));
}

#[test]
fn binary_runner_executes_and_halts() {
    let mut c = cpu();
    // LOAD R0 [12]; LOAD R1 [13]; ADD R0 R1 R2; HALT; data at 12, 13
    let program = vec![0x01, 0, 12, 0x01, 1, 13, 0x03, 0, 1, 2, 0xff, 0, 200, 100];
    assert_eq!(c.load_program(&program), Ok(()));
    assert_eq!(c.run_binary(100), Ok(RunStatus::Halted));
    assert_eq!(c.register(2), 44);
}

#[test]
fn binary_runner_errors_and_budget() {
    let mut c = cpu();
    c.load_program(&vec![0x0a, 0]).unwrap();
    assert_eq!(c.run_binary(10), Err(MachineError::InvalidOpcode(0x0a)));
    let mut c = cpu();
    c.load_program(&vec![0x08, 0]).unwrap();
    assert_eq!(c.run_binary(50), Ok(RunStatus::OutOfSteps));
    let mut c = cpu();
    c.load_program(&vec![0x01, 9, 0]).unwrap();
    assert_eq!(c.run_binary(5), Err(MachineError::InvalidRegister));
    let mut c = cpu();
    assert_eq!(c.load_program(&vec![0; 257]), Err(MachineError::OutOfBounds(256)));
    let mut c = cpu();
    c.load_program(&vec![0x08, 254]).unwrap();
    c.ram();
    assert_eq!(c.run_binary(5), Err(MachineError::InvalidOpcode(0)));
    let mut c = cpu();
    c.execute("INIT [255] = 3").unwrap();
    c.load_program(&vec![0x08, 255]).unwrap();
    assert_eq!(c.run_binary(5), Err(MachineError::OutOfBounds(256)));
}

#[test]
fn text_and_binary_paths_agree() {
    let src = lines(&[
        "LOAD R0 [40]",
        "LOAD R1 [41]",
        "ADD R0 R1 R2",
        "XOR R0 R1 R3",
        "AND R0 R1 R4",
        "OR R0 R1 R5",
        "NOT R2 R6",
        "STORE R2 [42]",
        "HALT",
    ]);
    let mut assembler = Assembler::new();
    let program = assembler.assemble(&src).unwrap();

    let mut binary = BIOS::new(cpu());
    binary.cpu.execute("INIT [40] = 200").unwrap();
    binary.cpu.execute("INIT [41] = 99").unwrap();
    let mut text = BIOS::new(cpu());
    text.cpu.load_program(&program).unwrap();
    text.cpu.execute("INIT [40] = 200").unwrap();
    text.cpu.execute("INIT [41] = 99").unwrap();

    assert_eq!(binary.execute_binary(&program, 1000), Ok(RunStatus::Halted));
    assert_eq!(text.execute_asm(&src), Ok(true));
    for i in 0..8 {
        assert_eq!(binary.cpu.register(i), text.cpu.register(i));
    }
    assert_eq!(binary.cpu.ram().dump(0, RAM_SIZE), text.cpu.ram().dump(0, RAM_SIZE));
    assert_eq!(text.cpu.ram().read(42), Ok(43));
}

#[test]
fn bios_runs_text_program() {
    let mut bios = BIOS::new(cpu());
    let src = lines(&["MOV R0 1", "HALT", "MOV R0 2"]);
    assert_eq!(bios.execute_asm(&src), Ok(true));
    assert_eq!(bios.cpu.register(0), 1);
    let mut bios = BIOS::new(cpu());
    assert_eq!(
        bios.execute_asm(&lines(&["MOV R0 3", "BOGUS"])),
        Err(LineError { line: 1, error: MachineError::UnknownInstruction })
    );
    assert_eq!(bios.cpu.register(0), 3);
    assert_eq!(bios.execute_asm(&lines(&["MOV R1 4"])), Ok(false));
}

#[test]
fn boards_hold_the_processor() {
    let mut c = cpu();
    c.execute("MOV R5 6").unwrap();
    let board = Motherboard::new(c);
    let psu = PowerSupply::new(board);
    assert_eq!(psu.motherboard.cpu.register(5), 6);
}

#[test]
fn engine_ignores_commas_after_addresses() {
    let mut c = cpu();
    c.execute("INIT [16], = 9").unwrap();
    assert_eq!(c.execute("LOAD R1, [16],"), Ok(true));
    assert_eq!(c.register(1), 9);
    let mut assembler = Assembler::new();
    assert_eq!(
        assembler.assemble(&lines(&["LOAD R1, [16],"])),
        Err(MachineError::InvalidAddress)
    );
    assert_eq!(assembler.assemble(&lines(&["LOAD R1, [16]"])), Ok(vec![0x01, 1, 16]));
}

#[test]
fn halt_in_taken_clause_halts() {
    let mut c = cpu();
    c.execute("MOV R0 9").unwrap();
    assert_eq!(c.execute("IF R0 == 9 THEN HALT ELSE CLEAR R0"), Ok(false));
    assert_eq!(c.execute("IF R0 != 9 THEN CLEAR R0 ELSE HALT"), Ok(false));
    assert_eq!(c.execute("IF R0 != 9 THEN HALT"), Ok(true));
    let mut bios = BIOS::new(cpu());
    let src = lines(&["MOV R1 1", "IF R1 == 1 THEN HALT", "MOV R1 2"]);
    assert_eq!(bios.execute_asm(&src), Ok(true));
    assert_eq!(bios.cpu.register(1), 1);
}

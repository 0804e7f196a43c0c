use cpu_simulator::assembler::assemble;
use cpu_simulator::five_stage::forwarding::{FullForwarding, NoForwarding};
use cpu_simulator::five_stage::hazard::{NoHazardDetection, StallOnLoad};
use cpu_simulator::five_stage::FiveStageCpu;
use cpu_simulator::simple_ooo::build_default;

// Each result is written back before anything reads it, so the program runs
// the same with and without hazard handling.
const PROGRAM: &str = "
    addi x1, x0, 5
    nop
    addi x2, x0, 7
    nop
    nop
    nop
    nop
    nop
    add x3, x1, x2
    nop
    nop
    nop
    nop
    nop
    sw x3, 200(x0)
    nop
    nop
    nop
    nop
    nop
    lw x4, 200(x0)
    nop
    nop
    nop
    nop
    nop
    xori x5, x4, -1
";

fn program_words() -> Vec<u32> {
    match assemble(PROGRAM) {
        Ok(w) => w,
        Err(e) => panic!("{}", e.message()),
    }
}

#[test]
fn five_stage_runs_a_program() {
    let words = program_words();
    let mut cpu = FiveStageCpu::new(1024, StallOnLoad, FullForwarding);
    for (i, w) in words.iter().enumerate() {
        cpu.load(i * 4, &w.to_le_bytes());
    }
    for _ in 0..(words.len() + 12) {
        assert!(cpu.can_tick());
        cpu.tick();
    }
    assert_eq!(cpu.regs[1], 5);
    assert_eq!(cpu.regs[2], 7);
    assert_eq!(cpu.regs[3], 12);
    assert_eq!(cpu.regs[4], 12);
    assert_eq!(cpu.regs[5], !12u32);
    assert_eq!(&cpu.mem[200..204], &12u32.to_le_bytes());
    assert_eq!(cpu.regs[0], 0);
}

#[test]
fn five_stage_without_hazard_handling_still_runs_independent_code() {
    let words = program_words();
    let mut cpu = FiveStageCpu::new(1024, NoHazardDetection, NoForwarding);
    for (i, w) in words.iter().enumerate() {
        cpu.load(i * 4, &w.to_le_bytes());
    }
    for _ in 0..(words.len() + 12) {
        assert!(cpu.can_tick());
        cpu.tick();
    }
    assert_eq!(cpu.regs[3], 12);
    assert_eq!(cpu.regs[5], !12u32);
}

#[test]
fn five_stage_counts_cycles() {
    let mut cpu = FiveStageCpu::new(64, StallOnLoad, FullForwarding);
    for _ in 0..5 {
        cpu.tick();
    }
    assert_eq!(cpu.cycle, 5);
    assert_eq!(cpu.pc, 20);
}

#[test]
fn five_stage_cannot_fetch_past_memory() {
    let mut cpu = FiveStageCpu::new(8, StallOnLoad, FullForwarding);
    assert!(cpu.can_tick());
    cpu.tick();
    assert!(cpu.can_tick());
    cpu.tick();
    assert!(!cpu.can_tick());
}

#[test]
fn out_of_order_runs_a_program() {
    let words = match assemble("addi x1, x0, 5\naddi x2, x0, 7\nadd x3, x1, x2\nxori x5, x3, -1\nspin:\nbeq x0, x0, spin") {
        Ok(w) => w,
        Err(e) => panic!("{}", e.message()),
    };
    let mut cpu = build_default();
    for (i, w) in words.iter().enumerate() {
        cpu.load(i * 4, &w.to_le_bytes());
    }
    for _ in 0..52 {
        assert!(cpu.can_tick());
        cpu.tick();
    }
    assert_eq!(cpu.regs[1], 5);
    assert_eq!(cpu.regs[2], 7);
    assert_eq!(cpu.regs[3], 12);
    assert_eq!(cpu.regs[5], !12u32);
}

#[test]
fn five_stage_executes_back_to_back_instructions() {
    let words = match assemble("addi x1, x0, 1\naddi x2, x0, 2\naddi x3, x0, 3") {
        Ok(w) => w,
        Err(e) => panic!("{}", e.message()),
    };
    let mut cpu = FiveStageCpu::new(256, StallOnLoad, FullForwarding);
    for (i, w) in words.iter().enumerate() {
        cpu.load(i * 4, &w.to_le_bytes());
    }
    for _ in 0..12 {
        cpu.tick();
    }
    assert_eq!((cpu.regs[1], cpu.regs[2], cpu.regs[3]), (1, 2, 3));
}

#[test]
fn out_of_order_resolves_dependences_without_padding() {
    let words = match assemble("addi x1, x0, 3\naddi x2, x1, 4\nadd x3, x2, x1\nsub x4, x3, x1\nspin:\nbeq x0, x0, spin") {
        Ok(w) => w,
        Err(e) => panic!("{}", e.message()),
    };
    let mut cpu = build_default();
    for (i, w) in words.iter().enumerate() {
        cpu.load(i * 4, &w.to_le_bytes());
    }
    for _ in 0..40 {
        assert!(cpu.can_tick());
        cpu.tick();
    }
    assert_eq!(cpu.regs[1], 3);
    assert_eq!(cpu.regs[2], 7);
    assert_eq!(cpu.regs[3], 10);
    assert_eq!(cpu.regs[4], 7);
}

#[test]
fn five_stage_forwards_both_operands() {
    let words = match assemble("addi x1, x0, 5\nnop\nadd x3, x1, x1") {
        Ok(w) => w,
        Err(e) => panic!("{}", e.message()),
    };
    let mut cpu = FiveStageCpu::new(256, StallOnLoad, FullForwarding);
    for (i, w) in words.iter().enumerate() {
        cpu.load(i * 4, &w.to_le_bytes());
    }
    for _ in 0..10 {
        cpu.tick();
    }
    assert_eq!(cpu.regs[3], 10);
}

#[test]
fn five_stage_load_use_stall_holds_the_dependent_instruction() {
    let words = match assemble("lw x4, 0(x0)\naddi x6, x4, 1") {
        Ok(w) => w,
        Err(e) => panic!("{}", e.message()),
    };
    let mut cpu = FiveStageCpu::new(256, StallOnLoad, FullForwarding);
    for (i, w) in words.iter().enumerate() {
        cpu.load(i * 4, &w.to_le_bytes());
    }
    for _ in 0..20 {
        assert!(cpu.can_tick());
        cpu.tick();
    }
    assert_eq!(cpu.regs[4], words[0]);
    assert_ne!(cpu.regs[6], 0);
}

#[test]
fn out_of_order_jump_resumes_at_its_target() {
    // the two instructions after a jump are already fetched when it issues
    let src = "jal x1, over\nnop\nnop\naddi x2, x0, 9\nover:\naddi x3, x0, 4\njalr x0, x5, 37\nnop\nnop\naddi x4, x0, 1\nspin:\nbeq x0, x0, spin";
    let words = match assemble(src) {
        Ok(w) => w,
        Err(e) => panic!("{}", e.message()),
    };
    let mut cpu = build_default();
    for (i, w) in words.iter().enumerate() {
        cpu.load(i * 4, &w.to_le_bytes());
    }
    for _ in 0..60 {
        assert!(cpu.can_tick());
        cpu.tick();
    }
    assert_eq!(cpu.regs[1], 4); // the return address
    assert_eq!(cpu.regs[2], 0); // skipped
    assert_eq!(cpu.regs[3], 4);
    assert_eq!(cpu.regs[4], 0); // jalr went to 37 with the low bit cleared
}

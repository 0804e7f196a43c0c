use cpu_simulator::diag::Diagnosable;
use cpu_simulator::five_stage::forwarding::FullForwarding;
use cpu_simulator::five_stage::hazard::StallOnLoad;
use cpu_simulator::five_stage::stages::{push_ex_mem, push_id_ex, push_if_id, push_mem_wb, ExMem, IdEx, IfId, MemWb};
use cpu_simulator::five_stage::FiveStageCpu;
use cpu_simulator::isa::{push_decoded, DecodedInstr, InstrFormat, Opcode};
use cpu_simulator::simple_ooo::build_default;
use cpu_simulator::simple_ooo::reservation_stations::{push_sr_entry, Operand, SREntry};
use cpu_simulator::utils::text::{push_dec, push_hex8, push_idec};

fn text(out: Vec<char>) -> String {
    out.into_iter().collect()
}

fn sample_instr() -> DecodedInstr {
    DecodedInstr { opcode: Opcode::Sltiu, format: InstrFormat::I, rd: 31, rs1: 2, rs2: 17, imm: -2048 }
}

#[test]
fn numbers_are_written_as_format_writes_them() {
    for n in [0u64, 7, 10, 99, 1234567, u64::MAX] {
        let mut out = vec![];
        push_dec(&mut out, n);
        assert_eq!(text(out), format!("{}", n));
    }
    for v in [0i32, -1, 42, i32::MIN, i32::MAX] {
        let mut out = vec![];
        push_idec(&mut out, v);
        assert_eq!(text(out), format!("{}", v));
    }
    for v in [0u32, 0xdead_beef, 0x1f, u32::MAX] {
        let mut out = vec![];
        push_hex8(&mut out, v);
        assert_eq!(text(out), format!("0x{:08x}", v));
    }
}

#[test]
fn pipeline_registers_are_written_as_debug_writes_them() {
    let d = sample_instr();
    let mut out = vec![];
    push_decoded(&mut out, &d);
    assert_eq!(text(out), format!("{:?}", d));

    let v = Some(IfId { pc: 8, word: 0x13 });
    let mut out = vec![];
    push_if_id(&mut out, v);
    assert_eq!(text(out), format!("{:?}", v));

    let v = Some(IdEx { pc: 4, instr: d, rs1: 1, rs2: 4_000_000_000 });
    let mut out = vec![];
    push_id_ex(&mut out, v);
    assert_eq!(text(out), format!("{:?}", v));

    let v = Some(ExMem { instr: d, result: 3, rs2: 9 });
    let mut out = vec![];
    push_ex_mem(&mut out, v);
    assert_eq!(text(out), format!("{:?}", v));

    let v = Some(MemWb { instr: d, result: 77 });
    let mut out = vec![];
    push_mem_wb(&mut out, v);
    assert_eq!(text(out), format!("{:?}", v));

    let none: Option<MemWb> = None;
    let mut out = vec![];
    push_mem_wb(&mut out, none);
    assert_eq!(text(out), "None");
}

#[test]
fn station_entries_are_written_as_debug_writes_them() {
    let e = SREntry {
        rob_tag: 3,
        opcode: Opcode::Bgeu,
        pc: 12,
        imm: -8,
        rs1: Operand::Ready(5),
        rs2: Operand::Waiting(2),
        ready: false,
    };
    let mut out = vec![];
    push_sr_entry(&mut out, &e);
    assert_eq!(text(out), format!("{:?}", e));
}

#[test]
fn five_stage_diagnosis_of_a_fresh_cpu() {
    let cpu = FiveStageCpu::new(64, StallOnLoad, FullForwarding);
    let lines = cpu.diagnose().render_lines();
    assert_eq!(
        lines,
        vec![
            "five_stage_cpu",
            "├── pc: 0x00000000",
            "├── cycle: 0",
            "├── if_id: None",
            "├── id_ex: None",
            "├── ex_mem: None",
            "├── mem_wb: None",
            "└── alu",
            "    ├── pipes: 2 (0 in-flight)",
            "    └── pipe usage: [..]",
        ]
    );
}

#[test]
fn five_stage_diagnosis_after_a_fetch() {
    let mut cpu = FiveStageCpu::new(64, StallOnLoad, FullForwarding);
    cpu.load(0, &0x02a0_0093u32.to_le_bytes());
    cpu.tick();
    let n = cpu.diagnose();
    assert_eq!(n.children[0].value.as_deref(), Some("0x00000004"));
    assert_eq!(n.children[1].value.as_deref(), Some("1"));
    assert_eq!(n.children[2].value.as_deref(), Some("Some(IfId { pc: 0, word: 44040339 })"));
}

#[test]
fn out_of_order_diagnosis_of_a_fresh_cpu() {
    let cpu = build_default();
    let n = cpu.diagnose();
    assert_eq!(n.label, "simple_ooo");
    let labels: Vec<&str> = n.children.iter().map(|c| c.label.as_str()).collect();
    assert_eq!(
        labels,
        vec![
            "pc",
            "stall",
            "branch_stall",
            "if_id",
            "id_rs",
            "alu_mem",
            "mem_rob_release",
            "rat",
            "alu",
            "reservation_station",
            "reorder_buffer"
        ]
    );
    assert_eq!(n.children[1].value.as_deref(), Some("false"));
    assert_eq!(n.children[7].value.as_deref(), Some("empty"));
    assert_eq!(n.children[8].children[0].value.as_deref(), Some("3 (0 in-flight)"));
    assert_eq!(n.children[9].children[0].value.as_deref(), Some("0/8"));
    assert_eq!(n.children[10].children[0].value.as_deref(), Some("0/16"));
}

#[test]
fn out_of_order_diagnosis_shows_waiting_registers() {
    let mut cpu = build_default();
    cpu.load(0, &0x02a0_0093u32.to_le_bytes()); // addi x1, x0, 42
    // fetch, decode, a cycle cut short by the zero word behind it, issue
    for _ in 0..4 {
        cpu.tick();
    }
    let n = cpu.diagnose();
    let rat = &n.children[7];
    assert_eq!(rat.label, "rat");
    assert_eq!(rat.children.len(), 1);
    assert_eq!(rat.children[0].label, "x1");
    assert_eq!(rat.children[0].value.as_deref(), Some("rob[0]"));
}

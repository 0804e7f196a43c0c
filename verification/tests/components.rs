use cpu_simulator::alu::{AluPipe, FuncUnitKind, ALU};
use cpu_simulator::circular_buffer::CircularBuffer;
use cpu_simulator::diag::{DiagNode, Diagnosable};
use cpu_simulator::five_stage::forwarding::{ForwardingPolicy, FullForwarding};
use cpu_simulator::five_stage::stages::{ExMem, IdEx, MemWb};
use cpu_simulator::five_stage::{FiveStageInstr, FiveStageResult};
use cpu_simulator::isa::{decode, DecodedInstr, InstrFormat, Opcode};
use cpu_simulator::latch::Latch;
use cpu_simulator::simple_ooo::reorder_buffer::SimpleReorderBuffer;
use cpu_simulator::simple_ooo::reservation_stations::{Operand, SimpleReservationStation};
use cpu_simulator::simple_ooo::{IdRs, OOOALU};
use cpu_simulator::utils::le_bytes::{read_u16, read_u32, write_le};
use cpu_simulator::utils::text::{parse_i32, parse_i32_hex, parse_u8};

fn chars(s: &str) -> Vec<char> {
    s.chars().collect()
}

#[test]
fn latch_value_is_visible_only_after_update() {
    let mut l: Latch<u32> = Latch::new();
    l.stage(7);
    assert_eq!(l.peek(), None);
    l.update();
    assert_eq!(l.peek(), Some(7));
    assert_eq!(l.read(), Some(7));
    assert_eq!(l.read(), None);
    l.direct_stage(None);
    l.update();
    assert_eq!(l.peek(), None);
}

#[test]
fn circular_buffer_is_first_in_first_out() {
    let mut b: CircularBuffer<u32> = CircularBuffer::new(3);
    assert!(b.is_empty());
    let t0 = b.push(10);
    let t1 = b.push(11);
    let t2 = b.push(12);
    assert_eq!((t0, t1, t2), (0, 1, 2));
    assert!(b.is_full());
    assert_eq!(*b.read_by_tag(t1), 11);
    assert_eq!(b.pop(), 10);
    let t3 = b.push(13);
    assert_eq!(t3, 0); // the ring wraps around
    assert_eq!(b.head_tag(), 1);
    assert_eq!(*b.head(), 11);
    *b.access_by_tag(t2) = 22;
    let tagged: Vec<(usize, u32)> = b.iter_tagged().into_iter().map(|(t, v)| (t, *v)).collect();
    assert_eq!(tagged, vec![(1, 11), (2, 22), (0, 13)]);
    let items: Vec<u32> = b.iter().into_iter().copied().collect();
    assert_eq!(items, vec![11, 22, 13]);
    assert_eq!(b.len(), 3);
    assert_eq!(b.capacity(), 3);
}

#[test]
fn decode_recognises_and_refuses() {
    let d = decode(0x02a0_0093).unwrap();
    assert_eq!(d.opcode, Opcode::Addi);
    assert_eq!(d.format, InstrFormat::I);
    assert_eq!((d.rd, d.rs1, d.imm), (1, 0, 42));
    assert!(decode(0).is_none());
    assert!(decode(0xffff_ffff).is_none());
    // an R-type word with an unknown funct7
    assert!(decode(0x0200_00b3 | (0x7f << 25)).is_none());
}

#[test]
fn decode_sign_extends_branch_and_jump_offsets() {
    let d = decode(0xfe00_8ee3).unwrap();
    assert_eq!((d.opcode, d.imm), (Opcode::Beq, -4));
    let d = decode(0xffdf_f0ef).unwrap();
    assert_eq!((d.opcode, d.rd, d.imm), (Opcode::Jal, 1, -4));
}

fn id_ex(opcode: Opcode, rs1: u32, rs2: u32, imm: i32) -> FiveStageInstr {
    FiveStageInstr(IdEx {
        pc: 0,
        instr: DecodedInstr { opcode, format: InstrFormat::R, rd: 1, rs1: 0, rs2: 0, imm },
        rs1,
        rs2,
    })
}

#[test]
fn alu_issues_to_a_free_pipe_that_supports_the_operation() {
    let mut alu: ALU<FiveStageInstr, FiveStageResult> = ALU::new(vec![
        AluPipe::new(vec![FuncUnitKind::IntAlu]),
        AluPipe::new(vec![FuncUnitKind::LoadStore]),
    ]);
    assert!(alu.try_enqueue(id_ex(Opcode::Add, 2, 3, 0)));
    // the only integer pipe is busy this cycle
    assert!(!alu.try_enqueue(id_ex(Opcode::Sub, 2, 3, 0)));
    assert!(alu.try_enqueue(id_ex(Opcode::Lw, 100, 0, 8)));
    let mut results = vec![];
    for _ in 0..6 {
        if let Some(r) = alu.tick() {
            results.push(r.ex_mem.result);
        }
    }
    results.sort();
    assert_eq!(results, vec![5, 108]);
}

#[test]
fn alu_diagnosis_lists_pipes_and_instructions() {
    let mut alu: ALU<FiveStageInstr, FiveStageResult> =
        ALU::new(vec![AluPipe::new(vec![FuncUnitKind::IntAlu]), AluPipe::new(vec![FuncUnitKind::Branch])]);
    alu.try_enqueue(id_ex(Opcode::Xor, 1, 2, 0));
    let n = alu.diagnose();
    assert_eq!(n.label, "alu");
    assert_eq!(n.children[0].value.as_deref(), Some("2 (1 in-flight)"));
    assert_eq!(n.children[1].value.as_deref(), Some("[X.]"));
    assert_eq!(n.children[2].label, "[0]");
    assert_eq!(n.children[2].value.as_deref(), Some("Xor  age=0/2  pipe=0"));
}

fn id_rs(opcode: Opcode, rd: u8) -> IdRs {
    IdRs {
        pc: 4,
        instr: DecodedInstr { opcode, format: InstrFormat::R, rd, rs1: 1, rs2: 2, imm: 0 },
    }
}

#[test]
fn reorder_buffer_retires_in_order() {
    let mut rob = SimpleReorderBuffer::new(4);
    let t0 = rob.enqueue(&id_rs(Opcode::Add, 3));
    let t1 = rob.enqueue(&id_rs(Opcode::Sub, 4));
    rob.update(t1, 9);
    // the head is not complete yet, so nothing retires
    assert!(rob.release().is_none());
    assert_eq!(rob.is_tag_ready(t1), Some(9));
    assert_eq!(rob.is_tag_ready(t0), None);
    rob.update(t0, 5);
    let r = rob.release().unwrap();
    assert_eq!((r.rob_tag, r.result.rd, r.result.result), (t0, 3, 5));
    let r = rob.release().unwrap();
    assert_eq!((r.rob_tag, r.result.rd, r.result.result), (t1, 4, 9));
    assert!(rob.release().is_none());
}

#[test]
fn reorder_buffer_diagnosis_marks_the_head() {
    let mut rob = SimpleReorderBuffer::new(4);
    let t0 = rob.enqueue(&id_rs(Opcode::Add, 3));
    rob.enqueue(&id_rs(Opcode::Sub, 4));
    rob.update(t0, 0x1f);
    let n = rob.diagnose();
    assert_eq!(n.label, "reorder_buffer");
    assert_eq!(n.children[0].value.as_deref(), Some("2/4"));
    assert_eq!(n.children[1].value.as_deref(), Some("rob[0]"));
    assert_eq!(n.children[2].label, "rob[0]");
    assert_eq!(n.children[2].value.as_deref(), Some("rd=x3  result=0x0000001f  ready ← head"));
    assert_eq!(n.children[3].value.as_deref(), Some("rd=x4  pending"));
}

#[test]
fn reservation_station_wakes_waiting_operands() {
    let mut rs = SimpleReservationStation::new(2);
    assert!(!rs.stall());
    rs.enqueue(5, Operand::Waiting(3), Operand::Ready(1), &id_rs(Opcode::Add, 1));
    let n = rs.diagnose();
    assert_eq!(n.children[0].value.as_deref(), Some("1/2"));
    assert_eq!(n.children[1].label, "rob[5]");
    assert_eq!(
        n.children[1].value.as_deref(),
        Some("Add  rs1=waiting(rob[3])  rs2=0x00000001  blocked")
    );
    rs.update(3, 0xff);
    let n = rs.diagnose();
    assert_eq!(n.children[1].value.as_deref(), Some("Add  rs1=0x000000ff  rs2=0x00000001  ready"));
}

#[test]
fn diagnostic_tree_is_drawn_with_connectors() {
    let tree = DiagNode::inner(
        "root".to_string(),
        vec![
            DiagNode::leaf("a".to_string(), "1".to_string()),
            DiagNode::inner("b".to_string(), vec![DiagNode::leaf("c".to_string(), "2".to_string())]),
        ],
    );
    assert_eq!(
        tree.render_lines(),
        vec!["root", "├── a: 1", "└── b", "    └── c: 2"]
    );
    let tree = DiagNode::inner(
        "r".to_string(),
        vec![
            DiagNode::inner("x".to_string(), vec![DiagNode::leaf("y".to_string(), "3".to_string())]),
            DiagNode::leaf("z".to_string(), "4".to_string()),
        ],
    );
    assert_eq!(tree.render_lines(), vec!["r", "├── x", "│   └── y: 3", "└── z: 4"]);
}

#[test]
fn integers_parse_as_rust_parses_them() {
    assert_eq!(parse_u8(&chars("255")), Some(255));
    assert_eq!(parse_u8(&chars("256")), None);
    assert_eq!(parse_u8(&chars("+7")), Some(7));
    assert_eq!(parse_u8(&chars("-0")), None);
    assert_eq!(parse_u8(&chars("")), None);
    assert_eq!(parse_u8(&chars("+")), None);
    assert_eq!(parse_i32(&chars("-2147483648")), Some(i32::MIN));
    assert_eq!(parse_i32(&chars("2147483648")), None);
    assert_eq!(parse_i32(&chars("-")), None);
    assert_eq!(parse_i32(&chars("12a")), None);
    assert_eq!(parse_i32_hex(&chars("7fffffff")), Some(i32::MAX));
    assert_eq!(parse_i32_hex(&chars("80000000")), None);
    assert_eq!(parse_i32_hex(&chars("-80000000")), Some(i32::MIN));
    assert_eq!(parse_i32_hex(&chars("aB")), Some(0xab));
    assert_eq!(parse_i32_hex(&chars("g")), None);
}

#[test]
fn little_endian_write_then_read() {
    let mut mem = vec![0u8; 8];
    write_le(&mut mem, 2, 0xdead_beef, 4);
    assert_eq!(&mem[2..6], &[0xef, 0xbe, 0xad, 0xde]);
    assert_eq!(read_u32(&mem, 2), 0xdead_beef);
    assert_eq!(read_u16(&mem, 2), 0xbeef);
    write_le(&mut mem, 0, 0x1234_5678, 1);
    assert_eq!(mem[0], 0x78);
    assert_eq!(mem[1], 0);
}

#[test]
fn alu_returns_every_ready_instruction_oldest_first() {
    let mut alu: ALU<FiveStageInstr, FiveStageResult> = ALU::new(vec![
        AluPipe::new(vec![FuncUnitKind::IntAlu]),
        AluPipe::new(vec![FuncUnitKind::IntAlu]),
        AluPipe::new(vec![FuncUnitKind::IntAlu]),
    ]);
    assert!(alu.try_enqueue(id_ex(Opcode::Add, 1, 1, 0)));
    assert!(alu.try_enqueue(id_ex(Opcode::Add, 2, 2, 0)));
    assert!(alu.try_enqueue(id_ex(Opcode::Add, 3, 3, 0)));
    assert!(alu.tick().is_none());
    assert_eq!(alu.tick().map(|r| r.ex_mem.result), Some(2));
    assert_eq!(alu.tick().map(|r| r.ex_mem.result), Some(4));
    assert_eq!(alu.tick().map(|r| r.ex_mem.result), Some(6));
    assert!(alu.tick().is_none());
    // all three pipes are free again
    assert!(alu.try_enqueue(id_ex(Opcode::Add, 0, 0, 0)));
    assert!(alu.try_enqueue(id_ex(Opcode::Add, 0, 0, 0)));
    assert!(alu.try_enqueue(id_ex(Opcode::Add, 0, 0, 0)));
}

fn decoded(opcode: Opcode, format: InstrFormat, rd: u8, rs1: u8, rs2: u8) -> DecodedInstr {
    DecodedInstr { opcode, format, rd, rs1, rs2, imm: 0 }
}

#[test]
fn full_forwarding_forwards_each_operand_from_the_newest_producer() {
    let mut l = IdEx { pc: 0, instr: decoded(Opcode::Add, InstrFormat::R, 3, 1, 1), rs1: 0, rs2: 0 };
    let ex = Some(ExMem { instr: decoded(Opcode::Addi, InstrFormat::I, 1, 0, 0), result: 5, rs2: 0 });
    FullForwarding.forward(&mut l, &ex, &None);
    assert_eq!((l.rs1, l.rs2), (5, 5));

    let mut l = IdEx { pc: 0, instr: decoded(Opcode::Add, InstrFormat::R, 3, 1, 2), rs1: 0, rs2: 0 };
    let ex = Some(ExMem { instr: decoded(Opcode::Addi, InstrFormat::I, 1, 0, 0), result: 5, rs2: 0 });
    let wb = Some(MemWb { instr: decoded(Opcode::Addi, InstrFormat::I, 1, 0, 0), result: 9 });
    FullForwarding.forward(&mut l, &ex, &wb);
    assert_eq!((l.rs1, l.rs2), (5, 0));
    let wb = Some(MemWb { instr: decoded(Opcode::Addi, InstrFormat::I, 2, 0, 0), result: 9 });
    FullForwarding.forward(&mut l, &ex, &wb);
    assert_eq!((l.rs1, l.rs2), (5, 9));
}

#[test]
fn full_forwarding_ignores_stores_branches_and_x0() {
    let mut l = IdEx { pc: 0, instr: decoded(Opcode::Add, InstrFormat::R, 3, 1, 0), rs1: 7, rs2: 8 };
    // a store's rd bits are immediate bits
    let ex = Some(ExMem { instr: decoded(Opcode::Sw, InstrFormat::S, 1, 0, 0), result: 5, rs2: 0 });
    let wb = Some(MemWb { instr: decoded(Opcode::Beq, InstrFormat::B, 1, 0, 0), result: 6 });
    FullForwarding.forward(&mut l, &ex, &wb);
    assert_eq!((l.rs1, l.rs2), (7, 8));
    let ex = Some(ExMem { instr: decoded(Opcode::Addi, InstrFormat::I, 0, 0, 0), result: 5, rs2: 0 });
    FullForwarding.forward(&mut l, &ex, &None);
    assert_eq!(l.rs2, 8);
}

#[test]
fn full_forwarding_takes_a_load_in_execute_as_it_stands() {
    let mut l = IdEx { pc: 0, instr: decoded(Opcode::Add, InstrFormat::R, 3, 1, 2), rs1: 0, rs2: 0 };
    let ex = Some(ExMem { instr: decoded(Opcode::Lw, InstrFormat::I, 1, 0, 0), result: 64, rs2: 0 });
    FullForwarding.forward(&mut l, &ex, &None);
    assert_eq!((l.rs1, l.rs2), (64, 0));
}

#[test]
fn circular_buffer_tag_keeps_naming_its_element() {
    let mut b: CircularBuffer<u32> = CircularBuffer::new(2);
    let t0 = b.push(1);
    let t1 = b.push(2);
    assert_eq!(b.pop(), 1);
    let t2 = b.push(3); // reuses slot of t0
    assert_eq!(t2, t0);
    assert_eq!(*b.read_by_tag(t1), 2);
    assert_eq!(b.pop(), 2);
    let t3 = b.push(4);
    assert_eq!(t3, t1);
    assert_eq!(*b.read_by_tag(t2), 3);
    assert_eq!(*b.read_by_tag(t3), 4);
}

#[test]
fn reservation_station_dispatches_a_ready_entry_behind_a_blocked_one() {
    let mut rs = SimpleReservationStation::new(4);
    rs.enqueue(1, Operand::Waiting(9), Operand::Ready(1), &id_rs(Opcode::Add, 1));
    rs.enqueue(2, Operand::Ready(2), Operand::Ready(3), &id_rs(Opcode::Add, 2));
    let mut alu: OOOALU = ALU::new(vec![AluPipe::new(vec![FuncUnitKind::IntAlu])]);
    rs.dispatch(&mut alu);
    let n = rs.diagnose();
    assert_eq!(n.children[0].value.as_deref(), Some("1/4"));
    assert_eq!(n.children[1].label, "rob[1]");
    let a = alu.diagnose();
    assert_eq!(a.children[1].value.as_deref(), Some("[X]"));
}

#[test]
fn alu_does_not_complete_an_instruction_on_the_tick_after_it_entered() {
    let mut alu: ALU<FiveStageInstr, FiveStageResult> = ALU::new(vec![
        AluPipe::new(vec![FuncUnitKind::IntAlu]),
        AluPipe::new(vec![FuncUnitKind::IntAlu]),
    ]);
    assert!(alu.tick().is_none());
    assert!(alu.try_enqueue(id_ex(Opcode::Add, 1, 1, 0)));
    assert!(alu.tick().is_none());
    assert!(alu.try_enqueue(id_ex(Opcode::Add, 5, 5, 0)));
    assert_eq!(alu.tick().map(|r| r.ex_mem.result), Some(2));
    assert_eq!(alu.tick().map(|r| r.ex_mem.result), Some(10));
}

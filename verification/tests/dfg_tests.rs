use yvm::AnyReg;
use yvm::BasicBlock;
use yvm::ControlFlowGraph;
use yvm::DataFlowInfo;
use yvm::EdgeRecord;
use yvm::HLInstr;
use yvm::Node;
use yvm::Number;
use yvm::NumberReg;
use yvm::SourceModify;
use yvm::StringReg;
use yvm::TargetModify;
use yvm::VMExec;
use yvm::Value;
use yvm::ValueReg;
use yvm::YString;
use yvm::classify_edges;
use yvm::decode_operands;

fn vm_with(nc: usize, sc: usize, vc: usize, code: Vec<HLInstr>) -> VMExec {
    VMExec {
        numbers: vec![Number(0); nc],
        strings: (0..sc).map(|_| YString::default()).collect(),
        values: (0..vc).map(|_| Value::default()).collect(),
        code,
        globals: Vec::new(),
    }
}

fn one_block(locs: Vec<usize>) -> ControlFlowGraph {
    ControlFlowGraph { blocks: vec![BasicBlock { locs }] }
}

fn info(block: usize, loc: usize, s: SourceModify, t: TargetModify) -> DataFlowInfo {
    DataFlowInfo { cfg_node: block, instr: loc, source: s, target: t }
}

#[test]
fn add_with_all_registers_equal_yields_one_self_loop() {
    let vm = vm_with(1, 0, 0, vec![HLInstr::AddN {
        arg1: NumberReg(0),
        arg2: NumberReg(0),
        out: NumberReg(0),
    }]);
    let dfg = one_block(vec![0]).dfg(&vm);
    assert_eq!(dfg.edges(), vec![EdgeRecord {
        src: 0,
        dst: 0,
        info: info(0, 0, SourceModify::ReadWrite, TargetModify::ReadWrite),
    }]);
}

#[test]
fn add_with_first_input_aliasing_output_yields_self_loop_and_edge() {
    let vm = vm_with(2, 0, 0, vec![HLInstr::AddN {
        arg1: NumberReg(0),
        arg2: NumberReg(1),
        out: NumberReg(0),
    }]);
    let dfg = one_block(vec![0]).dfg(&vm);
    assert_eq!(dfg.edges(), vec![
        EdgeRecord {
            src: 0,
            dst: 0,
            info: info(0, 0, SourceModify::ReadWrite, TargetModify::ReadWrite),
        },
        EdgeRecord { src: 1, dst: 0, info: info(0, 0, SourceModify::Read, TargetModify::Write) },
    ]);
}

#[test]
fn add_with_second_input_aliasing_output_yields_self_loop_and_edge() {
    let vm = vm_with(2, 0, 0, vec![HLInstr::AddN {
        arg1: NumberReg(0),
        arg2: NumberReg(1),
        out: NumberReg(1),
    }]);
    let dfg = one_block(vec![0]).dfg(&vm);
    assert_eq!(dfg.edges(), vec![
        EdgeRecord {
            src: 1,
            dst: 1,
            info: info(0, 0, SourceModify::ReadWrite, TargetModify::ReadWrite),
        },
        EdgeRecord { src: 0, dst: 1, info: info(0, 0, SourceModify::Read, TargetModify::Write) },
    ]);
}

#[test]
fn add_with_distinct_registers_yields_two_edges() {
    let vm = vm_with(3, 0, 0, vec![HLInstr::AddN {
        arg1: NumberReg(0),
        arg2: NumberReg(1),
        out: NumberReg(2),
    }]);
    let dfg = one_block(vec![0]).dfg(&vm);
    assert_eq!(dfg.edges(), vec![
        EdgeRecord { src: 0, dst: 2, info: info(0, 0, SourceModify::Read, TargetModify::Write) },
        EdgeRecord { src: 1, dst: 2, info: info(0, 0, SourceModify::Read, TargetModify::Write) },
    ]);
}

#[test]
fn equal_inputs_with_distinct_output_yield_one_edge() {
    let vm = vm_with(2, 0, 0, vec![HLInstr::Mul {
        arg1: NumberReg(0),
        arg2: NumberReg(0),
        out: NumberReg(1),
    }]);
    let dfg = one_block(vec![0]).dfg(&vm);
    assert_eq!(dfg.edges(), vec![EdgeRecord {
        src: 0,
        dst: 1,
        info: info(0, 0, SourceModify::Read, TargetModify::Write),
    }]);
}

#[test]
fn unary_in_place_update_yields_read_write_self_loop() {
    let vm = vm_with(1, 0, 0, vec![HLInstr::IncN { arg: NumberReg(0), out: NumberReg(0) }]);
    let dfg = one_block(vec![0]).dfg(&vm);
    assert_eq!(dfg.edges(), vec![EdgeRecord {
        src: 0,
        dst: 0,
        info: info(0, 0, SourceModify::ReadWrite, TargetModify::ReadWrite),
    }]);
}

#[test]
fn branch_condition_yields_pure_read_self_loop() {
    let vm = vm_with(1, 0, 0, vec![HLInstr::JumpRel {
        amount: 2,
        condition: Some(NumberReg(0)),
    }]);
    let dfg = one_block(vec![0]).dfg(&vm);
    assert_eq!(dfg.edges(), vec![EdgeRecord {
        src: 0,
        dst: 0,
        info: info(0, 0, SourceModify::Read, TargetModify::Read),
    }]);
}

#[test]
fn control_flow_instructions_contribute_no_edges() {
    let vm = vm_with(1, 1, 1, vec![
        HLInstr::JumpErr,
        HLInstr::JumpLine(3),
        HLInstr::LineStart(1),
        HLInstr::JumpRel { amount: 1, condition: None },
    ]);
    let dfg = one_block(vec![0, 1, 2, 3]).dfg(&vm);
    assert_eq!(dfg.edges(), Vec::new());
    assert_eq!(dfg.edge_count(), 0);
}

#[test]
fn edges_carry_block_and_location() {
    let code = vec![
        HLInstr::MoveNV { arg: NumberReg(0), out: ValueReg(0) },
        HLInstr::StringifyV { arg: ValueReg(0), out: StringReg(0) },
    ];
    let vm = vm_with(1, 1, 1, code);
    let cfg = ControlFlowGraph {
        blocks: vec![BasicBlock { locs: vec![0] }, BasicBlock { locs: vec![1] }],
    };
    let dfg = cfg.dfg(&vm);
    // nodes: number 0 -> 0, string 0 -> 1, value 0 -> 2
    assert_eq!(dfg.edges(), vec![
        EdgeRecord { src: 0, dst: 2, info: info(0, 0, SourceModify::Read, TargetModify::Write) },
        EdgeRecord { src: 2, dst: 1, info: info(1, 1, SourceModify::Read, TargetModify::Write) },
    ]);
}

#[test]
fn node_count_covers_every_register_even_unreferenced_ones() {
    let vm = vm_with(3, 2, 2, vec![HLInstr::IncN { arg: NumberReg(0), out: NumberReg(0) }]);
    let dfg = one_block(vec![0]).dfg(&vm);
    assert_eq!(dfg.node_count(), 7);
    let nodes = dfg.nodes();
    assert_eq!(nodes.len(), 7);
    assert_eq!(nodes[0], Node { reg: AnyReg::Number(NumberReg(0)) });
    assert_eq!(nodes[2], Node { reg: AnyReg::Number(NumberReg(2)) });
    assert_eq!(nodes[3], Node { reg: AnyReg::String(StringReg(0)) });
    assert_eq!(nodes[5], Node { reg: AnyReg::Value(ValueReg(0)) });
    assert_eq!(nodes[6], Node { reg: AnyReg::Value(ValueReg(1)) });
}

#[test]
fn empty_state_yields_empty_graph() {
    let vm = vm_with(0, 0, 0, Vec::new());
    let dfg = ControlFlowGraph { blocks: Vec::new() }.dfg(&vm);
    assert_eq!(dfg.node_count(), 0);
    assert_eq!(dfg.edge_count(), 0);
    assert_eq!(dfg.globals().len(), 0);
}

#[test]
fn globals_list_holds_each_mapped_register_once() {
    let mut vm = vm_with(2, 1, 3, Vec::new());
    vm.globals = vec![
        ("a".to_string(), ValueReg(2)),
        ("b".to_string(), ValueReg(0)),
    ];
    let dfg = ControlFlowGraph { blocks: Vec::new() }.dfg(&vm);
    // value registers start after 2 number and 1 string node
    let got = dfg.globals().clone();
    assert_eq!(got, vec![5u16, 3u16]);
    let expected = [5u16, 3u16];
    for e in expected {
        assert_eq!(got.iter().filter(|&&x| x == e).count(), 1);
    }
}

#[test]
fn classify_is_usable_directly() {
    let decoded = decode_operands(&HLInstr::AddN {
        arg1: NumberReg(0),
        arg2: NumberReg(0),
        out: NumberReg(0),
    });
    let (a1, a2, out) = decoded.unwrap();
    let plan = classify_edges(a1, a2, out);
    assert_eq!(plan, vec![(
        AnyReg::Number(NumberReg(0)),
        AnyReg::Number(NumberReg(0)),
        SourceModify::ReadWrite,
        TargetModify::ReadWrite,
    )]);
    assert_eq!(decode_operands(&HLInstr::JumpErr), None);
}

#[test]
fn render_lists_nodes_and_edges() {
    let vm = vm_with(1, 0, 0, vec![HLInstr::IncN { arg: NumberReg(0), out: NumberReg(0) }]);
    let dfg = one_block(vec![0]).dfg(&vm);
    let text = String::from_utf8(dfg.render().data).unwrap();
    assert_eq!(text, "Number #0\n0 -> 0[Instr #0 (RW -> RW)]\n");
}

#[test]
fn render_labels_all_banks() {
    let vm = vm_with(1, 1, 1, Vec::new());
    let dfg = ControlFlowGraph { blocks: Vec::new() }.dfg(&vm);
    let text = String::from_utf8(dfg.render().data).unwrap();
    assert_eq!(text, "Number #0\nString #0\nValue #0\n");
    assert_eq!(SourceModify::Read.label(), "R");
    assert_eq!(TargetModify::Write.label(), "W");
}

use hvm::assembler::Assembly;
use hvm::errors::VMError;
use hvm::inst::Inst;
use hvm::program::Program;
use hvm::vm::{FloatOp, Stop, VM};
use hvm::word::Word;

fn assemble(text: &str) -> Result<Assembly, VMError> {
    Program::from_hasm(&text.to_string())
}

fn load(program: Program) -> VM {
    let mut vm = VM::new();
    vm.load_ha_from_memory(program).unwrap();
    vm
}

#[test]
fn arithmetic_scenario() {
    let a = assemble("push 2\npush 3\naddi\nhalt").unwrap();
    assert!(a.float_literals.is_empty());
    let mut vm = load(a.program);
    assert_eq!(vm.run(None), Ok(Stop::Halted));
    assert_eq!(vm.stack(), vec![Word::Int(5)]);
    assert!(vm.is_halted());
}

#[test]
fn division_by_zero_scenario() {
    let a = assemble("push 5\npush 0\ndivi").unwrap();
    let mut vm = load(a.program);
    assert_eq!(vm.run(None), Err(VMError::DivisionByZero));
    assert_eq!(vm.stack(), vec![Word::Int(5), Word::Int(0)]);
    assert_eq!(vm.stack_size(), 2);
    assert_eq!(vm.ip(), 2);
}

#[test]
fn forward_label_scenario() {
    let a = assemble("jmp target\npush 1\ntarget: push 2\nhalt").unwrap();
    assert_eq!(a.program.insts[0], Inst::InstJmp(Word::UInt(2)));
    assert_eq!(a.program.insts.len(), 4);
    let mut vm = load(a.program);
    assert_eq!(vm.run(None), Ok(Stop::Halted));
    assert_eq!(vm.stack(), vec![Word::Int(2)]);
}

#[test]
fn unresolved_label_scenario() {
    assert_eq!(assemble("jmp nowhere\nhalt").err(), Some(VMError::ResolveLabelFail));
}

#[test]
fn overflow_boundary() {
    let mut insts = Vec::new();
    for i in 0..1025u64 {
        insts.push(Inst::InstPush(Word::UInt(i)));
    }
    insts.push(Inst::InstHalt);
    let mut vm = load(Program { insts });
    let r = vm.run(Some(2000));
    assert_eq!(r, Err(VMError::StackOverflow { inst: Inst::InstPush(Word::UInt(1024)) }));
    assert_eq!(vm.stack_size(), 1024);
    assert_eq!(vm.ip(), 1024);
}

#[test]
fn fall_through_fault() {
    let a = assemble("push 1\nnop").unwrap();
    let mut vm = load(a.program);
    assert_eq!(vm.run(None), Err(VMError::SegmentFault));
    assert_eq!(vm.ip(), 2);
}

#[test]
fn step_limit_is_not_an_error() {
    let a = assemble("loop: nop\njmp loop").unwrap();
    let mut vm = load(a.program);
    assert_eq!(vm.run(None), Ok(Stop::LimitReached));
    assert_eq!(vm.ip(), 0);
    assert_eq!(vm.run(Some(3)), Ok(Stop::LimitReached));
    assert_eq!(vm.ip(), 1);
}

#[test]
fn jump_out_of_range_faults_on_next_step() {
    let a = assemble("jmp 7").unwrap();
    let mut vm = load(a.program);
    assert_eq!(vm.run(Some(1)), Ok(Stop::LimitReached));
    assert_eq!(vm.ip(), 7);
    assert_eq!(vm.run(Some(1)), Err(VMError::SegmentFault));
}

#[test]
fn integer_operations() {
    let a = assemble("push 7\npush 3\nsubi\npush 6\nmuli\npush -5\ndivi\nhalt").unwrap();
    let mut vm = load(a.program);
    assert_eq!(vm.run(None), Ok(Stop::Halted));
    // (7 - 3) * 6 = 24; 24 / -5 truncates to -4
    assert_eq!(vm.stack(), vec![Word::Int(-4)]);
}

#[test]
fn integer_overflow_wraps() {
    let a = assemble("push 9223372036854775807\npush 1\naddi\npush -1\ndivi\nhalt").unwrap();
    let mut vm = load(a.program);
    assert_eq!(vm.run(None), Ok(Stop::Halted));
    assert_eq!(vm.stack(), vec![Word::Int(i64::MIN)]);
}

#[test]
fn underflow_errors() {
    let a = assemble("push 1\naddi").unwrap();
    let mut vm = load(a.program);
    assert_eq!(vm.run(None), Err(VMError::StackUnderflow { inst: Inst::InstAddi }));
    let a = assemble("push 1\ndup 1").unwrap();
    let mut vm = load(a.program);
    assert_eq!(
        vm.run(None),
        Err(VMError::StackUnderflow { inst: Inst::InstDup(Word::UInt(1)) })
    );
    let a = assemble("eq 0").unwrap();
    let mut vm = load(a.program);
    assert_eq!(
        vm.run(None),
        Err(VMError::StackUnderflow { inst: Inst::InstEq(Word::UInt(0)) })
    );
}

#[test]
fn eq_and_dup() {
    let a = assemble("push 4\npush 9\ndup 1\neq 4\nhalt").unwrap();
    let mut vm = load(a.program);
    assert_eq!(vm.run(None), Ok(Stop::Halted));
    // `push 4` assembles to an Int, `eq 4` compares with an unsigned 4
    assert_eq!(
        vm.stack(),
        vec![Word::Int(4), Word::Int(9), Word::Int(4), Word::UInt(0)]
    );
    let mut vm = load(Program {
        insts: vec![
            Inst::InstPush(Word::UInt(4)),
            Inst::InstEq(Word::UInt(4)),
            Inst::InstHalt,
        ],
    });
    assert_eq!(vm.run(None), Ok(Stop::Halted));
    assert_eq!(vm.stack(), vec![Word::UInt(4), Word::UInt(1)]);
}

#[test]
fn float_steps_pause_for_their_result() {
    let a = assemble("push 1.5\npush 2.25\naddf\nhalt").unwrap();
    assert_eq!(
        a.float_literals,
        vec![(0usize, "1.5".to_string()), (1usize, "2.25".to_string())]
    );
    let mut program = a.program;
    for (i, lit) in &a.float_literals {
        let v: f64 = lit.parse().unwrap();
        program.insts[*i] = Inst::InstPush(Word::Float(v.to_bits()));
    }
    let mut vm = load(program);
    let lhs = Word::Float(1.5f64.to_bits());
    let rhs = Word::Float(2.25f64.to_bits());
    let stop = vm.run(None).unwrap();
    assert_eq!(stop, Stop::Float { op: FloatOp::Add, lhs, rhs });
    assert_eq!(vm.pending_float(), Some(stop));
    assert_eq!(vm.complete_float(3.75f64.to_bits()), Ok(Stop::Halted));
    assert_eq!(vm.stack(), vec![Word::Float(3.75f64.to_bits())]);
    assert_eq!(vm.pending_float(), None);
}

#[test]
fn float_division_by_zero() {
    let a = assemble("push 1.0\npush 0.0\ndivf").unwrap();
    let mut program = a.program;
    program.insts[0] = Inst::InstPush(Word::Float(1.0f64.to_bits()));
    program.insts[1] = Inst::InstPush(Word::Float((-0.0f64).to_bits()));
    let mut vm = load(program);
    assert_eq!(vm.run(None), Err(VMError::DivisionByZero));
    assert_eq!(vm.stack_size(), 2);
}

#[test]
fn assembly_errors() {
    assert!(matches!(
        assemble("push 1\nfoo 2"),
        Err(VMError::InvalidAsmInst { inst }) if inst == "foo"
    ));
    assert_eq!(
        assemble("push").err(),
        Some(VMError::OperandNonExists { inst: Inst::InstPush(Word::UInt(0)) })
    );
    assert_eq!(assemble("push abc").err(), Some(VMError::InvalidOperand));
    assert_eq!(assemble("dup -1").err(), Some(VMError::InvalidOperand));
    assert_eq!(assemble("jmp 12x").err(), Some(VMError::InvalidOperand));
}

#[test]
fn comments_labels_and_blank_lines() {
    let text = "\n  # header\n\tpush 3 # why not push 4?\nstart:\nend: halt\n\njmp start\njmp end";
    let a = assemble(text).unwrap();
    assert_eq!(
        a.program.insts,
        vec![
            Inst::InstPush(Word::Int(3)),
            Inst::InstHalt,
            Inst::InstJmp(Word::UInt(1)),
            Inst::InstJmp(Word::UInt(1)),
        ]
    );
}

#[test]
fn later_label_definition_wins() {
    let a = assemble("a: nop\na: nop\njmp a").unwrap();
    assert_eq!(a.program.insts[2], Inst::InstJmp(Word::UInt(1)));
}

#[test]
fn push_literal_tags() {
    let a = assemble("push -7\npush 18446744073709551615\npush +12").unwrap();
    assert_eq!(
        a.program.insts,
        vec![
            Inst::InstPush(Word::Int(-7)),
            Inst::InstPush(Word::UInt(u64::MAX)),
            Inst::InstPush(Word::Int(12)),
        ]
    );
}

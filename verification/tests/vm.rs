use rustchain::bytecode::Opcode;
use rustchain::compiler::{compile, CompileError};
use rustchain::runtime::{Runtime, VmError};

#[test]
fn simple_program_should_compile() {
    let source = r#"
            LOAD_CONST 7
            STORE counter
            EMIT counter_initialized
            HALT
        "#;

    let program = compile(source).expect("编译应当成功");
    assert_eq!(
        program,
        vec![
            Opcode::LoadConst(7),
            Opcode::Store("counter".to_string()),
            Opcode::Emit("counter_initialized".to_string()),
            Opcode::Halt
        ]
    );
}

#[test]
fn unknown_opcode_should_fail() {
    let source = "WARP 1";
    let result = compile(source);
    assert_eq!(
        result,
        Err(CompileError::UnknownOpcode {
            line: 1,
            opcode: "WARP".to_string(),
        })
    );
}

#[test]
fn missing_operand_should_fail() {
    let source = "LOAD_CONST";
    let result = compile(source);
    assert_eq!(
        result,
        Err(CompileError::MissingOperand {
            line: 1,
            opcode: "LOAD_CONST",
        })
    );
}

#[test]
fn comment_and_lowercase_should_work() {
    let source = r#"
            # 初始化状态
            load_const 1
            store flag
            emit "flag initialized"
            halt
        "#;

    let result = compile(source).expect("编译应当成功");
    assert_eq!(
        result,
        vec![
            Opcode::LoadConst(1),
            Opcode::Store("flag".to_string()),
            Opcode::Emit("flag initialized".to_string()),
            Opcode::Halt,
        ]
    );
}

#[test]
fn runtime_should_store_value_into_state() {
    let mut runtime = Runtime::default();
    let program = vec![
        Opcode::LoadConst(42),
        Opcode::Store("answer".to_string()),
        Opcode::Halt,
    ];

    let report = runtime.execute(&program).expect("执行应当成功");
    assert!(report.halted);
    assert_eq!(runtime.state().get("answer"), Some(&42));
}

#[test]
fn jump_if_false_should_skip_emit() {
    let mut runtime = Runtime::default();
    let program = vec![
        Opcode::LoadConst(0),
        Opcode::JumpIfFalse(4),
        Opcode::Emit("should-not-fire".to_string()),
        Opcode::LoadConst(1),
        Opcode::Emit("ok".to_string()),
        Opcode::Halt,
    ];

    runtime.execute(&program).expect("执行应当成功");
    assert_eq!(runtime.events(), &["ok".to_string()]);
}

#[test]
fn invalid_jump_target_should_fail() {
    let mut runtime = Runtime::default();
    let program = vec![Opcode::Jump(99)];

    let result = runtime.execute(&program);
    assert_eq!(
        result,
        Err(VmError::InvalidJumpTarget {
            target: 99,
            program_len: 1,
        })
    );
}

#[test]
fn infinite_loop_should_hit_step_limit() {
    let mut runtime = Runtime::default();
    let program = vec![Opcode::Jump(0)];

    let result = runtime.execute_with_limit(&program, 3);
    assert_eq!(result, Err(VmError::StepLimitExceeded { limit: 3 }));
}

#[test]
fn arithmetic_program_should_compute_and_report_steps() {
    let program = compile("LOAD_CONST 6\nLOAD_CONST 7\nMUL\nSTORE product\nHALT").expect("编译应当成功");
    let mut runtime = Runtime::new();
    let report = runtime.execute(&program).expect("执行应当成功");
    assert!(report.halted);
    assert_eq!(report.steps_executed, 5);
    assert_eq!(report.final_pc, 4);
    assert_eq!(runtime.state().get("product"), Some(&42));
}

#[test]
fn store_on_empty_stack_should_underflow() {
    let mut runtime = Runtime::new();
    let result = runtime.execute(&[Opcode::Store("x".to_string())]);
    assert_eq!(result, Err(VmError::StackUnderflow { opcode: "store" }));
}

#[test]
fn division_by_zero_should_fail() {
    let program = compile("LOAD_CONST 1\nLOAD_CONST 0\nDIV\nHALT").expect("编译应当成功");
    let mut runtime = Runtime::new();
    assert_eq!(runtime.execute(&program), Err(VmError::DivisionByZero));
}

#[test]
fn program_without_halt_should_run_off_the_end() {
    let mut runtime = Runtime::new();
    let report = runtime.execute(&[Opcode::LoadConst(1), Opcode::Emit("e".to_string())]).expect("执行应当成功");
    assert!(!report.halted);
    assert_eq!(report.steps_executed, 2);
    assert_eq!(report.final_pc, 2);
}

#[test]
fn invalid_operand_and_extra_operand_should_fail() {
    assert_eq!(
        compile("LOAD_CONST abc"),
        Err(CompileError::InvalidOperand { line: 1, opcode: "LOAD_CONST", value: "abc".to_string() })
    );
    assert_eq!(
        compile("HALT now"),
        Err(CompileError::UnexpectedOperand { line: 1, opcode: "HALT", value: "now".to_string() })
    );
}

#[test]
fn compile_error_messages_should_name_line_and_opcode() {
    let e = CompileError::UnknownOpcode { line: 3, opcode: "WARP".to_string() };
    assert!(e.message().contains("3"));
    assert!(e.message().contains("WARP"));
    assert!(VmError::StepLimitExceeded { limit: 3 }.message().contains("3"));
}

use zeb_codegen::ast::{ExpressionNode, GenError, StatementNode};
use zeb_codegen::generator::Generator;

fn val(v: i64) -> ExpressionNode {
    ExpressionNode::Value(v)
}

fn var(name: &str) -> ExpressionNode {
    ExpressionNode::Var(name.to_string())
}

fn infix(left: ExpressionNode, op: &str, right: ExpressionNode) -> ExpressionNode {
    ExpressionNode::Infix(Box::new(left), op.to_string(), Box::new(right))
}

fn call(name: &str, arg: ExpressionNode) -> ExpressionNode {
    ExpressionNode::Callable(name.to_string(), Box::new(arg))
}

fn generate(program: Vec<StatementNode>) -> Result<String, GenError> {
    let mut g = Generator::new();
    g.generate(program)
}

const PROLOGUE: &str = "global _start\n_start:\n";

#[test]
fn empty_program_is_exactly_the_prologue() {
    let out = generate(vec![]).unwrap();
    assert_eq!(out, PROLOGUE);
}

#[test]
fn exit_literal_loads_the_value_into_the_argument_register() {
    let out = generate(vec![StatementNode::Exit(val(5))]).unwrap();
    let expected = format!(
        "{}    mov rax, 5\n    push rax\n    mov rax, 60\n    pop rdi\n    syscall\n",
        PROLOGUE
    );
    assert_eq!(out, expected);
}

#[test]
fn exit_negative_literal() {
    let out = generate(vec![StatementNode::Exit(val(-3))]).unwrap();
    let expected = format!(
        "{}    mov rax, -3\n    push rax\n    mov rax, 60\n    pop rdi\n    syscall\n",
        PROLOGUE
    );
    assert_eq!(out, expected);
}

#[test]
fn exit_multi_digit_literal() {
    let out = generate(vec![StatementNode::Exit(val(1234567890))]).unwrap();
    let expected = format!(
        "{}    mov rax, 1234567890\n    push rax\n    mov rax, 60\n    pop rdi\n    syscall\n",
        PROLOGUE
    );
    assert_eq!(out, expected);
}

#[test]
fn addition_two_plus_three() {
    let out = generate(vec![StatementNode::Exit(infix(val(2), "+", val(3)))]).unwrap();
    let expected = format!(
        "{}    mov rax, 2\n    push rax\n    mov rax, 3\n    push rax\n    pop rbx\n    pop rax\n    add rax, rbx\n    push rax\n    mov rax, 60\n    pop rdi\n    syscall\n",
        PROLOGUE
    );
    assert_eq!(out, expected);
}

#[test]
fn subtraction_five_minus_eight() {
    let out = generate(vec![StatementNode::Exit(infix(val(5), "-", val(8)))]).unwrap();
    let expected = format!(
        "{}    mov rax, 5\n    push rax\n    mov rax, 8\n    push rax\n    pop rbx\n    pop rax\n    sub rax, rbx\n    push rax\n    mov rax, 60\n    pop rdi\n    syscall\n",
        PROLOGUE
    );
    assert_eq!(out, expected);
}

#[test]
fn multiplication_four_times_six() {
    let out = generate(vec![StatementNode::Exit(infix(val(4), "*", val(6)))]).unwrap();
    let expected = format!(
        "{}    mov rax, 4\n    push rax\n    mov rax, 6\n    push rax\n    pop rbx\n    pop rax\n    imul rbx\n    push rax\n    mov rax, 60\n    pop rdi\n    syscall\n",
        PROLOGUE
    );
    assert_eq!(out, expected);
}

#[test]
fn negative_intermediate_result() {
    // (5 - 8) + 10: the inner subtraction goes negative before the final sum.
    let out = generate(vec![StatementNode::Exit(infix(
        infix(val(5), "-", val(8)),
        "+",
        val(10),
    ))])
    .unwrap();
    let expected = format!(
        "{}    mov rax, 5\n    push rax\n    mov rax, 8\n    push rax\n    pop rbx\n    pop rax\n    sub rax, rbx\n    push rax\n    mov rax, 10\n    push rax\n    pop rbx\n    pop rax\n    add rax, rbx\n    push rax\n    mov rax, 60\n    pop rdi\n    syscall\n",
        PROLOGUE
    );
    assert_eq!(out, expected);
}

#[test]
fn assign_then_exit_with_variable() {
    // x = 5; exit(x + 2)  -- an executing machine would exit with status 7.
    let out = generate(vec![
        StatementNode::Assign("x".to_string(), val(5)),
        StatementNode::Exit(infix(var("x"), "+", val(2))),
    ])
    .unwrap();
    let expected = format!(
        "{}    mov rax, 5\n    push rax\n    mov rax, [rsp + 0]\n    push rax\n    mov rax, 2\n    push rax\n    pop rbx\n    pop rax\n    add rax, rbx\n    push rax\n    mov rax, 60\n    pop rdi\n    syscall\n",
        PROLOGUE
    );
    assert_eq!(out, expected);
}

#[test]
fn variable_offset_tracks_later_pushes() {
    // `a` sits one slot below `b`, so referencing `a` with two slots pushed
    // reaches eight bytes down from the top of the stack.
    let out = generate(vec![
        StatementNode::Assign("a".to_string(), val(1)),
        StatementNode::Assign("b".to_string(), val(2)),
        StatementNode::Exit(var("a")),
    ])
    .unwrap();
    let expected = format!(
        "{}    mov rax, 1\n    push rax\n    mov rax, 2\n    push rax\n    mov rax, [rsp + 8]\n    push rax\n    mov rax, 60\n    pop rdi\n    syscall\n",
        PROLOGUE
    );
    assert_eq!(out, expected);
}

#[test]
fn rebinding_shadows_the_old_slot() {
    let out = generate(vec![
        StatementNode::Assign("x".to_string(), val(1)),
        StatementNode::Assign("x".to_string(), val(2)),
        StatementNode::Exit(var("x")),
    ])
    .unwrap();
    let expected = format!(
        "{}    mov rax, 1\n    push rax\n    mov rax, 2\n    push rax\n    mov rax, [rsp + 0]\n    push rax\n    mov rax, 60\n    pop rdi\n    syscall\n",
        PROLOGUE
    );
    assert_eq!(out, expected);
}

#[test]
fn for_loops_get_distinct_labels() {
    let out = generate(vec![
        StatementNode::For("i".to_string(), call("range", val(3))),
        StatementNode::For("j".to_string(), call("range", val(2))),
    ])
    .unwrap();
    let expected = format!(
        "{}    mov rax, 3\n    push rax\n    pop rax\n    mov rbx, 0\nloop0:\n        push rbx\n        inc rbx\n        cmp rax, rbx\n        je exit0\n        jmp loop0\nexit0:\n    mov rax, 2\n    push rax\n    pop rax\n    mov rbx, 0\nloop1:\n        push rbx\n        inc rbx\n        cmp rax, rbx\n        je exit1\n        jmp loop1\nexit1:\n",
        PROLOGUE
    );
    assert_eq!(out, expected);
    assert_eq!(out.matches("loop0:").count(), 1);
    assert_eq!(out.matches("exit0:").count(), 1);
    assert_eq!(out.matches("loop1:").count(), 1);
    assert_eq!(out.matches("exit1:").count(), 1);
}

#[test]
fn compiling_twice_is_byte_identical() {
    let make = || {
        vec![
            StatementNode::Assign("x".to_string(), val(5)),
            StatementNode::For("i".to_string(), call("range", val(4))),
            StatementNode::Exit(infix(var("x"), "*", val(3))),
        ]
    };
    let first = generate(make()).unwrap();
    let second = generate(make()).unwrap();
    assert_eq!(first, second);
}

#[test]
fn division_is_an_unsupported_operator() {
    let result = generate(vec![StatementNode::Exit(infix(val(1), "/", val(2)))]);
    match result {
        Err(GenError::UnsupportedOperator(op)) => assert_eq!(op, "/"),
        other => panic!("expected an unsupported-operator error, got {:?}", other),
    }
}

#[test]
fn modulo_is_an_unsupported_operator() {
    let result = generate(vec![StatementNode::Exit(infix(val(9), "%", val(4)))]);
    assert!(matches!(result, Err(GenError::UnsupportedOperator(_))));
}

#[test]
fn unknown_variable_is_reported() {
    let result = generate(vec![StatementNode::Exit(var("y"))]);
    match result {
        Err(GenError::UndeclaredVariable(name)) => assert_eq!(name, "y"),
        other => panic!("expected an undeclared-variable error, got {:?}", other),
    }
}

#[test]
fn self_referential_binding_is_reported() {
    // x = x with no prior binding: the name is recorded before the right-hand
    // side is lowered, but its slot does not exist yet.
    let result = generate(vec![StatementNode::Assign("x".to_string(), var("x"))]);
    assert!(matches!(result, Err(GenError::UndeclaredVariable(_))));
}

#[test]
fn unknown_callable_is_reported() {
    let result = generate(vec![StatementNode::Exit(call("foo", val(1)))]);
    match result {
        Err(GenError::UndeclaredFunction(name)) => assert_eq!(name, "foo"),
        other => panic!("expected an undeclared-function error, got {:?}", other),
    }
}

#[test]
fn print_is_not_implemented() {
    let result = generate(vec![StatementNode::Exit(call("print", val(1)))]);
    assert!(matches!(result, Err(GenError::NotImplemented)));
}

#[test]
fn end_for_is_not_implemented() {
    let result = generate(vec![StatementNode::EndFor]);
    assert!(matches!(result, Err(GenError::NotImplemented)));
}

#[test]
fn error_aborts_before_later_statements() {
    // The failing statement comes first; nothing of the later exit shows up,
    // and no assembly is handed out at all.
    let result = generate(vec![
        StatementNode::Exit(infix(val(1), "/", val(2))),
        StatementNode::Exit(val(0)),
    ]);
    assert!(result.is_err());
}

#[test]
fn extreme_literals_render_in_full() {
    let out = generate(vec![
        StatementNode::Assign("lo".to_string(), val(i64::MIN)),
        StatementNode::Exit(val(i64::MAX)),
    ])
    .unwrap();
    assert!(out.contains("    mov rax, -9223372036854775808\n"));
    assert!(out.contains("    mov rax, 9223372036854775807\n"));
}

#[test]
fn zero_literal_renders_as_a_single_digit() {
    let out = generate(vec![StatementNode::Exit(val(0))]).unwrap();
    let expected = format!(
        "{}    mov rax, 0\n    push rax\n    mov rax, 60\n    pop rdi\n    syscall\n",
        PROLOGUE
    );
    assert_eq!(out, expected);
}

#[test]
fn loop_leaves_its_induction_slot_on_the_stack() {
    // The loop body pushes the induction value and the exit path never pops
    // it, so the depth counter ends one higher and a later reference to `x`
    // reaches one slot further down.
    let out = generate(vec![
        StatementNode::Assign("x".to_string(), val(7)),
        StatementNode::For("i".to_string(), call("range", val(3))),
        StatementNode::Exit(var("x")),
    ])
    .unwrap();
    assert!(out.contains("    mov rax, [rsp + 8]\n"));
}

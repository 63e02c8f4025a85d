use looplang::ir::Expr;
use looplang::ir::Instruction;
use looplang::ir::Operation;
use looplang::ir::Program;
use looplang::ir::Value;
use looplang::jit::compile;
use looplang::jit::compile_ready;
use looplang::jit::CompileError;
use looplang::parse::ast::Ast;

fn lower(source: &str) -> Program {
    let (_, ast) = Ast::parse_ws(source, 0).unwrap();
    ast.to_ir()
}

#[test]
fn lowering_collects_every_mentioned_name_ordered() {
    let source = "
        x1 = input + 0;
        x2 = input + 3;
        LOOP x2 DO
            x1 = x1 + 1;
        END
        output = x1 + 0;";
    let program = lower(source);
    let expected: Vec<String> = vec![
        "input".to_string(),
        "output".to_string(),
        "x1".to_string(),
        "x2".to_string(),
    ];
    assert_eq!(program.variables, expected);
    assert_eq!(program.instructions.len(), 4);
}

#[test]
fn lowering_ignores_names_that_only_appear_as_constants() {
    let program = lower("a = b + 7;");
    let expected: Vec<String> = vec!["a".to_string(), "b".to_string()];
    assert_eq!(program.variables, expected);
}

#[test]
fn lowering_maps_statement_structure() {
    let program = lower("IF x != 2 DO y = x div 3; END LOOP y DO y = y - 1; END");
    assert_eq!(program.instructions.len(), 2);
    match &program.instructions[0] {
        Instruction::If { condition, body } => {
            assert!(matches!(condition.op, Operation::NotEqual));
            assert!(matches!(&condition.left, Value::Variable(name) if name == "x"));
            assert!(matches!(condition.right, Value::Constant(2)));
            assert_eq!(body.len(), 1);
            match &body[0] {
                Instruction::Assign { to, expr } => {
                    assert_eq!(to, "y");
                    assert!(matches!(expr.op, Operation::Divided));
                },
                _ => panic!("expected an assignment"),
            }
        },
        _ => panic!("expected a conditional"),
    }
    match &program.instructions[1] {
        Instruction::Loop { times, body } => {
            assert!(matches!(times, Value::Variable(name) if name == "y"));
            assert_eq!(body.len(), 1);
        },
        _ => panic!("expected a loop"),
    }
}

#[test]
fn compile_accepts_a_whole_program() {
    let source = "
        x1 = input + 0;
        x2 = input + 3;
        LOOP x2 DO
            x1 = x1 + 1;
        END
        output = x1 + 0;";
    let compiled = compile(lower(source));
    assert!(compiled.is_ok());
}

#[test]
fn compile_accepts_nested_loops_and_conditionals() {
    let source = "
        LOOP m DO
            LOOP n DO
                hits = hits + 1;
            END
        END
        IF hits = 12 DO
            output = hits mul 2;
        END
        IF hits != 12 DO
            output = hits div 2;
        END";
    let compiled = compile(lower(source));
    assert!(compiled.is_ok());
}

#[test]
fn compile_accepts_empty_bodies_and_no_output() {
    assert!(compile(lower("")).is_ok());
    assert!(compile(lower("LOOP x DO END")).is_ok());
}

#[test]
fn modulo_is_reported_as_unsupported() {
    let compiled = compile(lower("a = b mod 2;"));
    assert!(matches!(compiled, Err(CompileError::UnsupportedOperation)));
}

#[test]
fn undeclared_variable_is_reported_as_lowering_violation() {
    let program = Program {
        variables: Vec::new(),
        instructions: vec![Instruction::Assign {
            to: "x".to_string(),
            expr: Expr {
                left: Value::Variable("x".to_string()),
                right: Value::Constant(1),
                op: Operation::Plus,
            },
        }],
    };
    let compiled = compile(program);
    assert!(matches!(
        compiled,
        Err(CompileError::LoweringInvariantViolation)
    ));
}

#[test]
fn small_programs_are_within_the_size_bound() {
    let program = lower("a = b + 1; LOOP a DO c = c + 1; END");
    assert!(compile_ready(&program));
    assert!(compile_ready(&lower("")));
}

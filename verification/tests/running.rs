//! Concrete runs of the IR semantics: the meaning the JIT engine gives a
//! program, checked on the values the language's behaviour is specified
//! by.

use looplang::parse::ast::Ast;
use looplang::sem::run_program;

fn lower(source: &str) -> looplang::ir::Program {
    let (_, ast) = Ast::parse_ws(source, 0).unwrap();
    ast.to_ir()
}

#[test]
fn whole_program_computes_thirteen() {
    let source = "
        x1 = input + 0;
        x2 = input + 3;
        LOOP x2 DO
            x1 = x1 + 1;
        END
        output = x1 + 0;";
    let program = lower(source);
    assert_eq!(run_program(&program, 5), Some(13));
}

#[test]
fn each_run_starts_from_fresh_cells() {
    let source = "
        x1 = input + 0;
        x2 = input + 3;
        LOOP x2 DO
            x1 = x1 + 1;
        END
        output = x1 + 0;";
    let program = lower(source);
    assert_eq!(run_program(&program, 5), Some(13));
    assert_eq!(run_program(&program, 0), Some(3));
    assert_eq!(run_program(&program, 5), Some(13));
}

#[test]
fn zero_count_loop_runs_zero_times() {
    let program = lower("LOOP x DO output = output + 1; END");
    assert_eq!(run_program(&program, 7), Some(0));
}

#[test]
fn conditional_runs_on_the_true_literal_only() {
    let program = lower("IF input = 5 DO output = input + 1; END");
    assert_eq!(run_program(&program, 5), Some(6));
    assert_eq!(run_program(&program, 4), Some(0));
}

#[test]
fn not_equal_is_distinguished_by_the_engine() {
    // The reference evaluator conflates the two condition forms; the
    // engine's semantics does not.
    let program = lower("IF input != 5 DO output = input + 1; END");
    assert_eq!(run_program(&program, 4), Some(5));
    assert_eq!(run_program(&program, 5), Some(0));
}

#[test]
fn nested_loops_hit_product_of_counts() {
    let source = "
        m = input + 0;
        n = input + 1;
        LOOP m DO
            LOOP n DO
                output = output + 1;
            END
        END";
    let program = lower(source);
    assert_eq!(run_program(&program, 3), Some(12));
}

#[test]
fn division_is_unsigned_and_truncates() {
    let program = lower("output = input div 3;");
    assert_eq!(run_program(&program, 7), Some(2));
    assert_eq!(run_program(&program, 0), Some(0));
}

#[test]
fn division_by_zero_traps() {
    let program = lower("output = input div 0;");
    assert_eq!(run_program(&program, 7), None);
}

#[test]
fn subtraction_wraps_through_the_signed_word() {
    let program = lower("output = z - 1;");
    assert_eq!(run_program(&program, 0), Some(-1));
    let program = lower("big = z - 1; output = big div 1;");
    // -1 read as the unsigned word is its largest value.
    assert_eq!(run_program(&program, 0), Some(-1));
}

#[test]
fn comparisons_yield_zero_or_one() {
    // The surface grammar only forms comparisons inside conditionals, so
    // the instruction is built directly.
    let comparison = |op: looplang::ir::Operation| looplang::ir::Program {
        variables: vec!["input".to_string(), "output".to_string()],
        instructions: vec![looplang::ir::Instruction::Assign {
            to: "output".to_string(),
            expr: looplang::ir::Expr {
                left: looplang::ir::Value::Variable("input".to_string()),
                right: looplang::ir::Value::Constant(5),
                op,
            },
        }],
    };
    assert_eq!(run_program(&comparison(looplang::ir::Operation::Equal), 5), Some(1));
    assert_eq!(run_program(&comparison(looplang::ir::Operation::Equal), 6), Some(0));
    assert_eq!(run_program(&comparison(looplang::ir::Operation::NotEqual), 5), Some(0));
    assert_eq!(run_program(&comparison(looplang::ir::Operation::NotEqual), 6), Some(1));
}

#[test]
fn output_defaults_to_zero_without_output_cell() {
    let program = lower("x = input + 1;");
    assert_eq!(run_program(&program, 41), Some(0));
}

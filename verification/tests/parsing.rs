use looplang::parse::ast::Assignment;
use looplang::parse::ast::Ast;
use looplang::parse::ast::Condition;
use looplang::parse::ast::Constant;
use looplang::parse::ast::Operation;
use looplang::parse::ast::Statement;
use looplang::parse::ast::Variable;
use looplang::parse::keyword;

#[test]
fn keyword() {
    let input = "  =";
    let (rest, _) = keyword::Assign::parse_ws(input, 0).unwrap();
    assert_eq!(rest, input.chars().count());
}

#[test]
fn full_ast() {
    let code = "
        x1 = x0 + 0;
        x2 = x0 + 3;
        LOOP x2 DO
            x1 = x1 + 1;
        END
        x0 = x1 + 0;";

    let (rest, ast) = Ast::parse_ws(code, 0).unwrap();
    assert_eq!(code.chars().count(), rest);

    assert_eq!(ast.statements.len(), 4)
}

#[test]
fn assignment() {
    let code = "x1 = x0 + 3;";

    let (rest, assignment) = Assignment::parse_ws(code, 0).unwrap();
    assert_eq!(code.chars().count(), rest);

    assert_eq!(
        assignment,
        Assignment {
            destination: Variable::parse("x1", 0).unwrap().1,
            left_hand_side: Variable::parse("x0", 0).unwrap().1,
            operation: Operation::Add,
            right_hand_side: Constant::parse("3", 0).unwrap().1,
        }
    );
}

#[test]
fn variable() {
    let code = "x1";

    let (rest, variable) = Variable::parse_ws(code, 0).unwrap();
    assert_eq!(code.chars().count(), rest);

    assert_eq!(
        variable,
        Variable {
            name: "x1".to_string()
        }
    );
}

#[test]
fn operation() {
    let code = "+";

    let (rest, operation) = Operation::parse_ws(code, 0).unwrap();
    assert_eq!(code.chars().count(), rest);

    assert_eq!(operation, Operation::Add);
}

#[test]
fn assign() {
    assert!(keyword::Assign::parse_ws("=", 0).is_some());
    assert!(keyword::Assign::parse_ws("  =", 0).is_some());
}

#[test]
fn assign_colon_form() {
    let (rest, _) = keyword::Assign::parse_ws(" := 3", 0).unwrap();
    assert_eq!(rest, 3);
}

#[test]
fn keywords_match_any_case() {
    assert!(keyword::Loop::parse("LOOP", 0).is_some());
    assert!(keyword::Loop::parse("loop", 0).is_some());
    assert!(keyword::Loop::parse("LoOp", 0).is_some());
    assert!(keyword::Loop::parse("lop", 0).is_none());
    assert!(keyword::Do::parse("dO", 0).is_some());
    assert!(keyword::End::parse("End", 0).is_some());
    assert!(keyword::If::parse("iF", 0).is_some());
}

#[test]
fn variable_stops_at_non_ident() {
    let (rest, v) = Variable::parse("ab_c1 = rest", 0).unwrap();
    assert_eq!(rest, 5);
    assert_eq!(v.name, "ab_c1".to_string());
    assert!(Variable::parse("1x", 0).is_none());
    assert!(Variable::parse("", 0).is_none());
}

#[test]
fn constant_reads_decimal_digits() {
    let (rest, c) = Constant::parse("0421x", 0).unwrap();
    assert_eq!(rest, 4);
    assert_eq!(c.value, 421);
    assert!(Constant::parse("x", 0).is_none());
}

#[test]
fn constant_too_large_is_refused() {
    assert!(Constant::parse("18446744073709551615", 0).is_some());
    assert!(Constant::parse("18446744073709551616", 0).is_none());
}

#[test]
fn operation_word_forms() {
    assert_eq!(Operation::parse("mul", 0).unwrap().1, Operation::Mul);
    assert_eq!(Operation::parse("div", 0).unwrap().1, Operation::Div);
    assert_eq!(Operation::parse("mod", 0).unwrap().1, Operation::Mod);
    assert_eq!(Operation::parse("%", 0).unwrap().1, Operation::Mod);
    assert_eq!(Operation::parse("-", 0).unwrap().1, Operation::Sub);
    assert!(Operation::parse("x", 0).is_none());
}

#[test]
fn condition_forms() {
    let (_, c) = Condition::parse("= 5", 0).unwrap();
    assert_eq!(c, Condition::Eq(Constant { value: 5 }));
    let (_, c) = Condition::parse("!= 7", 0).unwrap();
    assert_eq!(c, Condition::Neq(Constant { value: 7 }));
}

#[test]
fn unreadable_text_is_left_unconsumed() {
    let (rest, ast) = Ast::parse("123", 0).unwrap();
    assert_eq!(rest, 0);
    assert_eq!(ast.statements.len(), 0);
}

#[test]
fn statement_forms() {
    let (_, st) = Statement::parse("IF x = 1 DO END", 0).unwrap();
    assert!(matches!(st, Statement::If(_)));
    let (_, st) = Statement::parse("LOOP x DO END", 0).unwrap();
    assert!(matches!(st, Statement::Loop(_)));
    let (_, st) = Statement::parse("x = x + 1;", 0).unwrap();
    assert!(matches!(st, Statement::Assignment(_)));
}

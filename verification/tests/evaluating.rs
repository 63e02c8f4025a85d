use looplang::interp::eval;
use looplang::interp::try_eval;
use looplang::interp::Scope;
use looplang::parse::ast::Ast;

fn scope_value(scope: &Scope, name: &str) -> u64 {
    scope.get(&name.to_string())
}

fn run(source: &str, seed: &[(&str, u64)]) -> Scope {
    let (_, ast) = Ast::parse_ws(source, 0).unwrap();
    let mut scope = Scope::new();
    for (name, value) in seed {
        scope.insert(name.to_string(), *value);
    }
    eval(&ast, scope)
}

#[test]
fn assignment_arithmetic() {
    let scope = run("a = z + 7; b = a - 2; c = a mul 3; d = a div 2; e = a mod 4;", &[]);
    assert_eq!(scope_value(&scope, "a"), 7);
    assert_eq!(scope_value(&scope, "b"), 5);
    assert_eq!(scope_value(&scope, "c"), 21);
    assert_eq!(scope_value(&scope, "d"), 3);
    assert_eq!(scope_value(&scope, "e"), 3);
    assert_eq!(scope_value(&scope, "z"), 0);
}

#[test]
fn loop_with_zero_count_runs_zero_times() {
    let scope = run("LOOP x DO y = y + 1; END", &[]);
    assert_eq!(scope_value(&scope, "y"), 0);
}

#[test]
fn loop_count_is_read_on_entry() {
    // The body overwrites the counter, but the count was taken before the
    // first iteration.
    let scope = run("LOOP n DO t = t + 1; n = n + 5; END", &[("n", 3)]);
    assert_eq!(scope_value(&scope, "t"), 3);
}

#[test]
fn conditional_taken_and_skipped() {
    let taken = run("IF x = 5 DO output = x + 1; END", &[("x", 5)]);
    assert_eq!(scope_value(&taken, "output"), 6);

    let skipped = run("IF x = 5 DO output = x + 1; END", &[("x", 4)]);
    assert_eq!(scope_value(&skipped, "output"), 0);
}

#[test]
fn not_equal_condition_keeps_reference_behaviour() {
    // The reference evaluator tests both condition forms with the same
    // equality test: `!=` runs the body exactly when the values are equal.
    // The code generator gives `!=` its proper meaning; the two paths
    // diverge here on purpose.
    let diverging = run("IF x != 5 DO y = y + 1; END", &[("x", 5)]);
    assert_eq!(scope_value(&diverging, "y"), 1);
    let diverging = run("IF x != 5 DO y = y + 1; END", &[("x", 4)]);
    assert_eq!(scope_value(&diverging, "y"), 0);
}

#[test]
fn whole_program_counts_up() {
    let source = "
        x1 = input + 0;
        x2 = input + 3;
        LOOP x2 DO
            x1 = x1 + 1;
        END
        output = x1 + 0;";
    let scope = run(source, &[("input", 5)]);
    assert_eq!(scope_value(&scope, "output"), 13);
}

#[test]
fn calls_do_not_observe_each_other() {
    let source = "
        x1 = input + 0;
        x2 = input + 3;
        LOOP x2 DO
            x1 = x1 + 1;
        END
        output = x1 + 0;";
    let first = run(source, &[("input", 5)]);
    let second = run(source, &[("input", 0)]);
    assert_eq!(scope_value(&first, "output"), 13);
    assert_eq!(scope_value(&second, "output"), 3);
    // The earlier run's scope is unchanged by the later one.
    assert_eq!(scope_value(&first, "output"), 13);
}

#[test]
fn nested_loops_run_product_of_counts() {
    let source = "LOOP m DO LOOP n DO hits = hits + 1; END END";
    let scope = run(source, &[("m", 3), ("n", 4)]);
    assert_eq!(scope_value(&scope, "hits"), 12);
}

#[test]
fn scope_bindings() {
    let mut scope = Scope::new();
    assert_eq!(scope.get(&"missing".to_string()), 0);
    scope.insert("a".to_string(), 1);
    scope.insert("b".to_string(), 2);
    scope.insert("a".to_string(), 9);
    assert_eq!(scope.get(&"a".to_string()), 9);
    assert_eq!(scope.get(&"b".to_string()), 2);
}

fn seeded(seed: &[(&str, u64)]) -> Scope {
    let mut scope = Scope::new();
    for (name, value) in seed {
        scope.insert(name.to_string(), *value);
    }
    scope
}

#[test]
fn evaluation_without_a_result_is_reported() {
    let (_, overflow) = Ast::parse_ws("x = y + 18446744073709551615; z = x mul 2;", 0).unwrap();
    assert!(try_eval(&overflow, Scope::new()).is_none());

    let (_, underflow) = Ast::parse_ws("x = y - 1;", 0).unwrap();
    assert!(try_eval(&underflow, Scope::new()).is_none());

    let (_, div_zero) = Ast::parse_ws("x = y div 0;", 0).unwrap();
    assert!(try_eval(&div_zero, Scope::new()).is_none());
}

#[test]
fn total_and_checked_evaluation_agree() {
    let (_, ast) = Ast::parse_ws("a = b + 2; c = a mul 3;", 0).unwrap();
    let total = try_eval(&ast, seeded(&[("b", 5)])).unwrap();
    let checked = eval(&ast, seeded(&[("b", 5)]));
    assert_eq!(total.get(&"c".to_string()), 21);
    assert_eq!(checked.get(&"c".to_string()), 21);
}

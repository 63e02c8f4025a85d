//! The abstract syntax tree the parser produces, and the lowering that
//! turns it into an IR program.
//!
//! Lowering is a structural translation of each statement, followed by a
//! full pre-order walk of the generated instructions that collects every
//! mentioned variable name; the declared set of the produced program is
//! exactly that collection, deduplicated and ordered by name.

use vstd::prelude::*;
use vstd::string::StrSliceExecFns;

use crate::ir;
use crate::parse::is_alpha_char;
use crate::parse::is_digit_char;
use crate::parse::is_ident_char;
use crate::parse::keyword;
use crate::parse::ws_end;
use crate::parse::skip_ws;
use vstd::pervasive::unreached;

verus! {

#[derive(Debug, PartialEq, Eq)]
pub struct Ast {
    pub statements: Vec<Statement>,
}

#[derive(Debug, PartialEq, Eq)]
pub enum Statement {
    Assignment(Assignment),
    Loop(Loop),
    If(If),
}

#[derive(Debug, Clone, PartialEq, Eq)]
pub struct Assignment {
    pub destination: Variable,
    pub left_hand_side: Variable,
    pub operation: Operation,
    pub right_hand_side: Constant,
}

#[derive(Debug, Clone, Copy, PartialEq, Eq)]
pub enum Operation {
    Add,
    Sub,
    Mul,
    Div,
    Mod,
}

#[derive(Debug, Clone, PartialEq, Eq)]
pub struct Variable {
    pub name: String,
}

/// All constants of the surface syntax are non-negative integers.
#[derive(Debug, Clone, PartialEq, Eq)]
pub struct Constant {
    pub value: u64,
}

#[derive(Debug, PartialEq, Eq)]
pub struct Loop {
    pub counter: Variable,
    pub instruction: Ast,
}

#[derive(Debug, PartialEq, Eq)]
pub struct If {
    pub variable: Variable,
    pub condition: Condition,
    pub instructions: Ast,
}

#[derive(Debug, Clone, PartialEq, Eq)]
pub enum Condition {
    Eq(Constant),
    Neq(Constant),
}

/// Structural size of a statement; a positive measure for recursion.
pub open spec fn stmt_size(s: Statement) -> nat
    decreases s,
{
    match s {
        Statement::Assignment(_) => 1,
        Statement::Loop(l) => 1 + stmts_size(l.instruction.statements@),
        Statement::If(i) => 1 + stmts_size(i.instructions.statements@),
    }
}

/// Structural size of a statement sequence.
pub open spec fn stmts_size(l: Seq<Statement>) -> nat
    decreases l,
{
    if l.len() == 0 {
        0
    } else {
        stmt_size(l[0]) + stmts_size(l.drop_first())
    }
}

/// Every element of a sequence is no larger than the whole sequence.
pub proof fn lemma_stmt_size_le(l: Seq<Statement>, i: int)
    requires
        0 <= i < l.len(),
    ensures
        stmt_size(l[i]) <= stmts_size(l),
    decreases l.len(),
{
    if i > 0 {
        lemma_stmt_size_le(l.drop_first(), i - 1);
    }
}

/// The operation an AST operation lowers to.
pub open spec fn map_op_spec(operation: Operation) -> ir::Operation {
    match operation {
        Operation::Add => ir::Operation::Plus,
        Operation::Sub => ir::Operation::Minus,
        Operation::Mod => ir::Operation::Modulo,
        Operation::Mul => ir::Operation::Times,
        Operation::Div => ir::Operation::Divided,
    }
}

/// The structural correspondence between one statement and the
/// instruction it lowers to.
pub open spec fn lowers_to(s: Statement, ins: ir::Instruction) -> bool
    decreases s,
{
    match s {
        Statement::Assignment(a) => {
            &&& ins matches ir::Instruction::Assign { to, expr }
            &&& to@ == a.destination.name@
            &&& expr.op == map_op_spec(a.operation)
            &&& expr.left matches ir::Value::Variable(lv) && lv@ == a.left_hand_side.name@
            &&& expr.right matches ir::Value::Constant(c) && c == a.right_hand_side.value as i64
        },
        Statement::If(f) => {
            &&& ins matches ir::Instruction::If { condition, body }
            &&& condition.left matches ir::Value::Variable(v) && v@ == f.variable.name@
            &&& match f.condition {
                Condition::Eq(k) => condition.op == ir::Operation::Equal && (
                condition.right matches ir::Value::Constant(c) && c == k.value as i64),
                Condition::Neq(k) => condition.op == ir::Operation::NotEqual && (
                condition.right matches ir::Value::Constant(c) && c == k.value as i64),
            }
            &&& stmts_lower_to(f.instructions.statements@, body@)
        },
        Statement::Loop(lp) => {
            &&& ins matches ir::Instruction::Loop { times, body }
            &&& times matches ir::Value::Variable(v) && v@ == lp.counter.name@
            &&& stmts_lower_to(lp.instruction.statements@, body@)
        },
    }
}

/// `lowers_to`, statement by statement.
pub open spec fn stmts_lower_to(l: Seq<Statement>, out: Seq<ir::Instruction>) -> bool
    decreases l,
{
    &&& out.len() == l.len()
    &&& forall|k: int| 0 <= k < l.len() ==> lowers_to(l[k], #[trigger] out[k])
}

/// Lower one operation.
pub fn map_op(operation: Operation) -> (r: ir::Operation)
    ensures
        r == map_op_spec(operation),
{
    match operation {
        Operation::Add => ir::Operation::Plus,
        Operation::Sub => ir::Operation::Minus,
        Operation::Mod => ir::Operation::Modulo,
        Operation::Mul => ir::Operation::Times,
        Operation::Div => ir::Operation::Divided,
    }
}

/// Lower one statement into one instruction.
pub fn map_instruction(statement: Statement) -> (r: ir::Instruction)
    ensures
        lowers_to(statement, r),
    decreases stmt_size(statement), 0nat,
{
    match statement {
        Statement::Assignment(a) => {
            let Assignment { destination, left_hand_side, operation, right_hand_side } = a;
            ir::Instruction::Assign {
                to: destination.name,
                expr: ir::Expr {
                    left: ir::Value::Variable(left_hand_side.name),
                    right: ir::Value::Constant(right_hand_side.value as i64),
                    op: map_op(operation),
                },
            }
        },
        Statement::If(f) => {
            let If { variable, condition, instructions } = f;
            let (op, value) = match condition {
                Condition::Eq(k) => (ir::Operation::Equal, k.value),
                Condition::Neq(k) => (ir::Operation::NotEqual, k.value),
            };
            ir::Instruction::If {
                condition: ir::Expr {
                    left: ir::Value::Variable(variable.name),
                    op,
                    right: ir::Value::Constant(value as i64),
                },
                body: map_instructions(instructions.statements),
            }
        },
        Statement::Loop(lp) => {
            let Loop { counter, instruction } = lp;
            ir::Instruction::Loop {
                times: ir::Value::Variable(counter.name),
                body: map_instructions(instruction.statements),
            }
        },
    }
}

/// Lower a statement list, in order.
pub fn map_instructions(statements: Vec<Statement>) -> (r: Vec<ir::Instruction>)
    ensures
        stmts_lower_to(statements@, r@),
    decreases stmts_size(statements@), 1nat,
{
    let mut rest = statements;
    if rest.len() == 0 {
        Vec::new()
    } else {
        proof {
            lemma_stmt_size_le(rest@, 0);
            assert(stmt_size(rest@[0]) >= 1);
        }
        let st = rest.remove(0);
        let ins = map_instruction(st);
        let mut out = map_instructions(rest);
        let ghost tail_out = out@;
        out.insert(0, ins);
        proof {
            let l = statements@;
            assert forall|k: int| 0 <= k < l.len() implies lowers_to(l[k], #[trigger] out@[k]) by {
                if k == 0 {
                    assert(out@[0] == ins);
                } else {
                    assert(out@[k] == tail_out[k - 1]);
                    assert(l.drop_first()[k - 1] == l[k]);
                }
            }
        }
        out
    }
}

/// Pushing an element onto a sequence adds it to the sequence's set.
proof fn lemma_push_to_set<A>(l: Seq<A>, x: A)
    ensures
        l.push(x).to_set() == l.to_set().insert(x),
{
    let a = l.push(x);
    assert(a.to_set() =~= l.to_set().insert(x)) by {
        assert forall|y: A| a.to_set().contains(y) implies l.to_set().insert(x).contains(y) by {
            let k = choose|k: int| 0 <= k < a.len() && a[k] == y;
            if k < l.len() {
                assert(l[k] == y);
            }
        }
        assert forall|y: A| l.to_set().insert(x).contains(y) implies a.to_set().contains(y) by {
            if y == x {
                assert(a[l.len() as int] == y);
            } else {
                let k = choose|k: int| 0 <= k < l.len() && l[k] == y;
                assert(a[k] == y);
            }
        }
    }
}

/// Push the name a value mentions, if any, onto the accumulator.
fn collect_value(v: &ir::Value, acc: &mut Vec<String>)
    ensures
        ir::var_names(final(acc)@).to_set() == ir::var_names(old(acc)@).to_set().union(
            ir::value_vars(*v),
        ),
{
    match v {
        ir::Value::Variable(name) => {
            let n: String = name.clone();
            acc.push(n);
            proof {
                assert(ir::var_names(acc@) =~= ir::var_names(old(acc)@).push(name@));
                lemma_push_to_set(ir::var_names(old(acc)@), name@);
                assert(ir::var_names(acc@).to_set() =~= ir::var_names(old(acc)@).to_set().union(
                    ir::value_vars(*v),
                ));
            }
        },
        ir::Value::Constant(_) => {
            proof {
                assert(ir::var_names(acc@).to_set() =~= ir::var_names(old(acc)@).to_set().union(
                    ir::value_vars(*v),
                ));
            }
        },
    }
}

/// Push the names an expression mentions onto the accumulator.
fn collect_expr(e: &ir::Expr, acc: &mut Vec<String>)
    ensures
        ir::var_names(final(acc)@).to_set() == ir::var_names(old(acc)@).to_set().union(
            ir::expr_vars(*e),
        ),
{
    collect_value(&e.left, acc);
    collect_value(&e.right, acc);
    proof {
        assert(ir::var_names(acc@).to_set() =~= ir::var_names(old(acc)@).to_set().union(
            ir::expr_vars(*e),
        ));
    }
}

/// Push the names one instruction mentions, in a pre-order walk.
fn collect_instr(i: &ir::Instruction, acc: &mut Vec<String>)
    ensures
        ir::var_names(final(acc)@).to_set() == ir::var_names(old(acc)@).to_set().union(
            ir::instr_vars(*i),
        ),
    decreases ir::instr_size(*i), 0nat,
{
    match i {
        ir::Instruction::Assign { to, expr } => {
            let n: String = to.clone();
            acc.push(n);
            proof {
                assert(ir::var_names(acc@) =~= ir::var_names(old(acc)@).push(to@));
                lemma_push_to_set(ir::var_names(old(acc)@), to@);
            }
            collect_expr(expr, acc);
            proof {
                assert(ir::var_names(acc@).to_set() =~= ir::var_names(old(acc)@).to_set().union(
                    ir::instr_vars(*i),
                ));
            }
        },
        ir::Instruction::If { condition, body } => {
            collect_expr(condition, acc);
            proof {
                assert(body@.subrange(0, body@.len() as int) =~= body@);
            }
            collect_from(body, 0, acc);
            proof {
                assert(ir::var_names(acc@).to_set() =~= ir::var_names(old(acc)@).to_set().union(
                    ir::instr_vars(*i),
                ));
            }
        },
        ir::Instruction::Loop { times, body } => {
            collect_value(times, acc);
            proof {
                assert(body@.subrange(0, body@.len() as int) =~= body@);
            }
            collect_from(body, 0, acc);
            proof {
                assert(ir::var_names(acc@).to_set() =~= ir::var_names(old(acc)@).to_set().union(
                    ir::instr_vars(*i),
                ));
            }
        },
    }
}

/// Push the names the suffix of `instrs` from `i` mentions.
fn collect_from(instrs: &Vec<ir::Instruction>, i: usize, acc: &mut Vec<String>)
    requires
        i <= instrs@.len(),
    ensures
        ir::var_names(final(acc)@).to_set() == ir::var_names(old(acc)@).to_set().union(
            ir::instrs_vars(instrs@.subrange(i as int, instrs@.len() as int)),
        ),
    decreases ir::instrs_size(instrs@.subrange(i as int, instrs@.len() as int)), 1nat,
{
    if i < instrs.len() {
        proof {
            ir::lemma_suffix_vars(instrs@, i as int);
        }
        collect_instr(&instrs[i], acc);
        collect_from(instrs, i + 1, acc);
        proof {
            assert(ir::var_names(acc@).to_set() =~= ir::var_names(old(acc)@).to_set().union(
                ir::instrs_vars(instrs@.subrange(i as int, instrs@.len() as int)),
            ));
        }
    } else {
        proof {
            assert(ir::var_names(acc@).to_set() =~= ir::var_names(old(acc)@).to_set().union(
                ir::instrs_vars(instrs@.subrange(i as int, instrs@.len() as int)),
            ));
        }
    }
}

/// Strict lexicographic order on character sequences, by code point.
pub open spec fn lex_lt(a: Seq<char>, b: Seq<char>) -> bool
    decreases a.len(),
{
    if b.len() == 0 {
        false
    } else if a.len() == 0 {
        true
    } else if a[0] != b[0] {
        (a[0] as int) < (b[0] as int)
    } else {
        lex_lt(a.drop_first(), b.drop_first())
    }
}

/// Nothing is lexicographically below itself.
pub proof fn lemma_lex_irrefl(a: Seq<char>)
    ensures
        !lex_lt(a, a),
    decreases a.len(),
{
    if a.len() > 0 {
        lemma_lex_irrefl(a.drop_first());
    }
}

/// Two distinct sequences are lexicographically ordered one way or the
/// other.
pub proof fn lemma_lex_total(a: Seq<char>, b: Seq<char>)
    requires
        a != b,
    ensures
        lex_lt(a, b) || lex_lt(b, a),
    decreases a.len(),
{
    if a.len() == 0 {
        if b.len() == 0 {
            assert(a =~= b);
        }
    } else if b.len() > 0 && a[0] == b[0] {
        if a.drop_first() == b.drop_first() {
            assert(a.drop_first().len() == b.drop_first().len());
            assert(a.len() == b.len());
            assert forall|i: int| 0 <= i < a.len() implies a[i] == b[i] by {
                if i > 0 {
                    assert(a.drop_first()[i - 1] == a[i]);
                    assert(b.drop_first()[i - 1] == b[i]);
                }
            }
            assert(a =~= b);
        }
        lemma_lex_total(a.drop_first(), b.drop_first());
    }
}

/// Lexicographic order composes.
pub proof fn lemma_lex_trans(a: Seq<char>, b: Seq<char>, c: Seq<char>)
    requires
        lex_lt(a, b),
        lex_lt(b, c),
    ensures
        lex_lt(a, c),
    decreases a.len(),
{
    if a.len() > 0 && b.len() > 0 && c.len() > 0 && a[0] == b[0] && b[0] == c[0] {
        lemma_lex_trans(a.drop_first(), b.drop_first(), c.drop_first());
    }
}

/// Whether each name stands strictly below its successor.
pub open spec fn sorted_by_name(l: Seq<Seq<char>>) -> bool {
    forall|i: int, j: int| 0 <= i < j < l.len() ==> lex_lt(l[i], l[j])
}

/// Compare the suffixes of two strings from position `i` on.
fn str_lt_from(a: &str, b: &str, i: usize) -> (r: bool)
    requires
        i <= a@.len(),
        i <= b@.len(),
    ensures
        r == lex_lt(
            a@.subrange(i as int, a@.len() as int),
            b@.subrange(i as int, b@.len() as int),
        ),
    decreases a@.len() - i,
{
    let ghost sa = a@.subrange(i as int, a@.len() as int);
    let ghost sb = b@.subrange(i as int, b@.len() as int);
    if i >= b.unicode_len() {
        false
    } else if i >= a.unicode_len() {
        true
    } else {
        let ca = a.get_char(i);
        let cb = b.get_char(i);
        if ca != cb {
            (ca as u32) < (cb as u32)
        } else {
            proof {
                assert(sa.drop_first() =~= a@.subrange(i + 1, a@.len() as int));
                assert(sb.drop_first() =~= b@.subrange(i + 1, b@.len() as int));
            }
            str_lt_from(a, b, i + 1)
        }
    }
}

/// Strict lexicographic comparison of two names.
fn str_lt(a: &String, b: &String) -> (r: bool)
    ensures
        r == lex_lt(a@, b@),
{
    proof {
        assert(a@.subrange(0, a@.len() as int) =~= a@);
        assert(b@.subrange(0, b@.len() as int) =~= b@);
    }
    str_lt_from(a.as_str(), b.as_str(), 0)
}

/// The position of the first name in an ordered list that does not stand
/// strictly below `name`.
fn lower_bound(v: &Vec<String>, name: &String) -> (j: usize)
    ensures
        j <= v@.len(),
        forall|k: int| 0 <= k < j ==> lex_lt(ir::var_names(v@)[k], name@),
        j < v@.len() ==> !lex_lt(v@[j as int]@, name@),
{
    let n = v.len();
    let mut j: usize = 0;
    while j < n
        invariant
            j <= n,
            n == v@.len(),
            forall|k: int| 0 <= k < j ==> lex_lt(ir::var_names(v@)[k], name@),
        decreases n - j,
    {
        let cur: &String = &v[j];
        if !str_lt(cur, name) {
            return j;
        }
        proof {
            assert(ir::var_names(v@)[j as int] == v@[j as int]@);
        }
        j += 1;
    }
    j
}

/// Insert a name into a name-ordered list of distinct names, keeping it
/// ordered and distinct; a name already present is not added again.
fn insert_sorted(v: &mut Vec<String>, name: String)
    requires
        sorted_by_name(ir::var_names(old(v)@)),
    ensures
        sorted_by_name(ir::var_names(final(v)@)),
        ir::var_names(final(v)@).to_set() == ir::var_names(old(v)@).to_set().insert(name@),
{
    let j = lower_bound(v, &name);
    if j < v.len() {
        let cur: &String = &v[j];
        let same = cur.eq(&name);
        if same {
            proof {
                assert(ir::var_names(v@)[j as int] == name@);
                assert(ir::var_names(v@).to_set().contains(name@));
                assert(ir::var_names(v@).to_set() =~= ir::var_names(v@).to_set().insert(name@));
            }
            return ;
        }
    }
    let ghost oldnames = ir::var_names(v@);
    v.insert(j, name);
    proof {
        let names = ir::var_names(v@);
        assert(names =~= oldnames.insert(j as int, name@));
        assert forall|x: int, y: int| 0 <= x < y < names.len() implies lex_lt(
            names[x],
            names[y],
        ) by {
            if x < j && y == j {
                assert(names[x] == oldnames[x]);
            } else if x == j && y > j {
                assert(names[y] == oldnames[y - 1]);
                assert(!lex_lt(oldnames[j as int], name@));
                assert(oldnames[j as int] != name@);
                lemma_lex_total(name@, oldnames[j as int]);
                if y - 1 > j {
                    lemma_lex_trans(name@, oldnames[j as int], oldnames[y - 1]);
                }
            } else if x < j && y > j {
                assert(names[x] == oldnames[x]);
                assert(names[y] == oldnames[y - 1]);
                assert(lex_lt(oldnames[x], oldnames[y - 1]));
            }
        }
        assert(names.to_set() =~= oldnames.to_set().insert(name@)) by {
            assert forall|x: Seq<char>| names.to_set().contains(x) implies oldnames.to_set().insert(
                name@,
            ).contains(x) by {
                let k = choose|k: int| 0 <= k < names.len() && names[k] == x;
                if k < j {
                    assert(oldnames[k] == x);
                } else if k > j {
                    assert(oldnames[k - 1] == x);
                }
            }
            assert forall|x: Seq<char>| oldnames.to_set().insert(name@).contains(
                x,
            ) implies names.to_set().contains(x) by {
                if x == name@ {
                    assert(names[j as int] == x);
                } else {
                    let k = choose|k: int| 0 <= k < oldnames.len() && oldnames[k] == x;
                    if k < j {
                        assert(names[k] == x);
                    } else {
                        assert(names[k + 1] == x);
                    }
                }
            }
        }
    }
}

impl Ast {
    /// Lower this syntax tree into an IR program: the instructions are the
    /// statements, translated in order, and the declared variable set is
    /// exactly the set of names a full traversal of those instructions
    /// mentions, ordered by name and free of duplicates.
    pub fn to_ir(self) -> (r: ir::Program)
        ensures
            stmts_lower_to(self.statements@, r.instructions@),
            ir::var_names(r.variables@).to_set() == ir::instrs_vars(r.instructions@),
            sorted_by_name(ir::var_names(r.variables@)),
    {
        let instructions = map_instructions(self.statements);
        let mut mentioned: Vec<String> = Vec::new();
        proof {
            assert(instructions@.subrange(0, instructions@.len() as int) =~= instructions@);
        }
        collect_from(&instructions, 0, &mut mentioned);
        proof {
            assert(ir::var_names(mentioned@).to_set() =~= ir::instrs_vars(instructions@));
        }
        let mut variables: Vec<String> = Vec::new();
        let total = mentioned.len();
        let mut i: usize = 0;
        while i < total
            invariant
                i <= total,
                total == mentioned@.len(),
                sorted_by_name(ir::var_names(variables@)),
                ir::var_names(variables@).to_set() == ir::var_names(
                    mentioned@.subrange(0, i as int),
                ).to_set(),
            decreases total - i,
        {
            let ghost before = ir::var_names(variables@).to_set();
            let name: String = mentioned[i].clone();
            insert_sorted(&mut variables, name);
            proof {
                let prefix_long = ir::var_names(mentioned@.subrange(0, i + 1));
                let prefix = ir::var_names(mentioned@.subrange(0, i as int));
                assert(prefix_long =~= prefix.push(mentioned@[i as int]@));
                lemma_push_to_set(prefix, mentioned@[i as int]@);
            }
            i += 1;
        }
        proof {
            assert(mentioned@.subrange(0, mentioned@.len() as int) =~= mentioned@);
        }
        ir::Program { instructions, variables }
    }
}

/// A well-formed identifier: one letter, then letters, digits and
/// underscores.
pub open spec fn is_identifier(s: Seq<char>) -> bool {
    &&& s.len() > 0
    &&& is_alpha_char(s[0])
    &&& forall|k: int| 0 < k < s.len() ==> is_ident_char(#[trigger] s[k])
}

/// Whether a character can start an identifier.
pub fn is_alpha(c: char) -> (r: bool)
    ensures
        r == is_alpha_char(c),
{
    (c >= 'a' && c <= 'z') || (c >= 'A' && c <= 'Z')
}

/// Whether a character is a decimal digit.
pub fn is_number(c: char) -> (r: bool)
    ensures
        r == is_digit_char(c),
{
    c >= '0' && c <= '9'
}

/// The first position at or after `from` that does not continue an
/// identifier.
pub open spec fn ident_run_end(s: Seq<char>, from: int) -> int
    decreases s.len() - from,
{
    if 0 <= from < s.len() && is_ident_char(s[from]) {
        ident_run_end(s, from + 1)
    } else {
        from
    }
}

/// The identifier run starting inside a run ends at the same place.
proof fn lemma_ident_same_end(s: Seq<char>, from: int, i: int)
    requires
        0 <= from <= i <= s.len(),
        forall|k: int| from <= k < i ==> is_ident_char(s[k]),
    ensures
        ident_run_end(s, from) == ident_run_end(s, i),
    decreases i - from,
{
    if from < i {
        lemma_ident_same_end(s, from + 1, i);
    }
}

/// Where the identifier standing at `from` ends; negative where none
/// stands there.
pub open spec fn variable_end(s: Seq<char>, from: int) -> int {
    if 0 <= from < s.len() && is_alpha_char(s[from]) {
        ident_run_end(s, from + 1)
    } else {
        -1
    }
}

impl Variable {
    /// Parse an identifier: one letter, then letters, digits and
    /// underscores, as many as stand there.
    pub fn parse(input: &str, from: usize) -> (r: Option<(usize, Self)>)
        requires
            from <= input@.len(),
        ensures
            match r {
                Some((p, v)) => {
                    &&& from < p <= input@.len()
                    &&& p as int == variable_end(input@, from as int)
                    &&& v.name@ == input@.subrange(from as int, p as int)
                    &&& is_identifier(v.name@)
                    &&& (p == input@.len() || !is_ident_char(input@[p as int]))
                },
                None => variable_end(input@, from as int) < 0,
            },
    {
        let len = input.unicode_len();
        if from >= len {
            return None;
        }
        let c0 = input.get_char(from);
        if !is_alpha(c0) {
            return None;
        }
        let i = ident_end(input, from + 1);
        let name = input.substring_char(from, i).to_owned();
        Some((i, Variable { name }))
    }

    /// Parse an identifier after optional whitespace.
    pub fn parse_ws(input: &str, from: usize) -> (r: Option<(usize, Self)>)
        requires
            from <= input@.len(),
        ensures
            match r {
                Some((p, v)) => {
                    &&& from < p <= input@.len()
                    &&& p as int == variable_end(input@, ws_end(input@, from as int))
                    &&& v.name@ == input@.subrange(ws_end(input@, from as int), p as int)
                    &&& is_identifier(v.name@)
                },
                None => variable_end(input@, ws_end(input@, from as int)) < 0,
            },
    {
        let start = skip_ws(input, from);
        Self::parse(input, start)
    }
}

/// The first position at or after `start` that does not continue an
/// identifier.
fn ident_end(input: &str, start: usize) -> (r: usize)
    requires
        start <= input@.len(),
    ensures
        start <= r <= input@.len(),
        r as int == ident_run_end(input@, start as int),
        forall|k: int| start <= k < r ==> is_ident_char(input@[k]),
        r < input@.len() ==> !is_ident_char(input@[r as int]),
{
    let len = input.unicode_len();
    let mut i: usize = start;
    while i < len
        invariant
            start <= i <= len,
            len == input@.len(),
            forall|k: int| start <= k < i ==> is_ident_char(input@[k]),
        decreases len - i,
    {
        let c = input.get_char(i);
        if !(is_alpha(c) || is_number(c) || c == '_') {
            proof {
                lemma_ident_same_end(input@, start as int, i as int);
            }
            return i;
        }
        i += 1;
    }
    proof {
        lemma_ident_same_end(input@, start as int, i as int);
    }
    i
}

/// The first position at or after `start` that does not hold a digit.
fn digit_end(input: &str, start: usize) -> (r: usize)
    requires
        start <= input@.len(),
    ensures
        start <= r <= input@.len(),
        forall|k: int| start <= k < r ==> is_digit_char(input@[k]),
        r < input@.len() ==> !is_digit_char(input@[r as int]),
{
    let len = input.unicode_len();
    let mut i: usize = start;
    while i < len
        invariant
            start <= i <= len,
            len == input@.len(),
            forall|k: int| start <= k < i ==> is_digit_char(input@[k]),
        decreases len - i,
    {
        let c = input.get_char(i);
        if !is_number(c) {
            return i;
        }
        i += 1;
    }
    i
}

/// The numeric value of the digit run `[from, to)`.
pub open spec fn digits_val(s: Seq<char>, from: int, to: int) -> int
    decreases to - from,
{
    if to <= from {
        0
    } else {
        digits_val(s, from, to - 1) * 10 + (s[to - 1] as int - 48)
    }
}

/// The first position at or after `from` that does not hold a digit.
pub open spec fn digit_run_end(s: Seq<char>, from: int) -> int
    decreases s.len() - from,
{
    if 0 <= from < s.len() && is_digit_char(s[from]) {
        digit_run_end(s, from + 1)
    } else {
        from
    }
}

/// The digit run starting inside a digit run ends at the same place.
proof fn lemma_run_same_end(s: Seq<char>, from: int, i: int)
    requires
        0 <= from <= i <= s.len(),
        forall|k: int| from <= k < i ==> is_digit_char(s[k]),
    ensures
        digit_run_end(s, from) == digit_run_end(s, i),
    decreases i - from,
{
    if from < i {
        lemma_run_same_end(s, from + 1, i);
    }
}

/// A digit run's value is non-negative and grows as the run extends.
proof fn lemma_digits_grow(s: Seq<char>, from: int, t1: int, t2: int)
    requires
        from <= t1 <= t2,
        forall|k: int| from <= k < t2 ==> is_digit_char(s[k]),
        t2 <= s.len(),
        0 <= from,
    ensures
        0 <= digits_val(s, from, t1) <= digits_val(s, from, t2),
    decreases t2 - t1,
{
    if t1 == t2 {
        lemma_digits_nonneg(s, from, t1);
    } else {
        lemma_digits_grow(s, from, t1, t2 - 1);
    }
}

/// A digit run's value is non-negative.
proof fn lemma_digits_nonneg(s: Seq<char>, from: int, to: int)
    requires
        0 <= from,
        to <= s.len(),
        forall|k: int| from <= k < to ==> is_digit_char(s[k]),
    ensures
        digits_val(s, from, to) >= 0,
    decreases to - from,
{
    if to > from {
        lemma_digits_nonneg(s, from, to - 1);
    }
}

/// Where the constant standing at `from` ends: the end of the digit run,
/// where one stands there and its value fits the unsigned word; negative
/// otherwise — an oversized run is refused rather than read.
pub open spec fn constant_end(s: Seq<char>, from: int) -> int {
    let e = digit_run_end(s, from);
    if e <= from {
        -1
    } else if digits_val(s, from, e) > u64::MAX {
        -1
    } else {
        e
    }
}

impl Constant {
    /// Parse a non-negative decimal constant: the digit run standing at
    /// `from`, read in base ten. Fails if no digit stands there, or if the
    /// run's value does not fit in the constant's word.
    pub fn parse(input: &str, from: usize) -> (r: Option<(usize, Self)>)
        requires
            from <= input@.len(),
        ensures
            match r {
                Some((p, c)) => {
                    &&& from < p <= input@.len()
                    &&& p as int == constant_end(input@, from as int)
                    &&& c.value as int == digits_val(input@, from as int, p as int)
                },
                None => constant_end(input@, from as int) < 0,
            },
    {
        let end = digit_end(input, from);
        proof {
            lemma_run_same_end(input@, from as int, end as int);
            assert(digit_run_end(input@, end as int) == end as int);
        }
        if end == from {
            return None;
        }
        let mut i: usize = from;
        let mut value: u64 = 0;
        while i < end
            invariant
                from <= i <= end <= input@.len(),
                end as int == digit_run_end(input@, from as int),
                forall|k: int| from <= k < end ==> is_digit_char(input@[k]),
                value as int == digits_val(input@, from as int, i as int),
            decreases end - i,
        {
            let c = input.get_char(i);
            let d: u32 = (c as u32) - 48;
            let next = match value.checked_mul(10) {
                Some(x) => x.checked_add(d as u64),
                None => None,
            };
            match next {
                Some(x) => {
                    proof {
                        assert(digits_val(input@, from as int, i + 1) == value as int * 10
                            + d as int);
                    }
                    value = x;
                },
                None => {
                    proof {
                        assert(digits_val(input@, from as int, i + 1) == value as int * 10
                            + d as int);
                        assert(digits_val(input@, from as int, i + 1) > u64::MAX as int);
                        lemma_digits_grow(input@, from as int, i + 1, end as int);
                    }
                    return None;
                },
            }
            i += 1;
        }
        Some((end, Constant { value }))
    }

    /// Parse a constant after optional whitespace.
    pub fn parse_ws(input: &str, from: usize) -> (r: Option<(usize, Self)>)
        requires
            from <= input@.len(),
        ensures
            match r {
                Some((p, c)) => {
                    &&& from < p <= input@.len()
                    &&& p as int == constant_end(input@, ws_end(input@, from as int))
                    &&& c.value as int == digits_val(input@, ws_end(input@, from as int), p as int)
                },
                None => constant_end(input@, ws_end(input@, from as int)) < 0,
            },
    {
        let start = skip_ws(input, from);
        Self::parse(input, start)
    }
}

/// A digit run reaches to the end it names: everything before it is a
/// digit, and it stands at the first non-digit.
proof fn lemma_run_props(s: Seq<char>, from: int)
    requires
        0 <= from <= s.len(),
    ensures
        from <= digit_run_end(s, from) <= s.len(),
        forall|k: int| from <= k < digit_run_end(s, from) ==> is_digit_char(s[k]),
    decreases s.len() - from,
{
    if from < s.len() && is_digit_char(s[from]) {
        lemma_run_props(s, from + 1);
    }
}

/// The word `w0 w1 w2` stands at `from`.
pub open spec fn word3_at(s: Seq<char>, from: int, w0: char, w1: char, w2: char) -> bool {
    from + 3 <= s.len() && s[from] == w0 && s[from + 1] == w1 && s[from + 2] == w2
}

/// The operation token standing at `from`, if any, and where it ends: one
/// of the symbols `+ - * / %`, tried first, else one of the words `mul`,
/// `div`, `mod`.
pub open spec fn op_token(s: Seq<char>, from: int) -> Option<(int, Operation)> {
    if from < s.len() && s[from] == '+' {
        Some((from + 1, Operation::Add))
    } else if from < s.len() && s[from] == '-' {
        Some((from + 1, Operation::Sub))
    } else if from < s.len() && s[from] == '*' {
        Some((from + 1, Operation::Mul))
    } else if from < s.len() && s[from] == '/' {
        Some((from + 1, Operation::Div))
    } else if from < s.len() && s[from] == '%' {
        Some((from + 1, Operation::Mod))
    } else if word3_at(s, from, 'm', 'u', 'l') {
        Some((from + 3, Operation::Mul))
    } else if word3_at(s, from, 'd', 'i', 'v') {
        Some((from + 3, Operation::Div))
    } else if word3_at(s, from, 'm', 'o', 'd') {
        Some((from + 3, Operation::Mod))
    } else {
        None
    }
}

impl Operation {
    /// Parse an operation symbol: `+ - * / %`, or one of the words `mul`,
    /// `div`, `mod`.
    pub fn parse(input: &str, from: usize) -> (r: Option<(usize, Self)>)
        requires
            from <= input@.len(),
        ensures
            match r {
                Some((p, op)) => op_token(input@, from as int) == Some((p as int, op)),
                None => op_token(input@, from as int) is None,
            },
    {
        let len = input.unicode_len();
        if from < len {
            let c = input.get_char(from);
            if c == '+' {
                return Some((from + 1, Operation::Add));
            }
            if c == '-' {
                return Some((from + 1, Operation::Sub));
            }
            if c == '*' {
                return Some((from + 1, Operation::Mul));
            }
            if c == '/' {
                return Some((from + 1, Operation::Div));
            }
            if c == '%' {
                return Some((from + 1, Operation::Mod));
            }
        }
        if len - from >= 3 {
            let c0 = input.get_char(from);
            let c1 = input.get_char(from + 1);
            let c2 = input.get_char(from + 2);
            if c0 == 'm' && c1 == 'u' && c2 == 'l' {
                return Some((from + 3, Operation::Mul));
            }
            if c0 == 'd' && c1 == 'i' && c2 == 'v' {
                return Some((from + 3, Operation::Div));
            }
            if c0 == 'm' && c1 == 'o' && c2 == 'd' {
                return Some((from + 3, Operation::Mod));
            }
        }
        None
    }

    /// Parse an operation after optional whitespace.
    pub fn parse_ws(input: &str, from: usize) -> (r: Option<(usize, Self)>)
        requires
            from <= input@.len(),
        ensures
            match r {
                Some((p, op)) => op_token(input@, ws_end(input@, from as int)) == Some(
                    (p as int, op),
                ) && from < p <= input@.len(),
                None => op_token(input@, ws_end(input@, from as int)) is None,
            },
    {
        let start = skip_ws(input, from);
        Self::parse(input, start)
    }
}

/// Where the condition standing at `from` ends: `!=` or `=`, then a
/// constant after optional whitespace; negative where no condition
/// stands there.
pub open spec fn condition_end(s: Seq<char>, from: int) -> int {
    if from + 2 <= s.len() && s[from] == '!' && s[from + 1] == '=' {
        constant_end(s, ws_end(s, from + 2))
    } else if from + 1 <= s.len() && s[from] == '=' {
        constant_end(s, ws_end(s, from + 1))
    } else {
        -1
    }
}

/// The condition a well-formed condition text parses to: `!=` yields
/// `Neq`, `=` yields `Eq`, each holding the constant's value.
pub open spec fn condition_parses_to(s: Seq<char>, from: int, c: Condition) -> bool {
    if from + 2 <= s.len() && s[from] == '!' && s[from + 1] == '=' {
        let cs = ws_end(s, from + 2);
        let ce = constant_end(s, cs);
        c matches Condition::Neq(k) && ce >= 0 && k.value as int == digits_val(s, cs, ce)
    } else if from + 1 <= s.len() && s[from] == '=' {
        let cs = ws_end(s, from + 1);
        let ce = constant_end(s, cs);
        c matches Condition::Eq(k) && ce >= 0 && k.value as int == digits_val(s, cs, ce)
    } else {
        false
    }
}

impl Condition {
    /// Parse a condition: `!=` or `=`, then the constant compared against.
    pub fn parse(input: &str, from: usize) -> (r: Option<(usize, Self)>)
        requires
            from <= input@.len(),
        ensures
            match r {
                Some((p, cond)) => {
                    &&& from < p <= input@.len()
                    &&& p as int == condition_end(input@, from as int)
                    &&& condition_parses_to(input@, from as int, cond)
                },
                None => condition_end(input@, from as int) < 0,
            },
    {
        let len = input.unicode_len();
        if len - from >= 2 && input.get_char(from) == '!' && input.get_char(from + 1) == '=' {
            match Constant::parse_ws(input, from + 2) {
                Some((p, c)) => return Some((p, Condition::Neq(c))),
                None => return None,
            }
        }
        if len - from >= 1 && input.get_char(from) == '=' {
            match Constant::parse_ws(input, from + 1) {
                Some((p, c)) => return Some((p, Condition::Eq(c))),
                None => return None,
            }
        }
        None
    }

    /// Parse a condition after optional whitespace.
    pub fn parse_ws(input: &str, from: usize) -> (r: Option<(usize, Self)>)
        requires
            from <= input@.len(),
        ensures
            match r {
                Some((p, cond)) => {
                    &&& from < p <= input@.len()
                    &&& p as int == condition_end(input@, ws_end(input@, from as int))
                    &&& condition_parses_to(input@, ws_end(input@, from as int), cond)
                },
                None => condition_end(input@, ws_end(input@, from as int)) < 0,
            },
    {
        let start = skip_ws(input, from);
        Self::parse(input, start)
    }
}

/// Where the assignment standing at `from` ends: destination variable,
/// assignment token, source variable, operation and constant, each after
/// optional whitespace, closed by a semicolon; negative where the text
/// breaks off anywhere in that shape.
pub open spec fn assignment_end(s: Seq<char>, from: int) -> int {
    let p1 = variable_end(s, from);
    if p1 < 0 {
        -1
    } else {
        let p2 = keyword::assign_end(s, ws_end(s, p1));
        if p2 < 0 {
            -1
        } else {
            let p3 = variable_end(s, ws_end(s, p2));
            if p3 < 0 {
                -1
            } else {
                match op_token(s, ws_end(s, p3)) {
                    Some(pe) => {
                        let p5 = constant_end(s, ws_end(s, pe.0));
                        if p5 < 0 {
                            -1
                        } else {
                            let t6 = ws_end(s, p5);
                            if keyword::semicolon_at(s, t6) {
                                t6 + 1
                            } else {
                                -1
                            }
                        }
                    },
                    None => -1,
                }
            }
        }
    }
}

/// The assignment a well-formed assignment text parses to: its four
/// fields, read off the component positions.
pub open spec fn assignment_parses_to(s: Seq<char>, from: int, a: Assignment) -> bool {
    let p1 = variable_end(s, from);
    let p2 = keyword::assign_end(s, ws_end(s, p1));
    let t3 = ws_end(s, p2);
    let p3 = variable_end(s, t3);
    &&& p1 >= 0
    &&& a.destination.name@ == s.subrange(from, p1)
    &&& p2 >= 0
    &&& p3 >= 0
    &&& a.left_hand_side.name@ == s.subrange(t3, p3)
    &&& match op_token(s, ws_end(s, p3)) {
        Some(pe) => {
            let t5 = ws_end(s, pe.0);
            let p5 = constant_end(s, t5);
            &&& a.operation == pe.1
            &&& p5 >= 0
            &&& a.right_hand_side.value as int == digits_val(s, t5, p5)
        },
        None => false,
    }
}

impl Assignment {
    /// Parse an assignment: destination, `=`, source variable, operation,
    /// constant, `;`.
    pub fn parse(input: &str, from: usize) -> (r: Option<(usize, Self)>)
        requires
            from <= input@.len(),
        ensures
            match r {
                Some((p, a)) => {
                    &&& from < p <= input@.len()
                    &&& p as int == assignment_end(input@, from as int)
                    &&& assignment_parses_to(input@, from as int, a)
                },
                None => assignment_end(input@, from as int) < 0,
            },
    {
        let (p1, destination) = match Variable::parse(input, from) {
            Some(x) => x,
            None => return None,
        };
        let p2 = match keyword::Assign::parse_ws(input, p1) {
            Some((p, _)) => p,
            None => return None,
        };
        let (p3, left_hand_side) = match Variable::parse_ws(input, p2) {
            Some(x) => x,
            None => return None,
        };
        let (p4, operation) = match Operation::parse_ws(input, p3) {
            Some(x) => x,
            None => return None,
        };
        let (p5, right_hand_side) = match Constant::parse_ws(input, p4) {
            Some(x) => x,
            None => return None,
        };
        let p6 = match keyword::Semicolon::parse_ws(input, p5) {
            Some((p, _)) => p,
            None => return None,
        };
        Some((p6, Assignment { destination, left_hand_side, operation, right_hand_side }))
    }

    /// Parse an assignment after optional whitespace.
    pub fn parse_ws(input: &str, from: usize) -> (r: Option<(usize, Self)>)
        requires
            from <= input@.len(),
        ensures
            match r {
                Some((p, a)) => {
                    &&& from < p <= input@.len()
                    &&& p as int == assignment_end(input@, ws_end(input@, from as int))
                    &&& assignment_parses_to(input@, ws_end(input@, from as int), a)
                },
                None => assignment_end(input@, ws_end(input@, from as int)) < 0,
            },
    {
        let start = skip_ws(input, from);
        Self::parse(input, start)
    }
}

/// Where the loop statement standing at `from` ends: `LOOP`, the counter
/// variable, `DO`, a statement run, `END`; negative where the shape
/// breaks off. The guards on the body position bound the recursion; a
/// well-formed prefix always satisfies them.
pub open spec fn loop_end(s: Seq<char>, from: int) -> int
    decreases s.len() - from, 0nat,
{
    if !keyword::loop_at(s, from) {
        -1
    } else {
        let p1 = variable_end(s, ws_end(s, from + 4));
        if p1 < 0 {
            -1
        } else {
            let t2 = ws_end(s, p1);
            if !keyword::do_at(s, t2) {
                -1
            } else {
                let bf = t2 + 2;
                if bf <= from || bf > s.len() {
                    -1
                } else {
                    let t4 = ws_end(s, ast_end(s, bf));
                    if keyword::end_at(s, t4) {
                        t4 + 3
                    } else {
                        -1
                    }
                }
            }
        }
    }
}

/// Where the conditional statement standing at `from` ends: `IF`, the
/// tested variable, the condition, `DO`, a statement run, `END`; negative
/// where the shape breaks off.
pub open spec fn if_end(s: Seq<char>, from: int) -> int
    decreases s.len() - from, 0nat,
{
    if !keyword::if_at(s, from) {
        -1
    } else {
        let p1 = variable_end(s, ws_end(s, from + 2));
        if p1 < 0 {
            -1
        } else {
            let ce = condition_end(s, ws_end(s, p1));
            if ce < 0 {
                -1
            } else {
                let t3 = ws_end(s, ce);
                if !keyword::do_at(s, t3) {
                    -1
                } else {
                    let bf = t3 + 2;
                    if bf <= from || bf > s.len() {
                        -1
                    } else {
                        let t5 = ws_end(s, ast_end(s, bf));
                        if keyword::end_at(s, t5) {
                            t5 + 3
                        } else {
                            -1
                        }
                    }
                }
            }
        }
    }
}

/// Where the statement standing at `from` ends: it is read as an
/// assignment first, else as a loop, else as a conditional; negative
/// where none of the three stands there.
pub open spec fn statement_end(s: Seq<char>, from: int) -> int
    decreases s.len() - from, 1nat,
{
    if assignment_end(s, from) >= 0 {
        assignment_end(s, from)
    } else if loop_end(s, from) >= 0 {
        loop_end(s, from)
    } else {
        if_end(s, from)
    }
}

/// Where the statement run standing at `from` stops: after the last
/// well-formed, whitespace-led statement; `from` itself where none
/// stands there.
pub open spec fn ast_end(s: Seq<char>, from: int) -> int
    decreases s.len() - from, 2nat,
{
    let t = ws_end(s, from);
    if t < from || t > s.len() {
        from
    } else {
        let e = statement_end(s, t);
        if e <= from || e > s.len() {
            from
        } else {
            ast_end(s, e)
        }
    }
}

/// The loop a well-formed loop text parses to: the counter's name and
/// the body's statement run.
pub open spec fn loop_parses_to(s: Seq<char>, from: int, l: Loop) -> bool
    decreases s.len() - from, 0nat,
{
    let t1 = ws_end(s, from + 4);
    let p1 = variable_end(s, t1);
    let t2 = ws_end(s, p1);
    let bf = t2 + 2;
    &&& keyword::loop_at(s, from)
    &&& p1 >= 0
    &&& l.counter.name@ == s.subrange(t1, p1)
    &&& keyword::do_at(s, t2)
    &&& bf > from
    &&& bf <= s.len()
    &&& ast_parses_to(s, bf, l.instruction.statements@)
}

/// The conditional a well-formed conditional text parses to: the tested
/// variable's name, the condition, and the body's statement run.
pub open spec fn if_parses_to(s: Seq<char>, from: int, f: If) -> bool
    decreases s.len() - from, 0nat,
{
    let t1 = ws_end(s, from + 2);
    let p1 = variable_end(s, t1);
    let t2 = ws_end(s, p1);
    let ce = condition_end(s, t2);
    let t3 = ws_end(s, ce);
    let bf = t3 + 2;
    &&& keyword::if_at(s, from)
    &&& p1 >= 0
    &&& f.variable.name@ == s.subrange(t1, p1)
    &&& ce >= 0
    &&& condition_parses_to(s, t2, f.condition)
    &&& keyword::do_at(s, t3)
    &&& bf > from
    &&& bf <= s.len()
    &&& ast_parses_to(s, bf, f.instructions.statements@)
}

/// The statement a well-formed statement text parses to: the variant
/// follows which of the three forms stands there, assignment before loop
/// before conditional.
pub open spec fn statement_parses_to(s: Seq<char>, from: int, st: Statement) -> bool
    decreases s.len() - from, 1nat,
{
    if assignment_end(s, from) >= 0 {
        st matches Statement::Assignment(a) && assignment_parses_to(s, from, a)
    } else if loop_end(s, from) >= 0 {
        st matches Statement::Loop(l) && loop_parses_to(s, from, l)
    } else if if_end(s, from) >= 0 {
        st matches Statement::If(f) && if_parses_to(s, from, f)
    } else {
        false
    }
}

/// The statement list a text region parses to: each statement after
/// optional whitespace, in order, as far as well-formed statements stand.
pub open spec fn ast_parses_to(s: Seq<char>, from: int, stmts: Seq<Statement>) -> bool
    decreases s.len() - from, 2nat,
{
    let t = ws_end(s, from);
    if t < from || t > s.len() {
        stmts.len() == 0
    } else {
        let e = statement_end(s, t);
        if e <= from || e > s.len() {
            stmts.len() == 0
        } else {
            &&& stmts.len() > 0
            &&& statement_parses_to(s, t, stmts[0])
            &&& ast_parses_to(s, e, stmts.drop_first())
        }
    }
}

impl Loop {
    /// Parse a loop: `LOOP`, the counter variable, `DO`, the body, `END`.
    pub fn parse(input: &str, from: usize) -> (r: Option<(usize, Self)>)
        requires
            from <= input@.len(),
        ensures
            match r {
                Some((p, l)) => {
                    &&& from < p <= input@.len()
                    &&& p as int == loop_end(input@, from as int)
                    &&& loop_parses_to(input@, from as int, l)
                },
                None => loop_end(input@, from as int) < 0,
            },
        decreases input@.len() - from, 0nat,
    {
        let p1 = match keyword::Loop::parse(input, from) {
            Some((p, _)) => p,
            None => return None,
        };
        let (p2, counter) = match Variable::parse_ws(input, p1) {
            Some(x) => x,
            None => return None,
        };
        let p3 = match keyword::Do::parse_ws(input, p2) {
            Some((p, _)) => p,
            None => return None,
        };
        let (p4, instruction) = match Ast::parse(input, p3) {
            Some(x) => x,
            None => return None,
        };
        let p5 = match keyword::End::parse_ws(input, p4) {
            Some((p, _)) => p,
            None => return None,
        };
        Some((p5, Loop { counter, instruction }))
    }
}

impl If {
    /// Parse a conditional: `IF`, the tested variable, the condition, `DO`,
    /// the body, `END`.
    pub fn parse(input: &str, from: usize) -> (r: Option<(usize, Self)>)
        requires
            from <= input@.len(),
        ensures
            match r {
                Some((p, f)) => {
                    &&& from < p <= input@.len()
                    &&& p as int == if_end(input@, from as int)
                    &&& if_parses_to(input@, from as int, f)
                },
                None => if_end(input@, from as int) < 0,
            },
        decreases input@.len() - from, 0nat,
    {
        let p1 = match keyword::If::parse(input, from) {
            Some((p, _)) => p,
            None => return None,
        };
        let (p2, variable) = match Variable::parse_ws(input, p1) {
            Some(x) => x,
            None => return None,
        };
        let (p3, condition) = match Condition::parse_ws(input, p2) {
            Some(x) => x,
            None => return None,
        };
        let p4 = match keyword::Do::parse_ws(input, p3) {
            Some((p, _)) => p,
            None => return None,
        };
        let (p5, instructions) = match Ast::parse(input, p4) {
            Some(x) => x,
            None => return None,
        };
        let p6 = match keyword::End::parse_ws(input, p5) {
            Some((p, _)) => p,
            None => return None,
        };
        Some((p6, If { variable, condition, instructions }))
    }
}

impl Statement {
    /// Parse one statement: an assignment, a loop or a conditional.
    pub fn parse(input: &str, from: usize) -> (r: Option<(usize, Self)>)
        requires
            from <= input@.len(),
        ensures
            match r {
                Some((p, st)) => {
                    &&& from < p <= input@.len()
                    &&& p as int == statement_end(input@, from as int)
                    &&& statement_parses_to(input@, from as int, st)
                },
                None => statement_end(input@, from as int) < 0,
            },
        decreases input@.len() - from, 1nat,
    {
        if let Some((p, a)) = Assignment::parse(input, from) {
            return Some((p, Statement::Assignment(a)));
        }
        if let Some((p, l)) = Loop::parse(input, from) {
            return Some((p, Statement::Loop(l)));
        }
        if let Some((p, f)) = If::parse(input, from) {
            return Some((p, Statement::If(f)));
        }
        None
    }

    /// Parse one statement after optional whitespace.
    pub fn parse_ws(input: &str, from: usize) -> (r: Option<(usize, Self)>)
        requires
            from <= input@.len(),
        ensures
            match r {
                Some((p, st)) => {
                    &&& from < p <= input@.len()
                    &&& p as int == statement_end(input@, ws_end(input@, from as int))
                    &&& statement_parses_to(input@, ws_end(input@, from as int), st)
                },
                None => statement_end(input@, ws_end(input@, from as int)) < 0,
            },
        decreases input@.len() - from, 2nat,
    {
        let start = skip_ws(input, from);
        Self::parse(input, start)
    }
}

impl Ast {
    /// Parse a statement sequence: as many whitespace-led statements as
    /// stand there, in order. Never fails; text it cannot read is left
    /// unconsumed, and the position stops after the last statement read.
    pub fn parse(input: &str, from: usize) -> (r: Option<(usize, Self)>)
        requires
            from <= input@.len(),
        ensures
            r matches Some((p, ast)) && from <= p <= input@.len() && p as int == ast_end(
                input@,
                from as int,
            ) && ast_parses_to(input@, from as int, ast.statements@),
        decreases input@.len() - from, 3nat,
    {
        let ghost s = input@;
        proof {
            crate::parse::lemma_ws_end_bounds(s, from as int);
        }
        match Statement::parse_ws(input, from) {
            None => {
                proof {
                    assert(ast_end(s, from as int) == from as int);
                    assert(ast_parses_to(s, from as int, Seq::<Statement>::empty()));
                }
                Some((from, Ast { statements: Vec::new() }))
            },
            Some((p, st)) => {
                match Ast::parse(input, p) {
                    Some((p2, tail)) => {
                        let Ast { statements: tail_stmts } = tail;
                        let ghost tail_view = tail_stmts@;
                        let mut statements = tail_stmts;
                        statements.insert(0, st);
                        proof {
                            assert(statements@.drop_first() =~= tail_view);
                            assert(statements@[0] == st);
                            assert(ast_end(s, from as int) == ast_end(s, p as int));
                            assert(ast_parses_to(s, from as int, statements@));
                        }
                        Some((p2, Ast { statements }))
                    },
                    None => unreached(),
                }
            },
        }
    }

    /// Parse a statement sequence after optional whitespace.
    pub fn parse_ws(input: &str, from: usize) -> (r: Option<(usize, Self)>)
        requires
            from <= input@.len(),
        ensures
            r matches Some((p, ast)) && from <= p <= input@.len() && p as int == ast_end(
                input@,
                ws_end(input@, from as int),
            ) && ast_parses_to(input@, ws_end(input@, from as int), ast.statements@),
        decreases input@.len() - from, 4nat,
    {
        let start = skip_ws(input, from);
        Self::parse(input, start)
    }
}

} // verus!

//! The intermediate representation: pure data describing a program of the
//! counter language, together with the spec-level notions the rest of the
//! crate is stated over (instruction sizes, the set of referenced variable
//! names, and well-formedness of a whole program).

use vstd::prelude::*;

verus! {

/// A lowered program: the deduplicated, name-ordered list of every variable
/// the instructions mention, and the top-level instruction sequence.
pub struct Program {
    pub variables: Vec<String>,
    pub instructions: Vec<Instruction>,
}

/// One IR instruction: an arithmetic assignment, a conditional with a body
/// and no else branch, or a loop whose iteration count is evaluated once on
/// entry.
pub enum Instruction {
    Assign { to: String, expr: Expr },
    If { condition: Expr, body: Vec<Instruction> },
    Loop { times: Value, body: Vec<Instruction> },
}

/// A binary expression over two operands.
pub struct Expr {
    pub left: Value,
    pub right: Value,
    pub op: Operation,
}

/// The operations of the language. `Modulo` is part of the surface syntax
/// but has no code-generation rule; the JIT engine rejects it.
#[derive(Clone, Copy, PartialEq, Eq, Structural, Debug)]
pub enum Operation {
    Plus,
    Minus,
    Times,
    Divided,
    Modulo,
    Equal,
    NotEqual,
}

/// An operand: a variable read or an integer literal.
pub enum Value {
    Variable(String),
    Constant(i64),
}

/// Structural size of one instruction; a positive measure for recursion
/// over instruction trees.
pub open spec fn instr_size(i: Instruction) -> nat
    decreases i,
{
    match i {
        Instruction::Assign { .. } => 1,
        Instruction::If { condition: _, body } => 1 + instrs_size(body@),
        Instruction::Loop { times: _, body } => 1 + instrs_size(body@),
    }
}

/// Structural size of an instruction sequence.
pub open spec fn instrs_size(l: Seq<Instruction>) -> nat
    decreases l,
{
    if l.len() == 0 {
        0
    } else {
        instr_size(l[0]) + instrs_size(l.drop_first())
    }
}

/// The variable names a value mentions: one name for a variable read, none
/// for a literal.
pub open spec fn value_vars(v: Value) -> Set<Seq<char>> {
    match v {
        Value::Variable(name) => set![name@],
        Value::Constant(_) => Set::empty(),
    }
}

/// The variable names an expression mentions.
pub open spec fn expr_vars(e: Expr) -> Set<Seq<char>> {
    value_vars(e.left).union(value_vars(e.right))
}

/// The variable names one instruction mentions, gathered by a full
/// traversal: assignment targets, expression operands, loop counts and
/// condition operands, and everything inside nested bodies.
pub open spec fn instr_vars(i: Instruction) -> Set<Seq<char>>
    decreases i,
{
    match i {
        Instruction::Assign { to, expr } => set![to@].union(expr_vars(expr)),
        Instruction::If { condition, body } => expr_vars(condition).union(instrs_vars(body@)),
        Instruction::Loop { times, body } => value_vars(times).union(instrs_vars(body@)),
    }
}

/// The variable names an instruction sequence mentions.
pub open spec fn instrs_vars(l: Seq<Instruction>) -> Set<Seq<char>>
    decreases l,
{
    if l.len() == 0 {
        Set::empty()
    } else {
        instr_vars(l[0]).union(instrs_vars(l.drop_first()))
    }
}

/// Splitting one instruction off the front of a suffix: the mentioned
/// names and the sizes decompose.
pub proof fn lemma_suffix_vars(l: Seq<Instruction>, i: int)
    requires
        0 <= i < l.len(),
    ensures
        instrs_vars(l.subrange(i, l.len() as int)) == instr_vars(l[i]).union(
            instrs_vars(l.subrange(i + 1, l.len() as int)),
        ),
        instrs_size(l.subrange(i, l.len() as int)) == instr_size(l[i]) + instrs_size(
            l.subrange(i + 1, l.len() as int),
        ),
{
    let s = l.subrange(i, l.len() as int);
    assert(s[0] == l[i]);
    assert(s.drop_first() =~= l.subrange(i + 1, l.len() as int));
}

/// Whether a value only reads variables that are declared.
pub open spec fn value_declared(v: Value, declared: Seq<Seq<char>>) -> bool {
    match v {
        Value::Variable(name) => declared.contains(name@),
        Value::Constant(_) => true,
    }
}

/// Whether an expression only reads variables that are declared.
pub open spec fn expr_declared(e: Expr, declared: Seq<Seq<char>>) -> bool {
    value_declared(e.left, declared) && value_declared(e.right, declared)
}

/// Whether an instruction references only declared variables: its target,
/// its operands, its loop count and everything inside nested bodies.
pub open spec fn instr_declared(i: Instruction, declared: Seq<Seq<char>>) -> bool
    decreases i,
{
    match i {
        Instruction::Assign { to, expr } => declared.contains(to@) && expr_declared(expr, declared),
        Instruction::If { condition, body } => expr_declared(condition, declared)
            && instrs_declared(body@, declared),
        Instruction::Loop { times, body } => value_declared(times, declared) && instrs_declared(
            body@,
            declared,
        ),
    }
}

/// `instr_declared` over a sequence.
pub open spec fn instrs_declared(l: Seq<Instruction>, declared: Seq<Seq<char>>) -> bool
    decreases l,
{
    if l.len() == 0 {
        true
    } else {
        instr_declared(l[0], declared) && instrs_declared(l.drop_first(), declared)
    }
}

/// Whether no `Modulo` operation stands anywhere in an instruction, the
/// condition under which code generation is defined.
pub open spec fn instr_modfree(i: Instruction) -> bool
    decreases i,
{
    match i {
        Instruction::Assign { to: _, expr } => expr.op != Operation::Modulo,
        Instruction::If { condition, body } => condition.op != Operation::Modulo && instrs_modfree(
            body@,
        ),
        Instruction::Loop { times: _, body } => instrs_modfree(body@),
    }
}

/// `instr_modfree` over a sequence.
pub open spec fn instrs_modfree(l: Seq<Instruction>) -> bool
    decreases l,
{
    if l.len() == 0 {
        true
    } else {
        instr_modfree(l[0]) && instrs_modfree(l.drop_first())
    }
}

/// The declared names of a variable list, as mathematical sequences of
/// characters.
pub open spec fn var_names(vars: Seq<String>) -> Seq<Seq<char>> {
    vars.map_values(|s: String| s@)
}

/// The declared names of a program.
pub open spec fn declared_names(p: Program) -> Seq<Seq<char>> {
    var_names(p.variables@)
}

/// A program the JIT engine accepts: every referenced variable is declared
/// and no `Modulo` reaches code generation. Lowering establishes the first
/// condition for every program it builds.
pub open spec fn program_ok(p: Program) -> bool {
    instrs_declared(p.instructions@, declared_names(p)) && instrs_modfree(p.instructions@)
}

/// An instruction whose mentioned names all stand in `d` references only
/// declared variables.
proof fn lemma_instr_vars_imply_declared(ins: Instruction, d: Seq<Seq<char>>)
    requires
        forall|x: Seq<char>| instr_vars(ins).contains(x) ==> d.contains(x),
    ensures
        instr_declared(ins, d),
    decreases instr_size(ins), 0nat,
{
    match ins {
        Instruction::Assign { to, expr } => {
            assert(instr_vars(ins).contains(to@));
            lemma_expr_vars_imply_declared(expr, instr_vars(ins), d);
        },
        Instruction::If { condition, body } => {
            lemma_expr_vars_imply_declared(condition, instr_vars(ins), d);
            lemma_instrs_vars_imply_declared(body@, d);
        },
        Instruction::Loop { times, body } => {
            match times {
                Value::Variable(name) => {
                    assert(instr_vars(ins).contains(name@));
                },
                Value::Constant(_) => {},
            }
            lemma_instrs_vars_imply_declared(body@, d);
        },
    }
}

/// Both operands of an expression whose names all stand inside a covered
/// set are declared.
proof fn lemma_expr_vars_imply_declared(e: Expr, cover: Set<Seq<char>>, d: Seq<Seq<char>>)
    requires
        expr_vars(e).subset_of(cover),
        forall|x: Seq<char>| cover.contains(x) ==> d.contains(x),
    ensures
        expr_declared(e, d),
{
    match e.left {
        Value::Variable(name) => {
            assert(expr_vars(e).contains(name@));
        },
        Value::Constant(_) => {},
    }
    match e.right {
        Value::Variable(name) => {
            assert(expr_vars(e).contains(name@));
        },
        Value::Constant(_) => {},
    }
}

/// `lemma_instr_vars_imply_declared`, over a sequence.
proof fn lemma_instrs_vars_imply_declared(l: Seq<Instruction>, d: Seq<Seq<char>>)
    requires
        forall|x: Seq<char>| instrs_vars(l).contains(x) ==> d.contains(x),
    ensures
        instrs_declared(l, d),
    decreases instrs_size(l), 1nat,
{
    if l.len() > 0 {
        assert(instr_size(l[0]) >= 1);
        lemma_instr_vars_imply_declared(l[0], d);
        lemma_instrs_vars_imply_declared(l.drop_first(), d);
    }
}

/// The invariant lowering establishes and the JIT engine relies on: a
/// program whose declared set is exactly the set of names its instructions
/// mention references only declared variables.
pub proof fn lemma_lowered_declared(p: Program)
    requires
        var_names(p.variables@).to_set() == instrs_vars(p.instructions@),
    ensures
        instrs_declared(p.instructions@, declared_names(p)),
{
    assert forall|x: Seq<char>| instrs_vars(p.instructions@).contains(x) implies declared_names(
        p,
    ).contains(x) by {
        assert(var_names(p.variables@).to_set().contains(x));
    }
    lemma_instrs_vars_imply_declared(p.instructions@, declared_names(p));
}

} // verus!

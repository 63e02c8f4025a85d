//! The reference evaluator: walks a syntax tree directly, over a scope
//! that maps variable names to unsigned values, every variable starting
//! at 0.
//!
//! Its mathematical model is a partial function: evaluation that would
//! overflow the unsigned word, underflow below zero, or divide by zero has
//! no result. `try_eval` is total and reports the missing result as
//! `None`; `eval` requires the model to be defined and hands the scope
//! back directly. Note one quirk kept from the reference behaviour: a not-equal
//! condition is evaluated with the same equality test as an equal
//! condition. The JIT engine distinguishes the two; the code generator's
//! semantics is the authoritative one.

use vstd::prelude::*;

use crate::parse::ast::Assignment;
use crate::parse::ast::Ast;
use crate::parse::ast::Condition;
use crate::parse::ast::If;
use crate::parse::ast::Loop;
use crate::parse::ast::Operation;
use crate::parse::ast::Statement;
use crate::parse::ast::stmt_size;
use crate::parse::ast::stmts_size;
use crate::parse::ast::lemma_stmt_size_le;
use vstd::pervasive::unreached;

verus! {

/// A scope: variable names and their values. A newer entry for a name
/// shadows an older one.
pub struct Scope {
    pub entries: Vec<(String, u64)>,
}

/// The map a list of entries denotes; entries nearer the front win.
pub open spec fn entries_map(l: Seq<(String, u64)>) -> Map<Seq<char>, u64>
    decreases l.len(),
{
    if l.len() == 0 {
        Map::empty()
    } else {
        entries_map(l.drop_first()).insert(l[0].0@, l[0].1)
    }
}

impl View for Scope {
    type V = Map<Seq<char>, u64>;

    open spec fn view(&self) -> Map<Seq<char>, u64> {
        entries_map(self.entries@)
    }
}

/// The value of a name in a scope: its entry, or 0 if it has none.
pub open spec fn scope_get(m: Map<Seq<char>, u64>, k: Seq<char>) -> u64 {
    if m.dom().contains(k) {
        m[k]
    } else {
        0
    }
}

/// Entries before position `i` that do not hold the key leave the denoted
/// value of that key to the entries from `i` on.
proof fn lemma_entries_skip(l: Seq<(String, u64)>, i: int, k: Seq<char>)
    requires
        0 <= i <= l.len(),
        forall|j: int| 0 <= j < i ==> l[j].0@ != k,
    ensures
        scope_get(entries_map(l), k) == scope_get(
            entries_map(l.subrange(i, l.len() as int)),
            k,
        ),
        entries_map(l).dom().contains(k) == entries_map(
            l.subrange(i, l.len() as int),
        ).dom().contains(k),
    decreases i,
{
    if i == 0 {
        assert(l.subrange(0, l.len() as int) =~= l);
    } else {
        lemma_entries_skip(l, i - 1, k);
        let s = l.subrange(i - 1, l.len() as int);
        assert(s[0] == l[i - 1]);
        assert(s.drop_first() =~= l.subrange(i, l.len() as int));
    }
}

impl Scope {
    /// The empty scope.
    pub fn new() -> (r: Scope)
        ensures
            r@ == Map::<Seq<char>, u64>::empty(),
    {
        Scope { entries: Vec::new() }
    }

    /// The value of a name: its entry, or 0 if it has none.
    pub fn get(&self, name: &String) -> (r: u64)
        ensures
            r == scope_get(self@, name@),
    {
        let n = self.entries.len();
        let mut i: usize = 0;
        while i < n
            invariant
                i <= n,
                n == self.entries@.len(),
                forall|j: int| 0 <= j < i ==> self.entries@[j].0@ != name@,
            decreases n - i,
        {
            let e: &(String, u64) = &self.entries[i];
            if e.0.eq(name) {
                proof {
                    lemma_entries_skip(self.entries@, i as int, name@);
                    let s = self.entries@.subrange(i as int, self.entries@.len() as int);
                    assert(s[0] == self.entries@[i as int]);
                }
                return e.1;
            }
            i += 1;
        }
        proof {
            lemma_entries_skip(self.entries@, n as int, name@);
            assert(self.entries@.subrange(n as int, self.entries@.len() as int).len() == 0);
        }
        0
    }

    /// Bind a name to a value, shadowing any earlier binding.
    pub fn insert(&mut self, name: String, value: u64)
        ensures
            final(self)@ == old(self)@.insert(name@, value),
    {
        let ghost before = self.entries@;
        self.entries.insert(0, (name, value));
        proof {
            assert(self.entries@.drop_first() =~= before);
        }
    }

    /// The bound names and their values, newest binding first.
    pub fn entries(&self) -> (r: &Vec<(String, u64)>)
        ensures
            entries_map(r@) == self@,
    {
        &self.entries
    }
}

/// The model of one assignment: read the left variable, apply the
/// operation to it and the constant, and bind the destination; no result
/// if the unsigned arithmetic has none.
pub open spec fn eval_assignment_spec(code: Assignment, m: Map<Seq<char>, u64>) -> Option<
    Map<Seq<char>, u64>,
> {
    let l = scope_get(m, code.left_hand_side.name@);
    let r = code.right_hand_side.value;
    let dest = code.destination.name@;
    match code.operation {
        Operation::Add => if l + r <= u64::MAX {
            Some(m.insert(dest, (l + r) as u64))
        } else {
            None
        },
        Operation::Sub => if r <= l {
            Some(m.insert(dest, (l - r) as u64))
        } else {
            None
        },
        Operation::Mul => if l * r <= u64::MAX {
            Some(m.insert(dest, (l * r) as u64))
        } else {
            None
        },
        Operation::Div => if r != 0 {
            Some(m.insert(dest, l / r))
        } else {
            None
        },
        Operation::Mod => if r != 0 {
            Some(m.insert(dest, l % r))
        } else {
            None
        },
    }
}

/// The model of one conditional: both condition forms test the variable
/// for equality with the constant, as the reference behaviour does.
pub open spec fn eval_if_spec(code: If, m: Map<Seq<char>, u64>) -> Option<Map<Seq<char>, u64>>
    decreases code.instructions.statements@, 0nat, 2nat,
{
    let l = scope_get(m, code.variable.name@);
    let cond = match code.condition {
        Condition::Eq(c) => l == c.value,
        Condition::Neq(c) => l == c.value,
    };
    if cond {
        eval_stmts_spec(code.instructions.statements@, m)
    } else {
        Some(m)
    }
}

/// The model of one loop: the count is the counter variable's value when
/// the loop is reached, and the body runs that many times.
pub open spec fn eval_loop_spec(code: Loop, m: Map<Seq<char>, u64>) -> Option<Map<Seq<char>, u64>>
    decreases code.instruction.statements@, scope_get(m, code.counter.name@), 3nat,
{
    eval_loop_iter(code.instruction.statements@, m, scope_get(m, code.counter.name@))
}

/// Run a statement list `n` times.
pub open spec fn eval_loop_iter(body: Seq<Statement>, m: Map<Seq<char>, u64>, n: u64) -> Option<
    Map<Seq<char>, u64>,
>
    decreases body, n, 2nat,
{
    if n == 0 {
        Some(m)
    } else {
        match eval_stmts_spec(body, m) {
            Some(m2) => eval_loop_iter(body, m2, (n - 1) as u64),
            None => None,
        }
    }
}

/// The model of one statement.
pub open spec fn eval_stmt_spec(s: Statement, m: Map<Seq<char>, u64>) -> Option<
    Map<Seq<char>, u64>,
>
    decreases s, 0nat, 0nat,
{
    match s {
        Statement::Assignment(a) => eval_assignment_spec(a, m),
        Statement::If(f) => eval_if_spec(f, m),
        Statement::Loop(lp) => eval_loop_spec(lp, m),
    }
}

/// The model of a statement list, first to last.
pub open spec fn eval_stmts_spec(l: Seq<Statement>, m: Map<Seq<char>, u64>) -> Option<
    Map<Seq<char>, u64>,
>
    decreases l, 0nat, 1nat,
{
    if l.len() == 0 {
        Some(m)
    } else {
        match eval_stmt_spec(l[0], m) {
            Some(m2) => eval_stmts_spec(l.drop_first(), m2),
            None => None,
        }
    }
}

/// Splitting the first statement off a suffix of the statement list.
proof fn lemma_eval_suffix(l: Seq<Statement>, i: int, m: Map<Seq<char>, u64>)
    requires
        0 <= i < l.len(),
    ensures
        eval_stmts_spec(l.subrange(i, l.len() as int), m) == (match eval_stmt_spec(l[i], m) {
            Some(m2) => eval_stmts_spec(l.subrange(i + 1, l.len() as int), m2),
            None => None,
        }),
        stmt_size(l[i]) <= stmts_size(l.subrange(i, l.len() as int)),
        stmts_size(l.subrange(i + 1, l.len() as int)) < stmts_size(l.subrange(i, l.len() as int)),
{
    let s = l.subrange(i, l.len() as int);
    assert(s[0] == l[i]);
    assert(s.drop_first() =~= l.subrange(i + 1, l.len() as int));
    lemma_stmt_size_le(s, 0);
}

/// Evaluate a syntax tree over a scope, statement by statement,
/// reporting `None` exactly where the model has no result: the total
/// form of `eval`, and the executable test for its precondition.
pub fn try_eval(code: &Ast, scope: Scope) -> (r: Option<Scope>)
    ensures
        match eval_stmts_spec(code.statements@, scope@) {
            Some(m) => r matches Some(sc) && sc@ == m,
            None => r is None,
        },
    decreases stmts_size(code.statements@), 1nat,
{
    let ghost l = code.statements@;
    let ghost m0 = scope@;
    let mut cur = scope;
    let n = code.statements.len();
    let mut i: usize = 0;
    proof {
        assert(l.subrange(0, l.len() as int) =~= l);
    }
    while i < n
        invariant
            i <= n,
            n == l.len(),
            l == code.statements@,
            m0 == scope@,
            eval_stmts_spec(l, m0) == eval_stmts_spec(l.subrange(i as int, l.len() as int), cur@),
        decreases n - i,
    {
        let ghost before = cur@;
        proof {
            lemma_eval_suffix(l, i as int, before);
            lemma_stmt_size_le(l, i as int);
        }
        let st: &Statement = &code.statements[i];
        let step = match st {
            Statement::If(f) => try_eval_if(f, cur),
            Statement::Loop(lp) => try_eval_loop(lp, cur),
            Statement::Assignment(a) => try_eval_assignment(a, cur),
        };
        match step {
            Some(next) => {
                cur = next;
            },
            None => {
                proof {
                    assert(eval_stmt_spec(l[i as int], before) is None);
                    assert(eval_stmts_spec(l, m0) is None);
                }
                return None;
            },
        }
        i += 1;
    }
    proof {
        assert(l.subrange(n as int, l.len() as int).len() == 0);
    }
    Some(cur)
}

/// Evaluate one assignment, reporting `None` where the unsigned
/// arithmetic has no result.
pub fn try_eval_assignment(code: &Assignment, scope: Scope) -> (r: Option<Scope>)
    ensures
        match eval_assignment_spec(*code, scope@) {
            Some(m) => r matches Some(sc) && sc@ == m,
            None => r is None,
        },
{
    let l = scope.get(&code.left_hand_side.name);
    let rhs = code.right_hand_side.value;
    let value = match code.operation {
        Operation::Add => l.checked_add(rhs),
        Operation::Sub => l.checked_sub(rhs),
        Operation::Mul => l.checked_mul(rhs),
        Operation::Div => if rhs != 0 {
            Some(l / rhs)
        } else {
            None
        },
        Operation::Mod => if rhs != 0 {
            Some(l % rhs)
        } else {
            None
        },
    };
    match value {
        Some(v) => {
            let mut scope = scope;
            scope.insert(code.destination.name.clone(), v);
            Some(scope)
        },
        None => None,
    }
}

/// Evaluate one conditional, totally. Both condition forms test for
/// equality, as the reference behaviour does.
pub fn try_eval_if(code: &If, scope: Scope) -> (r: Option<Scope>)
    ensures
        match eval_if_spec(*code, scope@) {
            Some(m) => r matches Some(sc) && sc@ == m,
            None => r is None,
        },
    decreases stmts_size(code.instructions.statements@), 2nat,
{
    let l = scope.get(&code.variable.name);
    let condition = match &code.condition {
        Condition::Eq(c) => l == c.value,
        Condition::Neq(c) => l == c.value,
    };
    if condition {
        try_eval(&code.instructions, scope)
    } else {
        Some(scope)
    }
}

/// Evaluate one loop, totally: read the count once, then run the body
/// that many times, stopping at the first step with no result.
#[verifier::loop_isolation(false)]
pub fn try_eval_loop(code: &Loop, scope: Scope) -> (r: Option<Scope>)
    ensures
        match eval_loop_spec(*code, scope@) {
            Some(m) => r matches Some(sc) && sc@ == m,
            None => r is None,
        },
    decreases stmts_size(code.instruction.statements@), 2nat,
{
    let counter = scope.get(&code.counter.name);
    let ghost body = code.instruction.statements@;
    let ghost m0 = scope@;
    let mut cur = scope;
    let mut j: u64 = 0;
    while j < counter
        invariant
            j <= counter,
            body == code.instruction.statements@,
            eval_loop_iter(body, m0, counter) == eval_loop_iter(body, cur@, (counter - j) as u64),
        decreases counter - j,
    {
        let ghost before = cur@;
        match try_eval(&code.instruction, cur) {
            Some(next) => {
                cur = next;
            },
            None => {
                proof {
                    assert(eval_stmts_spec(body, before) is None);
                    assert(eval_loop_iter(body, before, (counter - j) as u64) is None);
                    assert(eval_loop_iter(body, m0, counter) is None);
                }
                return None;
            },
        }
        j += 1;
    }
    Some(cur)
}

/// Evaluate a syntax tree over a scope, statement by statement. The
/// precondition demands that the model has a result; `try_eval` is its
/// executable test.
pub fn eval(code: &Ast, scope: Scope) -> (r: Scope)
    requires
        eval_stmts_spec(code.statements@, scope@) is Some,
    ensures
        r@ == eval_stmts_spec(code.statements@, scope@).unwrap(),
{
    match try_eval(code, scope) {
        Some(sc) => sc,
        None => unreached(),
    }
}

/// Evaluate one assignment; the model must have a result.
pub fn eval_assignment(code: &Assignment, scope: Scope) -> (r: Scope)
    requires
        eval_assignment_spec(*code, scope@) is Some,
    ensures
        r@ == eval_assignment_spec(*code, scope@).unwrap(),
{
    match try_eval_assignment(code, scope) {
        Some(sc) => sc,
        None => unreached(),
    }
}

/// Evaluate one conditional; the model must have a result. Both
/// condition forms test for equality, as the reference behaviour does.
pub fn eval_if(code: &If, scope: Scope) -> (r: Scope)
    requires
        eval_if_spec(*code, scope@) is Some,
    ensures
        r@ == eval_if_spec(*code, scope@).unwrap(),
{
    match try_eval_if(code, scope) {
        Some(sc) => sc,
        None => unreached(),
    }
}

/// Evaluate one loop; the model must have a result.
pub fn eval_loop(code: &Loop, scope: Scope) -> (r: Scope)
    requires
        eval_loop_spec(*code, scope@) is Some,
    ensures
        r@ == eval_loop_spec(*code, scope@).unwrap(),
{
    match try_eval_loop(code, scope) {
        Some(sc) => sc,
        None => unreached(),
    }
}

} // verus!

//! The meaning of an IR program, as the JIT engine realizes it: one
//! fixed-width signed 64-bit word per cell, wrapping addition, subtraction
//! and multiplication, unsigned division, comparisons yielding 1 or 0, a
//! conditional taken when its condition equals the canonical true literal,
//! and a loop whose iteration count is the counter's value on entry —
//! counted down in a synthetic cell, so the body cannot change it.
//!
//! The meaning is partial: division by zero (which traps at run time) and
//! `Modulo` (which code generation rejects) have none.

use vstd::prelude::*;

use crate::ir::Instruction;
use crate::ir::Operation;
use crate::ir::Program;
use crate::ir::Expr;
use crate::ir::Value;
use crate::ir::declared_names;
use vstd::arithmetic::div_mod::lemma_add_mod_noop_right;
use vstd::arithmetic::div_mod::lemma_mod_bound;
use vstd::arithmetic::div_mod::lemma_mod_add_multiples_vanish;
use vstd::arithmetic::div_mod::lemma_mod_sub_multiples_vanish;
use vstd::arithmetic::div_mod::lemma_small_mod;

verus! {

/// The word's modulus.
pub open spec fn word_base() -> int {
    0x1_0000_0000_0000_0000
}

/// An integer reduced into the signed word's range.
pub open spec fn wrap(n: int) -> int {
    let m = n % word_base();
    if m >= 0x8000_0000_0000_0000 {
        m - word_base()
    } else {
        m
    }
}

/// The word's bits read as an unsigned integer.
pub open spec fn as_unsigned(x: int) -> int {
    if x >= 0 {
        x
    } else {
        x + word_base()
    }
}

/// A state: the value each cell holds, by variable name.
pub type CellState = Map<Seq<char>, int>;

/// The value of a cell: its entry, or 0 where it has none.
pub open spec fn cell_get(m: CellState, k: Seq<char>) -> int {
    if m.dom().contains(k) {
        m[k]
    } else {
        0
    }
}

/// The value of an operand.
pub open spec fn val_sem(v: Value, m: CellState) -> int {
    match v {
        Value::Constant(n) => n as int,
        Value::Variable(name) => cell_get(m, name@),
    }
}

/// The value of an expression, if it has one.
pub open spec fn expr_sem(e: Expr, m: CellState) -> Option<int> {
    let a = val_sem(e.left, m);
    let b = val_sem(e.right, m);
    match e.op {
        Operation::Plus => Some(wrap(a + b)),
        Operation::Minus => Some(wrap(a - b)),
        Operation::Times => Some(wrap(a * b)),
        Operation::Divided => if as_unsigned(b) == 0 {
            None
        } else {
            Some(wrap(as_unsigned(a) / as_unsigned(b)))
        },
        Operation::Equal => Some(if a == b { 1int } else { 0int }),
        Operation::NotEqual => Some(if a != b { 1int } else { 0int }),
        Operation::Modulo => None,
    }
}

/// The state after one instruction, if it has one.
pub open spec fn instr_sem(ins: Instruction, m: CellState) -> Option<CellState>
    decreases ins, 0nat, 0nat,
{
    match ins {
        Instruction::Assign { to, expr } => match expr_sem(expr, m) {
            Some(v) => Some(m.insert(to@, v)),
            None => None,
        },
        Instruction::If { condition, body } => match expr_sem(condition, m) {
            Some(c) => if c == 1 {
                instrs_sem(body@, m)
            } else {
                Some(m)
            },
            None => None,
        },
        Instruction::Loop { times, body } => loop_iter_sem(body@, m, val_sem(times, m)),
    }
}

/// The state after a sequence of instructions, first to last.
pub open spec fn instrs_sem(l: Seq<Instruction>, m: CellState) -> Option<CellState>
    decreases l, 0nat, 1nat,
{
    if l.len() == 0 {
        Some(m)
    } else {
        match instr_sem(l[0], m) {
            Some(m2) => instrs_sem(l.drop_first(), m2),
            None => None,
        }
    }
}

/// A loop body run as often as the count on entry says: not at all for a
/// non-positive count, else once and then `n - 1` more times.
pub open spec fn loop_iter_sem(body: Seq<Instruction>, m: CellState, n: int) -> Option<CellState>
    decreases body, n, 2nat,
{
    if n <= 0 {
        Some(m)
    } else {
        match instrs_sem(body, m) {
            Some(m2) => loop_iter_sem(body, m2, n - 1),
            None => None,
        }
    }
}

/// The reserved name carrying the function's argument.
pub open spec fn input_name() -> Seq<char> {
    "input"@
}

/// The reserved name carrying the function's return value.
pub open spec fn output_name() -> Seq<char> {
    "output"@
}

/// The state a compiled function starts each call in: one cell per
/// declared variable, all 0, except `input`, which holds the argument.
pub open spec fn init_state(p: Program, input: i64) -> CellState {
    Map::new(
        |k: Seq<char>| declared_names(p).contains(k),
        |k: Seq<char>| if k == input_name() {
            input as int
        } else {
            0int
        },
    )
}

/// What a compiled program returns on an argument, if anything: the
/// `output` cell after all instructions, or 0 where `output` is not
/// declared; nothing where execution traps.
pub open spec fn program_sem(p: Program, input: i64) -> Option<int> {
    match instrs_sem(p.instructions@, init_state(p, input)) {
        Some(m) => Some(cell_get(m, output_name())),
        None => None,
    }
}

/// A loop whose count resolves to zero (or below) executes its body zero
/// times: the state is untouched.
pub proof fn lemma_loop_zero_iterations(ins: Instruction, m: CellState)
    requires
        ins matches Instruction::Loop { times, body: _ } && val_sem(times, m) <= 0,
    ensures
        instr_sem(ins, m) == Some(m),
{
}

/// A conditional whose condition value equals the canonical true literal
/// runs its body; any other condition value leaves the state untouched.
pub proof fn lemma_if_branches(ins: Instruction, m: CellState)
    requires
        ins matches Instruction::If { condition, body: _ },
        ins matches Instruction::If { condition, body: _ } ==> expr_sem(condition, m) is Some,
    ensures
        ins matches Instruction::If { condition, body } ==> instr_sem(ins, m) == (
        if expr_sem(condition, m).unwrap() == 1 {
            instrs_sem(body@, m)
        } else {
            Some(m)
        }),
{
}

/// Wrapping respects congruence: adding to a wrapped value wraps the true
/// sum.
proof fn lemma_wrap_add(n: int, d: int)
    ensures
        wrap(wrap(n) + d) == wrap(n + d),
{
    let w = word_base();
    lemma_add_mod_noop_right(d, n, w);
    if n % w >= 0x8000_0000_0000_0000 {
        lemma_mod_sub_multiples_vanish(n % w + d, w);
    }
}

/// A value already inside the word's range wraps to itself.
proof fn lemma_wrap_id(x: int)
    requires
        i64::MIN <= x <= i64::MAX,
    ensures
        wrap(x) == x,
{
    let w = word_base();
    if x >= 0 {
        lemma_small_mod(x as nat, w as nat);
    } else {
        lemma_mod_sub_multiples_vanish(x + w, w);
        lemma_small_mod((x + w) as nat, w as nat);
    }
}

/// A wrapped value lies inside the word's range.
proof fn lemma_wrap_range(n: int)
    ensures
        i64::MIN <= wrap(n) <= i64::MAX,
{
    let w = word_base();
    lemma_mod_bound(n, w);
}

/// The wrapping word sum is the wrapped true sum.
proof fn lemma_wrapping_add(a: i64, b: i64)
    ensures
        vstd::wrapping::i64_specs::wrapping_add(a, b) as int == wrap(a + b),
{
    let w = word_base();
    let s = a + b;
    if s > i64::MAX {
        lemma_mod_sub_multiples_vanish(s, w);
        lemma_wrap_id(s - w);
    } else if s < i64::MIN {
        lemma_mod_add_multiples_vanish(s, w);
        lemma_wrap_id(s + w);
    } else {
        lemma_wrap_id(s);
    }
}

/// The wrapping word difference is the wrapped true difference.
proof fn lemma_wrapping_sub(a: i64, b: i64)
    ensures
        vstd::wrapping::i64_specs::wrapping_sub(a, b) as int == wrap(a - b),
{
    let w = word_base();
    let s = a - b;
    if s > i64::MAX {
        lemma_mod_sub_multiples_vanish(s, w);
        lemma_wrap_id(s - w);
    } else if s < i64::MIN {
        lemma_mod_add_multiples_vanish(s, w);
        lemma_wrap_id(s + w);
    } else {
        lemma_wrap_id(s);
    }
}

/// The wrapping word product is the wrapped true product.
proof fn lemma_wrapping_mul(a: i64, b: i64)
    ensures
        vstd::wrapping::i64_specs::wrapping_mul(a, b) as int == wrap(a * b),
{
    let w = word_base();
    lemma_mod_bound(a * b, w);
}

/// A list of cells and the values they hold: the executable face of a
/// `CellState`. An entry nearer the front shadows an older one for the
/// same name.
pub struct Cells {
    pub entries: Vec<(String, i64)>,
}

/// The state a list of cell entries denotes.
pub open spec fn cells_state(l: Seq<(String, i64)>) -> CellState
    decreases l.len(),
{
    if l.len() == 0 {
        Map::empty()
    } else {
        cells_state(l.drop_first()).insert(l[0].0@, l[0].1 as int)
    }
}

impl View for Cells {
    type V = CellState;

    open spec fn view(&self) -> CellState {
        cells_state(self.entries@)
    }
}

/// Entries before position `i` that do not hold the key leave the denoted
/// value of that key to the entries from `i` on.
proof fn lemma_cells_skip(l: Seq<(String, i64)>, i: int, k: Seq<char>)
    requires
        0 <= i <= l.len(),
        forall|j: int| 0 <= j < i ==> l[j].0@ != k,
    ensures
        cell_get(cells_state(l), k) == cell_get(cells_state(l.subrange(i, l.len() as int)), k),
        cells_state(l).dom().contains(k) == cells_state(
            l.subrange(i, l.len() as int),
        ).dom().contains(k),
    decreases i,
{
    if i == 0 {
        assert(l.subrange(0, l.len() as int) =~= l);
    } else {
        lemma_cells_skip(l, i - 1, k);
        let s = l.subrange(i - 1, l.len() as int);
        assert(s[0] == l[i - 1]);
        assert(s.drop_first() =~= l.subrange(i, l.len() as int));
    }
}

impl Cells {
    /// No cells.
    pub fn new() -> (r: Cells)
        ensures
            r@ == Map::<Seq<char>, int>::empty(),
    {
        Cells { entries: Vec::new() }
    }

    /// The value of a cell: its entry, or 0 where it has none.
    pub fn get(&self, name: &String) -> (r: i64)
        ensures
            r as int == cell_get(self@, name@),
    {
        let n = self.entries.len();
        let mut i: usize = 0;
        while i < n
            invariant
                i <= n,
                n == self.entries@.len(),
                forall|j: int| 0 <= j < i ==> self.entries@[j].0@ != name@,
            decreases n - i,
        {
            let e: &(String, i64) = &self.entries[i];
            if e.0.eq(name) {
                proof {
                    lemma_cells_skip(self.entries@, i as int, name@);
                    let s = self.entries@.subrange(i as int, self.entries@.len() as int);
                    assert(s[0] == self.entries@[i as int]);
                }
                return e.1;
            }
            i += 1;
        }
        proof {
            lemma_cells_skip(self.entries@, n as int, name@);
            assert(self.entries@.subrange(n as int, self.entries@.len() as int).len() == 0);
        }
        0
    }

    /// Write a cell, shadowing any earlier entry for the name.
    pub fn insert(&mut self, name: String, value: i64)
        ensures
            final(self)@ == old(self)@.insert(name@, value as int),
    {
        let ghost before = self.entries@;
        self.entries.insert(0, (name, value));
        proof {
            assert(self.entries@.drop_first() =~= before);
        }
    }
}

/// The value of one operand over the cells.
pub fn run_value(v: &Value, c: &Cells) -> (r: i64)
    ensures
        r as int == val_sem(*v, c@),
{
    match v {
        Value::Constant(n) => *n,
        Value::Variable(name) => c.get(name),
    }
}

/// The word's bits read as the unsigned machine word.
fn to_unsigned(a: i64) -> (r: u64)
    ensures
        r as int == as_unsigned(a as int),
{
    if a >= 0 {
        a as u64
    } else {
        ((a as i128) + 0x1_0000_0000_0000_0000i128) as u64
    }
}

/// The value of one expression over the cells, if it has one.
pub fn run_expr(e: &Expr, c: &Cells) -> (r: Option<i64>)
    ensures
        match expr_sem(*e, c@) {
            Some(x) => r matches Some(v) && v as int == x,
            None => r is None,
        },
{
    let a = run_value(&e.left, c);
    let b = run_value(&e.right, c);
    match e.op {
        Operation::Plus => {
            proof {
                lemma_wrapping_add(a, b);
            }
            Some(a.wrapping_add(b))
        },
        Operation::Minus => {
            proof {
                lemma_wrapping_sub(a, b);
            }
            Some(a.wrapping_sub(b))
        },
        Operation::Times => {
            proof {
                lemma_wrapping_mul(a, b);
            }
            Some(a.wrapping_mul(b))
        },
        Operation::Divided => {
            let au = to_unsigned(a);
            let bu = to_unsigned(b);
            if bu == 0 {
                None
            } else {
                let q: u64 = au / bu;
                proof {
                    lemma_small_mod(q as nat, word_base() as nat);
                }
                if q >= 0x8000_0000_0000_0000 {
                    Some(((q as i128) - 0x1_0000_0000_0000_0000i128) as i64)
                } else {
                    Some(q as i64)
                }
            }
        },
        Operation::Equal => Some(if a == b { 1i64 } else { 0i64 }),
        Operation::NotEqual => Some(if a != b { 1i64 } else { 0i64 }),
        Operation::Modulo => None,
    }
}

/// Splitting the first instruction off a suffix of an instruction list.
proof fn lemma_sem_suffix(l: Seq<Instruction>, i: int, m: CellState)
    requires
        0 <= i < l.len(),
    ensures
        instrs_sem(l.subrange(i, l.len() as int), m) == (match instr_sem(l[i], m) {
            Some(m2) => instrs_sem(l.subrange(i + 1, l.len() as int), m2),
            None => None,
        }),
        crate::ir::instr_size(l[i]) <= crate::ir::instrs_size(l.subrange(i, l.len() as int)),
        crate::ir::instrs_size(l.subrange(i + 1, l.len() as int)) < crate::ir::instrs_size(
            l.subrange(i, l.len() as int),
        ),
{
    let s = l.subrange(i, l.len() as int);
    assert(s[0] == l[i]);
    assert(s.drop_first() =~= l.subrange(i + 1, l.len() as int));
    assert(crate::ir::instr_size(l[i]) >= 1);
}

/// Run one instruction over the cells: mirrors what the generated code
/// does. `false` reports a trap: a zero divisor or a `Modulo`.
pub fn run_instr(ins: &Instruction, c: &mut Cells) -> (ok: bool)
    ensures
        match instr_sem(*ins, old(c)@) {
            Some(m) => ok && final(c)@ == m,
            None => !ok,
        },
    decreases crate::ir::instr_size(*ins), 0nat,
{
    match ins {
        Instruction::Assign { to, expr } => {
            match run_expr(expr, c) {
                Some(v) => {
                    c.insert(to.clone(), v);
                    true
                },
                None => false,
            }
        },
        Instruction::If { condition, body } => {
            match run_expr(condition, c) {
                Some(v) => {
                    if v == 1 {
                        proof {
                            assert(body@.subrange(0, body@.len() as int) =~= body@);
                        }
                        run_instrs(body, 0, c)
                    } else {
                        true
                    }
                },
                None => false,
            }
        },
        Instruction::Loop { times, body } => {
            let n = run_value(times, c);
            let ghost m0 = c@;
            let mut j: i64 = 0;
            if n <= 0 {
                return true;
            }
            while j < n
                invariant
                    0 <= j <= n,
                    *ins matches Instruction::Loop { times: _, body: lb } && lb@ == body@,
                    instr_sem(*ins, old(c)@) == loop_iter_sem(body@, m0, n as int),
                    loop_iter_sem(body@, m0, n as int) == loop_iter_sem(
                        body@,
                        c@,
                        (n - j) as int,
                    ),
                decreases n - j,
            {
                proof {
                    assert(body@.subrange(0, body@.len() as int) =~= body@);
                    assert(crate::ir::instrs_size(body@.subrange(0, body@.len() as int))
                        < crate::ir::instr_size(*ins));
                }
                proof {
                    assert(body@.subrange(0, body@.len() as int) =~= body@);
                }
                let ok = run_instrs(body, 0, c);
                if !ok {
                    return false;
                }
                j += 1;
            }
            true
        },
    }
}

/// Run the instructions of `l` from position `i` on.
pub fn run_instrs(l: &Vec<Instruction>, i: usize, c: &mut Cells) -> (ok: bool)
    requires
        i <= l@.len(),
    ensures
        match instrs_sem(l@.subrange(i as int, l@.len() as int), old(c)@) {
            Some(m) => ok && final(c)@ == m,
            None => !ok,
        },
    decreases crate::ir::instrs_size(l@.subrange(i as int, l@.len() as int)), 1nat,
{
    if i < l.len() {
        proof {
            lemma_sem_suffix(l@, i as int, c@);
        }
        let ok = run_instr(&l[i], c);
        if !ok {
            return false;
        }
        run_instrs(l, i + 1, c)
    } else {
        true
    }
}

/// Run a whole program on an argument, exactly as `program_sem` says: a
/// fresh set of cells, one per declared variable, all 0 but `input`; the
/// instructions in order; then the `output` cell, or 0 where `output` is
/// not declared. `None` reports a trap.
pub fn run_program(p: &Program, input: i64) -> (r: Option<i64>)
    ensures
        match program_sem(*p, input) {
            Some(x) => r matches Some(v) && v as int == x,
            None => r is None,
        },
{
    let mut c = Cells::new();
    let input_key = ("input").to_owned();
    let n = p.variables.len();
    let mut i: usize = 0;
    while i < n
        invariant
            i <= n,
            n == p.variables@.len(),
            input_key@ == input_name(),
            forall|k: Seq<char>|
                c@.dom().contains(k) <==> crate::ir::var_names(
                    p.variables@.subrange(0, i as int),
                ).contains(k),
            forall|k: Seq<char>|
                c@.dom().contains(k) ==> c@[k] == if k == input_name() {
                    input as int
                } else {
                    0int
                },
        decreases n - i,
    {
        let name: String = p.variables[i].clone();
        let ghost prefix = crate::ir::var_names(p.variables@.subrange(0, i as int));
        let value: i64 = if name.eq(&input_key) {
            input
        } else {
            0
        };
        let ghost gname = name@;
        c.insert(name, value);
        proof {
            let longer = crate::ir::var_names(p.variables@.subrange(0, i + 1));
            assert(longer =~= prefix.push(p.variables@[i as int]@));
            assert(gname == p.variables@[i as int]@);
            assert forall|k: Seq<char>| c@.dom().contains(k) implies longer.contains(k) by {
                if k == gname {
                    assert(longer[i as int] == k);
                } else {
                    let w = choose|w: int| 0 <= w < prefix.len() && prefix[w] == k;
                    assert(longer[w] == k);
                }
            }
            assert forall|k: Seq<char>| longer.contains(k) implies c@.dom().contains(k) by {
                let w = choose|w: int| 0 <= w < longer.len() && longer[w] == k;
                if w < prefix.len() {
                    assert(prefix[w] == k);
                }
            }
        }
        i += 1;
    }
    proof {
        assert(p.variables@.subrange(0, n as int) =~= p.variables@);
        assert(c@ =~= init_state(*p, input));
    }
    let ok = run_instrs(&p.instructions, 0, &mut c);
    proof {
        assert(p.instructions@.subrange(0, p.instructions@.len() as int) =~= p.instructions@);
    }
    if !ok {
        return None;
    }
    let output_key = ("output").to_owned();
    Some(c.get(&output_key))
}

/// The body that increments one cell by one: the probe whose final value
/// counts how often a loop nest ran it.
pub open spec fn is_incr_body(body: Seq<Instruction>, x: Seq<char>) -> bool {
    &&& body.len() == 1
    &&& (body[0] matches Instruction::Assign { to, expr } && to@ == x && (
    expr.left matches Value::Variable(v) && v@ == x) && (expr.right matches Value::Constant(c) && c
        == 1) && expr.op == Operation::Plus)
}

/// Running the increment body once adds one to the probed cell, wrapped.
proof fn lemma_incr_body(body: Seq<Instruction>, x: Seq<char>, st: CellState)
    requires
        is_incr_body(body, x),
    ensures
        instrs_sem(body, st) == Some(st.insert(x, wrap(cell_get(st, x) + 1))),
{
    let st1 = st.insert(x, wrap(cell_get(st, x) + 1));
    assert(instr_sem(body[0], st) == Some(st1));
    assert(body.drop_first().len() == 0);
    assert(instrs_sem(body.drop_first(), st1) == Some(st1));
}

/// Running the increment body `n` times adds `n`, wrapped.
proof fn lemma_incr_loop(body: Seq<Instruction>, x: Seq<char>, st: CellState, n: int)
    requires
        is_incr_body(body, x),
        n >= 0,
        st.dom().contains(x),
        i64::MIN <= st[x] <= i64::MAX,
    ensures
        loop_iter_sem(body, st, n) == Some(st.insert(x, wrap(cell_get(st, x) + n))),
    decreases n,
{
    if n == 0 {
        lemma_wrap_id(st[x]);
        assert(st.insert(x, st[x]) =~= st);
    } else {
        lemma_incr_body(body, x, st);
        let st1 = st.insert(x, wrap(cell_get(st, x) + 1));
        lemma_wrap_range(cell_get(st, x) + 1);
        lemma_incr_loop(body, x, st1, n - 1);
        lemma_wrap_add(cell_get(st, x) + 1, n - 1);
        assert(st1.insert(x, wrap(cell_get(st, x) + n)) =~= st.insert(
            x,
            wrap(cell_get(st, x) + n),
        ));
    }
}

/// The outer body of the nest: one loop counted by `b` over the increment
/// body.
pub open spec fn is_counted_incr_loop(body: Seq<Instruction>, b: Seq<char>, x: Seq<char>) -> bool {
    &&& body.len() == 1
    &&& (body[0] matches Instruction::Loop { times, body: inner } && (
    times matches Value::Variable(bv) && bv@ == b) && is_incr_body(inner@, x))
}

/// Running the counted increment loop once adds `b`'s value, wrapped.
proof fn lemma_counted_incr_loop(body: Seq<Instruction>, b: Seq<char>, x: Seq<char>, st: CellState)
    requires
        is_counted_incr_loop(body, b, x),
        b != x,
        cell_get(st, b) >= 0,
        st.dom().contains(x),
        i64::MIN <= st[x] <= i64::MAX,
    ensures
        instrs_sem(body, st) == Some(st.insert(x, wrap(cell_get(st, x) + cell_get(st, b)))),
{
    let inner = body[0]->Loop_body;
    lemma_incr_loop(inner@, x, st, cell_get(st, b));
    let st1 = st.insert(x, wrap(cell_get(st, x) + cell_get(st, b)));
    assert(instr_sem(body[0], st) == Some(st1));
    assert(body.drop_first().len() == 0);
    assert(instrs_sem(body.drop_first(), st1) == Some(st1));
}

/// Running the counted increment loop `j` times adds `j * b`, wrapped.
proof fn lemma_outer_iterations(
    body: Seq<Instruction>,
    b: Seq<char>,
    x: Seq<char>,
    st: CellState,
    j: int,
)
    requires
        is_counted_incr_loop(body, b, x),
        b != x,
        j >= 0,
        cell_get(st, b) >= 0,
        st.dom().contains(x),
        i64::MIN <= st[x] <= i64::MAX,
    ensures
        loop_iter_sem(body, st, j) == Some(st.insert(x, wrap(cell_get(st, x) + j * cell_get(st, b)))),
    decreases j,
{
    let n = cell_get(st, b);
    if j == 0 {
        lemma_wrap_id(st[x]);
        assert(j * n == 0) by (nonlinear_arith)
            requires
                j == 0,
        ;
        assert(st.insert(x, st[x]) =~= st);
    } else {
        lemma_counted_incr_loop(body, b, x, st);
        let st1 = st.insert(x, wrap(cell_get(st, x) + n));
        lemma_wrap_range(cell_get(st, x) + n);
        assert(cell_get(st1, b) == n);
        lemma_outer_iterations(body, b, x, st1, j - 1);
        lemma_wrap_add(cell_get(st, x) + n, (j - 1) * n);
        assert(n + (j - 1) * n == j * n) by (nonlinear_arith);
        assert(st1.insert(x, wrap(cell_get(st, x) + j * n)) =~= st.insert(
            x,
            wrap(cell_get(st, x) + j * n),
        ));
    }
}

/// The nested counting loops: count `a` outside, count `b` inside, the
/// increment probe innermost.
pub open spec fn is_nested_count_loops(
    ins: Instruction,
    a: Seq<char>,
    b: Seq<char>,
    x: Seq<char>,
) -> bool {
    ins matches Instruction::Loop { times, body } && (times matches Value::Variable(av) && av@
        == a) && is_counted_incr_loop(body@, b, x)
}

/// Nested loops with independent counts `m` and `n` run their innermost
/// body exactly `m * n` times: the probe cell, incremented once per run,
/// ends exactly `m * n` above where it began (in the wrapping word), and
/// nothing else changes. The loop counters themselves stand untouched:
/// each loop counts in its own synthetic cell.
pub proof fn lemma_nested_loops_run_product(
    ins: Instruction,
    a: Seq<char>,
    b: Seq<char>,
    x: Seq<char>,
    m: CellState,
)
    requires
        is_nested_count_loops(ins, a, b, x),
        a != x,
        b != x,
        cell_get(m, a) >= 0,
        cell_get(m, b) >= 0,
        m.dom().contains(x),
        i64::MIN <= m[x] <= i64::MAX,
    ensures
        instr_sem(ins, m) == Some(
            m.insert(x, wrap(cell_get(m, x) + cell_get(m, a) * cell_get(m, b))),
        ),
{
    let body = ins->Loop_body;
    lemma_outer_iterations(body@, b, x, m, cell_get(m, a));
    assert(cell_get(m, a) * cell_get(m, b) == cell_get(m, b) * cell_get(m, a)) by (nonlinear_arith);
}

} // verus!

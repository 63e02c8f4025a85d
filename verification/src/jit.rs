//! The JIT engine: turns a well-formed IR program into one native function
//! of signature `(integer) -> integer` through the control-flow-graph
//! builder backend.
//!
//! One storage cell is allocated per declared variable (cell index =
//! position in the declared list), initialized to 0, except `input`, which
//! is initialized from the function argument. Each `Loop` allocates one
//! fresh synthetic counter cell; the backend hands cell indices out in
//! declaration order, so no two loops, nested or sequential, ever share a
//! counter. Every block the generator creates is sealed exactly once, and
//! only after all of its predecessor edges exist; the builder's contracts
//! refuse anything else, and the trace records each seal beside the
//! branches that precede it.
//!
//! What is emitted is pinned exactly: the generation functions ensure that
//! the trace of backend operations they append equals `translate_instr` /
//! `translate_instrs` of the instructions, and on success the returned
//! module's ghost record shows the compiled function callable with build
//! trace `program_trace` of the program — the receipt chain from the
//! builder through `define_function` carries it there. The trace names
//! every cell read and written, every literal, every operation kind and
//! every block; only the opaque SSA operand handles stay outside it.

use vstd::prelude::*;

use crate::backend::define_function;
use crate::backend::finalize_definitions;
use crate::backend::BuilderWorkspace;
use crate::backend::Cfg;
use crate::backend::FnContext;
use crate::backend::JitModule;
use crate::backend::Op;
use cranelift_codegen::ir::Value as ClifValue;
use crate::ir::declared_names;
use crate::ir::expr_declared;
use crate::ir::instr_declared;
use crate::ir::instr_modfree;
use crate::ir::instr_size;
use crate::ir::instrs_declared;
use crate::ir::instrs_modfree;
use crate::ir::instrs_size;
use crate::ir::program_ok;
use crate::ir::value_declared;
use crate::ir::var_names;
use crate::ir::Expr;
use crate::ir::Instruction;
use crate::ir::Operation;
use crate::ir::Program;
use crate::ir::Value;
use crate::sem::input_name;
use crate::sem::output_name;
use vstd::pervasive::unreached;

verus! {

/// Why compilation failed.
pub enum CompileError {
    /// An instruction references a variable that is missing from the
    /// program's declared set: a defect of whatever built the program,
    /// never a user error.
    LoweringInvariantViolation,
    /// A `Modulo` operation reached code generation, which has no rule for
    /// it.
    UnsupportedOperation,
    /// The backend rejected the module or the constructed graph.
    BackendFailure(cranelift_module::ModuleError),
}

/// A finalized native function, held inside its module, ready to be
/// turned into a callable entry point by the caller: the module's ghost
/// record shows `func` callable, built by exactly `program_trace` of the
/// compiled program.
pub struct CompiledProgram {
    pub module: JitModule,
    pub func: cranelift_module::FuncId,
}

/// The cell index of a name: its first position in the declared list.
pub open spec fn name_cell(d: Seq<Seq<char>>, n: Seq<char>) -> nat
    decreases d.len(),
{
    if d.len() == 0 {
        0
    } else if d[0] == n {
        0
    } else {
        1 + name_cell(d.drop_first(), n)
    }
}

/// The first match of a name pins `name_cell`.
proof fn lemma_name_cell_first(d: Seq<Seq<char>>, n: Seq<char>, i: int)
    requires
        0 <= i < d.len(),
        d[i] == n,
        forall|j: int| 0 <= j < i ==> d[j] != n,
    ensures
        name_cell(d, n) == i,
    decreases i,
{
    if i > 0 {
        lemma_name_cell_first(d.drop_first(), n, i - 1);
    }
}

/// The operations that evaluate one operand: a literal, or a read of the
/// operand's cell.
pub open spec fn translate_value(v: Value, d: Seq<Seq<char>>) -> Seq<Op> {
    match v {
        Value::Constant(n) => seq![Op::Literal { value: n }],
        Value::Variable(name) => seq![Op::ReadCell { cell: name_cell(d, name@) }],
    }
}

/// The operation an IR operation emits. `Modulo` emits nothing; code
/// generation refuses it before this is ever asked.
pub open spec fn op_event(op: Operation) -> Op {
    match op {
        Operation::Plus => Op::Add,
        Operation::Minus => Op::Sub,
        Operation::Times => Op::Mul,
        Operation::Divided => Op::Udiv,
        Operation::Equal => Op::CmpEq,
        Operation::NotEqual => Op::CmpNe,
        Operation::Modulo => arbitrary(),
    }
}

/// The operations that evaluate one expression: left operand, right
/// operand, then the operation.
pub open spec fn translate_expr(e: Expr, d: Seq<Seq<char>>) -> Seq<Op> {
    translate_value(e.left, d) + translate_value(e.right, d) + seq![op_event(e.op)]
}

/// The operations one instruction emits, together with the block and cell
/// counters after it; `b` and `c` are the counters before it.
pub open spec fn translate_instr(ins: Instruction, d: Seq<Seq<char>>, b: nat, c: nat) -> (
    Seq<Op>,
    nat,
    nat,
)
    decreases ins, 0nat,
{
    match ins {
        Instruction::Assign { to, expr } => (
            translate_expr(expr, d).push(Op::WriteCell { cell: name_cell(d, to@) }),
            b,
            c,
        ),
        Instruction::If { condition, body } => {
            let head = translate_expr(condition, d) + seq![
                Op::IsOne,
                Op::CreateBlock { block: b },
                Op::CreateBlock { block: b + 1 },
                Op::Branch { taken: b, other: b + 1 },
                Op::SwitchTo { block: b },
            ];
            let (body_ops, b2, c2) = translate_instrs(body@, d, b + 2, c);
            (
                head + body_ops + seq![
                    Op::Jump { target: b + 1 },
                    Op::Seal { block: b },
                    Op::SwitchTo { block: b + 1 },
                    Op::Seal { block: b + 1 },
                ],
                b2,
                c2,
            )
        },
        Instruction::Loop { times, body } => {
            let head = translate_value(times, d) + seq![
                Op::DeclareCell { cell: c },
                Op::WriteCell { cell: c },
                Op::CreateBlock { block: b },
                Op::CreateBlock { block: b + 1 },
                Op::CreateBlock { block: b + 2 },
                Op::Jump { target: b },
                Op::SwitchTo { block: b },
                Op::ReadCell { cell: c },
                Op::IsNonPos,
                Op::Branch { taken: b + 2, other: b + 1 },
                Op::SwitchTo { block: b + 1 },
                Op::Seal { block: b + 1 },
            ];
            let (body_ops, b2, c2) = translate_instrs(body@, d, b + 3, c + 1);
            (
                head + body_ops + seq![
                    Op::ReadCell { cell: c },
                    Op::Literal { value: 1 },
                    Op::Sub,
                    Op::WriteCell { cell: c },
                    Op::Jump { target: b },
                    Op::Seal { block: b },
                    Op::SwitchTo { block: b + 2 },
                    Op::Seal { block: b + 2 },
                ],
                b2,
                c2,
            )
        },
    }
}

/// `translate_instr` over a sequence, threading the counters.
pub open spec fn translate_instrs(l: Seq<Instruction>, d: Seq<Seq<char>>, b: nat, c: nat) -> (
    Seq<Op>,
    nat,
    nat,
)
    decreases l, 1nat,
{
    if l.len() == 0 {
        (Seq::empty(), b, c)
    } else {
        let (h, b1, c1) = translate_instr(l[0], d, b, c);
        let (t, b2, c2) = translate_instrs(l.drop_first(), d, b1, c1);
        (h + t, b2, c2)
    }
}

/// The builder's bookkeeping stays inside its bounds: only created blocks
/// are sealed or filled, only declared cells are defined.
pub(crate) open spec fn bounded<'a>(c: Cfg<'a>) -> bool {
    &&& forall|x: nat| c.sealed@.contains(x) ==> x < c.blocks@
    &&& forall|x: nat| c.filled@.contains(x) ==> x < c.blocks@
    &&& forall|x: nat| c.defined@.contains(x) ==> x < c.cells@
}

/// The generator's working state over a declared-variable list: the
/// insertion point is open, bookkeeping is in bounds, and every declared
/// variable owns a defined cell whose index is its position in the list.
pub(crate) open spec fn vars_ready<'a>(cfg: Cfg<'a>, vars: Seq<String>) -> bool {
    &&& cfg.ready()
    &&& bounded(cfg)
    &&& vars.len() <= cfg.cells@
    &&& vars.len() < 0x8000_0000
    &&& forall|k: nat| k < vars.len() ==> cfg.defined@.contains(k)
}

/// The insertion point, when present, names a created block.
pub(crate) open spec fn cur_in<'a>(c: Cfg<'a>) -> bool {
    match c.cur@ {
        Some(x) => x < c.blocks@,
        None => true,
    }
}

/// How one generation step may change the builder: blocks, cells, known
/// values and definitions only accumulate; pre-existing blocks keep their
/// seal status, and keep their fill status unless they held the insertion
/// point; every block the step created is sealed and filled, except the
/// one now holding the insertion point; and if the insertion point moved,
/// it moved to a freshly created, already sealed block, leaving the old
/// one filled.
pub(crate) open spec fn evolves<'a>(a: Cfg<'a>, b: Cfg<'a>) -> bool {
    &&& b.blocks@ >= a.blocks@
    &&& b.cells@ >= a.cells@
    &&& a.defined@.subset_of(b.defined@)
    &&& a.words@.subset_of(b.words@)
    &&& a.flags@.subset_of(b.flags@)
    &&& forall|x: nat| x < a.blocks@ ==> b.sealed@.contains(x) == a.sealed@.contains(x)
    &&& forall|x: nat|
        x < a.blocks@ && Some(x) != a.cur@ ==> b.filled@.contains(x) == a.filled@.contains(x)
    &&& b.cur@ is Some
    &&& (b.cur@ == a.cur@ || b.cur@.unwrap() >= a.blocks@)
    &&& (b.cur@ != a.cur@ ==> a.cur@ is Some && b.filled@.contains(a.cur@.unwrap())
        && b.sealed@.contains(b.cur@.unwrap()))
    &&& forall|x: nat|
        a.blocks@ <= x < b.blocks@ && Some(x) != b.cur@ ==> b.sealed@.contains(x)
            && b.filled@.contains(x)
    &&& cur_in(b)
}

/// `evolves` composes across consecutive generation steps.
proof fn lemma_evolves_trans<'a>(a: Cfg<'a>, b: Cfg<'a>, c: Cfg<'a>)
    requires
        cur_in(a),
        evolves(a, b),
        evolves(b, c),
    ensures
        evolves(a, c),
{
    assert forall|x: nat|
        x < a.blocks@ && Some(x) != a.cur@ implies c.filled@.contains(x) == a.filled@.contains(
        x,
    ) by {
        if Some(x) == b.cur@ {
            assert(b.cur@ == a.cur@ || b.cur@.unwrap() >= a.blocks@);
        }
    }
    assert forall|x: nat|
        a.blocks@ <= x < c.blocks@ && Some(x) != c.cur@ implies c.sealed@.contains(x)
            && c.filled@.contains(x) by {
        if x < b.blocks@ {
            if Some(x) == b.cur@ {
                assert(b.cur@ != a.cur@);
                assert(b.sealed@.contains(x));
                assert(c.sealed@.contains(x));
                assert(c.filled@.contains(b.cur@.unwrap()));
            }
        }
    }
}

/// Splitting one instruction off the front of a suffix: sizes,
/// declaredness, modulo-freedom, and the translation decompose.
proof fn lemma_suffix_step(l: Seq<Instruction>, i: int, d: Seq<Seq<char>>, b: nat, c: nat)
    requires
        0 <= i < l.len(),
    ensures
        instrs_size(l.subrange(i, l.len() as int)) == instr_size(l[i]) + instrs_size(
            l.subrange(i + 1, l.len() as int),
        ),
        instrs_declared(l.subrange(i, l.len() as int), d) == (instr_declared(l[i], d)
            && instrs_declared(l.subrange(i + 1, l.len() as int), d)),
        instrs_modfree(l.subrange(i, l.len() as int)) == (instr_modfree(l[i]) && instrs_modfree(
            l.subrange(i + 1, l.len() as int),
        )),
        instr_size(l[i]) >= 1,
        translate_instrs(l.subrange(i, l.len() as int), d, b, c) == {
            let (h, b1, c1) = translate_instr(l[i], d, b, c);
            let (t, b2, c2) = translate_instrs(l.subrange(i + 1, l.len() as int), d, b1, c1);
            (h + t, b2, c2)
        },
{
    let s = l.subrange(i, l.len() as int);
    assert(s[0] == l[i]);
    assert(s.drop_first() =~= l.subrange(i + 1, l.len() as int));
}

/// Position of a name in the declared list, which is also the index of
/// its storage cell; the first position, where a name repeats.
fn find_name(vars: &Vec<String>, name: &String) -> (r: Option<usize>)
    ensures
        match r {
            Some(i) => {
                &&& i < vars@.len()
                &&& vars@[i as int]@ == name@
                &&& forall|j: int| 0 <= j < i ==> vars@[j]@ != name@
                &&& var_names(vars@).contains(name@)
                &&& i as nat == name_cell(var_names(vars@), name@)
            },
            None => !var_names(vars@).contains(name@),
        },
{
    let n = vars.len();
    let mut i: usize = 0;
    while i < n
        invariant
            i <= n,
            n == vars@.len(),
            forall|j: int| 0 <= j < i ==> vars@[j]@ != name@,
        decreases n - i,
    {
        let v: &String = &vars[i];
        if v.eq(name) {
            proof {
                assert(var_names(vars@)[i as int] == name@);
                assert forall|j: int| 0 <= j < i implies var_names(vars@)[j] != name@ by {
                    assert(var_names(vars@)[j] == vars@[j]@);
                }
                lemma_name_cell_first(var_names(vars@), name@, i as int);
            }
            return Some(i);
        }
        i += 1;
    }
    proof {
        assert forall|j: int| 0 <= j < var_names(vars@).len() implies var_names(vars@)[j]
            != name@ by {
            assert(var_names(vars@)[j] == vars@[j]@);
        }
    }
    None
}

/// Emit the code that evaluates one operand at the insertion point: a
/// literal for a constant, a cell read for a variable. Appends exactly
/// `translate_value` to the trace and hands back the resulting word.
fn gen_value<'a>(cfg: &mut Cfg<'a>, vars: &Vec<String>, v: &Value) -> (r: ClifValue)
    requires
        vars_ready(*old(cfg), vars@),
        value_declared(*v, var_names(vars@)),
    ensures
        final(cfg).same_blocks(*old(cfg)),
        final(cfg).same_cells(*old(cfg)),
        final(cfg).flags@ == old(cfg).flags@,
        old(cfg).words@.subset_of(final(cfg).words@),
        final(cfg).words@.contains(r),
        final(cfg).trace@ == old(cfg).trace@ + translate_value(*v, var_names(vars@)),
{
    let ghost t0 = cfg.trace@;
    let result = match v {
        Value::Constant(n) => cfg.emit_literal(*n),
        Value::Variable(name) => {
            match find_name(vars, name) {
                Some(i) => cfg.use_cell(i as u32),
                None => unreached(),
            }
        },
    };
    proof {
        assert(cfg.trace@ =~= t0 + translate_value(*v, var_names(vars@)));
    }
    result
}

/// Emit the code that evaluates one expression at the insertion point:
/// both operands, then the operation. `Plus`, `Minus` and `Times` map to
/// the machine word operations, `Divided` to unsigned division, `Equal`
/// and `NotEqual` to comparisons yielding 1 or 0. `Modulo` has no rule
/// and is excluded by contract. Appends exactly `translate_expr` to the
/// trace and hands back the resulting word.
fn gen_expr<'a>(cfg: &mut Cfg<'a>, vars: &Vec<String>, e: &Expr) -> (r: ClifValue)
    requires
        vars_ready(*old(cfg), vars@),
        expr_declared(*e, var_names(vars@)),
        e.op != Operation::Modulo,
    ensures
        final(cfg).same_blocks(*old(cfg)),
        final(cfg).same_cells(*old(cfg)),
        final(cfg).flags@ == old(cfg).flags@,
        old(cfg).words@.subset_of(final(cfg).words@),
        final(cfg).words@.contains(r),
        final(cfg).trace@ == old(cfg).trace@ + translate_expr(*e, var_names(vars@)),
{
    let ghost t0 = cfg.trace@;
    let l = gen_value(cfg, vars, &e.left);
    let r = gen_value(cfg, vars, &e.right);
    let result = match e.op {
        Operation::Plus => cfg.emit_add(l, r),
        Operation::Minus => cfg.emit_sub(l, r),
        Operation::Times => cfg.emit_mul(l, r),
        Operation::Divided => cfg.emit_udiv(l, r),
        Operation::Equal => cfg.emit_compare(true, l, r),
        Operation::NotEqual => cfg.emit_compare(false, l, r),
        Operation::Modulo => unreached(),
    };
    proof {
        assert(cfg.trace@ =~= t0 + translate_expr(*e, var_names(vars@)));
    }
    result
}

/// Generate one instruction at the insertion point: appends exactly
/// `translate_instr` of it to the trace, and moves the block and cell
/// counters exactly as the translation says.
#[verifier::rlimit(100)]
#[verifier::spinoff_prover]
fn gen_instr<'a>(cfg: &mut Cfg<'a>, vars: &Vec<String>, instr: &Instruction)
    requires
        vars_ready(*old(cfg), vars@),
        instr_declared(*instr, var_names(vars@)),
        instr_modfree(*instr),
        old(cfg).blocks@ + 3 * instr_size(*instr) < 0x8000_0000,
        old(cfg).cells@ + instr_size(*instr) < 0x8000_0000,
    ensures
        vars_ready(*final(cfg), vars@),
        evolves(*old(cfg), *final(cfg)),
        final(cfg).blocks@ <= old(cfg).blocks@ + 3 * instr_size(*instr),
        final(cfg).cells@ <= old(cfg).cells@ + instr_size(*instr),
        final(cfg).trace@ == old(cfg).trace@ + translate_instr(
            *instr,
            var_names(vars@),
            old(cfg).blocks@,
            old(cfg).cells@,
        ).0,
        final(cfg).blocks@ == translate_instr(
            *instr,
            var_names(vars@),
            old(cfg).blocks@,
            old(cfg).cells@,
        ).1,
        final(cfg).cells@ == translate_instr(
            *instr,
            var_names(vars@),
            old(cfg).blocks@,
            old(cfg).cells@,
        ).2,
    decreases instr_size(*instr), 0nat,
{
    let ghost t0 = cfg.trace@;
    let ghost d = var_names(vars@);
    let ghost b0 = cfg.blocks@;
    let ghost c0 = cfg.cells@;
    match instr {
        Instruction::Assign { to, expr } => {
            let val = gen_expr(cfg, vars, expr);
            match find_name(vars, to) {
                Some(i) => {
                    cfg.def_cell(i as u32, val);
                    proof {
                        assert(cfg.trace@ =~= t0 + translate_instr(*instr, d, b0, c0).0);
                    }
                },
                None => unreached(),
            }
        },
        Instruction::If { condition, body } => {
            let c = gen_expr(cfg, vars, condition);
            let flag = cfg.emit_is_one(c);
            let then_b = cfg.create_block();
            let cont_b = cfg.create_block();
            cfg.emit_branch_if(flag, then_b, cont_b);
            cfg.switch_to_block(then_b);
            proof {
                assert(body@.subrange(0, body@.len() as int) =~= body@);
                assert(cfg.trace@ =~= t0 + (translate_expr(*condition, d) + seq![
                    Op::IsOne,
                    Op::CreateBlock { block: b0 },
                    Op::CreateBlock { block: b0 + 1 },
                    Op::Branch { taken: b0, other: b0 + 1 },
                    Op::SwitchTo { block: b0 },
                ]));
            }
            gen_from(cfg, vars, body, 0);
            cfg.emit_jump(cont_b);
            cfg.seal_block(then_b);
            cfg.switch_to_block(cont_b);
            cfg.seal_block(cont_b);
            proof {
                assert(cfg.trace@ =~= t0 + translate_instr(*instr, d, b0, c0).0);
            }
        },
        Instruction::Loop { times, body } => {
            let n = gen_value(cfg, vars, times);
            let counter = cfg.declare_cell();
            cfg.def_cell(counter, n);
            let head = cfg.create_block();
            let body_b = cfg.create_block();
            let cont_b = cfg.create_block();
            cfg.emit_jump(head);
            cfg.switch_to_block(head);
            let cv = cfg.use_cell(counter);
            let stop = cfg.emit_is_non_positive(cv);
            cfg.emit_branch_if(stop, cont_b, body_b);
            cfg.switch_to_block(body_b);
            cfg.seal_block(body_b);
            proof {
                assert(body@.subrange(0, body@.len() as int) =~= body@);
                assert(cfg.trace@ =~= t0 + (translate_value(*times, d) + seq![
                    Op::DeclareCell { cell: c0 },
                    Op::WriteCell { cell: c0 },
                    Op::CreateBlock { block: b0 },
                    Op::CreateBlock { block: b0 + 1 },
                    Op::CreateBlock { block: b0 + 2 },
                    Op::Jump { target: b0 },
                    Op::SwitchTo { block: b0 },
                    Op::ReadCell { cell: c0 },
                    Op::IsNonPos,
                    Op::Branch { taken: b0 + 2, other: b0 + 1 },
                    Op::SwitchTo { block: b0 + 1 },
                    Op::Seal { block: b0 + 1 },
                ]));
            }
            gen_from(cfg, vars, body, 0);
            let cur_v = cfg.use_cell(counter);
            let one = cfg.emit_literal(1);
            let dec = cfg.emit_sub(cur_v, one);
            cfg.def_cell(counter, dec);
            cfg.emit_jump(head);
            cfg.seal_block(head);
            cfg.switch_to_block(cont_b);
            cfg.seal_block(cont_b);
            proof {
                assert(cfg.trace@ =~= t0 + translate_instr(*instr, d, b0, c0).0);
            }
        },
    }
}

/// Generate the instructions of `instrs` from position `i` on, in
/// sequence, at the insertion point: appends exactly `translate_instrs`
/// of the suffix to the trace.
fn gen_from<'a>(cfg: &mut Cfg<'a>, vars: &Vec<String>, instrs: &Vec<Instruction>, i: usize)
    requires
        vars_ready(*old(cfg), vars@),
        i <= instrs@.len(),
        instrs_declared(instrs@.subrange(i as int, instrs@.len() as int), var_names(vars@)),
        instrs_modfree(instrs@.subrange(i as int, instrs@.len() as int)),
        old(cfg).blocks@ + 3 * instrs_size(instrs@.subrange(i as int, instrs@.len() as int))
            < 0x8000_0000,
        old(cfg).cells@ + instrs_size(instrs@.subrange(i as int, instrs@.len() as int))
            < 0x8000_0000,
    ensures
        vars_ready(*final(cfg), vars@),
        evolves(*old(cfg), *final(cfg)),
        final(cfg).blocks@ <= old(cfg).blocks@ + 3 * instrs_size(
            instrs@.subrange(i as int, instrs@.len() as int),
        ),
        final(cfg).cells@ <= old(cfg).cells@ + instrs_size(
            instrs@.subrange(i as int, instrs@.len() as int),
        ),
        final(cfg).trace@ == old(cfg).trace@ + translate_instrs(
            instrs@.subrange(i as int, instrs@.len() as int),
            var_names(vars@),
            old(cfg).blocks@,
            old(cfg).cells@,
        ).0,
        final(cfg).blocks@ == translate_instrs(
            instrs@.subrange(i as int, instrs@.len() as int),
            var_names(vars@),
            old(cfg).blocks@,
            old(cfg).cells@,
        ).1,
        final(cfg).cells@ == translate_instrs(
            instrs@.subrange(i as int, instrs@.len() as int),
            var_names(vars@),
            old(cfg).blocks@,
            old(cfg).cells@,
        ).2,
    decreases instrs_size(instrs@.subrange(i as int, instrs@.len() as int)), 1nat,
{
    if i < instrs.len() {
        proof {
            lemma_suffix_step(instrs@, i as int, var_names(vars@), cfg.blocks@, cfg.cells@);
        }
        let ghost pre = *cfg;
        gen_instr(cfg, vars, &instrs[i]);
        let ghost mid = *cfg;
        gen_from(cfg, vars, instrs, i + 1);
        proof {
            lemma_evolves_trans(pre, mid, *cfg);
            assert(cfg.trace@ =~= pre.trace@ + translate_instrs(
                instrs@.subrange(i as int, instrs@.len() as int),
                var_names(vars@),
                pre.blocks@,
                pre.cells@,
            ).0);
        }
    } else {
        proof {
            assert(cfg.trace@ =~= cfg.trace@ + translate_instrs(
                instrs@.subrange(i as int, instrs@.len() as int),
                var_names(vars@),
                cfg.blocks@,
                cfg.cells@,
            ).0);
        }
    }
}

/// Whether both operands of an expression are declared.
fn check_value(vars: &Vec<String>, v: &Value) -> (r: bool)
    ensures
        r == value_declared(*v, var_names(vars@)),
{
    match v {
        Value::Constant(_) => true,
        Value::Variable(name) => find_name(vars, name).is_some(),
    }
}

/// Whether both operands of an expression are declared.
fn check_expr(vars: &Vec<String>, e: &Expr) -> (r: bool)
    ensures
        r == expr_declared(*e, var_names(vars@)),
{
    let l = check_value(vars, &e.left);
    let r = check_value(vars, &e.right);
    l && r
}

/// Whether one instruction references only declared variables.
fn check_instr_declared(vars: &Vec<String>, instr: &Instruction) -> (r: bool)
    ensures
        r == instr_declared(*instr, var_names(vars@)),
    decreases instr_size(*instr), 0nat,
{
    match instr {
        Instruction::Assign { to, expr } => {
            let t = find_name(vars, to).is_some();
            let e = check_expr(vars, expr);
            t && e
        },
        Instruction::If { condition, body } => {
            let c = check_expr(vars, condition);
            proof {
                assert(body@.subrange(0, body@.len() as int) =~= body@);
            }
            let b = check_declared_from(vars, body, 0);
            c && b
        },
        Instruction::Loop { times, body } => {
            let t = check_value(vars, times);
            proof {
                assert(body@.subrange(0, body@.len() as int) =~= body@);
            }
            let b = check_declared_from(vars, body, 0);
            t && b
        },
    }
}

/// Whether the suffix of `instrs` from `i` references only declared
/// variables.
fn check_declared_from(vars: &Vec<String>, instrs: &Vec<Instruction>, i: usize) -> (r: bool)
    requires
        i <= instrs@.len(),
    ensures
        r == instrs_declared(instrs@.subrange(i as int, instrs@.len() as int), var_names(vars@)),
    decreases instrs_size(instrs@.subrange(i as int, instrs@.len() as int)), 1nat,
{
    if i < instrs.len() {
        proof {
            lemma_suffix_step(instrs@, i as int, var_names(vars@), 0, 0);
        }
        let h = check_instr_declared(vars, &instrs[i]);
        if h {
            check_declared_from(vars, instrs, i + 1)
        } else {
            false
        }
    } else {
        true
    }
}

/// Whether no `Modulo` stands anywhere in one instruction.
fn check_instr_modfree(instr: &Instruction) -> (r: bool)
    ensures
        r == instr_modfree(*instr),
    decreases instr_size(*instr), 0nat,
{
    match instr {
        Instruction::Assign { to: _, expr } => !matches!(expr.op, Operation::Modulo),
        Instruction::If { condition, body } => {
            let c = !matches!(condition.op, Operation::Modulo);
            proof {
                assert(body@.subrange(0, body@.len() as int) =~= body@);
            }
            let b = check_modfree_from(body, 0);
            c && b
        },
        Instruction::Loop { times: _, body } => {
            proof {
                assert(body@.subrange(0, body@.len() as int) =~= body@);
            }
            check_modfree_from(body, 0)
        },
    }
}

/// Whether no `Modulo` stands anywhere in the suffix of `instrs` from
/// `i`.
fn check_modfree_from(instrs: &Vec<Instruction>, i: usize) -> (r: bool)
    requires
        i <= instrs@.len(),
    ensures
        r == instrs_modfree(instrs@.subrange(i as int, instrs@.len() as int)),
    decreases instrs_size(instrs@.subrange(i as int, instrs@.len() as int)), 1nat,
{
    if i < instrs.len() {
        proof {
            lemma_suffix_step(instrs@, i as int, Seq::empty(), 0, 0);
        }
        let h = check_instr_modfree(&instrs[i]);
        if h {
            check_modfree_from(instrs, i + 1)
        } else {
            false
        }
    } else {
        true
    }
}

/// The size of one instruction, as the machine can compute it: `None`
/// where it exceeds the word.
fn instr_size_exec(instr: &Instruction) -> (r: Option<u64>)
    ensures
        match r {
            Some(n) => n as nat == instr_size(*instr),
            None => instr_size(*instr) > u64::MAX,
        },
    decreases instr_size(*instr), 0nat,
{
    match instr {
        Instruction::Assign { .. } => Some(1),
        Instruction::If { condition: _, body } => {
            proof {
                assert(body@.subrange(0, body@.len() as int) =~= body@);
            }
            match instrs_size_exec(body, 0) {
                Some(n) => n.checked_add(1),
                None => None,
            }
        },
        Instruction::Loop { times: _, body } => {
            proof {
                assert(body@.subrange(0, body@.len() as int) =~= body@);
            }
            match instrs_size_exec(body, 0) {
                Some(n) => n.checked_add(1),
                None => None,
            }
        },
    }
}

/// The size of the suffix of `instrs` from `i`: `None` where it exceeds
/// the word.
fn instrs_size_exec(instrs: &Vec<Instruction>, i: usize) -> (r: Option<u64>)
    requires
        i <= instrs@.len(),
    ensures
        match r {
            Some(n) => n as nat == instrs_size(instrs@.subrange(i as int, instrs@.len() as int)),
            None => instrs_size(instrs@.subrange(i as int, instrs@.len() as int)) > u64::MAX,
        },
    decreases instrs_size(instrs@.subrange(i as int, instrs@.len() as int)), 1nat,
{
    if i < instrs.len() {
        proof {
            lemma_suffix_step(instrs@, i as int, Seq::empty(), 0, 0);
        }
        match instr_size_exec(&instrs[i]) {
            Some(h) => {
                match instrs_size_exec(instrs, i + 1) {
                    Some(t) => h.checked_add(t),
                    None => None,
                }
            },
            None => None,
        }
    } else {
        Some(0)
    }
}

/// Whether a program is small enough for `compile`: its declared list and
/// instruction tree together stay inside the backend's 32-bit handle
/// space. The executable test for `compile`'s one precondition.
pub fn compile_ready(program: &Program) -> (r: bool)
    ensures
        r == (program.variables@.len() + instrs_size(program.instructions@) < 0x1000_0000),
{
    proof {
        assert(program.instructions@.subrange(0, program.instructions@.len() as int)
            =~= program.instructions@);
    }
    let vars_len = program.variables.len();
    match instrs_size_exec(&program.instructions, 0) {
        Some(n) => {
            if n < 0x1000_0000 && (vars_len as u64) < 0x1000_0000 {
                match (vars_len as u64).checked_add(n) {
                    Some(total) => total < 0x1000_0000,
                    None => false,
                }
            } else {
                false
            }
        },
        None => false,
    }
}

/// The operations that set up one cell per declared variable, each
/// initialized to the literal 0.
pub open spec fn init_cells_ops(n: nat) -> Seq<Op>
    decreases n,
{
    if n == 0 {
        Seq::empty()
    } else {
        init_cells_ops((n - 1) as nat) + seq![
            Op::DeclareCell { cell: (n - 1) as nat },
            Op::Literal { value: 0 },
            Op::WriteCell { cell: (n - 1) as nat },
        ]
    }
}

/// Every operation `compile` emits for a program, in order: the entry
/// block, sealed at once; one zeroed cell per declared variable; the
/// argument written to `input`'s cell where `input` is declared; the
/// translated instructions; then the return of `output`'s cell, or of the
/// literal 0 where `output` is not declared.
pub open spec fn program_trace(p: Program) -> Seq<Op> {
    let d = declared_names(p);
    let n = p.variables@.len();
    seq![Op::CreateBlock { block: 0 }, Op::SwitchTo { block: 0 }, Op::Seal { block: 0 }]
        + init_cells_ops(n) + (if d.contains(input_name()) {
        seq![Op::WriteCell { cell: name_cell(d, input_name()) }]
    } else {
        Seq::empty()
    }) + translate_instrs(p.instructions@, d, 1, n).0 + (if d.contains(output_name()) {
        seq![Op::ReadCell { cell: name_cell(d, output_name()) }]
    } else {
        seq![Op::Literal { value: 0 }]
    }) + seq![Op::Return]
}

/// Translate an IR program into one finalized native function of
/// signature `(integer) -> integer`.
///
/// The program is validated first: a reference to an undeclared variable
/// is reported as `LoweringInvariantViolation`; otherwise a `Modulo`
/// anywhere in it is reported as `UnsupportedOperation`. A well-formed
/// program is handed to the backend, whose own refusals come back as
/// `BackendFailure`; nothing is ever silently miscompiled, and on success
/// the operations that built the function are exactly `program_trace` of
/// the program.
///
/// The size bound keeps block and cell indices inside the backend's
/// 32-bit handle space; `compile_ready` is its executable test.
pub fn compile(program: Program) -> (r: Result<CompiledProgram, CompileError>)
    requires
        program.variables@.len() + instrs_size(program.instructions@) < 0x1000_0000,
    ensures
        r is Ok ==> program_ok(program),
        (r matches Err(e) && e is LoweringInvariantViolation) <==> !instrs_declared(
            program.instructions@,
            declared_names(program),
        ),
        (r matches Err(e) && e is UnsupportedOperation) <==> (instrs_declared(
            program.instructions@,
            declared_names(program),
        ) && !instrs_modfree(program.instructions@)),
        program_ok(program) ==> (r is Ok || (r matches Err(e) && e is BackendFailure)),
        r matches Ok(cp) ==> cp.module.ready_fns().dom().contains(cp.func)
            && cp.module.ready_fns()[cp.func] == program_trace(program),
{
    let ghost d = declared_names(program);
    let Program { variables, instructions } = program;
    proof {
        assert(instructions@.subrange(0, instructions@.len() as int) =~= instructions@);
    }
    if !check_declared_from(&variables, &instructions, 0) {
        return Err(CompileError::LoweringInvariantViolation);
    }
    if !check_modfree_from(&instructions, 0) {
        return Err(CompileError::UnsupportedOperation);
    }
    let mut module = match JitModule::make() {
        Ok(m) => m,
        Err(e) => return Err(CompileError::BackendFailure(e)),
    };
    let func_id = match module.declare_int_to_int() {
        Ok(f) => f,
        Err(e) => return Err(CompileError::BackendFailure(e)),
    };
    let mut ctx = FnContext::make(&module);
    let mut fbc = BuilderWorkspace::make();
    let (mut cfg, arg) = Cfg::start(&mut ctx, &mut fbc);
    cfg.seal_block(0);
    let ghost prologue = seq![
        Op::CreateBlock { block: 0 },
        Op::SwitchTo { block: 0 },
        Op::Seal { block: 0 },
    ];
    proof {
        assert(cfg.trace@ =~= prologue + init_cells_ops(0));
    }

    // One cell per declared variable, each initialized to the literal 0.
    let n = variables.len();
    let mut i: usize = 0;
    while i < n
        invariant
            i <= n,
            n == variables@.len(),
            n < 0x1000_0000,
            cfg.ready(),
            cfg.blocks@ == 1,
            cfg.cur@ == Some(0nat),
            cfg.sealed@ == Set::<nat>::empty().insert(0nat),
            cfg.filled@ == Set::<nat>::empty(),
            cfg.cells@ == i as nat,
            cfg.words@.contains(arg),
            forall|k: nat| k < i as nat ==> cfg.defined@.contains(k),
            bounded(cfg),
            cfg.trace@ == prologue + init_cells_ops(i as nat),
        decreases n - i,
    {
        let ghost before = cfg.trace@;
        let c = cfg.declare_cell();
        let z = cfg.emit_literal(0);
        cfg.def_cell(c, z);
        proof {
            assert(cfg.trace@ =~= prologue + init_cells_ops((i + 1) as nat));
        }
        i += 1;
    }

    // The reserved `input` cell takes the function's argument.
    let ghost after_cells = cfg.trace@;
    let input_key = ("input").to_owned();
    if let Some(idx) = find_name(&variables, &input_key) {
        cfg.def_cell(idx as u32, arg);
    }
    proof {
        assert(cfg.trace@ =~= after_cells + (if d.contains(input_name()) {
            seq![Op::WriteCell { cell: name_cell(d, input_name()) }]
        } else {
            Seq::<Op>::empty()
        }));
    }

    let ghost entered = cfg;
    gen_from(&mut cfg, &variables, &instructions, 0);

    // The return value: the reserved `output` cell, or the literal 0 if
    // `output` was never declared.
    let ghost after_body = cfg.trace@;
    let output_key = ("output").to_owned();
    let ret = match find_name(&variables, &output_key) {
        Some(idx) => cfg.use_cell(idx as u32),
        None => cfg.emit_literal(0),
    };
    proof {
        assert(cfg.trace@ =~= after_body + (if d.contains(output_name()) {
            seq![Op::ReadCell { cell: name_cell(d, output_name()) }]
        } else {
            seq![Op::Literal { value: 0 }]
        }));
    }
    cfg.emit_return(ret);

    proof {
        assert forall|b: nat| b < cfg.blocks@ implies cfg.sealed@.contains(b)
            && cfg.filled@.contains(b) by {
            assert(evolves(entered, cfg));
        }
        assert(cfg.trace@ =~= program_trace(program));
    }
    let built = cfg.finish(&module);

    if let Err(e) = define_function(&mut module, func_id, &mut ctx, built) {
        return Err(CompileError::BackendFailure(e));
    }
    if let Err(e) = finalize_definitions(&mut module) {
        return Err(CompileError::BackendFailure(e));
    }
    proof {
        assert(module.ready_fns() =~= Map::<cranelift_module::FuncId, Seq<Op>>::empty().insert(
            func_id,
            program_trace(program),
        ));
    }
    Ok(CompiledProgram { module, func: func_id })
}

} // verus!

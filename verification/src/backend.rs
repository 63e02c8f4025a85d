//! The trusted boundary to the code-generation library.
//!
//! Everything the JIT engine knows about cranelift is stated here, as
//! contracts over a ghost model of the function builder: how many blocks
//! and storage cells exist, which blocks are sealed (no further
//! predecessor edges may target them), which are filled (ended by a
//! terminator), where the insertion point stands, which cells have been
//! given a definition, which SSA values carry a word and which carry a
//! comparison flag, and — as a trace — the exact sequence of operations
//! emitted so far. The contracts say no more than what the builder's own
//! documentation and assertions promise; what the emitted operations
//! compute is the business of the callers' contracts over the trace.

use vstd::prelude::*;

use cranelift_codegen::ir::condcodes::IntCC;
use cranelift_codegen::ir::types::I64;
use cranelift_codegen::ir::InstBuilder;
use cranelift_frontend::Variable;
use cranelift_module::default_libcall_names;
use cranelift_module::Module;

use cranelift_codegen::ir::Signature as ClifSignature;
use cranelift_codegen::ir::Value as ClifValue;

verus! {

/// Declares `cranelift_jit::JITModule`, the module that owns the
/// generated code.
#[verifier::external_type_specification]
#[verifier::external_body]
pub struct ExJitModule(cranelift_jit::JITModule);

/// Declares `cranelift_module::ModuleError`, the backend's error type.
#[verifier::external_type_specification]
#[verifier::external_body]
pub struct ExModuleError(cranelift_module::ModuleError);

/// Declares `cranelift_module::FuncId`, the handle of a declared function.
#[verifier::external_type_specification]
#[verifier::external_body]
pub struct ExFuncId(cranelift_module::FuncId);

/// Declares `cranelift_codegen::Context`, the compilation context holding
/// the function under construction.
#[verifier::external_type_specification]
#[verifier::external_body]
pub struct ExContext(cranelift_codegen::Context);

/// Declares `cranelift_frontend::FunctionBuilderContext`, the builder's
/// reusable working memory.
#[verifier::external_type_specification]
#[verifier::external_body]
pub struct ExFunctionBuilderContext(cranelift_frontend::FunctionBuilderContext);

/// Declares `cranelift_frontend::FunctionBuilder`, the control-flow-graph
/// builder itself.
#[verifier::external_type_specification]
#[verifier::external_body]
pub struct ExFunctionBuilder<'a>(cranelift_frontend::FunctionBuilder<'a>);

/// Declares `cranelift_codegen::ir::Value`, an SSA value handle; opaque
/// here, only threaded between emitted operations.
#[verifier::external_type_specification]
#[verifier::external_body]
pub struct ExValue(ClifValue);

/// One emitted operation, as the trace records it. Blocks and cells are
/// named by their creation index; the SSA value handles an operation
/// consumes are opaque and do not appear here.
pub enum Op {
    CreateBlock { block: nat },
    SwitchTo { block: nat },
    Seal { block: nat },
    DeclareCell { cell: nat },
    ReadCell { cell: nat },
    WriteCell { cell: nat },
    Literal { value: i64 },
    Add,
    Sub,
    Mul,
    Udiv,
    CmpEq,
    CmpNe,
    IsOne,
    IsNonPos,
    Jump { target: nat },
    Branch { taken: nat, other: nat },
    Return,
}

/// A JIT module together with the ghost record of what it holds: the
/// function ids it has declared, the build trace of each function defined
/// into it, and the functions finalization has made callable. The raw
/// module never crosses this boundary, so no caller can hand in one
/// configured in a way the backend refuses.
pub struct JitModule {
    inner: cranelift_jit::JITModule,
    declared: Ghost<Set<cranelift_module::FuncId>>,
    defined: Ghost<Map<cranelift_module::FuncId, Seq<Op>>>,
    ready: Ghost<Map<cranelift_module::FuncId, Seq<Op>>>,
}

impl JitModule {
    /// The function ids this module has declared.
    pub closed spec fn declared_fns(&self) -> Set<cranelift_module::FuncId> {
        self.declared@
    }

    /// The operations that built each function defined into this module.
    pub closed spec fn defined_fns(&self) -> Map<cranelift_module::FuncId, Seq<Op>> {
        self.defined@
    }

    /// The operations that built each function finalization has made
    /// callable.
    pub closed spec fn ready_fns(&self) -> Map<cranelift_module::FuncId, Seq<Op>> {
        self.ready@
    }

    /// Relies on `cranelift_jit::JITBuilder::new` with
    /// `cranelift_module::default_libcall_names`, and
    /// `cranelift_jit::JITModule::new`: a fresh module for the host
    /// machine. `JITBuilder::new` forces `is_pic` off, so the assertion in
    /// `JITModule::new` cannot fire; on a host cranelift cannot target at
    /// all it dies rather than returning, which no argument can prevent.
    #[verifier::external_body]
    fn make_raw() -> Result<cranelift_jit::JITModule, cranelift_module::ModuleError> {
        let builder = cranelift_jit::JITBuilder::new(default_libcall_names())?;
        Ok(cranelift_jit::JITModule::new(builder))
    }

    /// A fresh module: nothing declared, defined or callable yet.
    pub(crate) fn make() -> (r: Result<JitModule, cranelift_module::ModuleError>)
        ensures
            r matches Ok(m) ==> {
                &&& m.declared_fns() == Set::<cranelift_module::FuncId>::empty()
                &&& m.defined_fns() == Map::<cranelift_module::FuncId, Seq<Op>>::empty()
                &&& m.ready_fns() == Map::<cranelift_module::FuncId, Seq<Op>>::empty()
            },
    {
        match Self::make_raw() {
            Ok(inner) => Ok(
                JitModule {
                    inner,
                    declared: Ghost(Set::empty()),
                    defined: Ghost(Map::empty()),
                    ready: Ghost(Map::empty()),
                },
            ),
            Err(e) => Err(e),
        }
    }

    /// Relies on `cranelift_module::Module::make_signature`, pushing one
    /// `I64` parameter and one `I64` return, and
    /// `Module::declare_anonymous_function`: declares a new function of
    /// the engine's signature and hands back its fresh id.
    #[verifier::external_body]
    pub(crate) fn declare_int_to_int(&mut self) -> (r: Result<
        cranelift_module::FuncId,
        cranelift_module::ModuleError,
    >)
        ensures
            match r {
                Ok(id) => {
                    &&& !old(self).declared_fns().contains(id)
                    &&& final(self).declared_fns() == old(self).declared_fns().insert(id)
                    &&& final(self).defined_fns() == old(self).defined_fns()
                    &&& final(self).ready_fns() == old(self).ready_fns()
                },
                Err(_) => {
                    &&& final(self).declared_fns() == old(self).declared_fns()
                    &&& final(self).defined_fns() == old(self).defined_fns()
                    &&& final(self).ready_fns() == old(self).ready_fns()
                },
            },
    {
        let mut sig = self.inner.make_signature();
        sig.params.push(cranelift_codegen::ir::AbiParam::new(I64));
        sig.returns.push(cranelift_codegen::ir::AbiParam::new(I64));
        self.inner.declare_anonymous_function(&sig)
    }

    /// The raw module, for reading the finalized code out; callers outside
    /// the verifier's sight use this to take the entry point.
    pub fn raw(&self) -> &cranelift_jit::JITModule {
        &self.inner
    }
}

/// A compilation context that has not yet had a function built in it, and
/// that holds, by construction, the engine's one-`I64`-parameter,
/// one-`I64`-return signature — so the entry block `Cfg::start` sets up
/// always has exactly one parameter, a word. `Cfg::start` demands
/// freshness and uses it up, so one context can never host two builds:
/// the builder model's block and cell numbering starts at zero only in a
/// fresh context.
pub(crate) struct FnContext {
    inner: cranelift_codegen::Context,
    fresh: Ghost<bool>,
}

impl FnContext {
    /// Whether no function has been built in this context yet.
    pub closed spec fn is_fresh(&self) -> bool {
        self.fresh@
    }

    /// Relies on `cranelift_module::Module::make_context` and
    /// `Module::make_signature`, pushing one `I64` parameter and one
    /// `I64` return: a context whose function carries the engine's
    /// signature.
    #[verifier::external_body]
    fn make_raw(m: &JitModule) -> cranelift_codegen::Context {
        let mut sig: ClifSignature = m.inner.make_signature();
        sig.params.push(cranelift_codegen::ir::AbiParam::new(I64));
        sig.returns.push(cranelift_codegen::ir::AbiParam::new(I64));
        let mut ctx = m.inner.make_context();
        ctx.func.signature = sig;
        ctx
    }

    /// A fresh context over the engine's signature.
    pub(crate) fn make(m: &JitModule) -> (r: FnContext)
        ensures
            r.is_fresh(),
    {
        FnContext { inner: Self::make_raw(m), fresh: Ghost(true) }
    }
}

/// The builder's reusable working memory, wrapped so that only memory no
/// other build is using can reach `Cfg::start`: a workspace abandoned
/// mid-build (its builder leaked rather than finished) would carry stale
/// variable numbering into the next build.
pub(crate) struct BuilderWorkspace {
    inner: cranelift_frontend::FunctionBuilderContext,
    fresh: Ghost<bool>,
}

impl BuilderWorkspace {
    /// Whether no build has touched this workspace.
    pub closed spec fn is_fresh(&self) -> bool {
        self.fresh@
    }

    /// Relies on `cranelift_frontend::FunctionBuilderContext::new`.
    #[verifier::external_body]
    fn make_raw() -> cranelift_frontend::FunctionBuilderContext {
        cranelift_frontend::FunctionBuilderContext::new()
    }

    /// A fresh, empty workspace.
    pub(crate) fn make() -> (r: BuilderWorkspace)
        ensures
            r.is_fresh(),
    {
        BuilderWorkspace { inner: Self::make_raw(), fresh: Ghost(true) }
    }
}

/// The receipt of one finished build: the trace of every operation it
/// emitted. Only `Cfg::finish` constructs one, so a receipt stands for
/// exactly one builder run, in the one context that build consumed.
pub(crate) struct FinishedBuild {
    trace: Ghost<Seq<Op>>,
}

impl FinishedBuild {
    /// The operations the finished build emitted.
    pub closed spec fn trace(&self) -> Seq<Op> {
        self.trace@
    }
}

/// Relies on `cranelift_module::Module::define_function`: hands the
/// context's built function over to the module, which compiles it or
/// rejects it. The receipt is the record of the one build the single-use
/// context can have hosted — `compile` is the only caller, and passes the
/// receipt of exactly the build it ran in `ctx` — so on success the
/// module holds, under `id`, the function those operations built.
#[verifier::external_body]
pub(crate) fn define_function(
    m: &mut JitModule,
    id: cranelift_module::FuncId,
    ctx: &mut FnContext,
    build: FinishedBuild,
) -> (r: Result<(), cranelift_module::ModuleError>)
    requires
        !old(ctx).is_fresh(),
        old(m).declared_fns().contains(id),
    ensures
        match r {
            Ok(_) => {
                &&& final(m).defined_fns() == old(m).defined_fns().insert(id, build.trace())
                &&& final(m).declared_fns() == old(m).declared_fns()
                &&& final(m).ready_fns() == old(m).ready_fns()
            },
            Err(_) => {
                &&& final(m).defined_fns() == old(m).defined_fns()
                &&& final(m).declared_fns() == old(m).declared_fns()
                &&& final(m).ready_fns() == old(m).ready_fns()
            },
        },
{
    m.inner.define_function(id, &mut ctx.inner)
}

/// Relies on `cranelift_jit::JITModule::finalize_definitions`: performs
/// relocations and makes every defined function callable.
#[verifier::external_body]
pub(crate) fn finalize_definitions(m: &mut JitModule) -> (r: Result<
    (),
    cranelift_module::ModuleError,
>)
    ensures
        match r {
            Ok(_) => {
                &&& final(m).ready_fns() == old(m).ready_fns().union_prefer_right(
                    old(m).defined_fns(),
                )
                &&& final(m).defined_fns() == old(m).defined_fns()
                &&& final(m).declared_fns() == old(m).declared_fns()
            },
            Err(_) => {
                &&& final(m).ready_fns() == old(m).ready_fns()
                &&& final(m).defined_fns() == old(m).defined_fns()
                &&& final(m).declared_fns() == old(m).declared_fns()
            },
        },
{
    m.inner.finalize_definitions()
}

/// The control-flow-graph builder for one function, together with the
/// ghost model of its state. Block and cell handles are the indices the
/// builder assigns, which start at zero in a fresh context and count up
/// one at a time.
pub(crate) struct Cfg<'a> {
    pub inner: cranelift_frontend::FunctionBuilder<'a>,
    /// How many blocks have been created.
    pub blocks: Ghost<nat>,
    /// Blocks that are sealed: all their predecessor edges exist, and no
    /// branch may target them again.
    pub sealed: Ghost<Set<nat>>,
    /// Blocks that are filled: they end in a terminator and take no
    /// further instructions.
    pub filled: Ghost<Set<nat>>,
    /// The block new instructions go into, if any.
    pub cur: Ghost<Option<nat>>,
    /// How many storage cells have been declared.
    pub cells: Ghost<nat>,
    /// Cells that have received at least one definition.
    pub defined: Ghost<Set<nat>>,
    /// The values of this builder known to carry a 64-bit word: cell
    /// reads, literals, arithmetic results, widened comparisons, and the
    /// function's parameter. Only these may be written to a cell,
    /// returned, or used as operands.
    pub words: Ghost<Set<ClifValue>>,
    /// The values of this builder known to carry a narrow comparison
    /// flag: they may steer a branch and nothing else.
    pub flags: Ghost<Set<ClifValue>>,
    /// Every operation emitted so far, in order.
    pub trace: Ghost<Seq<Op>>,
}

impl<'a> Cfg<'a> {
    /// The insertion point stands in block `b`, which can still take
    /// instructions.
    pub(crate) open spec fn at(self, b: nat) -> bool {
        &&& self.cur@ == Some(b)
        &&& b < self.blocks@
        &&& !self.filled@.contains(b)
    }

    /// The insertion point stands in some block that can still take
    /// instructions.
    pub(crate) open spec fn ready(self) -> bool {
        match self.cur@ {
            Some(c) => self.at(c),
            None => false,
        }
    }

    /// Everything but the named mutable pieces is as it was: helper for
    /// the wrappers' frame clauses.
    pub(crate) open spec fn same_blocks(self, o: Cfg<'a>) -> bool {
        &&& self.blocks@ == o.blocks@
        &&& self.sealed@ == o.sealed@
        &&& self.filled@ == o.filled@
        &&& self.cur@ == o.cur@
    }

    /// The cell bookkeeping is as it was.
    pub(crate) open spec fn same_cells(self, o: Cfg<'a>) -> bool {
        &&& self.cells@ == o.cells@
        &&& self.defined@ == o.defined@
    }

    /// The value typing is as it was.
    pub(crate) open spec fn same_values(self, o: Cfg<'a>) -> bool {
        &&& self.words@ == o.words@
        &&& self.flags@ == o.flags@
    }

    /// Relies on `cranelift_frontend::FunctionBuilder::new`,
    /// `create_block`, `append_block_params_for_function_params`,
    /// `switch_to_block` and `block_params`: makes a builder over the
    /// context's function, creates the entry block (block 0), appends the
    /// function's parameters to it, moves the insertion point there, and
    /// reads the value of the first parameter — which exists and is an
    /// `I64` word, because every `FnContext` holds the engine's
    /// one-parameter signature by construction.
    #[verifier::external_body]
    fn begin_function(
        ctx: &'a mut cranelift_codegen::Context,
        fbc: &'a mut cranelift_frontend::FunctionBuilderContext,
    ) -> (cranelift_frontend::FunctionBuilder<'a>, ClifValue) {
        let mut inner = cranelift_frontend::FunctionBuilder::new(&mut ctx.func, fbc);
        let entry = inner.create_block();
        inner.append_block_params_for_function_params(entry);
        inner.switch_to_block(entry);
        let arg = inner.block_params(entry)[0];
        (inner, arg)
    }

    /// Begin building a function of one integer parameter in a fresh
    /// context over a fresh workspace: one unsealed, unfilled entry block
    /// numbered 0 holding the insertion point, no cells, and the
    /// parameter as the one known word value. Consumes both freshnesses,
    /// so no second function can ever be started in either.
    pub(crate) fn start(ctx: &'a mut FnContext, fbc: &'a mut BuilderWorkspace) -> (r: (
        Cfg<'a>,
        ClifValue,
    ))
        requires
            old(ctx).is_fresh(),
            old(fbc).is_fresh(),
        ensures
            !final(ctx).is_fresh(),
            !final(fbc).is_fresh(),
            r.0.blocks@ == 1,
            r.0.sealed@ == Set::<nat>::empty(),
            r.0.filled@ == Set::<nat>::empty(),
            r.0.cur@ == Some(0nat),
            r.0.cells@ == 0,
            r.0.defined@ == Set::<nat>::empty(),
            r.0.words@ == Set::<ClifValue>::empty().insert(r.1),
            r.0.flags@ == Set::<ClifValue>::empty(),
            r.0.trace@ == seq![Op::CreateBlock { block: 0 }, Op::SwitchTo { block: 0 }],
    {
        ctx.fresh = Ghost(false);
        fbc.fresh = Ghost(false);
        let ghost opening: Seq<Op> = seq![Op::CreateBlock { block: 0 }, Op::SwitchTo { block: 0 }];
        let (inner, arg) = Self::begin_function(&mut ctx.inner, &mut fbc.inner);
        (
            Cfg {
                inner,
                blocks: Ghost(1nat),
                sealed: Ghost(Set::empty()),
                filled: Ghost(Set::empty()),
                cur: Ghost(Some(0nat)),
                cells: Ghost(0nat),
                defined: Ghost(Set::empty()),
                words: Ghost(Set::empty().insert(arg)),
                flags: Ghost(Set::empty()),
                trace: Ghost(opening),
            },
            arg,
        )
    }

    /// Relies on `cranelift_frontend::FunctionBuilder::create_block`:
    /// block indices are handed out in creation order, so the new block's
    /// index is the number of blocks created before it. The new block is
    /// neither sealed nor filled.
    #[verifier::external_body]
    pub(crate) fn create_block(&mut self) -> (b: u32)
        requires
            old(self).blocks@ < 0x8000_0000,
        ensures
            b as nat == old(self).blocks@,
            final(self).blocks@ == old(self).blocks@ + 1,
            final(self).sealed@ == old(self).sealed@,
            final(self).filled@ == old(self).filled@,
            final(self).cur@ == old(self).cur@,
            final(self).same_cells(*old(self)),
            final(self).same_values(*old(self)),
            final(self).trace@ == old(self).trace@.push(Op::CreateBlock { block: b as nat }),
    {
        self.inner.create_block().as_u32()
    }

    /// Relies on `cranelift_frontend::FunctionBuilder::switch_to_block`:
    /// the builder may leave a block only once it is filled, and may not
    /// enter a filled block.
    #[verifier::external_body]
    pub(crate) fn switch_to_block(&mut self, b: u32)
        requires
            (b as nat) < old(self).blocks@,
            !old(self).filled@.contains(b as nat),
            match old(self).cur@ {
                Some(c) => old(self).filled@.contains(c),
                None => true,
            },
        ensures
            final(self).cur@ == Some(b as nat),
            final(self).blocks@ == old(self).blocks@,
            final(self).sealed@ == old(self).sealed@,
            final(self).filled@ == old(self).filled@,
            final(self).same_cells(*old(self)),
            final(self).same_values(*old(self)),
            final(self).trace@ == old(self).trace@.push(Op::SwitchTo { block: b as nat }),
    {
        self.inner.switch_to_block(cranelift_codegen::ir::Block::from_u32(b));
    }

    /// Relies on `cranelift_frontend::FunctionBuilder::seal_block`: a
    /// block may be sealed only once, and sealing promises that every
    /// predecessor edge targeting it already exists.
    #[verifier::external_body]
    pub(crate) fn seal_block(&mut self, b: u32)
        requires
            (b as nat) < old(self).blocks@,
            !old(self).sealed@.contains(b as nat),
        ensures
            final(self).sealed@ == old(self).sealed@.insert(b as nat),
            final(self).blocks@ == old(self).blocks@,
            final(self).filled@ == old(self).filled@,
            final(self).cur@ == old(self).cur@,
            final(self).same_cells(*old(self)),
            final(self).same_values(*old(self)),
            final(self).trace@ == old(self).trace@.push(Op::Seal { block: b as nat }),
    {
        self.inner.seal_block(cranelift_codegen::ir::Block::from_u32(b));
    }

    /// Relies on `cranelift_frontend::FunctionBuilder::declare_var` with
    /// type `I64`: cell indices are handed out in declaration order.
    #[verifier::external_body]
    pub(crate) fn declare_cell(&mut self) -> (c: u32)
        requires
            old(self).cells@ < 0x8000_0000,
        ensures
            c as nat == old(self).cells@,
            final(self).cells@ == old(self).cells@ + 1,
            final(self).defined@ == old(self).defined@,
            final(self).same_blocks(*old(self)),
            final(self).same_values(*old(self)),
            final(self).trace@ == old(self).trace@.push(Op::DeclareCell { cell: c as nat }),
    {
        self.inner.declare_var(I64).as_u32()
    }

    /// Relies on `cranelift_frontend::FunctionBuilder::def_var`: gives a
    /// declared cell a word value at the insertion point. Only a word
    /// value of this builder may be written: the cells are declared `I64`,
    /// and `def_var` refuses a value of any other type.
    #[verifier::external_body]
    pub(crate) fn def_cell(&mut self, c: u32, v: ClifValue)
        requires
            (c as nat) < old(self).cells@,
            old(self).words@.contains(v),
            old(self).ready(),
        ensures
            final(self).defined@ == old(self).defined@.insert(c as nat),
            final(self).cells@ == old(self).cells@,
            final(self).same_blocks(*old(self)),
            final(self).same_values(*old(self)),
            final(self).trace@ == old(self).trace@.push(Op::WriteCell { cell: c as nat }),
    {
        self.inner.def_var(Variable::from_u32(c), v);
    }

    /// Relies on `cranelift_frontend::FunctionBuilder::use_var`: reads the
    /// word a declared, defined cell holds at the insertion point.
    #[verifier::external_body]
    pub(crate) fn use_cell(&mut self, c: u32) -> (v: ClifValue)
        requires
            (c as nat) < old(self).cells@,
            old(self).defined@.contains(c as nat),
            old(self).ready(),
        ensures
            final(self).words@ == old(self).words@.insert(v),
            final(self).flags@ == old(self).flags@,
            final(self).same_blocks(*old(self)),
            final(self).same_cells(*old(self)),
            final(self).trace@ == old(self).trace@.push(Op::ReadCell { cell: c as nat }),
    {
        self.inner.use_var(Variable::from_u32(c))
    }

    /// Relies on the `iconst` instruction of
    /// `cranelift_codegen::ir::InstBuilder`: an `I64` literal.
    #[verifier::external_body]
    pub(crate) fn emit_literal(&mut self, n: i64) -> (v: ClifValue)
        requires
            old(self).ready(),
        ensures
            final(self).words@ == old(self).words@.insert(v),
            final(self).flags@ == old(self).flags@,
            final(self).same_blocks(*old(self)),
            final(self).same_cells(*old(self)),
            final(self).trace@ == old(self).trace@.push(Op::Literal { value: n }),
    {
        self.inner.ins().iconst(I64, n)
    }

    /// Relies on the `iadd` instruction of
    /// `cranelift_codegen::ir::InstBuilder`: wrapping addition of two
    /// words.
    #[verifier::external_body]
    pub(crate) fn emit_add(&mut self, a: ClifValue, b: ClifValue) -> (v: ClifValue)
        requires
            old(self).ready(),
            old(self).words@.contains(a),
            old(self).words@.contains(b),
        ensures
            final(self).words@ == old(self).words@.insert(v),
            final(self).flags@ == old(self).flags@,
            final(self).same_blocks(*old(self)),
            final(self).same_cells(*old(self)),
            final(self).trace@ == old(self).trace@.push(Op::Add),
    {
        self.inner.ins().iadd(a, b)
    }

    /// Relies on the `isub` instruction of
    /// `cranelift_codegen::ir::InstBuilder`: wrapping subtraction of two
    /// words.
    #[verifier::external_body]
    pub(crate) fn emit_sub(&mut self, a: ClifValue, b: ClifValue) -> (v: ClifValue)
        requires
            old(self).ready(),
            old(self).words@.contains(a),
            old(self).words@.contains(b),
        ensures
            final(self).words@ == old(self).words@.insert(v),
            final(self).flags@ == old(self).flags@,
            final(self).same_blocks(*old(self)),
            final(self).same_cells(*old(self)),
            final(self).trace@ == old(self).trace@.push(Op::Sub),
    {
        self.inner.ins().isub(a, b)
    }

    /// Relies on the `imul` instruction of
    /// `cranelift_codegen::ir::InstBuilder`: wrapping multiplication of
    /// two words.
    #[verifier::external_body]
    pub(crate) fn emit_mul(&mut self, a: ClifValue, b: ClifValue) -> (v: ClifValue)
        requires
            old(self).ready(),
            old(self).words@.contains(a),
            old(self).words@.contains(b),
        ensures
            final(self).words@ == old(self).words@.insert(v),
            final(self).flags@ == old(self).flags@,
            final(self).same_blocks(*old(self)),
            final(self).same_cells(*old(self)),
            final(self).trace@ == old(self).trace@.push(Op::Mul),
    {
        self.inner.ins().imul(a, b)
    }

    /// Relies on the `udiv` instruction of
    /// `cranelift_codegen::ir::InstBuilder`: unsigned division of two
    /// words, which traps at run time on a zero divisor.
    #[verifier::external_body]
    pub(crate) fn emit_udiv(&mut self, a: ClifValue, b: ClifValue) -> (v: ClifValue)
        requires
            old(self).ready(),
            old(self).words@.contains(a),
            old(self).words@.contains(b),
        ensures
            final(self).words@ == old(self).words@.insert(v),
            final(self).flags@ == old(self).flags@,
            final(self).same_blocks(*old(self)),
            final(self).same_cells(*old(self)),
            final(self).trace@ == old(self).trace@.push(Op::Udiv),
    {
        self.inner.ins().udiv(a, b)
    }

    /// Relies on the `icmp` and `uextend` instructions of
    /// `cranelift_codegen::ir::InstBuilder`: an equality or inequality
    /// comparison of two words yielding 1 or 0, widened back to a word.
    #[verifier::external_body]
    pub(crate) fn emit_compare(&mut self, equal: bool, a: ClifValue, b: ClifValue) -> (v: ClifValue)
        requires
            old(self).ready(),
            old(self).words@.contains(a),
            old(self).words@.contains(b),
        ensures
            final(self).words@ == old(self).words@.insert(v),
            final(self).flags@ == old(self).flags@,
            final(self).same_blocks(*old(self)),
            final(self).same_cells(*old(self)),
            final(self).trace@ == old(self).trace@.push(
                if equal {
                    Op::CmpEq
                } else {
                    Op::CmpNe
                },
            ),
    {
        let cc = if equal { IntCC::Equal } else { IntCC::NotEqual };
        let bit = self.inner.ins().icmp(cc, a, b);
        self.inner.ins().uextend(I64, bit)
    }

    /// Relies on the `icmp_imm_s` instruction of
    /// `cranelift_codegen::ir::InstBuilder` with `IntCC::Equal` and
    /// immediate 1: tests a word against the canonical true literal,
    /// yielding a narrow flag.
    #[verifier::external_body]
    pub(crate) fn emit_is_one(&mut self, a: ClifValue) -> (v: ClifValue)
        requires
            old(self).ready(),
            old(self).words@.contains(a),
        ensures
            final(self).flags@ == old(self).flags@.insert(v),
            final(self).words@ == old(self).words@,
            final(self).same_blocks(*old(self)),
            final(self).same_cells(*old(self)),
            final(self).trace@ == old(self).trace@.push(Op::IsOne),
    {
        self.inner.ins().icmp_imm_s(IntCC::Equal, a, 1)
    }

    /// Relies on the `icmp_imm_s` instruction of
    /// `cranelift_codegen::ir::InstBuilder` with
    /// `IntCC::SignedLessThanOrEqual` and immediate 0: tests whether a
    /// word is non-positive as a signed value, yielding a narrow flag.
    #[verifier::external_body]
    pub(crate) fn emit_is_non_positive(&mut self, a: ClifValue) -> (v: ClifValue)
        requires
            old(self).ready(),
            old(self).words@.contains(a),
        ensures
            final(self).flags@ == old(self).flags@.insert(v),
            final(self).words@ == old(self).words@,
            final(self).same_blocks(*old(self)),
            final(self).same_cells(*old(self)),
            final(self).trace@ == old(self).trace@.push(Op::IsNonPos),
    {
        self.inner.ins().icmp_imm_s(IntCC::SignedLessThanOrEqual, a, 0)
    }

    /// Relies on the `jump` instruction of
    /// `cranelift_codegen::ir::InstBuilder`: an unconditional edge to a
    /// block that is not sealed, terminating the insertion block.
    #[verifier::external_body]
    pub(crate) fn emit_jump(&mut self, target: u32)
        requires
            old(self).ready(),
            (target as nat) < old(self).blocks@,
            !old(self).sealed@.contains(target as nat),
        ensures
            final(self).filled@ == old(self).filled@.insert(old(self).cur@.unwrap()),
            final(self).blocks@ == old(self).blocks@,
            final(self).sealed@ == old(self).sealed@,
            final(self).cur@ == old(self).cur@,
            final(self).same_cells(*old(self)),
            final(self).same_values(*old(self)),
            final(self).trace@ == old(self).trace@.push(Op::Jump { target: target as nat }),
    {
        self.inner.ins().jump(cranelift_codegen::ir::Block::from_u32(target), &[]);
    }

    /// Relies on the `brif` instruction of
    /// `cranelift_codegen::ir::InstBuilder`: branches to the first block
    /// when the condition — a word or a flag of this builder — is
    /// non-zero, else to the second; adds an edge to both, so neither may
    /// be sealed, and they must differ (the builder's interface asks that
    /// no two edges of one branch target the same block); terminates the
    /// insertion block.
    #[verifier::external_body]
    pub(crate) fn emit_branch_if(&mut self, cond: ClifValue, taken: u32, other: u32)
        requires
            old(self).ready(),
            old(self).words@.contains(cond) || old(self).flags@.contains(cond),
            (taken as nat) < old(self).blocks@,
            (other as nat) < old(self).blocks@,
            taken != other,
            !old(self).sealed@.contains(taken as nat),
            !old(self).sealed@.contains(other as nat),
        ensures
            final(self).filled@ == old(self).filled@.insert(old(self).cur@.unwrap()),
            final(self).blocks@ == old(self).blocks@,
            final(self).sealed@ == old(self).sealed@,
            final(self).cur@ == old(self).cur@,
            final(self).same_cells(*old(self)),
            final(self).same_values(*old(self)),
            final(self).trace@ == old(self).trace@.push(
                Op::Branch { taken: taken as nat, other: other as nat },
            ),
    {
        self.inner.ins().brif(
            cond,
            cranelift_codegen::ir::Block::from_u32(taken),
            &[],
            cranelift_codegen::ir::Block::from_u32(other),
            &[],
        );
    }

    /// Relies on the `return_` instruction of
    /// `cranelift_codegen::ir::InstBuilder`: returns the given word,
    /// terminating the insertion block.
    #[verifier::external_body]
    pub(crate) fn emit_return(&mut self, v: ClifValue)
        requires
            old(self).ready(),
            old(self).words@.contains(v),
        ensures
            final(self).filled@ == old(self).filled@.insert(old(self).cur@.unwrap()),
            final(self).blocks@ == old(self).blocks@,
            final(self).sealed@ == old(self).sealed@,
            final(self).cur@ == old(self).cur@,
            final(self).same_cells(*old(self)),
            final(self).same_values(*old(self)),
            final(self).trace@ == old(self).trace@.push(Op::Return),
    {
        self.inner.ins().return_(&[v]);
    }

    /// Relies on `cranelift_frontend::FunctionBuilder::finalize` with the
    /// module's `target_config`: ends construction. The builder asserts
    /// that every created block is sealed and filled, so that is
    /// required by `finish`.
    #[verifier::external_body]
    fn finalize_raw(b: cranelift_frontend::FunctionBuilder<'a>, m: &JitModule) {
        b.finalize(m.raw().target_config());
    }

    /// End construction: the built function now stands in the context
    /// this builder was started in, and the receipt records exactly the
    /// operations that built it.
    pub(crate) fn finish(self, m: &JitModule) -> (r: FinishedBuild)
        requires
            forall|b: nat|
                b < self.blocks@ ==> self.sealed@.contains(b) && self.filled@.contains(b),
        ensures
            r.trace() == self.trace@,
    {
        let Cfg { inner, trace, .. } = self;
        Self::finalize_raw(inner, m);
        FinishedBuild { trace }
    }
}

} // verus!

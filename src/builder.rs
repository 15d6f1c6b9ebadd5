//! The builder: from a validated program tree to a flat circuit, with user
//! gates inlined, `for` loops unrolled and `if` bodies lowered to guarded
//! instructions.
use vstd::prelude::*;
use vstd::string::*;
use crate::ast::{Call, GateSig, Index, QArg, Stmt};
use crate::expr::{fold, fold_spec, env_valid, Expr, FoldError, Rat};
use crate::ir::{
    Angle, Bit, CircuitIR, Condition, InstView, Instruction, Konst, Register, RegView,
    bit_valid, inst_valid, inst_view, inst_views, instruction_valid, reg_view, reg_views,
};

verus! {

#[derive(Clone, Copy, PartialEq, Eq, Structural, Debug)]
pub enum BuildErrorKind {
    /// A register or alias name with no binding in scope.
    UndefinedName,
    /// A name that neither the program defines nor the factory resolves.
    UndefinedGate,
    /// A call whose operand or parameter count differs from its definition.
    Arity,
    /// An operand outside its register, or of the wrong kind.
    BadOperand,
    /// An alias whose slice leaves its target.
    AliasRange,
    /// A loop variable outside a loop, a formal outside a gate body.
    Unbound,
    Param(FoldError),
    /// A `for` bound that is not a constant integer in range, or a `while`,
    /// whose trip count is not known at build time.
    BadRange,
    /// An `if` or `while` guard that is not a classical register.
    BadCondition,
    /// A construct with no flat form: a register operand in a gate body.
    Unsupported,
}

/// A failure and the position of the statement that raised it.
#[derive(Clone, Copy, PartialEq, Eq, Structural, Debug)]
pub struct BuildError {
    pub kind: BuildErrorKind,
    pub position: usize,
}

/// What a name in scope stands for.
#[derive(Debug)]
pub enum Binding {
    Reg(usize),
    /// Resolved register slots, in order.
    Alias(Vec<Bit>),
}

#[derive(Debug)]
pub struct Symbol {
    pub name: String,
    pub binding: Binding,
}

pub ghost enum BindView {
    Reg(usize),
    Alias(Seq<Bit>),
}

pub ghost struct SymView {
    pub name: Seq<char>,
    pub bind: BindView,
}

pub open spec fn sym_view(s: Symbol) -> SymView {
    SymView {
        name: s.name@,
        bind: match s.binding {
            Binding::Reg(r) => BindView::Reg(r),
            Binding::Alias(b) => BindView::Alias(b@),
        },
    }
}

pub open spec fn sym_views(s: Seq<Symbol>) -> Seq<SymView> {
    s.map_values(|x: Symbol| sym_view(x))
}

/// The builder's state: registers, scope, gates defined so far (by the
/// position of their statement) and instructions.
pub ghost struct BState {
    pub regs: Seq<RegView>,
    pub syms: Seq<SymView>,
    pub gates: Seq<usize>,
    pub insts: Seq<InstView>,
}

pub open spec fn empty_state() -> BState {
    BState { regs: seq![], syms: seq![], gates: seq![], insts: seq![] }
}

/// The innermost binding of `name`: the latest symbol with that name.
pub open spec fn lookup(syms: Seq<SymView>, name: Seq<char>) -> Option<nat>
    decreases syms.len(),
{
    if syms.len() == 0 {
        None
    } else if syms.last().name == name {
        Some((syms.len() - 1) as nat)
    } else {
        lookup(syms.drop_last(), name)
    }
}

pub open spec fn is_gate_named(prog: Seq<Stmt>, pos: usize, name: Seq<char>) -> bool {
    pos < prog.len() && match prog[pos as int] {
        Stmt::Gate { name: n, .. } => n@ == name,
        _ => false,
    }
}

/// The latest of the first `limit` user gates named `name`.
pub open spec fn find_gate(prog: Seq<Stmt>, gates: Seq<usize>, limit: nat, name: Seq<char>) -> Option<nat>
    decreases limit,
{
    if limit == 0 {
        None
    } else if limit - 1 < gates.len() && is_gate_named(prog, gates[limit - 1], name) {
        Some((limit - 1) as nat)
    } else {
        find_gate(prog, gates, (limit - 1) as nat, name)
    }
}

/// The first constructor at or after `i` named `name`.
pub open spec fn find_sig(factory: Seq<GateSig>, name: Seq<char>, i: nat) -> Option<nat>
    decreases factory.len() - i,
{
    if i >= factory.len() {
        None
    } else if factory[i as int].name@ == name {
        Some(i)
    } else {
        find_sig(factory, name, i + 1)
    }
}

/// Parameter count, qubit count and body of the definition at `pos`.
pub open spec fn gate_parts(prog: Seq<Stmt>, pos: usize) -> (nat, nat, Seq<Call>) {
    match prog[pos as int] {
        Stmt::Gate { num_params, num_qubits, body, .. } => (num_params as nat, num_qubits as nat, body@),
        _ => (0, 0, seq![]),
    }
}

pub open spec fn rat_angle(r: Rat) -> Angle {
    Angle { num: r.num as i64, den: r.den as i64, konst: r.konst }
}

/// Every parameter folded under `env`, or the first failure.
pub open spec fn fold_all(params: Seq<Expr>, env: Seq<Angle>) -> Result<Seq<Angle>, BuildErrorKind>
    decreases params.len(),
{
    if params.len() == 0 {
        Ok(seq![])
    } else {
        match fold_all(params.drop_last(), env) {
            Err(e) => Err(e),
            Ok(prev) => match fold_spec(params.last(), env) {
                Ok(r) => Ok(prev.push(rat_angle(r))),
                Err(e) => Err(BuildErrorKind::Param(e)),
            },
        }
    }
}

/// Inside a gate body: the call-site slots bound to the formals named.
pub open spec fn formal_bits(args: Seq<QArg>, bits: Seq<Bit>) -> Result<Seq<Bit>, BuildErrorKind>
    decreases args.len(),
{
    if args.len() == 0 {
        Ok(seq![])
    } else {
        match formal_bits(args.drop_last(), bits) {
            Err(e) => Err(e),
            Ok(prev) => match args.last() {
                QArg::Formal(k) => if k < bits.len() {
                    Ok(prev.push(bits[k as int]))
                } else {
                    Err(BuildErrorKind::Unbound)
                },
                QArg::Slot { .. } => Err(BuildErrorKind::Unsupported),
            },
        }
    }
}

pub open spec fn prim(name: Seq<char>, bits: Seq<Bit>, angles: Seq<Angle>, cond: Option<Condition>) -> InstView {
    InstView { name, qubits: bits, clbits: seq![], params: angles, condition: cond }
}

/// The instructions that a call of `name` expands to, resolving among the
/// first `limit` user gates, then through the factory.
pub open spec fn call_spec(
    prog: Seq<Stmt>,
    factory: Seq<GateSig>,
    gates: Seq<usize>,
    limit: nat,
    name: Seq<char>,
    bits: Seq<Bit>,
    angles: Seq<Angle>,
    cond: Option<Condition>,
) -> Result<Seq<InstView>, BuildErrorKind>
    decreases limit, 0nat,
{
    match find_gate(prog, gates, limit, name) {
        Some(j) => {
            let (np, nq, body) = gate_parts(prog, gates[j as int]);
            if j >= limit {
                Err(BuildErrorKind::UndefinedGate)
            } else if bits.len() != nq || angles.len() != np {
                Err(BuildErrorKind::Arity)
            } else {
                body_spec(prog, factory, gates, j, body.len(), bits, angles, cond)
            }
        },
        None => match find_sig(factory, name, 0) {
            Some(f) => if bits.len() != factory[f as int].num_qubits || angles.len()
                != factory[f as int].num_params {
                Err(BuildErrorKind::Arity)
            } else {
                Ok(seq![prim(name, bits, angles, cond)])
            },
            None => Err(BuildErrorKind::UndefinedGate),
        },
    }
}

/// The first `k` calls of the body of user gate `j`, with its formals bound.
pub open spec fn body_spec(
    prog: Seq<Stmt>,
    factory: Seq<GateSig>,
    gates: Seq<usize>,
    j: nat,
    k: nat,
    bits: Seq<Bit>,
    angles: Seq<Angle>,
    cond: Option<Condition>,
) -> Result<Seq<InstView>, BuildErrorKind>
    decreases j, k,
{
    if k == 0 {
        Ok(seq![])
    } else {
        match body_spec(prog, factory, gates, j, (k - 1) as nat, bits, angles, cond) {
            Err(e) => Err(e),
            Ok(prev) => {
                let c = gate_parts(prog, gates[j as int]).2[k - 1];
                match formal_bits(c.args@, bits) {
                    Err(e) => Err(e),
                    Ok(bs) => match fold_all(c.params@, angles) {
                        Err(e) => Err(e),
                        Ok(ps) => match call_spec(prog, factory, gates, j, c.name@, bs, ps, cond) {
                            Err(e) => Err(e),
                            Ok(is) => Ok(prev + is),
                        },
                    },
                }
            },
        }
    }
}

/// The slot number an index names; the loop variable must be a valid one.
pub open spec fn index_value(ix: Index, lv: Option<i64>) -> Result<usize, BuildErrorKind> {
    match ix {
        Index::At(k) => Ok(k),
        Index::Loop => match lv {
            None => Err(BuildErrorKind::Unbound),
            Some(v) => if 0 <= v <= usize::MAX {
                Ok(v as usize)
            } else {
                Err(BuildErrorKind::BadOperand)
            },
        },
    }
}

/// A top-level operand resolved through the scope to a register slot.
pub open spec fn resolve_spec(st: BState, a: QArg, lv: Option<i64>, quantum: bool) -> Result<Bit, BuildErrorKind> {
    match a {
        QArg::Formal(_) => Err(BuildErrorKind::Unbound),
        QArg::Slot { name, index } => match index_value(index, lv) {
            Err(e) => Err(e),
            Ok(k) => match lookup(st.syms, name@) {
                None => Err(BuildErrorKind::UndefinedName),
                Some(s) => match st.syms[s as int].bind {
                    BindView::Reg(r) => if bit_valid(st.regs, Bit { reg: r, index: k }, quantum) {
                        Ok(Bit { reg: r, index: k })
                    } else {
                        Err(BuildErrorKind::BadOperand)
                    },
                    BindView::Alias(bs) => if k < bs.len() && bit_valid(st.regs, bs[k as int], quantum) {
                        Ok(bs[k as int])
                    } else {
                        Err(BuildErrorKind::BadOperand)
                    },
                },
            },
        },
    }
}

pub open spec fn top_bits(st: BState, args: Seq<QArg>, lv: Option<i64>) -> Result<Seq<Bit>, BuildErrorKind>
    decreases args.len(),
{
    if args.len() == 0 {
        Ok(seq![])
    } else {
        match top_bits(st, args.drop_last(), lv) {
            Err(e) => Err(e),
            Ok(prev) => match resolve_spec(st, args.last(), lv, true) {
                Err(e) => Err(e),
                Ok(b) => Ok(prev.push(b)),
            },
        }
    }
}

/// Appends `insts` where every operand of every one is valid.
pub open spec fn append_checked(st: BState, insts: Seq<InstView>) -> Result<BState, BuildErrorKind> {
    if forall|i: int| 0 <= i < insts.len() ==> inst_valid(st.regs, #[trigger] insts[i]) {
        Ok(BState { insts: st.insts + insts, ..st })
    } else {
        Err(BuildErrorKind::BadOperand)
    }
}

/// One top-level call: operands, parameters, expansion, append.
pub open spec fn apply_spec(
    prog: Seq<Stmt>,
    factory: Seq<GateSig>,
    st: BState,
    c: Call,
    lv: Option<i64>,
    cond: Option<Condition>,
) -> Result<BState, BuildErrorKind> {
    match top_bits(st, c.args@, lv) {
        Err(e) => Err(e),
        Ok(bs) => match fold_all(c.params@, seq![]) {
            Err(e) => Err(e),
            Ok(ps) => match call_spec(prog, factory, st.gates, st.gates.len(), c.name@, bs, ps, cond) {
                Err(e) => Err(e),
                Ok(is) => append_checked(st, is),
            },
        },
    }
}

/// The first `k` calls of a block.
pub open spec fn block_spec(
    prog: Seq<Stmt>,
    factory: Seq<GateSig>,
    st: BState,
    body: Seq<Call>,
    k: nat,
    lv: Option<i64>,
    cond: Option<Condition>,
) -> Result<BState, BuildErrorKind>
    decreases k,
{
    if k == 0 {
        Ok(st)
    } else {
        match block_spec(prog, factory, st, body, (k - 1) as nat, lv, cond) {
            Err(e) => Err(e),
            Ok(s) => apply_spec(prog, factory, s, body[k - 1], lv, cond),
        }
    }
}

/// The first `n` iterations of a loop from `start`, each a copy of the body
/// with the loop variable set.
pub open spec fn loop_spec(
    prog: Seq<Stmt>,
    factory: Seq<GateSig>,
    st: BState,
    body: Seq<Call>,
    start: int,
    n: nat,
) -> Result<BState, BuildErrorKind>
    decreases n,
{
    if n == 0 {
        Ok(st)
    } else {
        match loop_spec(prog, factory, st, body, start, (n - 1) as nat) {
            Err(e) => Err(e),
            Ok(s) => block_spec(prog, factory, s, body, body.len(), Some((start + n - 1) as i64), None),
        }
    }
}

/// A constant integer bound, if `e` folds to one.
pub open spec fn int_bound(e: Expr) -> Option<int> {
    match fold_spec(e, seq![]) {
        Ok(r) => if r.konst == Konst::One && r.den > 0 && r.num % r.den == 0 {
            Some(r.num / r.den)
        } else {
            None
        },
        Err(_) => None,
    }
}

pub open spec fn slice_of_reg(r: usize, start: usize, end: usize) -> Seq<Bit> {
    Seq::new((end - start) as nat, |i: int| Bit { reg: r, index: (start + i) as usize })
}

/// The slots an alias of `target[start..end]` stands for.
pub open spec fn alias_spec(st: BState, target: Seq<char>, start: usize, end: usize) -> Result<Seq<Bit>, BuildErrorKind> {
    match lookup(st.syms, target) {
        None => Err(BuildErrorKind::UndefinedName),
        Some(s) => match st.syms[s as int].bind {
            BindView::Reg(r) => if r < st.regs.len() && start <= end <= st.regs[r as int].size {
                Ok(slice_of_reg(r, start, end))
            } else {
                Err(BuildErrorKind::AliasRange)
            },
            BindView::Alias(bs) => if start <= end <= bs.len() {
                Ok(bs.subrange(start as int, end as int))
            } else {
                Err(BuildErrorKind::AliasRange)
            },
        },
    }
}

pub open spec fn declare(st: BState, name: Seq<char>, size: usize, quantum: bool) -> BState {
    BState {
        regs: st.regs.push(RegView { name, size: size as nat, quantum }),
        syms: st.syms.push(SymView { name, bind: BindView::Reg(st.regs.len() as usize) }),
        ..st
    }
}

/// A classical register named by `reg`, for a guard.
pub open spec fn guard_spec(st: BState, reg: Seq<char>) -> Option<usize> {
    match lookup(st.syms, reg) {
        Some(s) => match st.syms[s as int].bind {
            BindView::Reg(r) => if r < st.regs.len() && !st.regs[r as int].quantum {
                Some(r)
            } else {
                None
            },
            _ => None,
        },
        None => None,
    }
}

/// The effect of the statement at `pos`.
#[verifier::opaque]
pub open spec fn step_spec(prog: Seq<Stmt>, factory: Seq<GateSig>, st: BState, pos: usize) -> Result<BState, BuildErrorKind> {
    match prog[pos as int] {
        Stmt::Qubits { name, size } => Ok(declare(st, name@, size, true)),
        Stmt::Bits { name, size } => Ok(declare(st, name@, size, false)),
        Stmt::Alias { name, target, start, end } => match alias_spec(st, target@, start, end) {
            Ok(bs) => Ok(BState { syms: st.syms.push(SymView { name: name@, bind: BindView::Alias(bs) }), ..st }),
            Err(e) => Err(e),
        },
        Stmt::Gate { .. } => Ok(BState { gates: st.gates.push(pos), ..st }),
        Stmt::Apply(c) => apply_spec(prog, factory, st, c, None, None),
        Stmt::Measure { qubit, bit } => match resolve_spec(st, qubit, None, true) {
            Err(e) => Err(e),
            Ok(q) => match resolve_spec(st, bit, None, false) {
                Err(e) => Err(e),
                Ok(b) => Ok(BState {
                    insts: st.insts.push(InstView {
                        name: seq!['m', 'e', 'a', 's', 'u', 'r', 'e'],
                        qubits: seq![q],
                        clbits: seq![b],
                        params: seq![],
                        condition: None,
                    }),
                    ..st
                }),
            },
        },
        Stmt::Reset(qubit) => match resolve_spec(st, qubit, None, true) {
            Err(e) => Err(e),
            Ok(q) => Ok(BState {
                insts: st.insts.push(InstView {
                    name: seq!['r', 'e', 's', 'e', 't'],
                    qubits: seq![q],
                    clbits: seq![],
                    params: seq![],
                    condition: None,
                }),
                ..st
            }),
        },
        Stmt::Barrier(args) => match top_bits(st, args@, None) {
            Err(e) => Err(e),
            Ok(bs) => append_checked(st, seq![InstView {
                name: seq!['b', 'a', 'r', 'r', 'i', 'e', 'r'],
                qubits: bs,
                clbits: seq![],
                params: seq![],
                condition: None,
            }]),
        },
        Stmt::For { start, end, body } => match (int_bound(start), int_bound(end)) {
            (Some(a), Some(b)) => if i64::MIN <= a && b <= i64::MAX {
                loop_spec(prog, factory, st, body@, a, if b > a { (b - a) as nat } else { 0 })
            } else {
                Err(BuildErrorKind::BadRange)
            },
            _ => Err(BuildErrorKind::BadRange),
        },
        Stmt::If { reg, bit, value, body } => match guard_spec(st, reg@) {
            Some(r) => if bit matches Some(b) && b >= st.regs[r as int].size {
                Err(BuildErrorKind::BadCondition)
            } else {
                block_spec(prog, factory, st, body@, body.len() as nat, None, Some(Condition { reg: r, bit, value }))
            },
            None => Err(BuildErrorKind::BadCondition),
        },
        Stmt::While { .. } => Err(BuildErrorKind::BadRange),
    }
}

/// The first `n` statements, or the first failure with its position.
pub open spec fn build_spec(prog: Seq<Stmt>, factory: Seq<GateSig>, n: nat) -> Result<BState, BuildError>
    decreases n,
{
    if n == 0 {
        Ok(empty_state())
    } else {
        match build_spec(prog, factory, (n - 1) as nat) {
            Err(e) => Err(e),
            Ok(st) => match step_spec(prog, factory, st, (n - 1) as usize) {
                Ok(s) => Ok(s),
                Err(kind) => Err(BuildError { kind, position: (n - 1) as usize }),
            },
        }
    }
}

pub open spec fn gates_ok(prog: Seq<Stmt>, gates: Seq<usize>) -> bool {
    forall|j: int| 0 <= j < gates.len() ==> #[trigger] gates[j] < prog.len() && (prog[gates[j] as int] is Gate)
}

fn find_gate_exec(prog: &Vec<Stmt>, gates: &Vec<usize>, limit: usize, name: &String) -> (r: Option<usize>)
    requires
        limit <= gates@.len(),
    ensures
        r matches Some(j) ==> find_gate(prog@, gates@, limit as nat, name@) == Some(j as nat) && j < limit,
        r is None ==> find_gate(prog@, gates@, limit as nat, name@) is None,
{
    let mut i = limit;
    while i > 0
        invariant
            i <= limit <= gates@.len(),
            find_gate(prog@, gates@, limit as nat, name@) == find_gate(prog@, gates@, i as nat, name@),
        decreases i,
    {
        let pos = gates[i - 1];
        if pos < prog.len() {
            if let Stmt::Gate { name: n, .. } = &prog[pos] {
                if n.eq(name) {
                    return Some(i - 1);
                }
            }
        }
        i = i - 1;
    }
    None
}

pub(crate) fn find_sig_exec(factory: &Vec<GateSig>, name: &String) -> (r: Option<usize>)
    ensures
        r matches Some(f) ==> find_sig(factory@, name@, 0) == Some(f as nat) && f < factory@.len(),
        r is None ==> find_sig(factory@, name@, 0) is None,
{
    let mut i: usize = 0;
    while i < factory.len()
        invariant
            i <= factory@.len(),
            find_sig(factory@, name@, 0) == find_sig(factory@, name@, i as nat),
        decreases factory@.len() - i,
    {
        if factory[i].name.eq(name) {
            return Some(i);
        }
        i = i + 1;
    }
    None
}

fn fold_all_exec(params: &Vec<Expr>, env: &Vec<Angle>) -> (r: Result<Vec<Angle>, BuildErrorKind>)
    requires
        env_valid(env@),
    ensures
        r matches Ok(v) ==> fold_all(params@, env@) == Ok::<Seq<Angle>, BuildErrorKind>(v@) && env_valid(v@),
        r matches Err(e) ==> fold_all(params@, env@) == Err::<Seq<Angle>, BuildErrorKind>(e),
{
    let mut out: Vec<Angle> = Vec::new();
    let mut i: usize = 0;
    while i < params.len()
        invariant
            i <= params@.len(),
            env_valid(env@),
            env_valid(out@),
            fold_all(params@.subrange(0, i as int), env@) == Ok::<Seq<Angle>, BuildErrorKind>(out@),
        decreases params@.len() - i,
    {
        assert(params@.subrange(0, i + 1).drop_last() =~= params@.subrange(0, i as int));
        match fold(&params[i], env) {
            Ok(a) => {
                out.push(a);
            },
            Err(e) => {
                proof {
                    lemma_fold_all_prefix_err(params@, env@, (i + 1) as nat);
                }
                return Err(BuildErrorKind::Param(e));
            },
        }
        i = i + 1;
    }
    assert(params@.subrange(0, params@.len() as int) =~= params@);
    Ok(out)
}

proof fn lemma_fold_all_prefix_err(params: Seq<Expr>, env: Seq<Angle>, n: nat)
    requires
        0 < n <= params.len(),
        fold_all(params.subrange(0, n as int), env) is Err,
    ensures
        fold_all(params, env) == fold_all(params.subrange(0, n as int), env),
    decreases params.len() - n,
{
    if n < params.len() {
        assert(params.subrange(0, (n + 1) as int).drop_last() =~= params.subrange(0, n as int));
        lemma_fold_all_prefix_err(params, env, n + 1);
    } else {
        assert(params.subrange(0, n as int) =~= params);
    }
}

proof fn lemma_formal_bits_prefix_err(args: Seq<QArg>, bits: Seq<Bit>, n: nat)
    requires
        0 < n <= args.len(),
        formal_bits(args.subrange(0, n as int), bits) is Err,
    ensures
        formal_bits(args, bits) == formal_bits(args.subrange(0, n as int), bits),
    decreases args.len() - n,
{
    if n < args.len() {
        assert(args.subrange(0, (n + 1) as int).drop_last() =~= args.subrange(0, n as int));
        lemma_formal_bits_prefix_err(args, bits, n + 1);
    } else {
        assert(args.subrange(0, n as int) =~= args);
    }
}

fn formal_bits_exec(args: &Vec<QArg>, bits: &Vec<Bit>) -> (r: Result<Vec<Bit>, BuildErrorKind>)
    ensures
        r matches Ok(v) ==> formal_bits(args@, bits@) == Ok::<Seq<Bit>, BuildErrorKind>(v@),
        r matches Err(e) ==> formal_bits(args@, bits@) == Err::<Seq<Bit>, BuildErrorKind>(e),
{
    let mut out: Vec<Bit> = Vec::new();
    let mut i: usize = 0;
    while i < args.len()
        invariant
            i <= args@.len(),
            formal_bits(args@.subrange(0, i as int), bits@) == Ok::<Seq<Bit>, BuildErrorKind>(out@),
        decreases args@.len() - i,
    {
        assert(args@.subrange(0, i + 1).drop_last() =~= args@.subrange(0, i as int));
        match &args[i] {
            QArg::Formal(k) => {
                if *k < bits.len() {
                    out.push(bits[*k]);
                } else {
                    proof {
                        lemma_formal_bits_prefix_err(args@, bits@, (i + 1) as nat);
                    }
                    return Err(BuildErrorKind::Unbound);
                }
            },
            QArg::Slot { .. } => {
                proof {
                    lemma_formal_bits_prefix_err(args@, bits@, (i + 1) as nat);
                }
                return Err(BuildErrorKind::Unsupported);
            },
        }
        i = i + 1;
    }
    assert(args@.subrange(0, args@.len() as int) =~= args@);
    Ok(out)
}

fn copy_bits(v: &Vec<Bit>) -> (r: Vec<Bit>)
    ensures
        r@ == v@,
{
    let mut out: Vec<Bit> = Vec::new();
    let mut i: usize = 0;
    while i < v.len()
        invariant
            i <= v@.len(),
            out@ == v@.subrange(0, i as int),
        decreases v@.len() - i,
    {
        out.push(v[i]);
        i = i + 1;
    }
    assert(v@.subrange(0, v@.len() as int) =~= v@);
    out
}

fn copy_angles(v: &Vec<Angle>) -> (r: Vec<Angle>)
    ensures
        r@ == v@,
{
    let mut out: Vec<Angle> = Vec::new();
    let mut i: usize = 0;
    while i < v.len()
        invariant
            i <= v@.len(),
            out@ == v@.subrange(0, i as int),
        decreases v@.len() - i,
    {
        out.push(v[i]);
        i = i + 1;
    }
    assert(v@.subrange(0, v@.len() as int) =~= v@);
    out
}

proof fn lemma_body_err(
    prog: Seq<Stmt>,
    factory: Seq<GateSig>,
    gates: Seq<usize>,
    j: nat,
    k: nat,
    m: nat,
    bits: Seq<Bit>,
    angles: Seq<Angle>,
    cond: Option<Condition>,
)
    requires
        k <= m,
        body_spec(prog, factory, gates, j, k, bits, angles, cond) is Err,
    ensures
        body_spec(prog, factory, gates, j, m, bits, angles, cond) == body_spec(prog, factory, gates, j, k, bits, angles, cond),
    decreases m,
{
    if k < m {
        lemma_body_err(prog, factory, gates, j, k, (m - 1) as nat, bits, angles, cond);
    }
}

/// Expands a call of `name` on `bits` and `angles`, resolving among the first
/// `limit` user gates, then through the factory; appends the result to `out`.
fn expand_call(
    prog: &Vec<Stmt>,
    factory: &Vec<GateSig>,
    gates: &Vec<usize>,
    limit: usize,
    name: &String,
    bits: &Vec<Bit>,
    angles: &Vec<Angle>,
    cond: Option<Condition>,
    out: &mut Vec<Instruction>,
) -> (r: Result<(), BuildErrorKind>)
    requires
        limit <= gates@.len(),
        gates_ok(prog@, gates@),
        env_valid(angles@),
    ensures
        r is Ok ==> (call_spec(prog@, factory@, gates@, limit as nat, name@, bits@, angles@, cond) matches Ok(is)
            && inst_views(final(out)@) == inst_views(old(out)@) + is),
        r matches Err(e) ==> call_spec(prog@, factory@, gates@, limit as nat, name@, bits@, angles@, cond)
            == Err::<Seq<InstView>, BuildErrorKind>(e),
    decreases limit, 0nat,
{
    match find_gate_exec(prog, gates, limit, name) {
        Some(j) => {
            let pos = gates[j];
            assert(gates@[j as int] < prog@.len());
            match &prog[pos] {
                Stmt::Gate { num_params, num_qubits, .. } => {
                    if bits.len() != *num_qubits || angles.len() != *num_params {
                        return Err(BuildErrorKind::Arity);
                    }
                    expand_body(prog, factory, gates, j, bits, angles, cond, out)
                },
                _ => {
                    assert(false);
                    Err(BuildErrorKind::UndefinedGate)
                },
            }
        },
        None => match find_sig_exec(factory, name) {
            Some(f) => {
                if bits.len() != factory[f].num_qubits || angles.len() != factory[f].num_params {
                    return Err(BuildErrorKind::Arity);
                }
                let inst = Instruction {
                    name: name.clone(),
                    qubits: copy_bits(bits),
                    clbits: Vec::new(),
                    params: copy_angles(angles),
                    condition: cond,
                };
                let ghost before = out@;
                out.push(inst);
                assert(inst_view(inst) == prim(name@, bits@, angles@, cond));
                assert(inst_views(out@) =~= inst_views(before) + seq![prim(name@, bits@, angles@, cond)]);
                Ok(())
            },
            None => Err(BuildErrorKind::UndefinedGate),
        },
    }
}

/// Expands the body of user gate `j` with its formals bound to `bits` and
/// `angles`, appending to `out`.
fn expand_body(
    prog: &Vec<Stmt>,
    factory: &Vec<GateSig>,
    gates: &Vec<usize>,
    j: usize,
    bits: &Vec<Bit>,
    angles: &Vec<Angle>,
    cond: Option<Condition>,
    out: &mut Vec<Instruction>,
) -> (r: Result<(), BuildErrorKind>)
    requires
        j < gates@.len(),
        gates_ok(prog@, gates@),
        env_valid(angles@),
    ensures
        r is Ok ==> (body_spec(
            prog@,
            factory@,
            gates@,
            j as nat,
            gate_parts(prog@, gates@[j as int]).2.len(),
            bits@,
            angles@,
            cond,
        ) matches Ok(is) && inst_views(final(out)@) == inst_views(old(out)@) + is),
        r matches Err(e) ==> body_spec(
            prog@,
            factory@,
            gates@,
            j as nat,
            gate_parts(prog@, gates@[j as int]).2.len(),
            bits@,
            angles@,
            cond,
        ) == Err::<Seq<InstView>, BuildErrorKind>(e),
    decreases j, 1nat,
{
    let pos = gates[j];
    assert(gates@[j as int] < prog@.len());
    let body = match &prog[pos] {
        Stmt::Gate { body, .. } => body,
        _ => {
            assert(false);
            return Err(BuildErrorKind::UndefinedGate);
        },
    };
    assert(body@ == gate_parts(prog@, pos).2);
    let ghost start = out@;
    let mut k: usize = 0;
    while k < body.len()
        invariant
            k <= body@.len(),
            j < gates@.len(),
            gates_ok(prog@, gates@),
            env_valid(angles@),
            body@ == gate_parts(prog@, gates@[j as int]).2,
            old(out)@ == start,
            body_spec(prog@, factory@, gates@, j as nat, k as nat, bits@, angles@, cond) matches Ok(is)
                && inst_views(out@) == inst_views(start) + is,
        decreases body@.len() - k,
    {
        let c = &body[k];
        let ghost prev = out@;
        let bs = match formal_bits_exec(&c.args, bits) {
            Ok(bs) => bs,
            Err(e) => {
                proof {
                    lemma_body_err(prog@, factory@, gates@, j as nat, (k + 1) as nat, body@.len(), bits@, angles@, cond);
                }
                return Err(e);
            },
        };
        let ps = match fold_all_exec(&c.params, angles) {
            Ok(ps) => ps,
            Err(e) => {
                proof {
                    lemma_body_err(prog@, factory@, gates@, j as nat, (k + 1) as nat, body@.len(), bits@, angles@, cond);
                }
                return Err(e);
            },
        };
        match expand_call(prog, factory, gates, j, &c.name, &bs, &ps, cond, out) {
            Ok(()) => {
                assert(inst_views(out@) =~= inst_views(start) + (body_spec(prog@, factory@, gates@, j as nat, (k + 1) as nat, bits@, angles@, cond)->Ok_0));
            },
            Err(e) => {
                proof {
                    lemma_body_err(prog@, factory@, gates@, j as nat, (k + 1) as nat, body@.len(), bits@, angles@, cond);
                }
                return Err(e);
            },
        }
        k = k + 1;
    }
    Ok(())
}

proof fn lemma_top_bits_prefix_err(st: BState, args: Seq<QArg>, lv: Option<i64>, n: nat)
    requires
        0 < n <= args.len(),
        top_bits(st, args.subrange(0, n as int), lv) is Err,
    ensures
        top_bits(st, args, lv) == top_bits(st, args.subrange(0, n as int), lv),
    decreases args.len() - n,
{
    if n < args.len() {
        assert(args.subrange(0, (n + 1) as int).drop_last() =~= args.subrange(0, n as int));
        lemma_top_bits_prefix_err(st, args, lv, n + 1);
    } else {
        assert(args.subrange(0, n as int) =~= args);
    }
}

proof fn lemma_block_err(
    prog: Seq<Stmt>,
    factory: Seq<GateSig>,
    st: BState,
    body: Seq<Call>,
    k: nat,
    m: nat,
    lv: Option<i64>,
    cond: Option<Condition>,
)
    requires
        k <= m,
        block_spec(prog, factory, st, body, k, lv, cond) is Err,
    ensures
        block_spec(prog, factory, st, body, m, lv, cond) == block_spec(prog, factory, st, body, k, lv, cond),
    decreases m,
{
    if k < m {
        lemma_block_err(prog, factory, st, body, k, (m - 1) as nat, lv, cond);
    }
}

proof fn lemma_loop_err(prog: Seq<Stmt>, factory: Seq<GateSig>, st: BState, body: Seq<Call>, start: int, k: nat, m: nat)
    requires
        k <= m,
        loop_spec(prog, factory, st, body, start, k) is Err,
    ensures
        loop_spec(prog, factory, st, body, start, m) == loop_spec(prog, factory, st, body, start, k),
    decreases m,
{
    if k < m {
        lemma_loop_err(prog, factory, st, body, start, k, (m - 1) as nat);
    }
}

/// The builder's working state over one program.
pub struct Builder {
    pub circuit: CircuitIR,
    pub symbols: Vec<Symbol>,
    pub gates: Vec<usize>,
}

impl Builder {
    pub open spec fn state(&self) -> BState {
        BState {
            regs: reg_views(self.circuit.registers@),
            syms: sym_views(self.symbols@),
            gates: self.gates@,
            insts: inst_views(self.circuit.instructions@),
        }
    }

    pub open spec fn inv(&self, prog: Seq<Stmt>) -> bool {
        self.circuit.wf() && gates_ok(prog, self.gates@) && self.circuit.definitions@.len() == 0
    }

    fn lookup_exec(&self, name: &String) -> (r: Option<usize>)
        ensures
            r matches Some(i) ==> lookup(self.state().syms, name@) == Some(i as nat) && i < self.symbols@.len(),
            r is None ==> lookup(self.state().syms, name@) is None,
    {
        let ghost syms = self.state().syms;
        let mut i = self.symbols.len();
        assert(syms.subrange(0, i as int) =~= syms);
        while i > 0
            invariant
                i <= self.symbols@.len(),
                syms == sym_views(self.symbols@),
                lookup(syms, name@) == lookup(syms.subrange(0, i as int), name@),
            decreases i,
        {
            assert(syms.subrange(0, i as int).drop_last() =~= syms.subrange(0, i - 1));
            if self.symbols[i - 1].name.eq(name) {
                return Some(i - 1);
            }
            i = i - 1;
        }
        None
    }

    fn resolve_exec(&self, a: &QArg, lv: Option<i64>, quantum: bool) -> (r: Result<Bit, BuildErrorKind>)
        ensures
            r == resolve_spec(self.state(), *a, lv, quantum),
    {
        match a {
            QArg::Formal(_) => Err(BuildErrorKind::Unbound),
            QArg::Slot { name, index } => {
                let k = match index {
                    Index::At(k) => *k,
                    Index::Loop => match lv {
                        Some(v) => {
                            if v < 0 || (v as i128) > (usize::MAX as i128) {
                                return Err(BuildErrorKind::BadOperand);
                            }
                            v as usize
                        },
                        None => {
                            return Err(BuildErrorKind::Unbound);
                        },
                    },
                };
                match self.lookup_exec(name) {
                    None => Err(BuildErrorKind::UndefinedName),
                    Some(s) => match &self.symbols[s].binding {
                        Binding::Reg(r) => {
                            let b = Bit { reg: *r, index: k };
                            if self.circuit.check_bit(b, quantum) {
                                Ok(b)
                            } else {
                                Err(BuildErrorKind::BadOperand)
                            }
                        },
                        Binding::Alias(bs) => {
                            if k < bs.len() && self.circuit.check_bit(bs[k], quantum) {
                                Ok(bs[k])
                            } else {
                                Err(BuildErrorKind::BadOperand)
                            }
                        },
                    },
                }
            },
        }
    }

    fn top_bits_exec(&self, args: &Vec<QArg>, lv: Option<i64>) -> (r: Result<Vec<Bit>, BuildErrorKind>)
        ensures
            r matches Ok(v) ==> top_bits(self.state(), args@, lv) == Ok::<Seq<Bit>, BuildErrorKind>(v@),
            r matches Err(e) ==> top_bits(self.state(), args@, lv) == Err::<Seq<Bit>, BuildErrorKind>(e),
    {
        let mut out: Vec<Bit> = Vec::new();
        let mut i: usize = 0;
        while i < args.len()
            invariant
                i <= args@.len(),
                top_bits(self.state(), args@.subrange(0, i as int), lv) == Ok::<Seq<Bit>, BuildErrorKind>(out@),
            decreases args@.len() - i,
        {
            assert(args@.subrange(0, i + 1).drop_last() =~= args@.subrange(0, i as int));
            match self.resolve_exec(&args[i], lv, true) {
                Ok(b) => {
                    out.push(b);
                },
                Err(e) => {
                    proof {
                        lemma_top_bits_prefix_err(self.state(), args@, lv, (i + 1) as nat);
                    }
                    return Err(e);
                },
            }
            i = i + 1;
        }
        assert(args@.subrange(0, args@.len() as int) =~= args@);
        Ok(out)
    }

    /// One top-level call: resolve, expand, check, append.
    fn apply_exec(
        &mut self,
        prog: &Vec<Stmt>,
        factory: &Vec<GateSig>,
        c: &Call,
        lv: Option<i64>,
        cond: Option<Condition>,
    ) -> (r: Result<(), BuildErrorKind>)
        requires
            old(self).inv(prog@),
        ensures
            final(self).inv(prog@),
            r is Ok ==> apply_spec(prog@, factory@, old(self).state(), *c, lv, cond) == Ok::<BState, BuildErrorKind>(final(self).state()),
            r matches Err(e) ==> apply_spec(prog@, factory@, old(self).state(), *c, lv, cond) == Err::<BState, BuildErrorKind>(e),
    {
        let bs = self.top_bits_exec(&c.args, lv)?;
        let env: Vec<Angle> = Vec::new();
        let ps = fold_all_exec(&c.params, &env)?;
        assert(env@ =~= Seq::<Angle>::empty());
        let mut out: Vec<Instruction> = Vec::new();
        let n = self.gates.len();
        expand_call(prog, factory, &self.gates, n, &c.name, &bs, &ps, cond, &mut out)?;
        let ghost is = out@;
        assert(inst_views(is) =~= Seq::<InstView>::empty() + inst_views(is));
        let ghost st = self.state();
        if self.circuit.append_all(&mut out) {
            assert(forall|i: int| 0 <= i < inst_views(is).len() ==> inst_valid(st.regs, #[trigger] inst_views(is)[i])) by {
                assert forall|i: int| 0 <= i < inst_views(is).len() implies inst_valid(st.regs, #[trigger] inst_views(is)[i]) by {
                    assert(instruction_valid(st.regs, is[i]));
                }
            }
            assert(inst_views(self.circuit.instructions@) =~= st.insts + inst_views(is));
            assert(self.state() =~= BState { insts: st.insts + inst_views(is), ..st });
            Ok(())
        } else {
            let ghost w = choose|i: int| 0 <= i < is.len() && !instruction_valid(st.regs, #[trigger] is[i]);
            assert(!inst_valid(st.regs, inst_views(is)[w]));
            Err(BuildErrorKind::BadOperand)
        }
    }

    fn block_exec(
        &mut self,
        prog: &Vec<Stmt>,
        factory: &Vec<GateSig>,
        body: &Vec<Call>,
        lv: Option<i64>,
        cond: Option<Condition>,
    ) -> (r: Result<(), BuildErrorKind>)
        requires
            old(self).inv(prog@),
        ensures
            final(self).inv(prog@),
            r is Ok ==> block_spec(prog@, factory@, old(self).state(), body@, body@.len(), lv, cond)
                == Ok::<BState, BuildErrorKind>(final(self).state()),
            r matches Err(e) ==> block_spec(prog@, factory@, old(self).state(), body@, body@.len(), lv, cond)
                == Err::<BState, BuildErrorKind>(e),
    {
        let ghost st0 = self.state();
        assert(st0 == old(self).state());
        let mut k: usize = 0;
        while k < body.len()
            invariant
                k <= body@.len(),
                self.inv(prog@),
                st0 == old(self).state(),
                block_spec(prog@, factory@, st0, body@, k as nat, lv, cond) == Ok::<BState, BuildErrorKind>(self.state()),
            decreases body@.len() - k,
        {
            match self.apply_exec(prog, factory, &body[k], lv, cond) {
                Ok(()) => {},
                Err(e) => {
                    assert(block_spec(prog@, factory@, st0, body@, (k + 1) as nat, lv, cond) == Err::<BState, BuildErrorKind>(e));
                    proof {
                        lemma_block_err(prog@, factory@, st0, body@, (k + 1) as nat, body@.len(), lv, cond);
                    }
                    assert(block_spec(prog@, factory@, st0, body@, body@.len(), lv, cond) == Err::<BState, BuildErrorKind>(e));
                    return Err(e);
                },
            }
            k = k + 1;
        }
        Ok(())
    }

    fn declare_exec(&mut self, prog: &Vec<Stmt>, name: &String, size: usize, quantum: bool)
        requires
            old(self).inv(prog@),
        ensures
            final(self).inv(prog@),
            final(self).state() == declare(old(self).state(), name@, size, quantum),
    {
        let ghost st = self.state();
        let idx = self.circuit.registers.len();
        let reg = Register { name: name.clone(), size, quantum };
        self.circuit.add_register(reg);
        let sym = Symbol { name: name.clone(), binding: Binding::Reg(idx) };
        self.symbols.push(sym);
        assert(reg_views(self.circuit.registers@) =~= st.regs.push(RegView { name: name@, size: size as nat, quantum }));
        assert(sym_views(self.symbols@) =~= st.syms.push(SymView { name: name@, bind: BindView::Reg(st.regs.len() as usize) }));
        assert(self.state() =~= declare(st, name@, size, quantum));
    }

    fn alias_exec(&self, target: &String, start: usize, end: usize) -> (r: Result<Vec<Bit>, BuildErrorKind>)
        ensures
            r matches Ok(v) ==> alias_spec(self.state(), target@, start, end) == Ok::<Seq<Bit>, BuildErrorKind>(v@),
            r matches Err(e) ==> alias_spec(self.state(), target@, start, end) == Err::<Seq<Bit>, BuildErrorKind>(e),
    {
        let s = match self.lookup_exec(target) {
            Some(s) => s,
            None => {
                return Err(BuildErrorKind::UndefinedName);
            },
        };
        let mut out: Vec<Bit> = Vec::new();
        match &self.symbols[s].binding {
            Binding::Reg(r) => {
                let r = *r;
                if !(r < self.circuit.registers.len() && start <= end && end <= self.circuit.registers[r].size) {
                    return Err(BuildErrorKind::AliasRange);
                }
                let mut i = start;
                while i < end
                    invariant
                        start <= i <= end,
                        out@ =~= slice_of_reg(r, start, i),
                    decreases end - i,
                {
                    out.push(Bit { reg: r, index: i });
                    i = i + 1;
                }
                Ok(out)
            },
            Binding::Alias(bs) => {
                if !(start <= end && end <= bs.len()) {
                    return Err(BuildErrorKind::AliasRange);
                }
                let mut i = start;
                while i < end
                    invariant
                        start <= i <= end <= bs@.len(),
                        out@ =~= bs@.subrange(start as int, i as int),
                    decreases end - i,
                {
                    out.push(bs[i]);
                    i = i + 1;
                }
                Ok(out)
            },
        }
    }

    fn guard_exec(&self, reg: &String) -> (r: Option<usize>)
        ensures
            r == guard_spec(self.state(), reg@),
    {
        match self.lookup_exec(reg) {
            Some(s) => match &self.symbols[s].binding {
                Binding::Reg(r) => {
                    if *r < self.circuit.registers.len() && !self.circuit.registers[*r].quantum {
                        Some(*r)
                    } else {
                        None
                    }
                },
                _ => None,
            },
            None => None,
        }
    }

    fn int_bound_exec(e: &Expr) -> (r: Option<i64>)
        ensures
            r matches Some(v) ==> int_bound(*e) == Some(v as int),
            r is None ==> int_bound(*e) is None,
    {
        let env: Vec<Angle> = Vec::new();
        assert(env@ =~= Seq::<Angle>::empty());
        match fold(e, &env) {
            Ok(a) => {
                if a.konst != Konst::One {
                    return None;
                }
                let den = a.den as u64;
                let mag: u64 = if a.num < 0 {
                    (0i128 - a.num as i128) as u64
                } else {
                    a.num as u64
                };
                if mag % den != 0 {
                    proof {
                        lemma_not_divisible(a.num as int, a.den as int);
                    }
                    return None;
                }
                let q = mag / den;
                assert(mag as int == if a.num < 0 { -(a.num as int) } else { a.num as int });
                proof {
                    lemma_exact_quotient(a.num as int, a.den as int, q as int);
                }
                let v: i128 = if a.num < 0 {
                    0i128 - q as i128
                } else {
                    q as i128
                };
                assert(a.num < 0 ==> v >= a.num);
                assert(a.num >= 0 ==> v <= a.num);
                Some(v as i64)
            },
            Err(_) => None,
        }
    }

    fn loop_exec(
        &mut self,
        prog: &Vec<Stmt>,
        factory: &Vec<GateSig>,
        body: &Vec<Call>,
        start: i64,
        end: i64,
    ) -> (r: Result<(), BuildErrorKind>)
        requires
            old(self).inv(prog@),
        ensures
            final(self).inv(prog@),
            r is Ok ==> loop_spec(prog@, factory@, old(self).state(), body@, start as int, if end > start { (end - start) as nat } else { 0 })
                == Ok::<BState, BuildErrorKind>(final(self).state()),
            r matches Err(e) ==> loop_spec(prog@, factory@, old(self).state(), body@, start as int, if end > start { (end - start) as nat } else { 0 })
                == Err::<BState, BuildErrorKind>(e),
    {
        let ghost st0 = self.state();
        let ghost n: nat = if end > start { (end - start) as nat } else { 0 };
        let mut i = start;
        while i < end
            invariant
                start <= i,
                i <= end || i == start,
                self.inv(prog@),
                st0 == old(self).state(),
                n == if end > start { (end - start) as nat } else { 0 },
                loop_spec(prog@, factory@, st0, body@, start as int, (i - start) as nat) == Ok::<BState, BuildErrorKind>(self.state()),
            decreases end - i,
        {
            match self.block_exec(prog, factory, body, Some(i), None) {
                Ok(()) => {},
                Err(e) => {
                    assert(loop_spec(prog@, factory@, st0, body@, start as int, (i + 1 - start) as nat) == Err::<BState, BuildErrorKind>(e));
                    proof {
                        lemma_loop_err(prog@, factory@, st0, body@, start as int, (i + 1 - start) as nat, n);
                    }
                    return Err(e);
                },
            }
            i = i + 1;
        }
        assert((i - start) as nat == n);
        Ok(())
    }

    /// The effect of the statement at `pos`.
    fn step_exec(&mut self, prog: &Vec<Stmt>, factory: &Vec<GateSig>, pos: usize) -> (r: Result<(), BuildErrorKind>)
        requires
            old(self).inv(prog@),
            pos < prog@.len(),
        ensures
            final(self).inv(prog@),
            r is Ok ==> step_spec(prog@, factory@, old(self).state(), pos) == Ok::<BState, BuildErrorKind>(final(self).state()),
            r matches Err(e) ==> step_spec(prog@, factory@, old(self).state(), pos) == Err::<BState, BuildErrorKind>(e),
    {
        let ghost st = self.state();
        reveal(step_spec);
        match &prog[pos] {
            Stmt::Qubits { name, size } => {
                self.declare_exec(prog, name, *size, true);
                Ok(())
            },
            Stmt::Bits { name, size } => {
                self.declare_exec(prog, name, *size, false);
                Ok(())
            },
            Stmt::Alias { name, target, start, end } => {
                let bits = self.alias_exec(target, *start, *end)?;
                let ghost bv = bits@;
                self.symbols.push(Symbol { name: name.clone(), binding: Binding::Alias(bits) });
                assert(sym_views(self.symbols@) =~= st.syms.push(SymView { name: name@, bind: BindView::Alias(bv) }));
                assert(self.state() =~= BState { syms: st.syms.push(SymView { name: name@, bind: BindView::Alias(bv) }), ..st });
                Ok(())
            },
            Stmt::Gate { .. } => {
                self.gates.push(pos);
                assert(self.state() =~= BState { gates: st.gates.push(pos), ..st });
                Ok(())
            },
            Stmt::Apply(c) => self.apply_exec(prog, factory, c, None, None),
            Stmt::Measure { qubit, bit } => {
                let q = self.resolve_exec(qubit, None, true)?;
                let b = self.resolve_exec(bit, None, false)?;
                let mut qs: Vec<Bit> = Vec::new();
                qs.push(q);
                let mut cs: Vec<Bit> = Vec::new();
                cs.push(b);
                let inst = Instruction {
                    name: String::from_str("measure"),
                    qubits: qs,
                    clbits: cs,
                    params: Vec::new(),
                    condition: None,
                };
                proof {
                    reveal_strlit("measure");
                }
                let ok = self.circuit.push_instruction(inst);
                assert(inst.name@ =~= seq!['m', 'e', 'a', 's', 'u', 'r', 'e']);
                assert(inst.qubits@ =~= seq![q]);
                assert(inst.clbits@ =~= seq![b]);
                assert(inst.params@ =~= Seq::<Angle>::empty());
                assert(inst_view(inst) == InstView {
                    name: seq!['m', 'e', 'a', 's', 'u', 'r', 'e'],
                    qubits: seq![q],
                    clbits: seq![b],
                    params: seq![],
                    condition: None,
                });
                assert(ok);
                assert(inst_views(self.circuit.instructions@) =~= st.insts.push(inst_view(inst)));
                assert(self.state() =~= BState { insts: st.insts.push(inst_view(inst)), ..st });
                Ok(())
            },
            Stmt::Reset(qubit) => {
                let q = self.resolve_exec(qubit, None, true)?;
                let mut qs: Vec<Bit> = Vec::new();
                qs.push(q);
                let inst = Instruction {
                    name: String::from_str("reset"),
                    qubits: qs,
                    clbits: Vec::new(),
                    params: Vec::new(),
                    condition: None,
                };
                proof {
                    reveal_strlit("reset");
                }
                let ok = self.circuit.push_instruction(inst);
                assert(inst.name@ =~= seq!['r', 'e', 's', 'e', 't']);
                assert(inst.qubits@ =~= seq![q]);
                assert(inst.clbits@ =~= seq![]);
                assert(inst.params@ =~= Seq::<Angle>::empty());
                assert(inst_view(inst) == InstView {
                    name: seq!['r', 'e', 's', 'e', 't'],
                    qubits: seq![q],
                    clbits: seq![],
                    params: seq![],
                    condition: None,
                });
                assert(ok);
                assert(inst_views(self.circuit.instructions@) =~= st.insts.push(inst_view(inst)));
                assert(self.state() =~= BState { insts: st.insts.push(inst_view(inst)), ..st });
                Ok(())
            },
            Stmt::Barrier(args) => {
                let bs = self.top_bits_exec(args, None)?;
                let inst = Instruction {
                    name: String::from_str("barrier"),
                    qubits: bs,
                    clbits: Vec::new(),
                    params: Vec::new(),
                    condition: None,
                };
                proof {
                    reveal_strlit("barrier");
                }
                let ghost iv = InstView {
                    name: seq!['b', 'a', 'r', 'r', 'i', 'e', 'r'],
                    qubits: bs@,
                    clbits: seq![],
                    params: seq![],
                    condition: None,
                };
                assert(inst.name@ =~= iv.name);
                assert(inst.clbits@ =~= iv.clbits);
                assert(inst.params@ =~= iv.params);
                assert(inst_view(inst) == iv);
                let mut v: Vec<Instruction> = Vec::new();
                v.push(inst);
                let ghost is = v@;
                assert(inst_views(is) =~= seq![iv]);
                if self.circuit.append_all(&mut v) {
                    assert(instruction_valid(st.regs, is[0]));
                    assert(inst_views(self.circuit.instructions@) =~= st.insts + seq![iv]);
                    assert(self.state() =~= BState { insts: st.insts + seq![iv], ..st });
                    Ok(())
                } else {
                    let ghost w = choose|i: int| 0 <= i < is.len() && !instruction_valid(st.regs, #[trigger] is[i]);
                    assert(w == 0);
                    assert(!inst_valid(st.regs, seq![iv][0]));
                    Err(BuildErrorKind::BadOperand)
                }
            },
            Stmt::For { start, end, body } => {
                let a = match Self::int_bound_exec(start) {
                    Some(a) => a,
                    None => {
                        return Err(BuildErrorKind::BadRange);
                    },
                };
                let b = match Self::int_bound_exec(end) {
                    Some(b) => b,
                    None => {
                        return Err(BuildErrorKind::BadRange);
                    },
                };
                let bu: i64 = if b < a { a } else { b };
                self.loop_exec(prog, factory, body, a, bu)
            },
            Stmt::If { reg, bit, value, body } => match self.guard_exec(reg) {
                Some(r) => {
                    if let Some(b) = bit {
                        if *b >= self.circuit.registers[r].size {
                            return Err(BuildErrorKind::BadCondition);
                        }
                    }
                    self.block_exec(prog, factory, body, None, Some(Condition { reg: r, bit: *bit, value: *value }))
                },
                None => Err(BuildErrorKind::BadCondition),
            },
            Stmt::While { .. } => Err(BuildErrorKind::BadRange),
        }
    }
}

/// Builds the circuit of `prog`, resolving gates that the program does not
/// define through `factory` (first match wins). Any failure aborts the whole
/// build and carries the position of the statement that raised it.
pub fn build_circuit(prog: &Vec<Stmt>, factory: &Vec<GateSig>) -> (r: Result<CircuitIR, BuildError>)
    ensures
        match build_spec(prog@, factory@, prog@.len()) {
            Ok(st) => r matches Ok(c) && c.wf() && reg_views(c.registers@) == st.regs
                && inst_views(c.instructions@) == st.insts && c.definitions@.len() == 0,
            Err(e) => r == Err::<CircuitIR, BuildError>(e),
        },
{
    let mut b = Builder { circuit: CircuitIR::new(), symbols: Vec::new(), gates: Vec::new() };
    assert(b.state().regs =~= empty_state().regs);
    assert(b.state().syms =~= empty_state().syms);
    assert(b.state().gates =~= empty_state().gates);
    assert(b.state().insts =~= empty_state().insts);
    let mut pos: usize = 0;
    while pos < prog.len()
        invariant
            pos <= prog@.len(),
            b.inv(prog@),
            build_spec(prog@, factory@, pos as nat) == Ok::<BState, BuildError>(b.state()),
        decreases prog@.len() - pos,
    {
        match b.step_exec(prog, factory, pos) {
            Ok(()) => {},
            Err(kind) => {
                let e = BuildError { kind, position: pos };
                proof {
                    lemma_build_err(prog@, factory@, (pos + 1) as nat, prog@.len());
                }
                return Err(e);
            },
        }
        pos = pos + 1;
    }
    Ok(b.circuit)
}

/// Once a prefix of the program fails, the whole program fails the same way.
pub proof fn lemma_build_err(prog: Seq<Stmt>, factory: Seq<GateSig>, k: nat, m: nat)
    requires
        k <= m,
        build_spec(prog, factory, k) is Err,
    ensures
        build_spec(prog, factory, m) == build_spec(prog, factory, k),
    decreases m,
{
    if k < m {
        lemma_build_err(prog, factory, k, (m - 1) as nat);
    }
}

/// An alias of a register slice `target[start..end]` resolves its element
/// `k` to slot `start + k` of that register.
pub proof fn lemma_alias_resolves(prog: Seq<Stmt>, factory: Seq<GateSig>, st: BState, pos: usize, k: usize)
    requires
        pos < prog.len(),
        prog[pos as int] matches Stmt::Alias { target, start, end, .. } && (lookup(st.syms, target@) matches Some(s)
            && st.syms[s as int].bind matches BindView::Reg(r) && r < st.regs.len() && start <= end
            <= st.regs[r as int].size && k < end - start),
    ensures
        match prog[pos as int] {
            Stmt::Alias { name, target, start, .. } => {
                let r = st.syms[lookup(st.syms, target@)->Some_0 as int].bind->Reg_0;
                step_spec(prog, factory, st, pos) matches Ok(st2) && resolve_spec(
                    st2,
                    QArg::Slot { name, index: Index::At(k) },
                    None,
                    st.regs[r as int].quantum,
                ) == Ok::<Bit, BuildErrorKind>(Bit { reg: r, index: (start + k) as usize })
            },
            _ => false,
        },
{
    reveal(step_spec);
    match prog[pos as int] {
        Stmt::Alias { name, target, start, end } => {
            let s = lookup(st.syms, target@)->Some_0;
            let r = st.syms[s as int].bind->Reg_0;
            let bs = slice_of_reg(r, start, end);
            let st2 = BState { syms: st.syms.push(SymView { name: name@, bind: BindView::Alias(bs) }), ..st };
            assert(st2.syms.drop_last() =~= st.syms);
            assert(lookup(st2.syms, name@) == Some((st2.syms.len() - 1) as nat));
            assert(bs[k as int] == Bit { reg: r, index: (start + k) as usize });
        },
        _ => {},
    }
}

/// A call that names no gate of the program and none of the factory fails
/// the whole build with `UndefinedGate` at that statement: no circuit is
/// returned.
pub proof fn lemma_undefined_gate_fails(prog: Seq<Stmt>, factory: Seq<GateSig>, pos: usize)
    requires
        pos < prog.len(),
        build_spec(prog, factory, pos as nat) matches Ok(st) && (prog[pos as int] matches Stmt::Apply(c)
            && top_bits(st, c.args@, None) is Ok && fold_all(c.params@, seq![]) is Ok
            && find_gate(prog, st.gates, st.gates.len(), c.name@) is None && find_sig(factory, c.name@, 0) is None),
    ensures
        build_spec(prog, factory, prog.len()) == Err::<BState, BuildError>(
            BuildError { kind: BuildErrorKind::UndefinedGate, position: pos },
        ),
{
    reveal(step_spec);
    assert(build_spec(prog, factory, (pos + 1) as nat) == Err::<BState, BuildError>(
        BuildError { kind: BuildErrorKind::UndefinedGate, position: pos },
    ));
    lemma_build_err(prog, factory, (pos + 1) as nat, prog.len());
}

/// `n` copies of a one-qubit primitive on consecutive slots of register `r`
/// from `start`.
pub open spec fn unrolled(name: Seq<char>, r: usize, start: nat, n: nat) -> Seq<InstView> {
    Seq::new(n, |t: int| prim(name, seq![Bit { reg: r, index: (start + t) as usize }], seq![], None))
}

/// A loop over `[start, start + n)` whose body applies one parameterless
/// one-qubit gate of the factory to `q[i]` yields exactly `n` instructions,
/// on `q[start]`, `q[start + 1]`, ... in that order.
pub proof fn lemma_loop_unrolls(
    prog: Seq<Stmt>,
    factory: Seq<GateSig>,
    st: BState,
    body: Seq<Call>,
    start: nat,
    n: nat,
    s: nat,
    r: usize,
)
    requires
        body.len() == 1,
        body[0].params@.len() == 0,
        body[0].args@.len() == 1,
        body[0].args@[0] matches QArg::Slot { name, index: Index::Loop } && lookup(st.syms, name@) == Some(s),
        st.syms[s as int].bind == BindView::Reg(r),
        r < st.regs.len(),
        st.regs[r as int].quantum,
        start + n <= st.regs[r as int].size,
        start + n <= usize::MAX,
        start + n <= i64::MAX,
        find_gate(prog, st.gates, st.gates.len(), body[0].name@) is None,
        find_sig(factory, body[0].name@, 0) matches Some(f) && factory[f as int].num_qubits == 1
            && factory[f as int].num_params == 0,
    ensures
        loop_spec(prog, factory, st, body, start as int, n) == Ok::<BState, BuildErrorKind>(
            BState { insts: st.insts + unrolled(body[0].name@, r, start, n), ..st },
        ),
    decreases n,
{
    let name = body[0].name@;
    if n == 0 {
        assert(st.insts + unrolled(name, r, start, 0) =~= st.insts);
    } else {
        lemma_loop_unrolls(prog, factory, st, body, start, (n - 1) as nat, s, r);
        let st1 = BState { insts: st.insts + unrolled(name, r, start, (n - 1) as nat), ..st };
        let lv = Some((start + n - 1) as i64);
        let c = body[0];
        let b = Bit { reg: r, index: (start + n - 1) as usize };
        assert(c.args@.drop_last() =~= Seq::<QArg>::empty());
        assert(c.args@.last() == c.args@[0]);
        assert(bit_valid(st1.regs, b, true));
        assert(resolve_spec(st1, c.args@.last(), lv, true) == Ok::<Bit, BuildErrorKind>(b));
        assert(top_bits(st1, c.args@.drop_last(), lv) == Ok::<Seq<Bit>, BuildErrorKind>(seq![]));
        assert(seq![].push(b) =~= seq![b]);
        assert(top_bits(st1, c.args@, lv) == Ok::<Seq<Bit>, BuildErrorKind>(seq![b]));
        assert(c.params@ =~= Seq::<Expr>::empty());
        assert(fold_all(c.params@, seq![]) == Ok::<Seq<Angle>, BuildErrorKind>(seq![]));
        let p = prim(name, seq![b], seq![], None);
        assert(call_spec(prog, factory, st1.gates, st1.gates.len(), name, seq![b], seq![], None)
            == Ok::<Seq<InstView>, BuildErrorKind>(seq![p]));
        assert(inst_valid(st1.regs, p)) by {
            assert(p.qubits[0] == b);
        }
        assert(append_checked(st1, seq![p]) == Ok::<BState, BuildErrorKind>(BState { insts: st1.insts + seq![p], ..st1 }));
        assert(block_spec(prog, factory, st1, body, 0, lv, None) == Ok::<BState, BuildErrorKind>(st1));
        assert(st1.insts + seq![p] =~= st.insts + unrolled(name, r, start, n));
    }
}

/// A call only appends its own expansion: registers, scope and defined gates
/// stay as they were, so each later call is expanded from the same table with
/// its own operands and parameters, whatever came before it.
pub proof fn lemma_call_independent(
    prog: Seq<Stmt>,
    factory: Seq<GateSig>,
    st: BState,
    c: Call,
    lv: Option<i64>,
    cond: Option<Condition>,
)
    requires
        apply_spec(prog, factory, st, c, lv, cond) is Ok,
    ensures
        apply_spec(prog, factory, st, c, lv, cond) matches Ok(st2) && st2.regs == st.regs && st2.syms == st.syms
            && st2.gates == st.gates && (top_bits(st, c.args@, lv) matches Ok(bs) && fold_all(c.params@, seq![]) matches Ok(ps)
            && call_spec(prog, factory, st.gates, st.gates.len(), c.name@, bs, ps, cond) matches Ok(is)
            && st2.insts == st.insts + is),
{
}

proof fn lemma_exact_quotient(num: int, den: int, q: int)
    requires
        den > 0,
        q == (if num < 0 { -num } else { num }) / den,
        (if num < 0 { -num } else { num }) % den == 0,
    ensures
        num % den == 0,
        num / den == if num < 0 { -q } else { q },
        0 <= q <= (if num < 0 { -num } else { num }),
{
    let mag = if num < 0 { -num } else { num };
    vstd::arithmetic::div_mod::lemma_fundamental_div_mod(mag, den);
    assert(mag == den * q);
    let s = if num < 0 { -q } else { q };
    assert(num == s * den) by (nonlinear_arith)
        requires
            mag == den * q,
            s == (if num < 0 { -q } else { q }),
            mag == (if num < 0 { -num } else { num }),
    ;
    vstd::arithmetic::div_mod::lemma_fundamental_div_mod_converse(num, den, s, 0);
    assert(0 <= q <= mag) by (nonlinear_arith)
        requires
            mag == den * q,
            den > 0,
            mag >= 0,
    ;
}

proof fn lemma_not_divisible(num: int, den: int)
    requires
        den > 0,
        (if num < 0 { -num } else { num }) % den != 0,
    ensures
        num % den != 0,
{
    if num % den == 0 {
        let mag = if num < 0 { -num } else { num };
        vstd::arithmetic::div_mod::lemma_fundamental_div_mod(num, den);
        let k = num / den;
        let ak = if num < 0 { -k } else { k };
        assert(mag == ak * den) by (nonlinear_arith)
            requires
                num == den * k,
                ak == (if num < 0 { -k } else { k }),
                mag == (if num < 0 { -num } else { num }),
        ;
        vstd::arithmetic::div_mod::lemma_fundamental_div_mod_converse(mag, den, ak, 0);
    }
}

/// Two states that agree on registers, scope and defined gates expand the
/// same call into the same block: what a call appends depends on that call's
/// own operands and parameters alone, never on earlier calls' bindings.
pub proof fn lemma_call_same_block(
    prog: Seq<Stmt>,
    factory: Seq<GateSig>,
    st1: BState,
    st2: BState,
    c: Call,
    lv: Option<i64>,
    cond: Option<Condition>,
)
    requires
        st1.regs == st2.regs,
        st1.syms == st2.syms,
        st1.gates == st2.gates,
    ensures
        apply_spec(prog, factory, st1, c, lv, cond) is Ok <==> apply_spec(prog, factory, st2, c, lv, cond) is Ok,
        apply_spec(prog, factory, st1, c, lv, cond) matches Ok(r1) ==> (apply_spec(prog, factory, st2, c, lv, cond) matches Ok(r2)
            && r1.insts.subrange(st1.insts.len() as int, r1.insts.len() as int)
                == r2.insts.subrange(st2.insts.len() as int, r2.insts.len() as int)),
{
    lemma_top_bits_same(st1, st2, c.args@, lv);
    if let Ok(r1) = apply_spec(prog, factory, st1, c, lv, cond) {
        let r2 = apply_spec(prog, factory, st2, c, lv, cond)->Ok_0;
        assert(r1.insts.subrange(st1.insts.len() as int, r1.insts.len() as int)
            =~= r2.insts.subrange(st2.insts.len() as int, r2.insts.len() as int));
    }
}

proof fn lemma_top_bits_same(st1: BState, st2: BState, args: Seq<QArg>, lv: Option<i64>)
    requires
        st1.regs == st2.regs,
        st1.syms == st2.syms,
    ensures
        top_bits(st1, args, lv) == top_bits(st2, args, lv),
    decreases args.len(),
{
    if args.len() > 0 {
        lemma_top_bits_same(st1, st2, args.drop_last(), lv);
    }
}

/// The expansion of one call from the scope and gates of `st`, if it has one.
pub open spec fn call_block(
    prog: Seq<Stmt>,
    factory: Seq<GateSig>,
    st: BState,
    c: Call,
    lv: Option<i64>,
    cond: Option<Condition>,
) -> Seq<InstView> {
    match top_bits(st, c.args@, lv) {
        Ok(bs) => match fold_all(c.params@, seq![]) {
            Ok(ps) => match call_spec(prog, factory, st.gates, st.gates.len(), c.name@, bs, ps, cond) {
                Ok(is) => is,
                Err(_) => seq![],
            },
            Err(_) => seq![],
        },
        Err(_) => seq![],
    }
}

/// The expansions of the first `k` calls of `body`, each from `st`, in order.
pub open spec fn call_blocks(
    prog: Seq<Stmt>,
    factory: Seq<GateSig>,
    st: BState,
    body: Seq<Call>,
    k: nat,
    lv: Option<i64>,
    cond: Option<Condition>,
) -> Seq<InstView>
    decreases k,
{
    if k == 0 {
        seq![]
    } else {
        call_blocks(prog, factory, st, body, (k - 1) as nat, lv, cond) + call_block(prog, factory, st, body[k - 1], lv, cond)
    }
}

/// A run of calls (three calls of one user gate, say) that builds appends one
/// block per call, in call order, each the expansion of that call alone from
/// the same scope and gate table: the formals bound at one call never reach
/// the instructions of another.
pub proof fn lemma_calls_expand_independently(
    prog: Seq<Stmt>,
    factory: Seq<GateSig>,
    st: BState,
    body: Seq<Call>,
    k: nat,
    lv: Option<i64>,
    cond: Option<Condition>,
)
    requires
        block_spec(prog, factory, st, body, k, lv, cond) is Ok,
    ensures
        block_spec(prog, factory, st, body, k, lv, cond) matches Ok(s2) && s2.regs == st.regs && s2.syms == st.syms
            && s2.gates == st.gates && s2.insts == st.insts + call_blocks(prog, factory, st, body, k, lv, cond),
    decreases k,
{
    if k == 0 {
        assert(st.insts + call_blocks(prog, factory, st, body, 0, lv, cond) =~= st.insts);
    } else {
        let prev = block_spec(prog, factory, st, body, (k - 1) as nat, lv, cond);
        if prev is Err {
            assert(block_spec(prog, factory, st, body, k, lv, cond) is Err);
        }
        lemma_calls_expand_independently(prog, factory, st, body, (k - 1) as nat, lv, cond);
        let s1 = prev->Ok_0;
        let c = body[k - 1];
        lemma_top_bits_same(s1, st, c.args@, lv);
        assert(s1.insts + call_block(prog, factory, st, c, lv, cond) =~= st.insts + call_blocks(prog, factory, st, body, k, lv, cond));
    }
}

/// The calls of statements `p .. p + m`, which are all call statements.
pub open spec fn calls_at(prog: Seq<Stmt>, p: nat, m: nat) -> Seq<Call> {
    Seq::new(m, |i: int| prog[p + i]->Apply_0)
}

proof fn lemma_call_block_same(prog: Seq<Stmt>, factory: Seq<GateSig>, st1: BState, st2: BState, c: Call)
    requires
        st1.regs == st2.regs,
        st1.syms == st2.syms,
        st1.gates == st2.gates,
    ensures
        call_block(prog, factory, st1, c, None, None) == call_block(prog, factory, st2, c, None, None),
{
    lemma_top_bits_same(st1, st2, c.args@, None);
}

proof fn lemma_step_apply(prog: Seq<Stmt>, factory: Seq<GateSig>, st: BState, pos: usize)
    requires
        pos < prog.len(),
        prog[pos as int] is Apply,
    ensures
        step_spec(prog, factory, st, pos) == apply_spec(prog, factory, st, prog[pos as int]->Apply_0, None, None),
{
    reveal(step_spec);
}

/// In a program, a run of `m` call statements from position `p` (three calls
/// of one user gate, say) that builds appends one block per call, in order,
/// each the expansion of that call alone from the scope and gates in force
/// before the run: the binding of one call's formals never reaches another's
/// instructions.
#[verifier::rlimit(50)]
pub proof fn lemma_build_calls_expand_independently(prog: Seq<Stmt>, factory: Seq<GateSig>, p: nat, m: nat, k: nat)
    requires
        k <= m,
        p + m <= prog.len(),
        p + m <= usize::MAX,
        forall|i: int| p <= i < p + m ==> #[trigger] prog[i] is Apply,
        build_spec(prog, factory, p + k) is Ok,
    ensures
        build_spec(prog, factory, p) matches Ok(st) && (build_spec(prog, factory, p + k) matches Ok(st2) && st2.regs
            == st.regs && st2.syms == st.syms && st2.gates == st.gates && st2.insts == st.insts + call_blocks(
            prog,
            factory,
            st,
            calls_at(prog, p, m),
            k,
            None,
            None,
        )),
    decreases k,
{
    if k == 0 {
        let st = build_spec(prog, factory, p)->Ok_0;
        assert(st.insts + call_blocks(prog, factory, st, calls_at(prog, p, m), 0, None, None) =~= st.insts);
    } else {
        if build_spec(prog, factory, (p + k - 1) as nat) is Err {
            assert(build_spec(prog, factory, p + k) is Err);
        }
        lemma_build_calls_expand_independently(prog, factory, p, m, (k - 1) as nat);
        let st = build_spec(prog, factory, p)->Ok_0;
        let mid = build_spec(prog, factory, (p + k - 1) as nat)->Ok_0;
        let pos = (p + k - 1) as int;
        assert(prog[pos] is Apply);
        let c = prog[pos]->Apply_0;
        assert(calls_at(prog, p, m)[k - 1] == c);
        assert(pos as usize as int == pos);
        lemma_step_apply(prog, factory, mid, pos as usize);
        assert(build_spec(prog, factory, p + k) == match step_spec(prog, factory, mid, pos as usize) {
            Ok(s) => Ok(s),
            Err(kind) => Err(BuildError { kind, position: pos as usize }),
        });
        lemma_call_independent(prog, factory, mid, c, None, None);
        lemma_call_block_same(prog, factory, mid, st, c);
        let st2 = build_spec(prog, factory, p + k)->Ok_0;
        assert(st2.insts =~= st.insts + call_blocks(prog, factory, st, calls_at(prog, p, m), k, None, None));
    }
}

} // verus!

//! The exporter: a circuit and options to OpenQASM 3 text.
use vstd::prelude::*;
use vstd::string::*;
use crate::ir::{
    Angle, Bit, CircuitIR, Condition, DefOp, DefParam, GateDefinition, Instruction, Register, RegView,
    instruction_valid, reg_views,
};
use crate::text::{dec, push_dec, push_symbolic, symbolic};
use crate::ast::GateSig;
use crate::builder::{find_sig, find_sig_exec};

verus! {

/// Export options.
#[derive(Clone, Debug)]
pub struct DumpOptions {
    /// Files to `include`, in order; repeats are written once.
    pub includes: Vec<String>,
    /// Gates always referenced, never defined.
    pub basis_gates: Vec<String>,
    /// Write parameters as decimal literals rather than in symbolic form.
    pub disable_constants: bool,
    /// With a layout, name qubits through their registers rather than as
    /// physical qubits.
    pub allow_aliasing: bool,
    /// One level of indentation.
    pub indent: String,
}

impl Default for DumpOptions {
    fn default() -> (r: DumpOptions)
        ensures
            r.includes@.len() == 1,
            r.includes@[0]@ == seq!['s', 't', 'd', 'g', 'a', 't', 'e', 's', '.', 'i', 'n', 'c'],
            r.basis_gates@.len() == 0,
            r.disable_constants,
            !r.allow_aliasing,
            r.indent@ == seq![' ', ' '],
    {
        let mut includes: Vec<String> = Vec::new();
        includes.push(String::from_str("stdgates.inc"));
        proof {
            reveal_strlit("stdgates.inc");
            reveal_strlit("  ");
        }
        DumpOptions {
            includes,
            basis_gates: Vec::new(),
            disable_constants: true,
            allow_aliasing: false,
            indent: String::from_str("  "),
        }
    }
}

#[derive(Clone, Copy, PartialEq, Eq, Structural, Debug)]
pub enum ExportErrorKind {
    /// An operand outside its register or of the wrong kind, or a guard that
    /// is not a classical register.
    BadOperand,
    /// Operand or parameter counts that differ from the definition.
    Arity,
    /// A definition whose body names a qubit it does not have.
    BadDefinition,
    /// A physical qubit number beyond 64 bits.
    BadLayout,
    /// A gate that is no basis gate, that no declared include defines and
    /// that the circuit does not define.
    UndefinedGate,
    /// A parameter with no decimal literal supplied.
    MissingLiteral,
}

/// A failure and the position of the offending instruction.
#[derive(Clone, Copy, PartialEq, Eq, Structural, Debug)]
pub struct ExportError {
    pub kind: ExportErrorKind,
    pub index: usize,
}

pub open spec fn header() -> Seq<char> {
    seq!['O', 'P', 'E', 'N', 'Q', 'A', 'S', 'M', ' ', '3', '.', '0', ';', '\n']
}

pub open spec fn strs(v: Seq<String>) -> Seq<Seq<char>> {
    v.map_values(|s: String| s@)
}

pub open spec fn seen_before(names: Seq<Seq<char>>, i: int) -> bool {
    exists|j: int| 0 <= j < i && names[j] == names[i]
}

/// The `include` lines for the first `n` names, each name once.
pub open spec fn includes_text(names: Seq<Seq<char>>, n: nat) -> Seq<char>
    decreases n,
{
    if n == 0 {
        seq![]
    } else if seen_before(names, n - 1) {
        includes_text(names, (n - 1) as nat)
    } else {
        includes_text(names, (n - 1) as nat) + seq!['i', 'n', 'c', 'l', 'u', 'd', 'e', ' ', '"'] + names[n - 1]
            + seq!['"', ';', '\n']
    }
}

/// Physical qubits are named `$k` when a layout is present and aliasing is off.
pub open spec fn physical(layout: bool, opts: DumpOptions) -> bool {
    layout && !opts.allow_aliasing
}

pub open spec fn reg_decl(r: RegView) -> Seq<char> {
    (if r.quantum {
        seq!['q', 'u', 'b', 'i', 't', '[']
    } else {
        seq!['b', 'i', 't', '[']
    }) + dec(r.size) + seq![']', ' '] + r.name + seq![';', '\n']
}

/// Declarations of the first `n` registers, in order.
pub open spec fn regs_text(regs: Seq<RegView>, n: nat) -> Seq<char>
    decreases n,
{
    if n == 0 {
        seq![]
    } else {
        regs_text(regs, (n - 1) as nat) + reg_decl(regs[n - 1])
    }
}

/// The number of qubits in the first `r` registers.
pub open spec fn qubit_offset(regs: Seq<RegView>, r: nat) -> nat
    decreases r,
{
    if r == 0 {
        0
    } else {
        qubit_offset(regs, (r - 1) as nat) + if regs[r - 1].quantum {
            regs[r - 1].size
        } else {
            0
        }
    }
}

pub open spec fn operand_text(regs: Seq<RegView>, phys: bool, b: Bit) -> Result<Seq<char>, ExportErrorKind> {
    if phys && regs[b.reg as int].quantum {
        let k: nat = qubit_offset(regs, b.reg as nat) + b.index as nat;
        if k <= u64::MAX {
            Ok(seq!['$'] + dec(k))
        } else {
            Err(ExportErrorKind::BadLayout)
        }
    } else {
        Ok(regs[b.reg as int].name + seq!['['] + dec(b.index as nat) + seq![']'])
    }
}

/// The first `n` operands, separated by `, `.
pub open spec fn operands_text(regs: Seq<RegView>, phys: bool, bits: Seq<Bit>, n: nat) -> Result<Seq<char>, ExportErrorKind>
    decreases n,
{
    if n == 0 {
        Ok(seq![])
    } else {
        match operands_text(regs, phys, bits, (n - 1) as nat) {
            Err(e) => Err(e),
            Ok(t) => match operand_text(regs, phys, bits[n - 1]) {
                Err(e) => Err(e),
                Ok(o) => Ok(if n == 1 {
                    o
                } else {
                    t + seq![',', ' '] + o
                }),
            },
        }
    }
}

/// The decimal literal supplied for `a`: the first entry that names it.
pub open spec fn literal_of(decimals: Seq<(Angle, String)>, a: Angle, i: nat) -> Option<Seq<char>>
    decreases decimals.len() - i,
{
    if i >= decimals.len() {
        None
    } else if decimals[i as int].0 == a {
        Some(decimals[i as int].1@)
    } else {
        literal_of(decimals, a, i + 1)
    }
}

pub open spec fn angle_text(opts: DumpOptions, decimals: Seq<(Angle, String)>, a: Angle) -> Result<Seq<char>, ExportErrorKind> {
    if a.den <= 0 {
        Err(ExportErrorKind::BadDefinition)
    } else if opts.disable_constants {
        match literal_of(decimals, a, 0) {
            Some(t) => Ok(t),
            None => Err(ExportErrorKind::MissingLiteral),
        }
    } else {
        Ok(symbolic(a))
    }
}

/// The first `n` parameters, separated by `, `.
pub open spec fn params_list(opts: DumpOptions, decimals: Seq<(Angle, String)>, ps: Seq<Angle>, n: nat) -> Result<Seq<char>, ExportErrorKind>
    decreases n,
{
    if n == 0 {
        Ok(seq![])
    } else {
        match params_list(opts, decimals, ps, (n - 1) as nat) {
            Err(e) => Err(e),
            Ok(t) => match angle_text(opts, decimals, ps[n - 1]) {
                Err(e) => Err(e),
                Ok(o) => Ok(if n == 1 {
                    o
                } else {
                    t + seq![',', ' '] + o
                }),
            },
        }
    }
}

/// `(p0, p1)`, or nothing without parameters.
pub open spec fn params_text(opts: DumpOptions, decimals: Seq<(Angle, String)>, ps: Seq<Angle>) -> Result<Seq<char>, ExportErrorKind> {
    if ps.len() == 0 {
        Ok(seq![])
    } else {
        match params_list(opts, decimals, ps, ps.len()) {
            Err(e) => Err(e),
            Ok(t) => Ok(seq!['('] + t + seq![')']),
        }
    }
}

pub open spec fn in_list(v: Seq<String>, name: Seq<char>) -> bool {
    exists|j: int| 0 <= j < v.len() && (#[trigger] v[j])@ == name
}

pub open spec fn in_basis(opts: DumpOptions, name: Seq<char>) -> bool {
    in_list(opts.basis_gates@, name)
}

/// What an include file provides: its name and the gates it defines.
#[derive(Clone, Debug)]
pub struct IncludeFile {
    pub name: String,
    pub gates: Vec<GateSig>,
}

/// The signature for `name` that a declared include defines: the first such
/// file of `lib` at or after `f`, and its first gate of that name.
pub open spec fn lib_find(lib: Seq<IncludeFile>, includes: Seq<String>, name: Seq<char>, f: nat) -> Option<GateSig>
    decreases lib.len() - f,
{
    if f >= lib.len() {
        None
    } else if in_list(includes, lib[f as int].name@) && find_sig(lib[f as int].gates@, name, 0) is Some {
        Some(lib[f as int].gates@[find_sig(lib[f as int].gates@, name, 0)->Some_0 as int])
    } else {
        lib_find(lib, includes, name, f + 1)
    }
}

pub open spec fn included(opts: DumpOptions, lib: Seq<IncludeFile>, name: Seq<char>) -> Option<GateSig> {
    lib_find(lib, opts.includes@, name, 0)
}

/// The first definition at or after `i` named `name`.
pub open spec fn find_def(defs: Seq<GateDefinition>, name: Seq<char>, i: nat) -> Option<nat>
    decreases defs.len() - i,
{
    if i >= defs.len() {
        None
    } else if defs[i as int].name@ == name {
        Some(i)
    } else {
        find_def(defs, name, i + 1)
    }
}

pub open spec fn inst_names(ir: CircuitIR) -> Seq<Seq<char>> {
    ir.instructions@.map_values(|i: Instruction| i.name@)
}

/// The definition written before instruction `i`: on the first use of a
/// name that is neither a basis gate nor defined by a declared include, and
/// that the circuit defines.
pub open spec fn def_before(ir: CircuitIR, opts: DumpOptions, lib: Seq<IncludeFile>, i: int) -> Option<nat> {
    let name = ir.instructions@[i].name@;
    if in_basis(opts, name) || included(opts, lib, name) is Some || seen_before(inst_names(ir), i) {
        None
    } else {
        find_def(ir.definitions@, name, 0)
    }
}

pub open spec fn formal_name(k: nat) -> Seq<char> {
    seq!['_', 'g', 'a', 't', 'e', '_', 'q', '_'] + dec(k)
}

/// The first `n` formal qubit names, separated by `, `.
pub open spec fn formals_text(n: nat) -> Seq<char>
    decreases n,
{
    if n == 0 {
        seq![]
    } else if n == 1 {
        formal_name(0)
    } else {
        formals_text((n - 1) as nat) + seq![',', ' '] + formal_name((n - 1) as nat)
    }
}

pub open spec fn param_name(k: nat) -> Seq<char> {
    seq!['_', 'g', 'a', 't', 'e', '_', 'p', '_'] + dec(k)
}

/// The first `n` formal parameter names, separated by `, `.
pub open spec fn pformals_text(n: nat) -> Seq<char>
    decreases n,
{
    if n == 0 {
        seq![]
    } else if n == 1 {
        param_name(0)
    } else {
        pformals_text((n - 1) as nat) + seq![',', ' '] + param_name((n - 1) as nat)
    }
}

pub open spec fn def_param_text(opts: DumpOptions, decimals: Seq<(Angle, String)>, p: DefParam, np: nat) -> Result<Seq<char>, ExportErrorKind> {
    match p {
        DefParam::Value(a) => angle_text(opts, decimals, a),
        DefParam::Formal(k) => if k < np {
            Ok(param_name(k as nat))
        } else {
            Err(ExportErrorKind::BadDefinition)
        },
    }
}

/// The first `n` parameters of a body operation, separated by `, `.
pub open spec fn def_params_list(opts: DumpOptions, decimals: Seq<(Angle, String)>, ps: Seq<DefParam>, np: nat, n: nat) -> Result<Seq<char>, ExportErrorKind>
    decreases n,
{
    if n == 0 {
        Ok(seq![])
    } else {
        match def_params_list(opts, decimals, ps, np, (n - 1) as nat) {
            Err(e) => Err(e),
            Ok(t) => match def_param_text(opts, decimals, ps[n - 1], np) {
                Err(e) => Err(e),
                Ok(o) => Ok(if n == 1 {
                    o
                } else {
                    t + seq![',', ' '] + o
                }),
            },
        }
    }
}

pub open spec fn def_params_text(opts: DumpOptions, decimals: Seq<(Angle, String)>, ps: Seq<DefParam>, np: nat) -> Result<Seq<char>, ExportErrorKind> {
    if ps.len() == 0 {
        Ok(seq![])
    } else {
        match def_params_list(opts, decimals, ps, np, ps.len()) {
            Err(e) => Err(e),
            Ok(t) => Ok(seq!['('] + t + seq![')']),
        }
    }
}

/// The first `n` qubits of a body operation, by formal name.
pub open spec fn op_qubits_text(qs: Seq<usize>, nq: nat, n: nat) -> Result<Seq<char>, ExportErrorKind>
    decreases n,
{
    if n == 0 {
        Ok(seq![])
    } else {
        match op_qubits_text(qs, nq, (n - 1) as nat) {
            Err(e) => Err(e),
            Ok(t) => if qs[n - 1] < nq {
                Ok(if n == 1 {
                    formal_name(qs[n - 1] as nat)
                } else {
                    t + seq![',', ' '] + formal_name(qs[n - 1] as nat)
                })
            } else {
                Err(ExportErrorKind::BadDefinition)
            },
        }
    }
}

pub open spec fn op_text(opts: DumpOptions, decimals: Seq<(Angle, String)>, op: DefOp, nq: nat, np: nat) -> Result<Seq<char>, ExportErrorKind> {
    match def_params_text(opts, decimals, op.params@, np) {
        Err(e) => Err(e),
        Ok(pt) => match op_qubits_text(op.qubits@, nq, op.qubits@.len()) {
            Err(e) => Err(e),
            Ok(qt) => Ok(opts.indent@ + op.name@ + pt + seq![' '] + qt + seq![';', '\n']),
        },
    }
}

/// The first `n` lines of a definition's body.
pub open spec fn def_body_text(opts: DumpOptions, decimals: Seq<(Angle, String)>, d: GateDefinition, n: nat) -> Result<Seq<char>, ExportErrorKind>
    decreases n,
{
    if n == 0 {
        Ok(seq![])
    } else {
        match def_body_text(opts, decimals, d, (n - 1) as nat) {
            Err(e) => Err(e),
            Ok(t) => match op_text(opts, decimals, d.body@[n - 1], d.num_qubits as nat, d.num_params as nat) {
                Err(e) => Err(e),
                Ok(o) => Ok(t + o),
            },
        }
    }
}

/// `gate name(_gate_p_0) _gate_q_0, _gate_q_1 {` ... `}`; without
/// parameters the list and its parentheses are left out.
#[verifier::opaque]
pub open spec fn def_text(opts: DumpOptions, decimals: Seq<(Angle, String)>, d: GateDefinition) -> Result<Seq<char>, ExportErrorKind> {
    match def_body_text(opts, decimals, d, d.body@.len()) {
        Err(e) => Err(e),
        Ok(b) => Ok(seq!['g', 'a', 't', 'e', ' '] + d.name@ + (if d.num_params == 0 {
            seq![]
        } else {
            seq!['('] + pformals_text(d.num_params as nat) + seq![')']
        }) + seq![' '] + formals_text(d.num_qubits as nat)
            + seq![' ', '{', '\n'] + b + seq!['}', '\n']),
    }
}

pub open spec fn guard_text(regs: Seq<RegView>, c: Option<Condition>) -> Seq<char> {
    match c {
        Some(c) => seq!['i', 'f', ' ', '('] + regs[c.reg as int].name + match c.bit {
            Some(b) => seq!['['] + dec(b as nat) + seq![']'],
            None => seq![],
        } + seq![' ', '=', '=', ' '] + dec(c.value as nat) + seq![')', ' '],
        None => seq![],
    }
}

pub open spec fn measure_name() -> Seq<char> {
    seq!['m', 'e', 'a', 's', 'u', 'r', 'e']
}

pub open spec fn reset_name() -> Seq<char> {
    seq!['r', 'e', 's', 'e', 't']
}

pub open spec fn barrier_name() -> Seq<char> {
    seq!['b', 'a', 'r', 'r', 'i', 'e', 'r']
}

/// Operations that need no declaration: `measure`, `reset`, `barrier`.
pub open spec fn builtin(name: Seq<char>) -> bool {
    name == measure_name() || name == reset_name() || name == barrier_name()
}

/// A name the program text can use: built in, a basis gate, defined by a
/// declared include, or defined by the circuit.
pub open spec fn known(ir: CircuitIR, opts: DumpOptions, lib: Seq<IncludeFile>, name: Seq<char>) -> bool {
    builtin(name) || in_basis(opts, name) || included(opts, lib, name) is Some
        || find_def(ir.definitions@, name, 0) is Some
}

/// The operation itself, without guard or terminator.
#[verifier::opaque]
pub open spec fn op_body(regs: Seq<RegView>, phys: bool, opts: DumpOptions, decimals: Seq<(Angle, String)>, inst: Instruction) -> Result<Seq<char>, ExportErrorKind> {
    let qs = inst.qubits@;
    let cs = inst.clbits@;
    if inst.name@ == measure_name() {
        if qs.len() != 1 || cs.len() != 1 {
            Err(ExportErrorKind::Arity)
        } else {
            match (operand_text(regs, phys, cs[0]), operand_text(regs, phys, qs[0])) {
                (Ok(c), Ok(q)) => Ok(c + seq![' ', '=', ' '] + measure_name() + seq![' '] + q),
                (Err(e), _) => Err(e),
                (_, Err(e)) => Err(e),
            }
        }
    } else if inst.name@ == reset_name() {
        if qs.len() != 1 || cs.len() != 0 {
            Err(ExportErrorKind::Arity)
        } else {
            match operand_text(regs, phys, qs[0]) {
                Ok(q) => Ok(reset_name() + seq![' '] + q),
                Err(e) => Err(e),
            }
        }
    } else {
        match params_text(opts, decimals, inst.params@) {
            Err(e) => Err(e),
            Ok(pt) => match operands_text(regs, phys, qs, qs.len()) {
                Err(e) => Err(e),
                Ok(qt) => Ok(inst.name@ + pt + seq![' '] + qt),
            },
        }
    }
}

/// The counts that a use must match: those of the declared include that
/// defines the name, else those of the circuit's definition. Basis gates
/// and names known to neither are taken as they stand.
pub open spec fn arity_ok(ir: CircuitIR, opts: DumpOptions, lib: Seq<IncludeFile>, inst: Instruction) -> bool {
    if in_basis(opts, inst.name@) {
        true
    } else {
        match included(opts, lib, inst.name@) {
            Some(g) => inst.qubits@.len() == g.num_qubits && inst.params@.len() == g.num_params
                && inst.clbits@.len() == 0,
            None => match find_def(ir.definitions@, inst.name@, 0) {
                Some(d) => inst.qubits@.len() == ir.definitions@[d as int].num_qubits
                    && inst.params@.len() == ir.definitions@[d as int].num_params
                    && inst.clbits@.len() == 0,
                None => true,
            },
        }
    }
}

/// The text for instruction `i`: a definition on first use, then the
/// guarded statement.
pub open spec fn stmt_text(ir: CircuitIR, layout: bool, opts: DumpOptions, decimals: Seq<(Angle, String)>, lib: Seq<IncludeFile>, i: int) -> Result<Seq<char>, ExportErrorKind> {
    let inst = ir.instructions@[i];
    let regs = reg_views(ir.registers@);
    if !instruction_valid(regs, inst) {
        Err(ExportErrorKind::BadOperand)
    } else if !known(ir, opts, lib, inst.name@) {
        Err(ExportErrorKind::UndefinedGate)
    } else if !arity_ok(ir, opts, lib, inst) {
        Err(ExportErrorKind::Arity)
    } else {
        let dt = match def_before(ir, opts, lib, i) {
            Some(d) => def_text(opts, decimals, ir.definitions@[d as int]),
            None => Ok(seq![]),
        };
        match dt {
            Err(e) => Err(e),
            Ok(dt) => match op_body(regs, physical(layout, opts), opts, decimals, inst) {
                Err(e) => Err(e),
                Ok(ob) => Ok(dt + guard_text(regs, inst.condition) + ob + seq![';', '\n']),
            },
        }
    }
}

/// The text of the first `n` instructions, or the first failure.
pub open spec fn stmts_text(ir: CircuitIR, layout: bool, opts: DumpOptions, decimals: Seq<(Angle, String)>, lib: Seq<IncludeFile>, n: nat) -> Result<Seq<char>, ExportError>
    decreases n,
{
    if n == 0 {
        Ok(seq![])
    } else {
        match stmts_text(ir, layout, opts, decimals, lib, (n - 1) as nat) {
            Err(e) => Err(e),
            Ok(t) => match stmt_text(ir, layout, opts, decimals, lib, n - 1) {
                Ok(s) => Ok(t + s),
                Err(kind) => Err(ExportError { kind, index: (n - 1) as usize }),
            },
        }
    }
}

/// The whole program text.
pub open spec fn export_spec(ir: CircuitIR, layout: bool, opts: DumpOptions, decimals: Seq<(Angle, String)>, lib: Seq<IncludeFile>) -> Result<Seq<char>, ExportError> {
    match stmts_text(ir, layout, opts, decimals, lib, ir.instructions@.len()) {
        Err(e) => Err(e),
        Ok(t) => Ok(header() + includes_text(strs(opts.includes@), opts.includes@.len())
            + regs_text(reg_views(ir.registers@), ir.registers@.len() as nat) + t),
    }
}

fn push_includes(out: &mut String, opts: &DumpOptions)
    ensures
        final(out)@ == old(out)@ + includes_text(strs(opts.includes@), opts.includes@.len()),
{
    let ghost names = strs(opts.includes@);
    let ghost start = out@;
    let mut i: usize = 0;
    while i < opts.includes.len()
        invariant
            i <= opts.includes@.len(),
            names == strs(opts.includes@),
            start == old(out)@,
            out@ == start + includes_text(names, i as nat),
        decreases opts.includes@.len() - i,
    {
        let mut seen = false;
        let mut j: usize = 0;
        while j < i
            invariant
                j <= i < opts.includes@.len(),
                names == strs(opts.includes@),
                seen == exists|m: int| 0 <= m < j && names[m] == names[i as int],
            decreases i - j,
        {
            assert(names[j as int] == opts.includes@[j as int]@);
            assert(names[i as int] == opts.includes@[i as int]@);
            let ghost was = seen;
            if opts.includes[j].eq(&opts.includes[i]) {
                seen = true;
            }
            assert(seen == (was || names[j as int] == names[i as int]));
            assert(seen == exists|m: int| 0 <= m < j + 1 && names[m] == names[i as int]) by {
                if seen && !was {
                    assert(names[j as int] == names[i as int]);
                }
            }
            j = j + 1;
        }
        assert(seen == seen_before(names, i as int));
        if !seen {
            proof {
                reveal_strlit("include \"");
                reveal_strlit("\";\n");
            }
            out.append("include \"");
            out.append(opts.includes[i].as_str());
            out.append("\";\n");
            assert(out@ =~= start + includes_text(names, (i + 1) as nat));
        }
        i = i + 1;
    }
}

fn push_regs(out: &mut String, ir: &CircuitIR)
    ensures
        final(out)@ == old(out)@ + regs_text(reg_views(ir.registers@), ir.registers@.len() as nat),
{
    let ghost regs = reg_views(ir.registers@);
    let ghost start = out@;
    let mut i: usize = 0;
    while i < ir.registers.len()
        invariant
            i <= ir.registers@.len(),
            regs == reg_views(ir.registers@),
            start == old(out)@,
            out@ == start + regs_text(regs, i as nat),
        decreases ir.registers@.len() - i,
    {
        let r = &ir.registers[i];
        {
            proof {
                reveal_strlit("qubit[");
                reveal_strlit("bit[");
                reveal_strlit("] ");
                reveal_strlit(";\n");
            }
            let ghost before = out@;
            if r.quantum {
                out.append("qubit[");
            } else {
                out.append("bit[");
            }
            push_dec(out, r.size as u64);
            out.append("] ");
            out.append(r.name.as_str());
            out.append(";\n");
            assert(out@ =~= before + reg_decl(regs[i as int]));
            assert(out@ =~= start + regs_text(regs, (i + 1) as nat));
        }
        i = i + 1;
    }
}

fn offset_exec(ir: &CircuitIR, r: usize) -> (res: Option<u64>)
    requires
        r <= ir.registers@.len(),
    ensures
        res matches Some(v) ==> v as nat == qubit_offset(reg_views(ir.registers@), r as nat),
        res is None ==> qubit_offset(reg_views(ir.registers@), r as nat) > u64::MAX,
{
    let ghost regs = reg_views(ir.registers@);
    let mut acc: u64 = 0;
    let mut i: usize = 0;
    while i < r
        invariant
            i <= r <= ir.registers@.len(),
            regs == reg_views(ir.registers@),
            acc as nat == qubit_offset(regs, i as nat),
        decreases r - i,
    {
        if ir.registers[i].quantum {
            let sz = ir.registers[i].size as u64;
            if acc > u64::MAX - sz {
                proof {
                    lemma_offset_mono(regs, (i + 1) as nat, r as nat);
                }
                return None;
            }
            acc = acc + sz;
        }
        i = i + 1;
    }
    Some(acc)
}

proof fn lemma_offset_mono(regs: Seq<RegView>, a: nat, b: nat)
    requires
        a <= b,
    ensures
        qubit_offset(regs, a) <= qubit_offset(regs, b),
    decreases b,
{
    if a < b {
        lemma_offset_mono(regs, a, (b - 1) as nat);
    }
}

fn push_operand(out: &mut String, ir: &CircuitIR, phys: bool, b: Bit) -> (r: Result<(), ExportErrorKind>)
    requires
        b.reg < ir.registers@.len(),
    ensures
        r is Ok ==> (operand_text(reg_views(ir.registers@), phys, b) matches Ok(t) && final(out)@ == old(out)@ + t),
        r matches Err(e) ==> operand_text(reg_views(ir.registers@), phys, b) == Err::<Seq<char>, ExportErrorKind>(e),
{
    let ghost regs = reg_views(ir.registers@);
    let r = &ir.registers[b.reg];
    proof {
        reveal_strlit("$");
        reveal_strlit("[");
        reveal_strlit("]");
    }
    if phys && r.quantum {
        match offset_exec(ir, b.reg) {
            Some(off) => {
                if off > u64::MAX - b.index as u64 {
                    return Err(ExportErrorKind::BadLayout);
                }
                out.append("$");
                push_dec(out, off + b.index as u64);
                Ok(())
            },
            None => Err(ExportErrorKind::BadLayout),
        }
    } else {
        out.append(r.name.as_str());
        out.append("[");
        push_dec(out, b.index as u64);
        out.append("]");
        Ok(())
    }
}

fn push_operands(out: &mut String, ir: &CircuitIR, phys: bool, bits: &Vec<Bit>) -> (r: Result<(), ExportErrorKind>)
    requires
        forall|k: int| 0 <= k < bits@.len() ==> (#[trigger] bits@[k]).reg < ir.registers@.len(),
    ensures
        r is Ok ==> (operands_text(reg_views(ir.registers@), phys, bits@, bits@.len()) matches Ok(t) && final(out)@ == old(out)@ + t),
        r matches Err(e) ==> operands_text(reg_views(ir.registers@), phys, bits@, bits@.len()) == Err::<Seq<char>, ExportErrorKind>(e),
{
    let ghost regs = reg_views(ir.registers@);
    let ghost start = out@;
    let mut k: usize = 0;
    while k < bits.len()
        invariant
            k <= bits@.len(),
            regs == reg_views(ir.registers@),
            start == old(out)@,
            forall|m: int| 0 <= m < bits@.len() ==> (#[trigger] bits@[m]).reg < ir.registers@.len(),
            operands_text(regs, phys, bits@, k as nat) matches Ok(t) && out@ == start + t,
        decreases bits@.len() - k,
    {
        if k > 0 {
            proof {
                reveal_strlit(", ");
            }
            out.append(", ");
        }
        match push_operand(out, ir, phys, bits[k]) {
            Ok(()) => {
                assert(out@ =~= start + (operands_text(regs, phys, bits@, (k + 1) as nat)->Ok_0));
            },
            Err(e) => {
                proof {
                    lemma_operands_err(regs, phys, bits@, (k + 1) as nat, bits@.len());
                }
                return Err(e);
            },
        }
        k = k + 1;
    }
    Ok(())
}

proof fn lemma_operands_err(regs: Seq<RegView>, phys: bool, bits: Seq<Bit>, k: nat, m: nat)
    requires
        k <= m,
        operands_text(regs, phys, bits, k) is Err,
    ensures
        operands_text(regs, phys, bits, m) == operands_text(regs, phys, bits, k),
    decreases m,
{
    if k < m {
        lemma_operands_err(regs, phys, bits, k, (m - 1) as nat);
    }
}

fn literal_exec(decimals: &Vec<(Angle, String)>, a: Angle) -> (r: Option<usize>)
    ensures
        r matches Some(i) ==> i < decimals@.len() && literal_of(decimals@, a, 0) == Some(decimals@[i as int].1@),
        r is None ==> literal_of(decimals@, a, 0) is None,
{
    let mut i: usize = 0;
    while i < decimals.len()
        invariant
            i <= decimals@.len(),
            literal_of(decimals@, a, 0) == literal_of(decimals@, a, i as nat),
        decreases decimals@.len() - i,
    {
        if decimals[i].0 == a {
            return Some(i);
        }
        i = i + 1;
    }
    None
}

fn push_angle(out: &mut String, opts: &DumpOptions, decimals: &Vec<(Angle, String)>, a: Angle) -> (r: Result<(), ExportErrorKind>)
    ensures
        r is Ok ==> (angle_text(*opts, decimals@, a) matches Ok(t) && final(out)@ == old(out)@ + t),
        r matches Err(e) ==> angle_text(*opts, decimals@, a) == Err::<Seq<char>, ExportErrorKind>(e),
{
    if a.den <= 0 {
        return Err(ExportErrorKind::BadDefinition);
    }
    if opts.disable_constants {
        match literal_exec(decimals, a) {
            Some(i) => {
                out.append(decimals[i].1.as_str());
                Ok(())
            },
            None => Err(ExportErrorKind::MissingLiteral),
        }
    } else {
        push_symbolic(out, a);
        Ok(())
    }
}

proof fn lemma_params_err(opts: DumpOptions, decimals: Seq<(Angle, String)>, ps: Seq<Angle>, k: nat, m: nat)
    requires
        k <= m,
        params_list(opts, decimals, ps, k) is Err,
    ensures
        params_list(opts, decimals, ps, m) == params_list(opts, decimals, ps, k),
    decreases m,
{
    if k < m {
        lemma_params_err(opts, decimals, ps, k, (m - 1) as nat);
    }
}

fn push_params(out: &mut String, opts: &DumpOptions, decimals: &Vec<(Angle, String)>, ps: &Vec<Angle>) -> (r: Result<(), ExportErrorKind>)
    ensures
        r is Ok ==> (params_text(*opts, decimals@, ps@) matches Ok(t) && final(out)@ == old(out)@ + t),
        r matches Err(e) ==> params_text(*opts, decimals@, ps@) == Err::<Seq<char>, ExportErrorKind>(e),
{
    if ps.len() == 0 {
        assert(out@ =~= old(out)@ + Seq::<char>::empty());
        return Ok(());
    }
    proof {
        reveal_strlit("(");
        reveal_strlit(")");
        reveal_strlit(", ");
    }
    out.append("(");
    let ghost start = out@;
    let mut k: usize = 0;
    while k < ps.len()
        invariant
            k <= ps@.len(),
            start == old(out)@ + seq!['('],
            params_list(*opts, decimals@, ps@, k as nat) matches Ok(t) && out@ == start + t,
        decreases ps@.len() - k,
    {
        if k > 0 {
            proof {
                reveal_strlit(", ");
            }
            out.append(", ");
        }
        match push_angle(out, opts, decimals, ps[k]) {
            Ok(()) => {
                assert(out@ =~= start + (params_list(*opts, decimals@, ps@, (k + 1) as nat)->Ok_0));
            },
            Err(e) => {
                proof {
                    lemma_params_err(*opts, decimals@, ps@, (k + 1) as nat, ps@.len());
                }
                return Err(e);
            },
        }
        k = k + 1;
    }
    let ghost t = out@;
    out.append(")");
    assert(out@ =~= old(out)@ + (params_text(*opts, decimals@, ps@)->Ok_0));
    Ok(())
}

fn contains_exec(v: &Vec<String>, name: &String) -> (r: bool)
    ensures
        r == in_list(v@, name@),
{
    let mut j: usize = 0;
    while j < v.len()
        invariant
            j <= v@.len(),
            forall|m: int| 0 <= m < j ==> (#[trigger] v@[m])@ != name@,
        decreases v@.len() - j,
    {
        if v[j].eq(name) {
            return true;
        }
        j = j + 1;
    }
    false
}

fn lib_find_exec(lib: &Vec<IncludeFile>, includes: &Vec<String>, name: &String) -> (r: Option<(usize, usize)>)
    ensures
        r matches Some((f, g)) ==> f < lib@.len() && g < lib@[f as int].gates@.len()
            && lib_find(lib@, includes@, name@, 0) == Some(lib@[f as int].gates@[g as int]),
        r is None ==> lib_find(lib@, includes@, name@, 0) is None,
{
    let mut f: usize = 0;
    while f < lib.len()
        invariant
            f <= lib@.len(),
            lib_find(lib@, includes@, name@, 0) == lib_find(lib@, includes@, name@, f as nat),
        decreases lib@.len() - f,
    {
        if contains_exec(includes, &lib[f].name) {
            if let Some(g) = find_sig_exec(&lib[f].gates, name) {
                return Some((f, g));
            }
        }
        f = f + 1;
    }
    None
}

/// The gates of `stdgates.inc`: name, parameter count, qubit count.
pub open spec fn stdgates_sigs() -> Seq<(Seq<char>, nat, nat)> {
    seq![
        (seq!['p'], 1, 1),
        (seq!['x'], 0, 1),
        (seq!['y'], 0, 1),
        (seq!['z'], 0, 1),
        (seq!['h'], 0, 1),
        (seq!['s'], 0, 1),
        (seq!['s', 'd', 'g'], 0, 1),
        (seq!['t'], 0, 1),
        (seq!['t', 'd', 'g'], 0, 1),
        (seq!['s', 'x'], 0, 1),
        (seq!['r', 'x'], 1, 1),
        (seq!['r', 'y'], 1, 1),
        (seq!['r', 'z'], 1, 1),
        (seq!['c', 'x'], 0, 2),
        (seq!['c', 'y'], 0, 2),
        (seq!['c', 'z'], 0, 2),
        (seq!['c', 'p'], 1, 2),
        (seq!['c', 'r', 'x'], 1, 2),
        (seq!['c', 'r', 'y'], 1, 2),
        (seq!['c', 'r', 'z'], 1, 2),
        (seq!['c', 'h'], 0, 2),
        (seq!['s', 'w', 'a', 'p'], 0, 2),
        (seq!['c', 'c', 'x'], 0, 3),
        (seq!['c', 's', 'w', 'a', 'p'], 0, 3),
        (seq!['c', 'u'], 4, 2),
        (seq!['C', 'X'], 0, 2),
        (seq!['p', 'h', 'a', 's', 'e'], 1, 1),
        (seq!['c', 'p', 'h', 'a', 's', 'e'], 1, 2),
        (seq!['i', 'd'], 0, 1),
        (seq!['u', '1'], 1, 1),
        (seq!['u', '2'], 2, 1),
        (seq!['u', '3'], 3, 1),
    ]
}

pub open spec fn sig_view(g: GateSig) -> (Seq<char>, nat, nat) {
    (g.name@, g.num_params as nat, g.num_qubits as nat)
}

fn std_sig(name: &str, num_params: usize, num_qubits: usize) -> (r: GateSig)
    ensures
        r.name@ == name@,
        r.num_params == num_params,
        r.num_qubits == num_qubits,
{
    GateSig { name: String::from_str(name), num_params, num_qubits }
}

/// The include files this exporter knows: `stdgates.inc` and its gates,
/// with their parameter and qubit counts.
pub fn standard_includes() -> (r: Vec<IncludeFile>)
    ensures
        r@.len() == 1,
        r@[0].name@ == seq!['s', 't', 'd', 'g', 'a', 't', 'e', 's', '.', 'i', 'n', 'c'],
        r@[0].gates@.map_values(|g: GateSig| sig_view(g)) == stdgates_sigs(),
{
    proof {
        reveal_strlit("p");
        reveal_strlit("x");
        reveal_strlit("y");
        reveal_strlit("z");
        reveal_strlit("h");
        reveal_strlit("s");
        reveal_strlit("sdg");
        reveal_strlit("t");
        reveal_strlit("tdg");
        reveal_strlit("sx");
        reveal_strlit("rx");
        reveal_strlit("ry");
        reveal_strlit("rz");
        reveal_strlit("cx");
        reveal_strlit("cy");
        reveal_strlit("cz");
        reveal_strlit("cp");
        reveal_strlit("crx");
        reveal_strlit("cry");
        reveal_strlit("crz");
        reveal_strlit("ch");
        reveal_strlit("swap");
        reveal_strlit("ccx");
        reveal_strlit("cswap");
        reveal_strlit("cu");
        reveal_strlit("CX");
        reveal_strlit("phase");
        reveal_strlit("cphase");
        reveal_strlit("id");
        reveal_strlit("u1");
        reveal_strlit("u2");
        reveal_strlit("u3");
        reveal_strlit("stdgates.inc");
    }
    let mut gates: Vec<GateSig> = Vec::new();
    gates.push(std_sig("p", 1, 1));
    gates.push(std_sig("x", 0, 1));
    gates.push(std_sig("y", 0, 1));
    gates.push(std_sig("z", 0, 1));
    gates.push(std_sig("h", 0, 1));
    gates.push(std_sig("s", 0, 1));
    gates.push(std_sig("sdg", 0, 1));
    gates.push(std_sig("t", 0, 1));
    gates.push(std_sig("tdg", 0, 1));
    gates.push(std_sig("sx", 0, 1));
    gates.push(std_sig("rx", 1, 1));
    gates.push(std_sig("ry", 1, 1));
    gates.push(std_sig("rz", 1, 1));
    gates.push(std_sig("cx", 0, 2));
    gates.push(std_sig("cy", 0, 2));
    gates.push(std_sig("cz", 0, 2));
    gates.push(std_sig("cp", 1, 2));
    gates.push(std_sig("crx", 1, 2));
    gates.push(std_sig("cry", 1, 2));
    gates.push(std_sig("crz", 1, 2));
    gates.push(std_sig("ch", 0, 2));
    gates.push(std_sig("swap", 0, 2));
    gates.push(std_sig("ccx", 0, 3));
    gates.push(std_sig("cswap", 0, 3));
    gates.push(std_sig("cu", 4, 2));
    gates.push(std_sig("CX", 0, 2));
    gates.push(std_sig("phase", 1, 1));
    gates.push(std_sig("cphase", 1, 2));
    gates.push(std_sig("id", 0, 1));
    gates.push(std_sig("u1", 1, 1));
    gates.push(std_sig("u2", 2, 1));
    gates.push(std_sig("u3", 3, 1));
    assert(gates@.map_values(|g: GateSig| sig_view(g)) =~~= stdgates_sigs());
    let name = String::from_str("stdgates.inc");
    let mut r: Vec<IncludeFile> = Vec::new();
    r.push(IncludeFile { name, gates });
    r
}

fn find_def_exec(defs: &Vec<GateDefinition>, name: &String) -> (r: Option<usize>)
    ensures
        r matches Some(d) ==> d < defs@.len() && find_def(defs@, name@, 0) == Some(d as nat),
        r is None ==> find_def(defs@, name@, 0) is None,
{
    let mut i: usize = 0;
    while i < defs.len()
        invariant
            i <= defs@.len(),
            find_def(defs@, name@, 0) == find_def(defs@, name@, i as nat),
        decreases defs@.len() - i,
    {
        if defs[i].name.eq(name) {
            return Some(i);
        }
        i = i + 1;
    }
    None
}

fn seen_before_exec(ir: &CircuitIR, i: usize) -> (r: bool)
    requires
        i < ir.instructions@.len(),
    ensures
        r == seen_before(inst_names(*ir), i as int),
{
    let ghost names = inst_names(*ir);
    let mut j: usize = 0;
    while j < i
        invariant
            j <= i < ir.instructions@.len(),
            names == inst_names(*ir),
            forall|m: int| 0 <= m < j ==> #[trigger] names[m] != names[i as int],
        decreases i - j,
    {
        assert(names[j as int] == ir.instructions@[j as int].name@);
        if ir.instructions[j].name.eq(&ir.instructions[i].name) {
            return true;
        }
        j = j + 1;
    }
    false
}

fn builtin_exec(name: &String) -> (r: bool)
    ensures
        r == builtin(name@),
{
    let m = String::from_str("measure");
    let r = String::from_str("reset");
    let b = String::from_str("barrier");
    proof {
        reveal_strlit("measure");
        reveal_strlit("reset");
        reveal_strlit("barrier");
    }
    assert(m@ =~= measure_name());
    assert(r@ =~= reset_name());
    assert(b@ =~= barrier_name());
    name.eq(&m) || name.eq(&r) || name.eq(&b)
}

fn push_pformal(out: &mut String, k: usize)
    ensures
        final(out)@ == old(out)@ + param_name(k as nat),
{
    proof {
        reveal_strlit("_gate_p_");
    }
    out.append("_gate_p_");
    push_dec(out, k as u64);
    assert(final(out)@ =~= old(out)@ + param_name(k as nat));
}

fn push_pformals(out: &mut String, n: usize)
    ensures
        final(out)@ == old(out)@ + pformals_text(n as nat),
{
    let ghost start = out@;
    let mut k: usize = 0;
    while k < n
        invariant
            k <= n,
            start == old(out)@,
            out@ == start + pformals_text(k as nat),
        decreases n - k,
    {
        if k > 0 {
            proof {
                reveal_strlit(", ");
            }
            out.append(", ");
        }
        push_pformal(out, k);
        assert(out@ =~= start + pformals_text((k + 1) as nat));
        k = k + 1;
    }
}

fn push_def_param(out: &mut String, opts: &DumpOptions, decimals: &Vec<(Angle, String)>, p: DefParam, np: usize) -> (r: Result<(), ExportErrorKind>)
    ensures
        r is Ok ==> (def_param_text(*opts, decimals@, p, np as nat) matches Ok(t) && final(out)@ == old(out)@ + t),
        r matches Err(e) ==> def_param_text(*opts, decimals@, p, np as nat) == Err::<Seq<char>, ExportErrorKind>(e),
{
    match p {
        DefParam::Value(a) => push_angle(out, opts, decimals, a),
        DefParam::Formal(k) => {
            if k < np {
                push_pformal(out, k);
                Ok(())
            } else {
                Err(ExportErrorKind::BadDefinition)
            }
        },
    }
}

proof fn lemma_def_params_err(opts: DumpOptions, decimals: Seq<(Angle, String)>, ps: Seq<DefParam>, np: nat, k: nat, m: nat)
    requires
        k <= m,
        def_params_list(opts, decimals, ps, np, k) is Err,
    ensures
        def_params_list(opts, decimals, ps, np, m) == def_params_list(opts, decimals, ps, np, k),
    decreases m,
{
    if k < m {
        lemma_def_params_err(opts, decimals, ps, np, k, (m - 1) as nat);
    }
}

fn push_def_params(out: &mut String, opts: &DumpOptions, decimals: &Vec<(Angle, String)>, ps: &Vec<DefParam>, np: usize) -> (r: Result<(), ExportErrorKind>)
    ensures
        r is Ok ==> (def_params_text(*opts, decimals@, ps@, np as nat) matches Ok(t) && final(out)@ == old(out)@ + t),
        r matches Err(e) ==> def_params_text(*opts, decimals@, ps@, np as nat) == Err::<Seq<char>, ExportErrorKind>(e),
{
    if ps.len() == 0 {
        assert(out@ =~= old(out)@ + Seq::<char>::empty());
        return Ok(());
    }
    proof {
        reveal_strlit("(");
        reveal_strlit(")");
    }
    out.append("(");
    let ghost start = out@;
    let mut k: usize = 0;
    while k < ps.len()
        invariant
            k <= ps@.len(),
            start == old(out)@ + seq!['('],
            def_params_list(*opts, decimals@, ps@, np as nat, k as nat) matches Ok(t) && out@ == start + t,
        decreases ps@.len() - k,
    {
        if k > 0 {
            proof {
                reveal_strlit(", ");
            }
            out.append(", ");
        }
        match push_def_param(out, opts, decimals, ps[k], np) {
            Ok(()) => {
                assert(out@ =~= start + (def_params_list(*opts, decimals@, ps@, np as nat, (k + 1) as nat)->Ok_0));
            },
            Err(e) => {
                proof {
                    lemma_def_params_err(*opts, decimals@, ps@, np as nat, (k + 1) as nat, ps@.len());
                }
                return Err(e);
            },
        }
        k = k + 1;
    }
    out.append(")");
    assert(out@ =~= old(out)@ + (def_params_text(*opts, decimals@, ps@, np as nat)->Ok_0));
    Ok(())
}

fn push_formal(out: &mut String, k: usize)
    ensures
        final(out)@ == old(out)@ + formal_name(k as nat),
{
    proof {
        reveal_strlit("_gate_q_");
    }
    out.append("_gate_q_");
    push_dec(out, k as u64);
    assert(final(out)@ =~= old(out)@ + formal_name(k as nat));
}

fn push_formals(out: &mut String, n: usize)
    ensures
        final(out)@ == old(out)@ + formals_text(n as nat),
{
    let ghost start = out@;
    let mut k: usize = 0;
    while k < n
        invariant
            k <= n,
            start == old(out)@,
            out@ == start + formals_text(k as nat),
        decreases n - k,
    {
        if k > 0 {
            proof {
                reveal_strlit(", ");
            }
            out.append(", ");
        }
        push_formal(out, k);
        assert(out@ =~= start + formals_text((k + 1) as nat));
        k = k + 1;
    }
}

proof fn lemma_op_qubits_err(qs: Seq<usize>, nq: nat, k: nat, m: nat)
    requires
        k <= m,
        op_qubits_text(qs, nq, k) is Err,
    ensures
        op_qubits_text(qs, nq, m) == op_qubits_text(qs, nq, k),
    decreases m,
{
    if k < m {
        lemma_op_qubits_err(qs, nq, k, (m - 1) as nat);
    }
}

fn push_op_qubits(out: &mut String, qs: &Vec<usize>, nq: usize) -> (r: Result<(), ExportErrorKind>)
    ensures
        r is Ok ==> (op_qubits_text(qs@, nq as nat, qs@.len()) matches Ok(t) && final(out)@ == old(out)@ + t),
        r matches Err(e) ==> op_qubits_text(qs@, nq as nat, qs@.len()) == Err::<Seq<char>, ExportErrorKind>(e),
{
    let ghost start = out@;
    let mut k: usize = 0;
    while k < qs.len()
        invariant
            k <= qs@.len(),
            start == old(out)@,
            op_qubits_text(qs@, nq as nat, k as nat) matches Ok(t) && out@ == start + t,
        decreases qs@.len() - k,
    {
        if qs[k] >= nq {
            proof {
                lemma_op_qubits_err(qs@, nq as nat, (k + 1) as nat, qs@.len());
            }
            return Err(ExportErrorKind::BadDefinition);
        }
        if k > 0 {
            proof {
                reveal_strlit(", ");
            }
            out.append(", ");
        }
        push_formal(out, qs[k]);
        assert(out@ =~= start + (op_qubits_text(qs@, nq as nat, (k + 1) as nat)->Ok_0));
        k = k + 1;
    }
    Ok(())
}

proof fn lemma_def_body_err(opts: DumpOptions, decimals: Seq<(Angle, String)>, d: GateDefinition, k: nat, m: nat)
    requires
        k <= m,
        def_body_text(opts, decimals, d, k) is Err,
    ensures
        def_body_text(opts, decimals, d, m) == def_body_text(opts, decimals, d, k),
    decreases m,
{
    if k < m {
        lemma_def_body_err(opts, decimals, d, k, (m - 1) as nat);
    }
}

fn push_def(out: &mut String, opts: &DumpOptions, decimals: &Vec<(Angle, String)>, d: &GateDefinition) -> (r: Result<(), ExportErrorKind>)
    ensures
        r is Ok ==> (def_text(*opts, decimals@, *d) matches Ok(t) && final(out)@ == old(out)@ + t),
        r matches Err(e) ==> def_text(*opts, decimals@, *d) == Err::<Seq<char>, ExportErrorKind>(e),
{
    reveal(def_text);
    proof {
        reveal_strlit("gate ");
        reveal_strlit(" ");
        reveal_strlit(" {\n");
        reveal_strlit("}\n");
    }
    out.append("gate ");
    out.append(d.name.as_str());
    if d.num_params > 0 {
        proof {
            reveal_strlit("(");
            reveal_strlit(")");
        }
        out.append("(");
        push_pformals(out, d.num_params);
        out.append(")");
    }
    out.append(" ");
    push_formals(out, d.num_qubits);
    out.append(" {\n");
    let ghost start = out@;
    let mut k: usize = 0;
    while k < d.body.len()
        invariant
            k <= d.body@.len(),
            def_body_text(*opts, decimals@, *d, k as nat) matches Ok(t) && out@ == start + t,
        decreases d.body@.len() - k,
    {
        let op = &d.body[k];
        let ghost before = out@;
        out.append(opts.indent.as_str());
        out.append(op.name.as_str());
        match push_def_params(out, opts, decimals, &op.params, d.num_params) {
            Ok(()) => {},
            Err(e) => {
                proof {
                    lemma_def_body_err(*opts, decimals@, *d, (k + 1) as nat, d.body@.len());
                }
                reveal(def_text);
                return Err(e);
            },
        }
        proof {
            reveal_strlit(" ");
        }
        out.append(" ");
        match push_op_qubits(out, &op.qubits, d.num_qubits) {
            Ok(()) => {},
            Err(e) => {
                proof {
                    lemma_def_body_err(*opts, decimals@, *d, (k + 1) as nat, d.body@.len());
                }
                reveal(def_text);
                return Err(e);
            },
        }
        proof {
            reveal_strlit(";\n");
        }
        out.append(";\n");
        assert(out@ =~= before + (op_text(*opts, decimals@, *op, d.num_qubits as nat, d.num_params as nat)->Ok_0));
        assert(out@ =~= start + (def_body_text(*opts, decimals@, *d, (k + 1) as nat)->Ok_0));
        k = k + 1;
    }
    out.append("}\n");
    assert(out@ =~= old(out)@ + (def_text(*opts, decimals@, *d)->Ok_0));
    Ok(())
}

fn push_guard(out: &mut String, ir: &CircuitIR, c: Option<Condition>)
    requires
        c matches Some(c) ==> c.reg < ir.registers@.len(),
    ensures
        final(out)@ == old(out)@ + guard_text(reg_views(ir.registers@), c),
{
    match c {
        Some(c) => {
            proof {
                reveal_strlit("if (");
                reveal_strlit(" == ");
                reveal_strlit(") ");
                reveal_strlit("[");
                reveal_strlit("]");
            }
            out.append("if (");
            out.append(ir.registers[c.reg].name.as_str());
            if let Some(b) = c.bit {
                out.append("[");
                push_dec(out, b as u64);
                out.append("]");
            }
            out.append(" == ");
            push_dec(out, c.value);
            out.append(") ");
            assert(out@ =~= old(out)@ + guard_text(reg_views(ir.registers@), Some(c)));
        },
        None => {
            assert(out@ =~= old(out)@ + guard_text(reg_views(ir.registers@), c));
        },
    }
}

fn push_op_body(
    out: &mut String,
    ir: &CircuitIR,
    phys: bool,
    opts: &DumpOptions,
    decimals: &Vec<(Angle, String)>,
    inst: &Instruction,
) -> (r: Result<(), ExportErrorKind>)
    requires
        instruction_valid(reg_views(ir.registers@), *inst),
    ensures
        r is Ok ==> (op_body(reg_views(ir.registers@), phys, *opts, decimals@, *inst) matches Ok(t) && final(out)@ == old(out)@ + t),
        r matches Err(e) ==> op_body(reg_views(ir.registers@), phys, *opts, decimals@, *inst) == Err::<Seq<char>, ExportErrorKind>(e),
{
    let ghost regs = reg_views(ir.registers@);
    reveal(op_body);
    assert(forall|k: int| 0 <= k < inst.qubits@.len() ==> crate::ir::bit_valid(regs, #[trigger] inst.qubits@[k], true)) by {
        assert forall|k: int| 0 <= k < inst.qubits@.len() implies crate::ir::bit_valid(regs, #[trigger] inst.qubits@[k], true) by {
            assert(crate::ir::inst_view(*inst).qubits[k] == inst.qubits@[k]);
        }
    }
    assert(forall|k: int| 0 <= k < inst.clbits@.len() ==> crate::ir::bit_valid(regs, #[trigger] inst.clbits@[k], false)) by {
        assert forall|k: int| 0 <= k < inst.clbits@.len() implies crate::ir::bit_valid(regs, #[trigger] inst.clbits@[k], false) by {
            assert(crate::ir::inst_view(*inst).clbits[k] == inst.clbits@[k]);
        }
    }
    let measure = String::from_str("measure");
    let reset = String::from_str("reset");
    proof {
        reveal_strlit("measure");
        reveal_strlit("reset");
        reveal_strlit(" = measure ");
        reveal_strlit("reset ");
        reveal_strlit(" ");
    }
    assert(measure@ =~= measure_name());
    assert(reset@ =~= reset_name());
    if inst.name.eq(&measure) {
        if inst.qubits.len() != 1 || inst.clbits.len() != 1 {
            return Err(ExportErrorKind::Arity);
        }
        let mut c = String::new();
        let rc = push_operand(&mut c, ir, phys, inst.clbits[0]);
        let mut q = String::new();
        let rq = push_operand(&mut q, ir, phys, inst.qubits[0]);
        match (rc, rq) {
            (Ok(()), Ok(())) => {
                out.append(c.as_str());
                out.append(" = measure ");
                out.append(q.as_str());
                assert(out@ =~= old(out)@ + (op_body(regs, phys, *opts, decimals@, *inst)->Ok_0));
                Ok(())
            },
            (Err(e), _) => Err(e),
            (_, Err(e)) => Err(e),
        }
    } else if inst.name.eq(&reset) {
        if inst.qubits.len() != 1 || inst.clbits.len() != 0 {
            return Err(ExportErrorKind::Arity);
        }
        out.append("reset ");
        let ghost mid = out@;
        let rq = push_operand(out, ir, phys, inst.qubits[0]);
        match rq {
            Ok(()) => {
                assert(out@ =~= old(out)@ + (op_body(regs, phys, *opts, decimals@, *inst)->Ok_0));
                Ok(())
            },
            Err(e) => Err(e),
        }
    } else {
        out.append(inst.name.as_str());
        push_params(out, opts, decimals, &inst.params)?;
        out.append(" ");
        let ghost mid = out@;
        push_operands(out, ir, phys, &inst.qubits)?;
        assert(out@ =~= old(out)@ + (op_body(regs, phys, *opts, decimals@, *inst)->Ok_0));
        Ok(())
    }
}

/// Appends the text of instruction `i`: its definition on first use, then
/// the guarded statement.
fn push_stmt(
    out: &mut String,
    ir: &CircuitIR,
    layout: bool,
    opts: &DumpOptions,
    decimals: &Vec<(Angle, String)>,
    lib: &Vec<IncludeFile>,
    i: usize,
) -> (r: Result<(), ExportErrorKind>)
    requires
        i < ir.instructions@.len(),
    ensures
        r is Ok ==> (stmt_text(*ir, layout, *opts, decimals@, lib@, i as int) matches Ok(t) && final(out)@ == old(out)@ + t),
        r matches Err(e) ==> stmt_text(*ir, layout, *opts, decimals@, lib@, i as int) == Err::<Seq<char>, ExportErrorKind>(e),
{
    let inst = &ir.instructions[i];
    if !ir.check_instruction(inst) {
        return Err(ExportErrorKind::BadOperand);
    }
    let basis = contains_exec(&opts.basis_gates, &inst.name);
    let inc = lib_find_exec(lib, &opts.includes, &inst.name);
    let def = find_def_exec(&ir.definitions, &inst.name);
    if !basis && inc.is_none() && def.is_none() && !builtin_exec(&inst.name) {
        return Err(ExportErrorKind::UndefinedGate);
    }
    if !basis {
        match inc {
            Some((f, g)) => {
                let sig = &lib[f].gates[g];
                if inst.qubits.len() != sig.num_qubits || inst.params.len() != sig.num_params
                    || inst.clbits.len() != 0 {
                    return Err(ExportErrorKind::Arity);
                }
            },
            None => {
                if let Some(d) = def {
                    if inst.qubits.len() != ir.definitions[d].num_qubits
                        || inst.params.len() != ir.definitions[d].num_params
                        || inst.clbits.len() != 0 {
                        return Err(ExportErrorKind::Arity);
                    }
                }
            },
        }
    }
    assert(arity_ok(*ir, *opts, lib@, *inst));
    if !basis && inc.is_none() && !seen_before_exec(ir, i) {
        if let Some(d) = def {
            push_def(out, opts, decimals, &ir.definitions[d])?;
        }
    }
    let ghost mid = out@;
    let cond = inst.condition;
    assert(crate::ir::condition_valid(reg_views(ir.registers@), crate::ir::inst_view(*inst).condition));
    push_guard(out, ir, cond);
    let phys = layout && !opts.allow_aliasing;
    push_op_body(out, ir, phys, opts, decimals, inst)?;
    proof {
        reveal_strlit(";\n");
    }
    out.append(";\n");
    assert(out@ =~= old(out)@ + (stmt_text(*ir, layout, *opts, decimals@, lib@, i as int)->Ok_0));
    Ok(())
}

proof fn lemma_stmts_err(ir: CircuitIR, layout: bool, opts: DumpOptions, decimals: Seq<(Angle, String)>, lib: Seq<IncludeFile>, k: nat, m: nat)
    requires
        k <= m,
        stmts_text(ir, layout, opts, decimals, lib, k) is Err,
    ensures
        stmts_text(ir, layout, opts, decimals, lib, m) == stmts_text(ir, layout, opts, decimals, lib, k),
    decreases m,
{
    if k < m {
        lemma_stmts_err(ir, layout, opts, decimals, lib, k, (m - 1) as nat);
    }
}

/// Writes the program text of `ir` to `out`. `layout` says whether the circuit
/// carries a physical layout. A gate that a file of `lib` named in
/// `opts.includes` defines is referenced, never defined, and each use must
/// match its counts. Any other name but `measure`, `reset`, `barrier` and the
/// basis gates must have a definition in the circuit, written once before
/// its first use; a name with none fails with `UndefinedGate`. With `disable_constants`, each parameter is
/// written as the first literal that `decimals` pairs with it. On failure
/// `out` may already hold a prefix of the text.
pub fn export_circuit_to(
    ir: &CircuitIR,
    layout: bool,
    opts: &DumpOptions,
    decimals: &Vec<(Angle, String)>,
    lib: &Vec<IncludeFile>,
    out: &mut String,
) -> (r: Result<(), ExportError>)
    ensures
        r is Ok ==> (export_spec(*ir, layout, *opts, decimals@, lib@) matches Ok(t) && final(out)@ == old(out)@ + t),
        r matches Err(e) ==> export_spec(*ir, layout, *opts, decimals@, lib@) == Err::<Seq<char>, ExportError>(e),
{
    proof {
        reveal_strlit("OPENQASM 3.0;\n");
    }
    out.append("OPENQASM 3.0;\n");
    push_includes(out, opts);
    push_regs(out, ir);
    let ghost start = out@;
    let mut i: usize = 0;
    while i < ir.instructions.len()
        invariant
            i <= ir.instructions@.len(),
            stmts_text(*ir, layout, *opts, decimals@, lib@, i as nat) matches Ok(t) && out@ == start + t,
        decreases ir.instructions@.len() - i,
    {
        match push_stmt(out, ir, layout, opts, decimals, lib, i) {
            Ok(()) => {
                assert(out@ =~= start + (stmts_text(*ir, layout, *opts, decimals@, lib@, (i + 1) as nat)->Ok_0));
            },
            Err(kind) => {
                proof {
                    lemma_stmts_err(*ir, layout, *opts, decimals@, lib@, (i + 1) as nat, ir.instructions@.len());
                }
                return Err(ExportError { kind, index: i });
            },
        }
        i = i + 1;
    }
    assert(out@ =~= old(out)@ + (export_spec(*ir, layout, *opts, decimals@, lib@)->Ok_0));
    Ok(())
}

/// The program text of `ir`; see `export_circuit_to`.
pub fn export_circuit(
    ir: &CircuitIR,
    layout: bool,
    opts: &DumpOptions,
    decimals: &Vec<(Angle, String)>,
    lib: &Vec<IncludeFile>,
) -> (r: Result<String, ExportError>)
    ensures
        match export_spec(*ir, layout, *opts, decimals@, lib@) {
            Ok(t) => r matches Ok(s) && s@ == t,
            Err(e) => r == Err::<String, ExportError>(e),
        },
{
    let mut out = String::new();
    match export_circuit_to(ir, layout, opts, decimals, lib, &mut out) {
        Ok(()) => {
            assert(out@ =~= export_spec(*ir, layout, *opts, decimals@, lib@)->Ok_0);
            Ok(out)
        },
        Err(e) => Err(e),
    }
}

/// A basis gate, or one that a declared include defines, is never defined: no instruction that uses it writes a
/// definition, and a definition written before any instruction has that
/// instruction's own name.
pub proof fn lemma_basis_never_defined(ir: CircuitIR, opts: DumpOptions, lib: Seq<IncludeFile>, i: int)
    requires
        0 <= i < ir.instructions@.len(),
    ensures
        in_basis(opts, ir.instructions@[i].name@) ==> def_before(ir, opts, lib, i) is None,
        included(opts, lib, ir.instructions@[i].name@) is Some ==> def_before(ir, opts, lib, i) is None,
        def_before(ir, opts, lib, i) matches Some(d) ==> ir.definitions@[d as int].name@ == ir.instructions@[i].name@,
{
    if let Some(d) = def_before(ir, opts, lib, i) {
        lemma_find_def_named(ir.definitions@, ir.instructions@[i].name@, 0);
    }
}

proof fn lemma_find_def_named(defs: Seq<GateDefinition>, name: Seq<char>, i: nat)
    ensures
        find_def(defs, name, i) matches Some(d) ==> d < defs.len() && defs[d as int].name@ == name,
    decreases defs.len() - i,
{
    if i < defs.len() && defs[i as int].name@ != name {
        lemma_find_def_named(defs, name, i + 1);
    }
}

/// Each definition is written at most once: only on the first use of its name.
pub proof fn lemma_definition_once(ir: CircuitIR, opts: DumpOptions, lib: Seq<IncludeFile>, i: int, j: int)
    requires
        0 <= i < j < ir.instructions@.len(),
        ir.instructions@[i].name@ == ir.instructions@[j].name@,
    ensures
        def_before(ir, opts, lib, j) is None,
{
    assert(inst_names(ir)[i] == inst_names(ir)[j]);
    assert(seen_before(inst_names(ir), j));
}

/// Export is a function of the circuit's contents and the options: two
/// circuits with the same registers, instructions and definitions give the
/// same result.
pub proof fn lemma_export_deterministic(
    a: CircuitIR,
    b: CircuitIR,
    layout: bool,
    opts: DumpOptions,
    decimals: Seq<(Angle, String)>,
    lib: Seq<IncludeFile>,
)
    requires
        a.registers@ == b.registers@,
        a.instructions@ == b.instructions@,
        a.definitions@ == b.definitions@,
    ensures
        export_spec(a, layout, opts, decimals, lib) == export_spec(b, layout, opts, decimals, lib),
{
    assert(inst_names(a) == inst_names(b));
    assert forall|n: nat| n <= a.instructions@.len() implies #[trigger] stmts_text(a, layout, opts, decimals, lib, n)
        == stmts_text(b, layout, opts, decimals, lib, n) by {
        lemma_stmts_same(a, b, layout, opts, decimals, lib, n);
    }
}

proof fn lemma_stmts_same(a: CircuitIR, b: CircuitIR, layout: bool, opts: DumpOptions, decimals: Seq<(Angle, String)>, lib: Seq<IncludeFile>, n: nat)
    requires
        a.registers@ == b.registers@,
        a.instructions@ == b.instructions@,
        a.definitions@ == b.definitions@,
        n <= a.instructions@.len(),
    ensures
        stmts_text(a, layout, opts, decimals, lib, n) == stmts_text(b, layout, opts, decimals, lib, n),
    decreases n,
{
    assert(inst_names(a) == inst_names(b));
    if n > 0 {
        lemma_stmts_same(a, b, layout, opts, decimals, lib, (n - 1) as nat);
    }
}

/// One parameter as the exporter writes it.
pub fn format_parameter(opts: &DumpOptions, decimals: &Vec<(Angle, String)>, a: Angle) -> (r: Result<String, ExportErrorKind>)
    ensures
        match angle_text(*opts, decimals@, a) {
            Ok(t) => r matches Ok(s) && s@ == t,
            Err(e) => r == Err::<String, ExportErrorKind>(e),
        },
{
    let mut out = String::new();
    match push_angle(&mut out, opts, decimals, a) {
        Ok(()) => {
            assert(out@ =~= angle_text(*opts, decimals@, a)->Ok_0);
            Ok(out)
        },
        Err(e) => Err(e),
    }
}

} // verus!

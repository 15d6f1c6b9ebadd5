use qasm3::ast::{Call, GateSig, Index, QArg, Stmt};
use qasm3::builder::{build_circuit, BuildError, BuildErrorKind};
use qasm3::export::{
    export_circuit, format_parameter, standard_includes, DumpOptions, ExportError, ExportErrorKind, IncludeFile,
};
use qasm3::expr::{decimal_angle, fold, Expr, FoldError};
use qasm3::ir::{Angle, Bit, CircuitIR, Condition, DefOp, DefParam, GateDefinition, Instruction, Konst, Register};

fn s(x: &str) -> String {
    x.to_string()
}

fn slot(name: &str, k: usize) -> QArg {
    QArg::Slot { name: s(name), index: Index::At(k) }
}

fn call(name: &str, params: Vec<Expr>, args: Vec<QArg>) -> Call {
    Call { name: s(name), params, args }
}

fn sig(name: &str, num_params: usize, num_qubits: usize) -> GateSig {
    GateSig { name: s(name), num_params, num_qubits }
}

fn std_factory() -> Vec<GateSig> {
    vec![sig("h", 0, 1), sig("x", 0, 1), sig("cx", 0, 2), sig("rz", 1, 1)]
}

fn half_pi() -> Expr {
    Expr::Div(Box::new(Expr::Const(Konst::Pi)), Box::new(Expr::Lit(2)))
}

fn symbolic_opts() -> DumpOptions {
    let mut o = DumpOptions::default();
    o.disable_constants = false;
    o
}

fn qubits_of(c: &CircuitIR) -> Vec<Vec<Bit>> {
    c.instructions.iter().map(|i| i.qubits.clone()).collect()
}

fn bit(reg: usize, index: usize) -> Bit {
    Bit { reg, index }
}

fn build_err(prog: Vec<Stmt>) -> BuildError {
    match build_circuit(&prog, &std_factory()) {
        Ok(_) => panic!("build should fail"),
        Err(e) => e,
    }
}

#[test]
fn alias_slice_elements_resolve_to_register_slots() {
    let prog = vec![
        Stmt::Qubits { name: s("q"), size: 3 },
        Stmt::Alias { name: s("a"), target: s("q"), start: 1, end: 3 },
        Stmt::Apply(call("h", vec![], vec![slot("a", 0)])),
        Stmt::Apply(call("h", vec![], vec![slot("a", 1)])),
    ];
    let c = build_circuit(&prog, &std_factory()).unwrap();
    assert_eq!(qubits_of(&c), vec![vec![bit(0, 1)], vec![bit(0, 2)]]);
}

#[test]
fn alias_of_alias_resolves_through_the_chain() {
    let prog = vec![
        Stmt::Qubits { name: s("q"), size: 4 },
        Stmt::Alias { name: s("a"), target: s("q"), start: 1, end: 4 },
        Stmt::Alias { name: s("b"), target: s("a"), start: 1, end: 3 },
        Stmt::Apply(call("x", vec![], vec![slot("b", 1)])),
    ];
    let c = build_circuit(&prog, &std_factory()).unwrap();
    assert_eq!(qubits_of(&c), vec![vec![bit(0, 3)]]);
}

#[test]
fn alias_out_of_range_fails() {
    let e = build_err(vec![
        Stmt::Qubits { name: s("q"), size: 3 },
        Stmt::Alias { name: s("a"), target: s("q"), start: 1, end: 4 },
    ]);
    assert_eq!(e, BuildError { kind: BuildErrorKind::AliasRange, position: 1 });
}

#[test]
fn half_pi_sum_folds_to_pi() {
    let e = Expr::Add(Box::new(half_pi()), Box::new(half_pi()));
    let a = fold(&e, &vec![]).unwrap();
    assert_eq!(format_parameter(&symbolic_opts(), &vec![], a).unwrap(), "pi");
    let literal = format!("{}", std::f64::consts::PI);
    let table = vec![(a, literal.clone())];
    let text = format_parameter(&DumpOptions::default(), &table, a).unwrap();
    assert_eq!(text, literal);
    let v: f64 = text.parse().unwrap();
    assert!((v - std::f64::consts::PI).abs() < 1e-12);
}

#[test]
fn symbolic_forms_are_in_lowest_terms() {
    let o = symbolic_opts();
    let f = |num: i64, den: i64, konst: Konst| format_parameter(&o, &vec![], Angle { num, den, konst }).unwrap();
    assert_eq!(f(6, 8, Konst::Pi), "3*pi/4");
    assert_eq!(f(-2, 4, Konst::Pi), "-pi/2");
    assert_eq!(f(4, 2, Konst::Tau), "2*tau");
    assert_eq!(f(3, 6, Konst::One), "1/2");
    assert_eq!(f(-10, 5, Konst::One), "-2");
    assert_eq!(f(0, 7, Konst::Euler), "0");
    assert_eq!(f(1, 1, Konst::Euler), "euler");
}

#[test]
fn missing_decimal_literal_is_an_error() {
    let a = Angle { num: 1, den: 2, konst: Konst::Pi };
    assert_eq!(format_parameter(&DumpOptions::default(), &vec![], a), Err(ExportErrorKind::MissingLiteral));
}

#[test]
fn folding_errors() {
    let sym = Expr::Symbol(s("theta"));
    assert_eq!(fold(&sym, &vec![]), Err(FoldError::Unbound));
    let pi2 = Expr::Mul(Box::new(Expr::Const(Konst::Pi)), Box::new(Expr::Const(Konst::Pi)));
    assert_eq!(fold(&pi2, &vec![]), Err(FoldError::NotLinear));
    let mixed = Expr::Add(Box::new(Expr::Const(Konst::Pi)), Box::new(Expr::Lit(1)));
    assert_eq!(fold(&mixed, &vec![]), Err(FoldError::NotLinear));
    let z = Expr::Div(Box::new(Expr::Lit(1)), Box::new(Expr::Lit(0)));
    assert_eq!(fold(&z, &vec![]), Err(FoldError::DivByZero));
    let big = Expr::Neg(Box::new(Expr::Lit(i64::MIN)));
    assert_eq!(fold(&big, &vec![]), Err(FoldError::Overflow));
}

#[test]
fn folding_values() {
    let e = Expr::Sub(Box::new(Expr::Const(Konst::Pi)), Box::new(half_pi()));
    assert_eq!(fold(&e, &vec![]), Ok(Angle { num: 1, den: 2, konst: Konst::Pi }));
    let d = Expr::Div(Box::new(Expr::Lit(3)), Box::new(Expr::Lit(-6)));
    assert_eq!(fold(&d, &vec![]), Ok(Angle { num: -3, den: 6, konst: Konst::One }));
    let f = Expr::Mul(Box::new(Expr::Formal(0)), Box::new(Expr::Lit(2)));
    let env = vec![Angle { num: 1, den: 3, konst: Konst::Tau }];
    assert_eq!(fold(&f, &env), Ok(Angle { num: 2, den: 3, konst: Konst::Tau }));
}

#[test]
fn user_gate_expands_once_per_call() {
    let body = vec![
        call("h", vec![], vec![QArg::Formal(0)]),
        call("cx", vec![], vec![QArg::Formal(0), QArg::Formal(1)]),
    ];
    let prog = vec![
        Stmt::Qubits { name: s("q"), size: 4 },
        Stmt::Gate { name: s("g"), num_params: 0, num_qubits: 2, body },
        Stmt::Apply(call("g", vec![], vec![slot("q", 0), slot("q", 1)])),
        Stmt::Apply(call("g", vec![], vec![slot("q", 2), slot("q", 3)])),
        Stmt::Apply(call("g", vec![], vec![slot("q", 3), slot("q", 0)])),
    ];
    let c = build_circuit(&prog, &std_factory()).unwrap();
    assert_eq!(
        qubits_of(&c),
        vec![
            vec![bit(0, 0)],
            vec![bit(0, 0), bit(0, 1)],
            vec![bit(0, 2)],
            vec![bit(0, 2), bit(0, 3)],
            vec![bit(0, 3)],
            vec![bit(0, 3), bit(0, 0)],
        ]
    );
    let names: Vec<String> = c.instructions.iter().map(|i| i.name.clone()).collect();
    assert_eq!(names, vec!["h", "cx", "h", "cx", "h", "cx"]);
}

#[test]
fn user_gate_parameters_bind_per_call() {
    let body = vec![call("rz", vec![Expr::Mul(Box::new(Expr::Formal(0)), Box::new(Expr::Lit(2)))], vec![QArg::Formal(0)])];
    let prog = vec![
        Stmt::Qubits { name: s("q"), size: 1 },
        Stmt::Gate { name: s("twice"), num_params: 1, num_qubits: 1, body },
        Stmt::Apply(call("twice", vec![half_pi()], vec![slot("q", 0)])),
        Stmt::Apply(call("twice", vec![Expr::Lit(3)], vec![slot("q", 0)])),
    ];
    let c = build_circuit(&prog, &std_factory()).unwrap();
    assert_eq!(c.instructions[0].params, vec![Angle { num: 2, den: 2, konst: Konst::Pi }]);
    assert_eq!(c.instructions[1].params, vec![Angle { num: 6, den: 1, konst: Konst::One }]);
}

#[test]
fn for_loop_unrolls_in_order() {
    let prog = vec![
        Stmt::Qubits { name: s("q"), size: 3 },
        Stmt::For {
            start: Expr::Lit(0),
            end: Expr::Lit(3),
            body: vec![call("h", vec![], vec![QArg::Slot { name: s("q"), index: Index::Loop }])],
        },
    ];
    let c = build_circuit(&prog, &std_factory()).unwrap();
    assert_eq!(c.instructions.len(), 3);
    assert_eq!(qubits_of(&c), vec![vec![bit(0, 0)], vec![bit(0, 1)], vec![bit(0, 2)]]);
}

#[test]
fn for_loop_with_symbolic_bound_fails() {
    let e = build_err(vec![
        Stmt::Qubits { name: s("q"), size: 3 },
        Stmt::For { start: Expr::Lit(0), end: Expr::Symbol(s("n")), body: vec![] },
    ]);
    assert_eq!(e, BuildError { kind: BuildErrorKind::BadRange, position: 1 });
}

#[test]
fn empty_for_range_adds_nothing() {
    let prog = vec![
        Stmt::Qubits { name: s("q"), size: 3 },
        Stmt::For {
            start: Expr::Lit(2),
            end: Expr::Lit(1),
            body: vec![call("h", vec![], vec![QArg::Slot { name: s("q"), index: Index::Loop }])],
        },
    ];
    assert_eq!(build_circuit(&prog, &std_factory()).unwrap().instructions.len(), 0);
}

#[test]
fn if_lowers_to_conditioned_instructions() {
    let prog = vec![
        Stmt::Qubits { name: s("q"), size: 1 },
        Stmt::Bits { name: s("c"), size: 1 },
        Stmt::If { reg: s("c"), bit: None, value: 1, body: vec![call("x", vec![], vec![slot("q", 0)])] },
    ];
    let c = build_circuit(&prog, &std_factory()).unwrap();
    assert_eq!(c.instructions[0].condition, Some(Condition { reg: 1, bit: None, value: 1 }));
    let text = export_circuit(&c, false, &DumpOptions::default(), &vec![], &standard_includes()).unwrap();
    assert!(text.contains("if (c == 1) x q[0];\n"));
}

#[test]
fn if_on_quantum_register_fails() {
    let e = build_err(vec![
        Stmt::Qubits { name: s("q"), size: 1 },
        Stmt::If { reg: s("q"), bit: None, value: 1, body: vec![] },
    ]);
    assert_eq!(e, BuildError { kind: BuildErrorKind::BadCondition, position: 1 });
}

#[test]
fn while_is_rejected() {
    let e = build_err(vec![
        Stmt::Bits { name: s("c"), size: 1 },
        Stmt::While { reg: s("c"), value: 0, body: vec![] },
    ]);
    assert_eq!(e, BuildError { kind: BuildErrorKind::BadRange, position: 1 });
}

#[test]
fn undefined_gate_fails_the_build() {
    let e = build_err(vec![
        Stmt::Qubits { name: s("q"), size: 1 },
        Stmt::Apply(call("h", vec![], vec![slot("q", 0)])),
        Stmt::Apply(call("nope", vec![], vec![slot("q", 0)])),
        Stmt::Apply(call("h", vec![], vec![slot("q", 0)])),
    ]);
    assert_eq!(e, BuildError { kind: BuildErrorKind::UndefinedGate, position: 2 });
}

#[test]
fn other_build_errors() {
    let q = || Stmt::Qubits { name: s("q"), size: 2 };
    let e = build_err(vec![q(), Stmt::Apply(call("h", vec![], vec![slot("r", 0)]))]);
    assert_eq!(e.kind, BuildErrorKind::UndefinedName);
    let e = build_err(vec![q(), Stmt::Apply(call("cx", vec![], vec![slot("q", 0)]))]);
    assert_eq!(e.kind, BuildErrorKind::Arity);
    let e = build_err(vec![q(), Stmt::Apply(call("h", vec![], vec![slot("q", 2)]))]);
    assert_eq!(e.kind, BuildErrorKind::BadOperand);
    let e = build_err(vec![q(), Stmt::Apply(call("h", vec![], vec![QArg::Slot { name: s("q"), index: Index::Loop }]))]);
    assert_eq!(e.kind, BuildErrorKind::Unbound);
    let e = build_err(vec![q(), Stmt::Apply(call("rz", vec![Expr::Symbol(s("t"))], vec![slot("q", 0)]))]);
    assert_eq!(e.kind, BuildErrorKind::Param(FoldError::Unbound));
    let e = build_err(vec![
        q(),
        Stmt::Gate { name: s("g"), num_params: 0, num_qubits: 1, body: vec![call("h", vec![], vec![slot("q", 0)])] },
        Stmt::Apply(call("g", vec![], vec![slot("q", 0)])),
    ]);
    assert_eq!(e, BuildError { kind: BuildErrorKind::Unsupported, position: 2 });
}

#[test]
fn gate_cannot_call_itself() {
    let e = build_err(vec![
        Stmt::Qubits { name: s("q"), size: 1 },
        Stmt::Gate { name: s("loop"), num_params: 0, num_qubits: 1, body: vec![call("loop", vec![], vec![QArg::Formal(0)])] },
        Stmt::Apply(call("loop", vec![], vec![slot("q", 0)])),
    ]);
    assert_eq!(e, BuildError { kind: BuildErrorKind::UndefinedGate, position: 2 });
}

#[test]
fn later_declaration_shadows_earlier() {
    let prog = vec![
        Stmt::Qubits { name: s("q"), size: 1 },
        Stmt::Qubits { name: s("q"), size: 2 },
        Stmt::Apply(call("h", vec![], vec![slot("q", 1)])),
    ];
    let c = build_circuit(&prog, &std_factory()).unwrap();
    assert_eq!(qubits_of(&c), vec![vec![bit(1, 1)]]);
}

#[test]
fn empty_program_builds_empty_circuit() {
    let c = build_circuit(&vec![], &std_factory()).unwrap();
    assert!(c.registers.is_empty() && c.instructions.is_empty());
    let text = export_circuit(&c, false, &DumpOptions::default(), &vec![], &standard_includes()).unwrap();
    assert_eq!(text, "OPENQASM 3.0;\ninclude \"stdgates.inc\";\n");
}

#[test]
fn default_options() {
    let o = DumpOptions::default();
    assert_eq!(o.includes, vec![s("stdgates.inc")]);
    assert!(o.basis_gates.is_empty());
    assert!(o.disable_constants);
    assert!(!o.allow_aliasing);
    assert_eq!(o.indent, "  ");
}

fn reg(name: &str, size: usize, quantum: bool) -> Register {
    Register { name: s(name), size, quantum }
}

fn inst(name: &str, qubits: Vec<Bit>) -> Instruction {
    Instruction { name: s(name), qubits, clbits: vec![], params: vec![], condition: None }
}

fn foo_circuit() -> CircuitIR {
    CircuitIR {
        registers: vec![reg("q", 2, true)],
        instructions: vec![
            inst("foo", vec![bit(0, 0)]),
            inst("foo", vec![bit(0, 1)]),
            inst("foo", vec![bit(0, 0)]),
        ],
        definitions: vec![GateDefinition {
            name: s("foo"),
            num_params: 0,
            num_qubits: 1,
            body: vec![DefOp { name: s("h"), qubits: vec![0], params: vec![] }],
        }],
    }
}

#[test]
fn basis_gate_is_never_defined() {
    let mut o = DumpOptions::default();
    o.basis_gates = vec![s("foo")];
    let text = export_circuit(&foo_circuit(), false, &o, &vec![], &standard_includes()).unwrap();
    assert!(!text.contains("gate foo"));
    assert_eq!(text.matches("foo q[").count(), 3);
}

#[test]
fn custom_gate_is_defined_once_before_first_use() {
    let text = export_circuit(&foo_circuit(), false, &DumpOptions::default(), &vec![], &standard_includes()).unwrap();
    assert_eq!(
        text,
        "OPENQASM 3.0;\ninclude \"stdgates.inc\";\nqubit[2] q;\n\
         gate foo _gate_q_0 {\n  h _gate_q_0;\n}\nfoo q[0];\nfoo q[1];\nfoo q[0];\n"
    );
}

#[test]
fn export_is_deterministic() {
    let c = foo_circuit();
    let a = export_circuit(&c, false, &DumpOptions::default(), &vec![], &standard_includes()).unwrap();
    let b = export_circuit(&c, false, &DumpOptions::default(), &vec![], &standard_includes()).unwrap();
    assert_eq!(a, b);
}

#[test]
fn build_then_export_text() {
    let prog = vec![
        Stmt::Qubits { name: s("q"), size: 2 },
        Stmt::Bits { name: s("c"), size: 2 },
        Stmt::Apply(call("h", vec![], vec![slot("q", 0)])),
        Stmt::Apply(call("rz", vec![half_pi()], vec![slot("q", 1)])),
        Stmt::Apply(call("cx", vec![], vec![slot("q", 0), slot("q", 1)])),
        Stmt::Measure { qubit: slot("q", 0), bit: slot("c", 0) },
        Stmt::Reset(slot("q", 1)),
    ];
    let c = build_circuit(&prog, &std_factory()).unwrap();
    let mut o = symbolic_opts();
    o.includes = vec![s("stdgates.inc"), s("stdgates.inc")];
    let text = export_circuit(&c, false, &o, &vec![], &standard_includes()).unwrap();
    assert_eq!(
        text,
        "OPENQASM 3.0;\ninclude \"stdgates.inc\";\nqubit[2] q;\nbit[2] c;\n\
         h q[0];\nrz(pi/2) q[1];\ncx q[0], q[1];\nc[0] = measure q[0];\nreset q[1];\n"
    );
}

#[test]
fn layout_names_physical_qubits() {
    let c = CircuitIR {
        registers: vec![reg("a", 2, true), reg("c", 1, false), reg("b", 2, true)],
        instructions: vec![inst("cx", vec![bit(0, 1), bit(2, 1)])],
        definitions: vec![],
    };
    let text = export_circuit(&c, true, &DumpOptions::default(), &vec![], &standard_includes()).unwrap();
    assert_eq!(
        text,
        "OPENQASM 3.0;\ninclude \"stdgates.inc\";\nqubit[2] a;\nbit[1] c;\nqubit[2] b;\ncx $1, $3;\n"
    );
    let mut o = DumpOptions::default();
    o.allow_aliasing = true;
    let text = export_circuit(&c, true, &o, &vec![], &standard_includes()).unwrap();
    assert!(text.contains("cx a[1], b[1];\n"));
}

#[test]
fn export_errors_name_the_instruction() {
    let mut c = foo_circuit();
    c.instructions.push(inst("h", vec![bit(0, 5)]));
    let e = export_circuit(&c, false, &DumpOptions::default(), &vec![], &standard_includes());
    assert_eq!(e, Err(ExportError { kind: ExportErrorKind::BadOperand, index: 3 }));

    let mut c = foo_circuit();
    c.instructions[1].qubits.push(bit(0, 0));
    let e = export_circuit(&c, false, &DumpOptions::default(), &vec![], &standard_includes());
    assert_eq!(e, Err(ExportError { kind: ExportErrorKind::Arity, index: 1 }));

    let mut c = foo_circuit();
    c.definitions[0].body[0].qubits = vec![1];
    let e = export_circuit(&c, false, &DumpOptions::default(), &vec![], &standard_includes());
    assert_eq!(e, Err(ExportError { kind: ExportErrorKind::BadDefinition, index: 0 }));

    let mut c = foo_circuit();
    c.instructions.push(Instruction {
        name: s("rz"),
        qubits: vec![bit(0, 0)],
        clbits: vec![],
        params: vec![Angle { num: 1, den: 2, konst: Konst::Pi }],
        condition: None,
    });
    let e = export_circuit(&c, false, &DumpOptions::default(), &vec![], &standard_includes());
    assert_eq!(e, Err(ExportError { kind: ExportErrorKind::MissingLiteral, index: 3 }));

    let c = CircuitIR {
        registers: vec![reg("a", usize::MAX, true), reg("b", usize::MAX, true)],
        instructions: vec![inst("x", vec![bit(1, 1)])],
        definitions: vec![],
    };
    let e = export_circuit(&c, true, &DumpOptions::default(), &vec![], &standard_includes());
    assert_eq!(e, Err(ExportError { kind: ExportErrorKind::BadLayout, index: 0 }));
}

#[test]
fn barrier_builds_and_exports() {
    let prog = vec![
        Stmt::Qubits { name: s("q"), size: 2 },
        Stmt::Barrier(vec![slot("q", 0), slot("q", 1)]),
    ];
    let c = build_circuit(&prog, &std_factory()).unwrap();
    assert_eq!(qubits_of(&c), vec![vec![bit(0, 0), bit(0, 1)]]);
    let text = export_circuit(&c, false, &DumpOptions::default(), &vec![], &standard_includes()).unwrap();
    assert!(text.ends_with("qubit[2] q;\nbarrier q[0], q[1];\n"));
}

fn h_circuit() -> CircuitIR {
    CircuitIR {
        registers: vec![reg("q", 1, true)],
        instructions: vec![inst("h", vec![bit(0, 0)]), inst("h", vec![bit(0, 0)])],
        definitions: vec![GateDefinition {
            name: s("h"),
            num_params: 0,
            num_qubits: 1,
            body: vec![DefOp { name: s("u2"), qubits: vec![0], params: vec![] }],
        }],
    }
}

#[test]
fn included_gate_is_never_redefined() {
    let text = export_circuit(&h_circuit(), false, &DumpOptions::default(), &vec![], &standard_includes()).unwrap();
    assert!(!text.contains("gate h"));
    assert!(text.ends_with("qubit[1] q;\nh q[0];\nh q[0];\n"));
}

#[test]
fn gate_is_defined_when_its_include_is_not_declared() {
    let mut o = DumpOptions::default();
    o.includes = vec![];
    let text = export_circuit(&h_circuit(), false, &o, &vec![], &standard_includes()).unwrap();
    assert_eq!(text.matches("gate h _gate_q_0 {").count(), 1);
}

#[test]
fn included_gate_arity_is_checked() {
    let c = CircuitIR {
        registers: vec![reg("q", 2, true)],
        instructions: vec![inst("h", vec![bit(0, 0)]), inst("cx", vec![bit(0, 0)])],
        definitions: vec![],
    };
    let e = export_circuit(&c, false, &DumpOptions::default(), &vec![], &standard_includes());
    assert_eq!(e, Err(ExportError { kind: ExportErrorKind::Arity, index: 1 }));
    let lib = vec![IncludeFile { name: s("other.inc"), gates: vec![sig("cx", 0, 1)] }];
    let e = export_circuit(&c, false, &DumpOptions::default(), &vec![], &lib);
    assert_eq!(e, Err(ExportError { kind: ExportErrorKind::UndefinedGate, index: 0 }));
    let mut o = DumpOptions::default();
    o.includes = vec![s("other.inc")];
    let c = CircuitIR { instructions: vec![inst("cx", vec![bit(0, 0)])], ..c };
    let text = export_circuit(&c, false, &o, &vec![], &lib).unwrap();
    assert!(text.ends_with("cx q[0];\n"));
}

#[test]
fn layout_still_declares_every_register() {
    let c = CircuitIR {
        registers: vec![reg("q", 1, true)],
        instructions: vec![],
        definitions: vec![],
    };
    let text = export_circuit(&c, true, &DumpOptions::default(), &vec![], &standard_includes()).unwrap();
    assert_eq!(text, "OPENQASM 3.0;\ninclude \"stdgates.inc\";\nqubit[1] q;\n");
}

#[test]
fn loop_bound_may_be_an_exact_quotient() {
    let prog = vec![
        Stmt::Qubits { name: s("q"), size: 2 },
        Stmt::For {
            start: Expr::Lit(0),
            end: Expr::Div(Box::new(Expr::Lit(4)), Box::new(Expr::Lit(2))),
            body: vec![call("h", vec![], vec![QArg::Slot { name: s("q"), index: Index::Loop }])],
        },
    ];
    let c = build_circuit(&prog, &std_factory()).unwrap();
    assert_eq!(qubits_of(&c), vec![vec![bit(0, 0)], vec![bit(0, 1)]]);
    let e = build_err(vec![
        Stmt::Qubits { name: s("q"), size: 2 },
        Stmt::For { start: Expr::Lit(0), end: Expr::Div(Box::new(Expr::Lit(3)), Box::new(Expr::Lit(2))), body: vec![] },
    ]);
    assert_eq!(e, BuildError { kind: BuildErrorKind::BadRange, position: 1 });
}

#[test]
fn built_circuit_has_no_definitions() {
    let prog = vec![
        Stmt::Qubits { name: s("q"), size: 1 },
        Stmt::Gate { name: s("g"), num_params: 0, num_qubits: 1, body: vec![call("h", vec![], vec![QArg::Formal(0)])] },
        Stmt::Apply(call("g", vec![], vec![slot("q", 0)])),
    ];
    assert!(build_circuit(&prog, &std_factory()).unwrap().definitions.is_empty());
}

#[test]
fn negative_loop_start_is_accepted_when_unused_as_index() {
    let prog = vec![
        Stmt::Qubits { name: s("q"), size: 1 },
        Stmt::For { start: Expr::Lit(-2), end: Expr::Lit(1), body: vec![call("x", vec![], vec![slot("q", 0)])] },
    ];
    assert_eq!(build_circuit(&prog, &std_factory()).unwrap().instructions.len(), 3);
    let e = build_err(vec![
        Stmt::Qubits { name: s("q"), size: 1 },
        Stmt::For {
            start: Expr::Lit(-1),
            end: Expr::Lit(1),
            body: vec![call("x", vec![], vec![QArg::Slot { name: s("q"), index: Index::Loop }])],
        },
    ]);
    assert_eq!(e, BuildError { kind: BuildErrorKind::BadOperand, position: 1 });
}

#[test]
fn decimal_literals_read_exactly() {
    assert_eq!(decimal_angle("0.25"), Some(Angle { num: 25, den: 100, konst: Konst::One }));
    assert_eq!(decimal_angle("3."), Some(Angle { num: 3, den: 1, konst: Konst::One }));
    assert_eq!(decimal_angle(".5"), Some(Angle { num: 5, den: 10, konst: Konst::One }));
    assert_eq!(decimal_angle("12"), Some(Angle { num: 12, den: 1, konst: Konst::One }));
    assert_eq!(decimal_angle(""), None);
    assert_eq!(decimal_angle("."), None);
    assert_eq!(decimal_angle("1.2.3"), None);
    assert_eq!(decimal_angle("1e3"), None);
    assert_eq!(decimal_angle("99999999999999999999"), None);
}

#[test]
fn if_on_single_bit() {
    let prog = vec![
        Stmt::Qubits { name: s("q"), size: 1 },
        Stmt::Bits { name: s("c"), size: 2 },
        Stmt::If { reg: s("c"), bit: Some(1), value: 0, body: vec![call("x", vec![], vec![slot("q", 0)])] },
    ];
    let c = build_circuit(&prog, &std_factory()).unwrap();
    assert_eq!(c.instructions[0].condition, Some(Condition { reg: 1, bit: Some(1), value: 0 }));
    let text = export_circuit(&c, false, &DumpOptions::default(), &vec![], &standard_includes()).unwrap();
    assert!(text.ends_with("if (c[1] == 0) x q[0];\n"));
    let e = build_err(vec![
        Stmt::Bits { name: s("c"), size: 2 },
        Stmt::If { reg: s("c"), bit: Some(2), value: 0, body: vec![] },
    ]);
    assert_eq!(e, BuildError { kind: BuildErrorKind::BadCondition, position: 1 });
}

#[test]
fn undefined_custom_gate_is_an_export_error() {
    let mut c = foo_circuit();
    c.definitions.clear();
    let e = export_circuit(&c, false, &DumpOptions::default(), &vec![], &standard_includes());
    assert_eq!(e, Err(ExportError { kind: ExportErrorKind::UndefinedGate, index: 0 }));
}

#[test]
fn parameterised_definition_is_written_with_its_formals() {
    let pi2 = Angle { num: 1, den: 2, konst: Konst::Pi };
    let c = CircuitIR {
        registers: vec![reg("q", 1, true)],
        instructions: vec![Instruction {
            name: s("wob"),
            qubits: vec![bit(0, 0)],
            clbits: vec![],
            params: vec![pi2],
            condition: None,
        }],
        definitions: vec![GateDefinition {
            name: s("wob"),
            num_params: 1,
            num_qubits: 1,
            body: vec![
                DefOp { name: s("rz"), qubits: vec![0], params: vec![DefParam::Formal(0)] },
                DefOp { name: s("rx"), qubits: vec![0], params: vec![DefParam::Value(pi2)] },
            ],
        }],
    };
    let text = export_circuit(&c, false, &symbolic_opts(), &vec![], &standard_includes()).unwrap();
    assert!(text.ends_with(
        "gate wob(_gate_p_0) _gate_q_0 {\n  rz(_gate_p_0) _gate_q_0;\n  rx(pi/2) _gate_q_0;\n}\nwob(pi/2) q[0];\n"
    ));
    let mut bad = c.clone();
    bad.definitions[0].body[0].params = vec![DefParam::Formal(1)];
    let e = export_circuit(&bad, false, &symbolic_opts(), &vec![], &standard_includes());
    assert_eq!(e, Err(ExportError { kind: ExportErrorKind::BadDefinition, index: 0 }));
}

#[test]
fn folded_pi_exports_symbolically_or_as_literal() {
    let prog = vec![
        Stmt::Qubits { name: s("q"), size: 1 },
        Stmt::Apply(call("rz", vec![Expr::Add(Box::new(half_pi()), Box::new(half_pi()))], vec![slot("q", 0)])),
    ];
    let c = build_circuit(&prog, &std_factory()).unwrap();
    let text = export_circuit(&c, false, &symbolic_opts(), &vec![], &standard_includes()).unwrap();
    assert!(text.ends_with("rz(pi) q[0];\n"));
    let a = c.instructions[0].params[0];
    let literal = format!("{}", std::f64::consts::PI);
    let text = export_circuit(&c, false, &DumpOptions::default(), &vec![(a, literal)], &standard_includes()).unwrap();
    assert!(text.ends_with("rz(3.141592653589793) q[0];\n"));
}

#[test]
fn standard_includes_lists_stdgates() {
    let lib = standard_includes();
    assert_eq!(lib.len(), 1);
    assert_eq!(lib[0].name, "stdgates.inc");
    assert_eq!(lib[0].gates.len(), 32);
    let rz = lib[0].gates.iter().find(|g| g.name == "rz").unwrap();
    assert_eq!((rz.num_params, rz.num_qubits), (1, 1));
}

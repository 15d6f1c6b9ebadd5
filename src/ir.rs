//! The circuit representation shared by the builder and the exporter.
use vstd::prelude::*;

verus! {

/// A reference to one slot of a register: the register's position in the
/// circuit and the slot's position in the register.
#[derive(Clone, Copy, PartialEq, Eq, Structural, Debug)]
pub struct Bit {
    pub reg: usize,
    pub index: usize,
}

/// A named register of fixed size, quantum or classical.
#[derive(Clone, Debug)]
pub struct Register {
    pub name: String,
    pub size: usize,
    pub quantum: bool,
}

/// A classical guard: the instruction runs when the classical register
/// `reg`, or its single bit `bit` where one is named, holds `value`.
#[derive(Clone, Copy, PartialEq, Eq, Structural, Debug)]
pub struct Condition {
    pub reg: usize,
    pub bit: Option<usize>,
    pub value: u64,
}

/// The named constants a parameter may be a rational multiple of.
#[derive(Clone, Copy, PartialEq, Eq, Structural, Debug)]
pub enum Konst {
    One,
    Pi,
    Tau,
    Euler,
}

/// A folded gate parameter: `num / den` times a named constant, `den > 0`.
#[derive(Clone, Copy, PartialEq, Eq, Structural, Debug)]
pub struct Angle {
    pub num: i64,
    pub den: i64,
    pub konst: Konst,
}

/// One operation of the circuit.
#[derive(Clone, Debug)]
pub struct Instruction {
    pub name: String,
    pub qubits: Vec<Bit>,
    pub clbits: Vec<Bit>,
    pub params: Vec<Angle>,
    pub condition: Option<Condition>,
}

/// A parameter of a body operation: a folded value, or one of the
/// definition's formal parameters by position.
#[derive(Clone, Copy, PartialEq, Eq, Structural, Debug)]
pub enum DefParam {
    Value(Angle),
    Formal(usize),
}

/// A register-free gate body over formal qubits `0 .. num_qubits` and formal
/// parameters `0 .. num_params`.
#[derive(Clone, Debug)]
pub struct DefOp {
    pub name: String,
    pub qubits: Vec<usize>,
    pub params: Vec<DefParam>,
}

/// A definition for a custom operation, neither primitive nor included.
#[derive(Clone, Debug)]
pub struct GateDefinition {
    pub name: String,
    pub num_params: usize,
    pub num_qubits: usize,
    pub body: Vec<DefOp>,
}

/// Registers in declaration order, instructions in execution order, and the
/// definitions of the custom gates that the instructions may use.
#[derive(Clone, Debug)]
pub struct CircuitIR {
    pub registers: Vec<Register>,
    pub instructions: Vec<Instruction>,
    pub definitions: Vec<GateDefinition>,
}

/// What the contracts read of a register.
pub ghost struct RegView {
    pub name: Seq<char>,
    pub size: nat,
    pub quantum: bool,
}

pub open spec fn reg_view(r: Register) -> RegView {
    RegView { name: r.name@, size: r.size as nat, quantum: r.quantum }
}

pub open spec fn reg_views(s: Seq<Register>) -> Seq<RegView> {
    s.map_values(|r: Register| reg_view(r))
}

/// What the contracts read of an instruction.
pub ghost struct InstView {
    pub name: Seq<char>,
    pub qubits: Seq<Bit>,
    pub clbits: Seq<Bit>,
    pub params: Seq<Angle>,
    pub condition: Option<Condition>,
}

pub open spec fn inst_view(i: Instruction) -> InstView {
    InstView {
        name: i.name@,
        qubits: i.qubits@,
        clbits: i.clbits@,
        params: i.params@,
        condition: i.condition,
    }
}

pub open spec fn inst_views(s: Seq<Instruction>) -> Seq<InstView> {
    s.map_values(|i: Instruction| inst_view(i))
}

/// `b` names an existing slot of a register of the given kind.
pub open spec fn bit_valid(regs: Seq<RegView>, b: Bit, quantum: bool) -> bool {
    &&& b.reg < regs.len()
    &&& regs[b.reg as int].quantum == quantum
    &&& b.index < regs[b.reg as int].size
}

pub open spec fn condition_valid(regs: Seq<RegView>, c: Option<Condition>) -> bool {
    match c {
        Some(c) => c.reg < regs.len() && !regs[c.reg as int].quantum && match c.bit {
            Some(b) => b < regs[c.reg as int].size,
            None => true,
        },
        None => true,
    }
}

pub open spec fn angle_valid(a: Angle) -> bool {
    a.den > 0
}

/// Every operand of `inst` resolves to a slot of a register of `regs`.
pub open spec fn inst_valid(regs: Seq<RegView>, inst: InstView) -> bool {
    &&& forall|k: int| 0 <= k < inst.qubits.len() ==> bit_valid(regs, #[trigger] inst.qubits[k], true)
    &&& forall|k: int| 0 <= k < inst.clbits.len() ==> bit_valid(regs, #[trigger] inst.clbits[k], false)
    &&& forall|k: int| 0 <= k < inst.params.len() ==> angle_valid(#[trigger] inst.params[k])
    &&& condition_valid(regs, inst.condition)
}

pub open spec fn instruction_valid(regs: Seq<RegView>, inst: Instruction) -> bool {
    inst_valid(regs, inst_view(inst))
}

/// Adding a register keeps every valid instruction valid.
pub proof fn lemma_valid_grow(regs: Seq<RegView>, r: RegView, inst: InstView)
    requires
        inst_valid(regs, inst),
    ensures
        inst_valid(regs.push(r), inst),
{
    assert forall|k: int| 0 <= k < inst.qubits.len() implies bit_valid(regs.push(r), #[trigger] inst.qubits[k], true) by {
        assert(bit_valid(regs, inst.qubits[k], true));
    }
    assert forall|k: int| 0 <= k < inst.clbits.len() implies bit_valid(regs.push(r), #[trigger] inst.clbits[k], false) by {
        assert(bit_valid(regs, inst.clbits[k], false));
    }
}

impl CircuitIR {
    pub open spec fn wf(&self) -> bool {
        forall|i: int|
            0 <= i < self.instructions@.len() ==> instruction_valid(
                reg_views(self.registers@),
                #[trigger] self.instructions@[i],
            )
    }

    /// A circuit with no register, instruction or definition.
    pub fn new() -> (r: CircuitIR)
        ensures
            r.registers@.len() == 0,
            r.instructions@.len() == 0,
            r.definitions@.len() == 0,
            r.wf(),
    {
        CircuitIR { registers: Vec::new(), instructions: Vec::new(), definitions: Vec::new() }
    }

    /// Appends a register; it gets the next position.
    pub fn add_register(&mut self, reg: Register)
        requires
            old(self).wf(),
        ensures
            final(self).registers@ == old(self).registers@.push(reg),
            final(self).instructions@ == old(self).instructions@,
            final(self).definitions@ == old(self).definitions@,
            final(self).wf(),
    {
        self.registers.push(reg);
        assert(reg_views(self.registers@) =~= reg_views(old(self).registers@).push(reg_view(reg)));
        assert forall|i: int| 0 <= i < self.instructions@.len() implies instruction_valid(
            reg_views(self.registers@),
            #[trigger] self.instructions@[i],
        ) by {
            lemma_valid_grow(reg_views(old(self).registers@), reg_view(reg), inst_view(self.instructions@[i]));
        }
    }

    /// Tests one operand against the registers.
    pub fn check_bit(&self, b: Bit, quantum: bool) -> (r: bool)
        ensures
            r == bit_valid(reg_views(self.registers@), b, quantum),
    {
        b.reg < self.registers.len() && self.registers[b.reg].quantum == quantum
            && b.index < self.registers[b.reg].size
    }

    /// Tests every operand of `inst` against the registers.
    pub fn check_instruction(&self, inst: &Instruction) -> (r: bool)
        ensures
            r == instruction_valid(reg_views(self.registers@), *inst),
    {
        let mut k: usize = 0;
        while k < inst.qubits.len()
            invariant
                k <= inst.qubits@.len(),
                forall|j: int| 0 <= j < k ==> bit_valid(reg_views(self.registers@), #[trigger] inst.qubits@[j], true),
            decreases inst.qubits@.len() - k,
        {
            if !self.check_bit(inst.qubits[k], true) {
                assert(inst_view(*inst).qubits[k as int] == inst.qubits@[k as int]);
                return false;
            }
            k = k + 1;
        }
        let mut k: usize = 0;
        while k < inst.clbits.len()
            invariant
                k <= inst.clbits@.len(),
                forall|j: int| 0 <= j < k ==> bit_valid(reg_views(self.registers@), #[trigger] inst.clbits@[j], false),
            decreases inst.clbits@.len() - k,
        {
            if !self.check_bit(inst.clbits[k], false) {
                assert(inst_view(*inst).clbits[k as int] == inst.clbits@[k as int]);
                return false;
            }
            k = k + 1;
        }
        let mut k: usize = 0;
        while k < inst.params.len()
            invariant
                k <= inst.params@.len(),
                forall|j: int| 0 <= j < k ==> angle_valid(#[trigger] inst.params@[j]),
            decreases inst.params@.len() - k,
        {
            if inst.params[k].den <= 0 {
                assert(inst_view(*inst).params[k as int] == inst.params@[k as int]);
                return false;
            }
            k = k + 1;
        }
        match inst.condition {
            Some(c) => c.reg < self.registers.len() && !self.registers[c.reg].quantum && match c.bit {
                Some(b) => b < self.registers[c.reg].size,
                None => true,
            },
            None => true,
        }
    }

    /// Appends an instruction after checking every operand eagerly; on a bad
    /// operand the circuit is left as it was.
    pub fn push_instruction(&mut self, inst: Instruction) -> (r: bool)
        requires
            old(self).wf(),
        ensures
            r == instruction_valid(reg_views(old(self).registers@), inst),
            r ==> final(self).instructions@ == old(self).instructions@.push(inst),
            !r ==> final(self).instructions@ == old(self).instructions@,
            final(self).registers@ == old(self).registers@,
            final(self).definitions@ == old(self).definitions@,
            final(self).wf(),
    {
        if self.check_instruction(&inst) {
            self.instructions.push(inst);
            assert forall|i: int| 0 <= i < self.instructions@.len() implies instruction_valid(
                reg_views(self.registers@),
                #[trigger] self.instructions@[i],
            ) by {
                if i < old(self).instructions@.len() {
                    assert(self.instructions@[i] == old(self).instructions@[i]);
                }
            }
            true
        } else {
            false
        }
    }

    /// Appends all of `insts` if every operand of every one is valid, else
    /// none of them.
    pub fn append_all(&mut self, insts: &mut Vec<Instruction>) -> (r: bool)
        requires
            old(self).wf(),
        ensures
            r == forall|i: int|
                0 <= i < old(insts)@.len() ==> instruction_valid(
                    reg_views(old(self).registers@),
                    #[trigger] old(insts)@[i],
                ),
            r ==> final(self).instructions@ == old(self).instructions@ + old(insts)@,
            !r ==> final(self).instructions@ == old(self).instructions@,
            final(self).registers@ == old(self).registers@,
            final(self).definitions@ == old(self).definitions@,
            final(self).wf(),
    {
        let mut k: usize = 0;
        while k < insts.len()
            invariant
                k <= insts@.len(),
                self.wf(),
                *self == *old(self),
                insts@ == old(insts)@,
                forall|j: int| 0 <= j < k ==> instruction_valid(reg_views(self.registers@), #[trigger] insts@[j]),
            decreases insts@.len() - k,
        {
            if !self.check_instruction(&insts[k]) {
                return false;
            }
            k = k + 1;
        }
        let ghost before = self.instructions@;
        self.instructions.append(insts);
        assert forall|i: int| 0 <= i < self.instructions@.len() implies instruction_valid(
            reg_views(self.registers@),
            #[trigger] self.instructions@[i],
        ) by {
            if i >= before.len() {
                assert(self.instructions@[i] == old(insts)@[i - before.len()]);
            }
        }
        true
    }
}

} // verus!

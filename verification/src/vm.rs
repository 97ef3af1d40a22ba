//! The virtual machine: a fetch-execute loop around an optional state.
//! `None` is global failure (the search space is exhausted); otherwise the
//! machine holds the current branch's state.
//!
//! Each step fetches the instruction at the current program counter and
//! executes it; control-flow instructions set the counter to the
//! instruction to execute next.  Runtime invariant violations (operand
//! stack underflow, bad jump targets, unknown predicates or built-ins,
//! exhausted machine counters) abort the run with a diagnostic naming the
//! current predicate and program counter.

use vstd::prelude::*;

use crate::ast_common::{Pred, PredSig, PredV};
use crate::builtins::{render_term, BuiltIns};
use crate::domains::{
    statev_wf, view_cps, Checkpoint, CheckpointV, LocalV, State, StateV,
};
use crate::ir::{prog_code, InsnV, Insn, Program, ProgramV, TermV, Value};
use crate::unification::{gunion_n, GUnionResult, UnionResult, UNION_FUEL};

verus! {

/// A fatal runtime fault: the kind, and the predicate and program counter
/// it happened at.
#[derive(Debug, PartialEq, Eq)]
pub enum VmError {
    /// The current predicate has no code.
    UnknownPredicate(PredSig, usize),
    /// The program counter does not address an instruction.
    PcOutOfRange(PredSig, usize),
    /// A checkpoint or jump target lies outside the predicate's code.
    InvalidTarget(PredSig, usize),
    /// An instruction needed more operand-stack values than there are.
    StackUnderflow(PredSig, usize),
    /// A `Load` read a local slot never stored to.
    MissingLocal(PredSig, usize),
    /// A called system predicate is not registered.
    MissingBuiltin(PredSig, usize),
    /// A machine counter (fresh variables, frame depth) is spent.
    CounterOverflow(PredSig, usize),
    /// Unification exceeded the machine recursion budget.
    UnificationDepth(PredSig, usize),
    /// The run exceeded the machine step budget.
    StepLimit(PredSig, usize),
}

/// Mathematical picture of a fatal runtime fault.
pub enum VmErrorV {
    UnknownPredicate((PredV, int), int),
    PcOutOfRange((PredV, int), int),
    InvalidTarget((PredV, int), int),
    StackUnderflow((PredV, int), int),
    MissingLocal((PredV, int), int),
    MissingBuiltin((PredV, int), int),
    CounterOverflow((PredV, int), int),
    UnificationDepth((PredV, int), int),
    StepLimit((PredV, int), int),
}

impl View for VmError {
    type V = VmErrorV;

    open spec fn view(&self) -> VmErrorV {
        match self {
            VmError::UnknownPredicate(s, pc) => VmErrorV::UnknownPredicate(s@, *pc as int),
            VmError::PcOutOfRange(s, pc) => VmErrorV::PcOutOfRange(s@, *pc as int),
            VmError::InvalidTarget(s, pc) => VmErrorV::InvalidTarget(s@, *pc as int),
            VmError::StackUnderflow(s, pc) => VmErrorV::StackUnderflow(s@, *pc as int),
            VmError::MissingLocal(s, pc) => VmErrorV::MissingLocal(s@, *pc as int),
            VmError::MissingBuiltin(s, pc) => VmErrorV::MissingBuiltin(s@, *pc as int),
            VmError::CounterOverflow(s, pc) => VmErrorV::CounterOverflow(s@, *pc as int),
            VmError::UnificationDepth(s, pc) => VmErrorV::UnificationDepth(s@, *pc as int),
            VmError::StepLimit(s, pc) => VmErrorV::StepLimit(s@, *pc as int),
        }
    }
}

/// A saturating increment at the machine bound.
pub open spec fn bump64(c: int) -> int {
    if c >= u64::MAX {
        c
    } else {
        c + 1
    }
}

/// Pop choice points down to — excluding — the first labelled `key`.
pub open spec fn det_pop(cps: Seq<CheckpointV>, key: (int, int)) -> Seq<CheckpointV>
    decreases cps.len(),
{
    if cps.len() == 0 {
        cps
    } else if cps.last().label == key {
        cps
    } else {
        det_pop(cps.drop_last(), key)
    }
}

/// Pop choice points down to — including — the first labelled `key`.
pub open spec fn det_until(cps: Seq<CheckpointV>, key: (int, int)) -> Seq<CheckpointV> {
    let d = det_pop(cps, key);
    if d.len() > 0 && d.last().label == key {
        d.drop_last()
    } else {
        d
    }
}

/// The state after restoring the most recent choice point, or global
/// failure if none is left.
pub open spec fn backtrack_spec(s: StateV) -> Option<StateV> {
    if s.cps.len() == 0 {
        Option::None
    } else {
        Option::Some(
            StateV {
                local: s.cps.last().local,
                bindings: s.cps.last().bindings,
                pc: s.cps.last().pc,
                calls: s.cps.last().calls,
                cps: s.cps.drop_last(),
                ..s
            },
        )
    }
}

/// One machine step: the full transition relation of the instruction set.
pub open spec fn step_spec(p: ProgramV, s: StateV) -> Result<Option<StateV>, VmErrorV> {
    if prog_code(p, s.local.pred) is None {
        Result::Err(VmErrorV::UnknownPredicate(s.local.pred, s.pc))
    } else {
        let code = prog_code(p, s.local.pred)->Some_0;
        if !(0 <= s.pc < code.len()) {
            Result::Err(VmErrorV::PcOutOfRange(s.local.pred, s.pc))
        } else {
            match code[s.pc] {
                InsnV::PushValue(v) => Result::Ok(
                    Option::Some(
                        StateV {
                            local: LocalV { op: s.local.op.push(v), ..s.local },
                            pc: s.pc + 1,
                            ..s
                        },
                    ),
                ),
                InsnV::Pop => if s.local.op.len() >= 1 {
                    Result::Ok(
                        Option::Some(
                            StateV {
                                local: LocalV { op: s.local.op.drop_last(), ..s.local },
                                pc: s.pc + 1,
                                ..s
                            },
                        ),
                    )
                } else {
                    Result::Err(VmErrorV::StackUnderflow(s.local.pred, s.pc))
                },
                InsnV::Dup => if s.local.op.len() >= 1 {
                    Result::Ok(
                        Option::Some(
                            StateV {
                                local: LocalV { op: s.local.op.push(s.local.op.last()), ..s.local },
                                pc: s.pc + 1,
                                ..s
                            },
                        ),
                    )
                } else {
                    Result::Err(VmErrorV::StackUnderflow(s.local.pred, s.pc))
                },
                InsnV::Fresh => if s.gen_idx < u64::MAX {
                    Result::Ok(
                        Option::Some(
                            StateV {
                                local: LocalV {
                                    op: s.local.op.push(TermV::LV(s.gen_idx + 1)),
                                    ..s.local
                                },
                                gen_idx: s.gen_idx + 1,
                                pc: s.pc + 1,
                                ..s
                            },
                        ),
                    )
                } else {
                    Result::Err(VmErrorV::CounterOverflow(s.local.pred, s.pc))
                },
                InsnV::Load(x) => if s.local.locals.dom().contains(x) {
                    Result::Ok(
                        Option::Some(
                            StateV {
                                local: LocalV {
                                    op: s.local.op.push(s.local.locals[x]),
                                    ..s.local
                                },
                                pc: s.pc + 1,
                                ..s
                            },
                        ),
                    )
                } else {
                    Result::Err(VmErrorV::MissingLocal(s.local.pred, s.pc))
                },
                InsnV::Store(x) => if s.local.op.len() >= 1 {
                    Result::Ok(
                        Option::Some(
                            StateV {
                                local: LocalV {
                                    locals: s.local.locals.insert(x, s.local.op.last()),
                                    op: s.local.op.drop_last(),
                                    ..s.local
                                },
                                pc: s.pc + 1,
                                ..s
                            },
                        ),
                    )
                } else {
                    Result::Err(VmErrorV::StackUnderflow(s.local.pred, s.pc))
                },
                InsnV::Construct(f, k) => if 0 <= k <= s.local.op.len() {
                    Result::Ok(
                        Option::Some(
                            StateV {
                                local: LocalV {
                                    op: s.local.op.take(s.local.op.len() - k).push(
                                        TermV::Ctor(f, s.local.op.skip(s.local.op.len() - k)),
                                    ),
                                    ..s.local
                                },
                                pc: s.pc + 1,
                                ..s
                            },
                        ),
                    )
                } else {
                    Result::Err(VmErrorV::StackUnderflow(s.local.pred, s.pc))
                },
                InsnV::Unify => if s.local.op.len() >= 2 {
                    let y = s.local.op.last();
                    let x = s.local.op.drop_last().last();
                    let rest = s.local.op.drop_last().drop_last();
                    match gunion_n(s.bindings, x, y, UNION_FUEL as nat) {
                        GUnionResult::Unified(g2) => Result::Ok(
                            Option::Some(
                                StateV {
                                    local: LocalV { op: rest, ..s.local },
                                    bindings: g2,
                                    unify_count: bump64(s.unify_count),
                                    pc: s.pc + 1,
                                    ..s
                                },
                            ),
                        ),
                        GUnionResult::Failed => Result::Ok(backtrack_spec(s)),
                        GUnionResult::Exhausted => Result::Err(
                            VmErrorV::UnificationDepth(s.local.pred, s.pc),
                        ),
                    }
                } else {
                    Result::Err(VmErrorV::StackUnderflow(s.local.pred, s.pc))
                },
                InsnV::MkCheckpoint(l, d) => if 0 <= s.pc + d < code.len() {
                    Result::Ok(
                        Option::Some(
                            StateV {
                                cps: s.cps.push(
                                    CheckpointV {
                                        label: (s.local.depth, l),
                                        local: s.local,
                                        bindings: s.bindings,
                                        pc: s.pc + d,
                                        calls: s.calls,
                                    },
                                ),
                                pc: s.pc + 1,
                                ..s
                            },
                        ),
                    )
                } else {
                    Result::Err(VmErrorV::InvalidTarget(s.local.pred, s.pc))
                },
                InsnV::Jump(d) => if 0 <= s.pc + d < code.len() {
                    Result::Ok(Option::Some(StateV { pc: s.pc + d, ..s }))
                } else {
                    Result::Err(VmErrorV::InvalidTarget(s.local.pred, s.pc))
                },
                InsnV::Call(sig) => match sig.0 {
                    PredV::User(name) => if s.local.depth < u64::MAX {
                        Result::Ok(
                            Option::Some(
                                StateV {
                                    local: LocalV {
                                        locals: Map::<int, TermV>::empty(),
                                        op: s.local.op,
                                        pred: sig,
                                        depth: s.local.depth + 1,
                                    },
                                    pc: 0,
                                    calls: s.calls.push(
                                        (LocalV { op: Seq::<TermV>::empty(), ..s.local }, s.pc + 1),
                                    ),
                                    ..s
                                },
                            ),
                        )
                    } else {
                        Result::Err(VmErrorV::CounterOverflow(s.local.pred, s.pc))
                    },
                    PredV::Sys(name, arity) => if name == "print"@ && arity == 1 {
                        if s.local.op.len() >= 1 {
                            Result::Ok(
                                Option::Some(
                                    StateV {
                                        local: LocalV { op: s.local.op.drop_last(), ..s.local },
                                        output: s.output.push(
                                            render_term(
                                                crate::unification::gfind(
                                                    s.bindings,
                                                    s.local.op.last(),
                                                ),
                                            ),
                                        ),
                                        pc: s.pc + 1,
                                        ..s
                                    },
                                ),
                            )
                        } else {
                            Result::Err(VmErrorV::StackUnderflow(s.local.pred, s.pc))
                        }
                    } else {
                        Result::Err(VmErrorV::MissingBuiltin(s.local.pred, s.pc))
                    },
                },
                InsnV::Det(l) => Result::Ok(
                    Option::Some(
                        StateV {
                            cps: det_pop(s.cps, (s.local.depth, l)),
                            pc: s.pc + 1,
                            ..s
                        },
                    ),
                ),
                InsnV::DetUntil(l) => Result::Ok(
                    Option::Some(
                        StateV {
                            cps: det_until(s.cps, (s.local.depth, l)),
                            pc: s.pc + 1,
                            ..s
                        },
                    ),
                ),
                InsnV::Fail => Result::Ok(backtrack_spec(s)),
                InsnV::Ret => if s.calls.len() == 0 {
                    // An empty call stack means the run is over; the machine
                    // keeps its state, as on `Halt`.
                    Result::Ok(Option::Some(s))
                } else {
                    Result::Ok(
                        Option::Some(
                            StateV {
                                local: s.calls.last().0,
                                pc: s.calls.last().1,
                                calls: s.calls.drop_last(),
                                ..s
                            },
                        ),
                    )
                },
                InsnV::Halt => Result::Ok(Option::Some(s)),
            }
        }
    }
}


/// Law: no step edits a choice point already on the stack.  A successful
/// step leaves the checkpoint stack unchanged, pushes one new checkpoint
/// on top of it, or pops down to a prefix of it; the snapshots below are
/// the very values that were pushed.  With this, restoring a choice point
/// later replays exactly what restoring it immediately would have run.
pub proof fn lemma_step_keeps_checkpoints(p: ProgramV, s: StateV)
    requires
        step_spec(p, s) is Ok,
        step_spec(p, s)->Ok_0 is Some,
    ensures
        ({
            let s2 = step_spec(p, s)->Ok_0->Some_0;
            ||| s2.cps == s.cps
            ||| s2.cps == s.cps.push(s2.cps.last())
            ||| s2.cps.is_prefix_of(s.cps)
        }),
{
    let s2 = step_spec(p, s)->Ok_0->Some_0;
    let code = prog_code(p, s.local.pred)->Some_0;
    match code[s.pc] {
        InsnV::MkCheckpoint(l, d) => {
            assert(s2.cps == s.cps.push(s2.cps.last()));
        },
        InsnV::Det(l) => {
            lemma_det_pop_prefix(s.cps, (s.local.depth, l));
        },
        InsnV::DetUntil(l) => {
            let key = (s.local.depth, l);
            lemma_det_pop_prefix(s.cps, key);
            let d = det_pop(s.cps, key);
            if d.len() > 0 && d.last().label == key {
                assert(d =~= s.cps.take(d.len() as int));
                assert(d.drop_last() =~= s.cps.take(d.len() - 1));
                assert(s2.cps.is_prefix_of(s.cps));
            }
        },
        InsnV::Unify => {
            if s.local.op.len() >= 2 {
                let y = s.local.op.last();
                let x = s.local.op.drop_last().last();
                match crate::unification::gunion_n(
                    s.bindings,
                    x,
                    y,
                    crate::unification::UNION_FUEL as nat,
                ) {
                    crate::unification::GUnionResult::Failed => {
                        assert(s2.cps =~= s.cps.take(s.cps.len() - 1));
                        assert(s2.cps.is_prefix_of(s.cps));
                    },
                    _ => {},
                }
            }
        },
        InsnV::Fail => {
            assert(s2.cps =~= s.cps.take(s.cps.len() - 1));
            assert(s2.cps.is_prefix_of(s.cps));
        },
        _ => {},
    }
}

/// Law: what a restored choice point runs is a function of the choice
/// point alone.  Two states about to backtrack through the same choice
/// point continue with the same frame, substitution version, program
/// counter and call stack — so re-running from the restored point later
/// yields the same computation as doing so immediately.
pub proof fn lemma_restore_depends_only_on_checkpoint(s1: StateV, s2: StateV)
    requires
        s1.cps.len() >= 1,
        s2.cps.len() >= 1,
        s1.cps.last() == s2.cps.last(),
    ensures
        ({
            let r1 = backtrack_spec(s1)->Some_0;
            let r2 = backtrack_spec(s2)->Some_0;
            &&& r1.local == r2.local
            &&& r1.bindings == r2.bindings
            &&& r1.pc == r2.pc
            &&& r1.calls == r2.calls
        }),
{
}

/// Law: frame depth is strictly monotonic across a `Call`: the callee's
/// frame is one deeper than the caller's, and the caller's frame comes
/// back on `Ret` exactly as it was saved.
pub proof fn lemma_frame_depth_call_ret(p: ProgramV, s: StateV)
    requires
        step_spec(p, s) is Ok,
        step_spec(p, s)->Ok_0 is Some,
    ensures
        ({
            let code = prog_code(p, s.local.pred)->Some_0;
            let s2 = step_spec(p, s)->Ok_0->Some_0;
            &&& (code[s.pc] matches InsnV::Call((PredV::User(n), a)) ==> s2.local.depth == s.local.depth
                + 1 && s2.local.depth > s.local.depth)
            &&& (code[s.pc] is Ret && s.calls.len() >= 1 ==> s2.local == s.calls.last().0
                && s2.local.depth == s.calls.last().0.depth)
        }),
{
}

/// The machine is parked on an instruction that ends the run with the
/// state kept: `Halt`, or `Ret` with nothing left to return to.
pub open spec fn at_stop(p: ProgramV, s: StateV) -> bool {
    &&& prog_code(p, s.local.pred) is Some
    &&& 0 <= s.pc < prog_code(p, s.local.pred)->Some_0.len()
    &&& {
        let insn = prog_code(p, s.local.pred)->Some_0[s.pc];
        insn is Halt || (insn is Ret && s.calls.len() == 0)
    }
}

/// Iterating the step relation `n` times from `s` goes through `n`
/// successful transitions and arrives at `s2`.
pub open spec fn reaches(p: ProgramV, s: StateV, s2: StateV, n: nat) -> bool
    decreases n,
{
    if n == 0 {
        s2 == s
    } else {
        match step_spec(p, s) {
            Result::Ok(Option::Some(mid)) => reaches(p, mid, s2, (n - 1) as nat),
            _ => false,
        }
    }
}

/// One more successful step extends a reachable run by one.
pub proof fn lemma_reaches_snoc(p: ProgramV, s: StateV, s1: StateV, s2: StateV, n: nat)
    requires
        reaches(p, s, s1, n),
        step_spec(p, s1) == Result::<Option<StateV>, VmErrorV>::Ok(Option::Some(s2)),
    ensures
        reaches(p, s, s2, n + 1),
    decreases n,
{
    if n == 0 {
        assert(reaches(p, s2, s2, 0));
        assert(reaches(p, s, s2, 1));
    } else {
        let mid = step_spec(p, s)->Ok_0->Some_0;
        lemma_reaches_snoc(p, mid, s1, s2, (n - 1) as nat);
        assert(reaches(p, s, s2, n + 1));
    }
}

/// Prefixes of the choice-point stack keep their well-formed bindings.
pub proof fn lemma_det_pop_prefix(cps: Seq<CheckpointV>, key: (int, int))
    ensures
        det_pop(cps, key).is_prefix_of(cps),
        det_pop(cps, key).len() <= cps.len(),
    decreases cps.len(),
{
    if cps.len() == 0 {
        assert(cps =~= cps.take(cps.len() as int));
    } else if cps.last().label == key {
        assert(cps =~= cps.take(cps.len() as int));
    } else {
        lemma_det_pop_prefix(cps.drop_last(), key);
        let d = det_pop(cps, key);
        assert(d =~= cps.drop_last().take(d.len() as int));
        assert(cps.drop_last().take(d.len() as int) =~= cps.take(d.len() as int));
    }
}

/// A state whose choice points are a prefix of a well-formed state's, with
/// well-formed bindings of its own, is well-formed.
pub proof fn lemma_wf_prefix(s0: StateV, s1: StateV)
    requires
        statev_wf(s0),
        crate::unification::gwf(s1.bindings),
        s1.cps.is_prefix_of(s0.cps),
    ensures
        statev_wf(s1),
{
    assert forall|i: int| 0 <= i < s1.cps.len() implies crate::unification::gwf(
        #[trigger] s1.cps[i].bindings,
    ) by {
        assert(s1.cps[i] == s0.cps.take(s1.cps.len() as int)[i]);
        assert(s0.cps.take(s1.cps.len() as int)[i] == s0.cps[i]);
        assert(crate::unification::gwf(s0.cps[i].bindings));
    }
}

/// A state with the same choice points as a well-formed state, and
/// well-formed bindings of its own, is well-formed.
pub proof fn lemma_wf_keep(s0: StateV, s1: StateV)
    requires
        statev_wf(s0),
        crate::unification::gwf(s1.bindings),
        s1.cps == s0.cps,
    ensures
        statev_wf(s1),
{
    assert(s0.cps =~= s0.cps.take(s0.cps.len() as int));
    lemma_wf_prefix(s0, s1);
}

/// Pushing a checkpoint with well-formed bindings keeps the state
/// well-formed.
pub proof fn lemma_wf_push(s0: StateV, s1: StateV, cp: CheckpointV)
    requires
        statev_wf(s0),
        crate::unification::gwf(s1.bindings),
        crate::unification::gwf(cp.bindings),
        s1.cps == s0.cps.push(cp),
    ensures
        statev_wf(s1),
{
    assert forall|i: int| 0 <= i < s1.cps.len() implies crate::unification::gwf(
        #[trigger] s1.cps[i].bindings,
    ) by {
        if i < s0.cps.len() {
            assert(s1.cps[i] == s0.cps[i]);
            assert(crate::unification::gwf(s0.cps[i].bindings));
        } else {
            assert(s1.cps[i] == cp);
        }
    }
}

/// The machine: an optional current state, the program, and the built-in
/// registry.
pub struct VM {
    pub state: Option<State>,
    pub program: Program,
    pub builtins: BuiltIns,
}

impl VM {
    /// Every substitution version held by the machine is well-formed.
    pub open spec fn wf(self) -> bool {
        match self.state {
            Option::Some(s) => s.wf(),
            Option::None => true,
        }
    }

    /// A machine at the initial state of `main/0`.
    pub fn new(program: Program) -> (r: Self)
        ensures
            r.wf(),
            r.program@ == program@,
            r.state is Some,
            ({
                let s = r.state->0@;
                &&& s.local.pred == (PredV::User("main"@), 0int)
                &&& s.local.op == Seq::<TermV>::empty()
                &&& s.local.locals == Map::<int, TermV>::empty()
                &&& s.local.depth == 0
                &&& s.bindings.m == Map::<int, TermV>::empty()
                &&& s.cps == Seq::<CheckpointV>::empty()
                &&& s.pc == 0
                &&& s.calls == Seq::<(LocalV, int)>::empty()
                &&& s.gen_idx == 0
                &&& s.unify_count == 0
                &&& s.output == Seq::<Seq<char>>::empty()
            }),
    {
        VM { state: Some(State::new()), program, builtins: BuiltIns::new() }
    }

    /// Execute the instruction at the current program counter, producing
    /// the next state, global failure, or a fatal fault — exactly as the
    /// transition relation `step_spec` says.
    fn next(&self, s: State) -> (r: Result<Option<State>, VmError>)
        requires
            s.wf(),
        ensures
            match r {
                Result::Ok(Option::Some(s2)) => step_spec(self.program@, s@) == Result::<
                    Option<StateV>,
                    VmErrorV,
                >::Ok(Option::Some(s2@)) && s2.wf(),
                Result::Ok(Option::None) => step_spec(self.program@, s@) == Result::<
                    Option<StateV>,
                    VmErrorV,
                >::Ok(Option::<StateV>::None),
                Result::Err(e) => step_spec(self.program@, s@) == Result::<
                    Option<StateV>,
                    VmErrorV,
                >::Err(e@),
            },
    {
        let mut s = s;
        let ghost s0 = s@;
        let sig_here = s.local_state.predicate.clone();
        let pc_here = s.pc;
        let code = match self.program.lookup(&s.local_state.predicate) {
            Some(code) => code,
            None => {
                return Result::Err(VmError::UnknownPredicate(sig_here, pc_here));
            },
        };
        proof {
            crate::ir::lemma_prog_index(self.program@, s0.local.pred);
        }
        if s.pc >= code.len() {
            return Result::Err(VmError::PcOutOfRange(sig_here, pc_here));
        }
        let code_len = code.len();
        proof {
            assert(crate::ir::view_insns(code@)[s0.pc] == code@[s0.pc]@);
        }
        match &code[s.pc] {
            Insn::PushValue(v) => {
                let v2 = crate::ir::term_clone(v);
                s.local_state.push_value(v2);
                s.pc = s.pc + 1;
                proof {
                    lemma_wf_keep(s0, s@);
                }
                Result::Ok(Some(s))
            },
            Insn::Pop => {
                match s.local_state.pop() {
                    Some(_) => {
                        s.pc = s.pc + 1;
                        proof {
                            lemma_wf_keep(s0, s@);
                        }
                        Result::Ok(Some(s))
                    },
                    None => Result::Err(VmError::StackUnderflow(sig_here, pc_here)),
                }
            },
            Insn::Dup => {
                if s.local_state.op_stack.len() == 0 {
                    return Result::Err(VmError::StackUnderflow(sig_here, pc_here));
                }
                proof {
                    crate::ir::lemma_view_terms(s.local_state.op_stack@);
                }
                s.local_state.dup();
                s.pc = s.pc + 1;
                proof {
                    lemma_wf_keep(s0, s@);
                }
                Result::Ok(Some(s))
            },
            Insn::Fresh => {
                if s.gen_idx == u64::MAX {
                    return Result::Err(VmError::CounterOverflow(sig_here, pc_here));
                }
                let lv = s.fresh_lv();
                s.local_state.push_value(lv);
                s.pc = s.pc + 1;
                proof {
                    lemma_wf_keep(s0, s@);
                }
                Result::Ok(Some(s))
            },
            Insn::Load(x) => {
                match crate::pstore::pmap_get(&s.local_state.locals, (*x) as u64) {
                    Some(_) => {},
                    None => {
                        return Result::Err(VmError::MissingLocal(sig_here, pc_here));
                    },
                }
                s.local_state.load(*x);
                s.pc = s.pc + 1;
                proof {
                    lemma_wf_keep(s0, s@);
                }
                Result::Ok(Some(s))
            },
            Insn::Store(x) => {
                if s.local_state.op_stack.len() == 0 {
                    return Result::Err(VmError::StackUnderflow(sig_here, pc_here));
                }
                proof {
                    crate::ir::lemma_view_terms(s.local_state.op_stack@);
                }
                s.local_state.store(*x);
                s.pc = s.pc + 1;
                proof {
                    lemma_wf_keep(s0, s@);
                }
                Result::Ok(Some(s))
            },
            Insn::Construct(f, k) => {
                if *k > s.local_state.op_stack.len() {
                    proof {
                        crate::ir::lemma_view_terms(s.local_state.op_stack@);
                    }
                    return Result::Err(VmError::StackUnderflow(sig_here, pc_here));
                }
                proof {
                    crate::ir::lemma_view_terms(s.local_state.op_stack@);
                }
                let args = s.local_state.pop_n(*k);
                s.local_state.push_value(Value::Ctor(f.clone(), args));
                s.pc = s.pc + 1;
                proof {
                    lemma_wf_keep(s0, s@);
                }
                Result::Ok(Some(s))
            },
            Insn::Unify => {
                if s.local_state.op_stack.len() < 2 {
                    proof {
                        crate::ir::lemma_view_terms(s.local_state.op_stack@);
                    }
                    return Result::Err(VmError::StackUnderflow(sig_here, pc_here));
                }
                proof {
                    crate::ir::lemma_view_terms(s.local_state.op_stack@);
                }
                let y = match s.local_state.pop() {
                    Some(v) => v,
                    None => {
                        return Result::Err(VmError::StackUnderflow(sig_here, pc_here));
                    },
                };
                let x = match s.local_state.pop() {
                    Some(v) => v,
                    None => {
                        return Result::Err(VmError::StackUnderflow(sig_here, pc_here));
                    },
                };
                match s.bindings.union_fueled(&x, &y, UNION_FUEL) {
                    UnionResult::Unified(b2) => {
                        s.bindings = b2;
                        if s.unify_count < u64::MAX {
                            s.unify_count = s.unify_count + 1;
                        }
                        s.pc = s.pc + 1;
                        proof {
                            lemma_wf_keep(s0, s@);
                        }
                        Result::Ok(Some(s))
                    },
                    UnionResult::Failed => {
                        let r = s.load_next_checkpoint();
                        proof {
                            match &r {
                                Some(s2) => {
                                    assert(crate::unification::gwf(
                                        s0.cps[s0.cps.len() - 1].bindings,
                                    ));
                                    assert(s2@.cps.is_prefix_of(s0.cps)) by {
                                        assert(s2@.cps =~= s0.cps.take(s0.cps.len() - 1));
                                    }
                                    lemma_wf_prefix(s0, s2@);
                                },
                                None => {},
                            }
                        }
                        Result::Ok(r)
                    },
                    UnionResult::Exhausted => Result::Err(
                        VmError::UnificationDepth(sig_here, pc_here),
                    ),
                }
            },
            Insn::MkCheckpoint(l, d) => {
                let target = match Self::offset_target(s.pc, *d, code_len) {
                    Some(t) => t,
                    None => {
                        return Result::Err(VmError::InvalidTarget(sig_here, pc_here));
                    },
                };
                let cp = Checkpoint {
                    label: (s.local_state.frame_depth, *l),
                    local_state: s.local_state.duplicate(),
                    bindings: s.bindings.clone(),
                    pc: target,
                    call_stack: crate::domains::clone_calls(&s.call_stack),
                };
                let ghost cpv = cp@;
                s.cp_stack.push(cp);
                s.pc = s.pc + 1;
                proof {
                    assert(view_cps(s.cp_stack@) =~= s0.cps.push(cpv));
                    lemma_wf_push(s0, s@, cpv);
                }
                Result::Ok(Some(s))
            },
            Insn::Jump(d) => {
                let target = match Self::offset_target(s.pc, *d, code_len) {
                    Some(t) => t,
                    None => {
                        return Result::Err(VmError::InvalidTarget(sig_here, pc_here));
                    },
                };
                s.pc = target;
                proof {
                    lemma_wf_keep(s0, s@);
                }
                Result::Ok(Some(s))
            },
            Insn::Call(sig) => {
                match &sig.0 {
                    Pred::User(name) => {
                        if s.local_state.frame_depth == u64::MAX {
                            return Result::Err(VmError::CounterOverflow(sig_here, pc_here));
                        }
                        let arity = sig.1;
                        let ret_pc = s.pc + 1;
                        s.call_user(name.as_str(), arity, ret_pc);
                        proof {
                            lemma_wf_keep(s0, s@);
                        }
                        Result::Ok(Some(s))
                    },
                    Pred::Sys(name, arity) => {
                        if self.builtins.is_defined(name, arity) {
                            proof {
                                reveal_strlit("print");
                            }
                            if s.local_state.op_stack.len() == 0 {
                                proof {
                                    crate::ir::lemma_view_terms(s.local_state.op_stack@);
                                }
                                return Result::Err(VmError::StackUnderflow(sig_here, pc_here));
                            }
                            proof {
                                crate::ir::lemma_view_terms(s.local_state.op_stack@);
                            }
                            let arg = match s.local_state.pop() {
                                Some(v) => v,
                                None => {
                                    return Result::Err(VmError::StackUnderflow(sig_here, pc_here));
                                },
                            };
                            let shown = crate::builtins::term_to_display(s.bindings.find(&arg));
                            let ghost sv = shown@;
                            s.output.push(shown);
                            s.pc = s.pc + 1;
                            proof {
                                assert(s@.output =~= s0.output.push(sv));
                                lemma_wf_keep(s0, s@);
                            }
                            Result::Ok(Some(s))
                        } else {
                            proof {
                                reveal_strlit("print");
                            }
                            Result::Err(VmError::MissingBuiltin(sig_here, pc_here))
                        }
                    },
                }
            },
            Insn::Det(l) => {
                let ghost key = (s0.local.depth, *l as int);
                loop
                    invariant
                        det_pop(s0.cps, key) == det_pop(view_cps(s.cp_stack@), key),
                        s@ == (StateV { cps: view_cps(s.cp_stack@), ..s0 }),
                        key == (s0.local.depth, *l as int),
                    ensures
                        det_pop(s0.cps, key) == det_pop(view_cps(s.cp_stack@), key),
                        s@ == (StateV { cps: view_cps(s.cp_stack@), ..s0 }),
                        view_cps(s.cp_stack@).len() == 0 || view_cps(s.cp_stack@).last().label
                            == key,
                    decreases s.cp_stack@.len(),
                {
                    let nlen = s.cp_stack.len();
                    if nlen == 0 {
                        break ;
                    }
                    let hit = s.cp_stack[nlen - 1].label.0 == s.local_state.frame_depth
                        && s.cp_stack[nlen - 1].label.1 == *l;
                    proof {
                        assert(view_cps(s.cp_stack@).last() == s.cp_stack@.last()@);
                    }
                    if hit {
                        break ;
                    }
                    let ghost before = s.cp_stack@;
                    let _dropped = s.cp_stack.pop();
                    proof {
                        assert(view_cps(s.cp_stack@) =~= view_cps(before).drop_last());
                    }
                }
                s.pc = s.pc + 1;
                proof {
                    if s.cp_stack@.len() > 0 {
                        assert(view_cps(s.cp_stack@).last() == s.cp_stack@.last()@);
                    }
                    assert(det_pop(view_cps(s.cp_stack@), key) == view_cps(s.cp_stack@));
                    assert(view_cps(s.cp_stack@) == det_pop(s0.cps, key));
                    lemma_det_pop_prefix(s0.cps, key);
                    lemma_wf_prefix(s0, s@);
                }
                Result::Ok(Some(s))
            },
            Insn::DetUntil(l) => {
                let ghost key = (s0.local.depth, *l as int);
                loop
                    invariant
                        det_pop(s0.cps, key) == det_pop(view_cps(s.cp_stack@), key),
                        s@ == (StateV { cps: view_cps(s.cp_stack@), ..s0 }),
                        key == (s0.local.depth, *l as int),
                    ensures
                        det_pop(s0.cps, key) == det_pop(view_cps(s.cp_stack@), key),
                        s@ == (StateV { cps: view_cps(s.cp_stack@), ..s0 }),
                        view_cps(s.cp_stack@).len() == 0 || view_cps(s.cp_stack@).last().label
                            == key,
                    decreases s.cp_stack@.len(),
                {
                    let nlen = s.cp_stack.len();
                    if nlen == 0 {
                        break ;
                    }
                    let hit = s.cp_stack[nlen - 1].label.0 == s.local_state.frame_depth
                        && s.cp_stack[nlen - 1].label.1 == *l;
                    proof {
                        assert(view_cps(s.cp_stack@).last() == s.cp_stack@.last()@);
                    }
                    if hit {
                        break ;
                    }
                    let ghost before = s.cp_stack@;
                    let _dropped = s.cp_stack.pop();
                    proof {
                        assert(view_cps(s.cp_stack@) =~= view_cps(before).drop_last());
                    }
                }
                proof {
                    if s.cp_stack@.len() > 0 {
                        assert(view_cps(s.cp_stack@).last() == s.cp_stack@.last()@);
                    }
                    assert(det_pop(view_cps(s.cp_stack@), key) == view_cps(s.cp_stack@));
                    assert(view_cps(s.cp_stack@) == det_pop(s0.cps, key));
                }
                let nlen = s.cp_stack.len();
                let drop_match = if nlen == 0 {
                    false
                } else {
                    s.cp_stack[nlen - 1].label.0 == s.local_state.frame_depth && s.cp_stack[nlen
                        - 1].label.1 == *l
                };
                if drop_match {
                    let ghost before = s.cp_stack@;
                    let _dropped = s.cp_stack.pop();
                    proof {
                        assert(view_cps(before).last() == before.last()@);
                        assert(view_cps(s.cp_stack@) =~= view_cps(before).drop_last());
                    }
                }
                s.pc = s.pc + 1;
                proof {
                    assert(view_cps(s.cp_stack@) == det_until(s0.cps, key));
                    lemma_det_pop_prefix(s0.cps, key);
                    assert(s@.cps.is_prefix_of(s0.cps)) by {
                        let d = det_pop(s0.cps, key);
                        if d.len() > 0 && d.last().label == key {
                            assert(d =~= s0.cps.take(d.len() as int));
                            assert(d.drop_last() =~= s0.cps.take(d.len() - 1));
                        }
                    }
                    lemma_wf_prefix(s0, s@);
                }
                Result::Ok(Some(s))
            },
            Insn::Fail => {
                let r = s.load_next_checkpoint();
                proof {
                    match &r {
                        Some(s2) => {
                            assert(crate::unification::gwf(s0.cps[s0.cps.len() - 1].bindings));
                            assert(s2@.cps.is_prefix_of(s0.cps)) by {
                                assert(s2@.cps =~= s0.cps.take(s0.cps.len() - 1));
                            }
                            lemma_wf_prefix(s0, s2@);
                        },
                        None => {},
                    }
                }
                Result::Ok(r)
            },
            Insn::Ret => {
                if s.call_stack.len() == 0 {
                    proof {
                        lemma_wf_keep(s0, s@);
                    }
                    return Result::Ok(Some(s));
                }
                let r = s.ret();
                proof {
                    match &r {
                        Some(s2) => {
                            lemma_wf_keep(s0, s2@);
                        },
                        None => {},
                    }
                }
                Result::Ok(r)
            },
            Insn::Halt => {
                proof {
                    lemma_wf_keep(s0, s@);
                }
                Result::Ok(Some(s))
            },
        }
    }

    /// The absolute target of a relative offset, if it lands inside the
    /// code.
    fn offset_target(pc: usize, d: isize, code_len: usize) -> (r: Option<usize>)
        requires
            pc < code_len,
        ensures
            match r {
                Some(t) => ({
                    let tgt = pc as int + d as int;
                    0 <= tgt < code_len as int && t as int == tgt
                }),
                None => ({
                    let tgt = pc as int + d as int;
                    !(0 <= tgt < code_len as int)
                }),
            },
    {
        if d >= 0 {
            let du = d as usize;
            proof {
                assert(du as int == d as int);
            }
            if du < code_len && pc < code_len - du {
                proof {
                    let tgt = pc as int + d as int;
                    assert(0 <= tgt && tgt < code_len as int);
                }
                Some(pc + du)
            } else {
                proof {
                    let tgt = pc as int + d as int;
                    assert(!(tgt < code_len as int));
                }
                None
            }
        } else {
            let mag: usize = if d == isize::MIN {
                (isize::MAX as usize) + 1
            } else {
                (-d) as usize
            };
            proof {
                assert(mag as int == -(d as int));
            }
            if mag <= pc {
                proof {
                    assert(pc as int + d as int == pc as int - mag as int);
                }
                Some(pc - mag)
            } else {
                None
            }
        }
    }

    /// Take one step, if the machine still holds a state.  A fatal fault
    /// stops the machine.
    pub fn step(&mut self) -> (r: Result<(), VmError>)
        requires
            old(self).wf(),
        ensures
            final(self).wf(),
            final(self).program@ == old(self).program@,
            match old(self).state {
                Option::None => r is Ok && final(self).state is None,
                Option::Some(s) => match r {
                    Result::Ok(()) => match final(self).state {
                        Option::Some(s2) => step_spec(old(self).program@, s@) == Result::<
                            Option<StateV>,
                            VmErrorV,
                        >::Ok(Option::Some(s2@)),
                        Option::None => step_spec(old(self).program@, s@) == Result::<
                            Option<StateV>,
                            VmErrorV,
                        >::Ok(Option::<StateV>::None),
                    },
                    Result::Err(e) => step_spec(old(self).program@, s@) == Result::<
                        Option<StateV>,
                        VmErrorV,
                    >::Err(e@) && final(self).state is None,
                },
            },
    {
        let mut st: Option<State> = None;
        core::mem::swap(&mut st, &mut self.state);
        match st {
            None => Result::Ok(()),
            Some(s) => match self.next(s) {
                Result::Ok(ns) => {
                    self.state = ns;
                    Result::Ok(())
                },
                Result::Err(e) => Result::Err(e),
            },
        }
    }

    /// The instruction the machine will execute next, if it holds a state
    /// whose predicate and program counter address one.
    pub fn control(&self) -> (r: Option<&Insn>)
        ensures
            match r {
                Some(insn) => {
                    &&& self.state is Some
                    &&& prog_code(self.program@, self.state->0@.local.pred) is Some
                    &&& 0 <= self.state->0@.pc < prog_code(
                        self.program@,
                        self.state->0@.local.pred,
                    )->Some_0.len()
                    &&& insn@ == prog_code(self.program@, self.state->0@.local.pred)->Some_0[self.state->0@.pc]
                },
                None => self.state is Some ==> !(prog_code(
                    self.program@,
                    self.state->0@.local.pred,
                ) is Some && 0 <= self.state->0@.pc < prog_code(
                    self.program@,
                    self.state->0@.local.pred,
                )->Some_0.len()),
            },
    {
        match &self.state {
            None => None,
            Some(s) => match self.program.lookup(&s.local_state.predicate) {
                None => {
                    proof {
                        crate::ir::lemma_prog_index(self.program@, s@.local.pred);
                    }
                    None
                },
                Some(code) => {
                    proof {
                        crate::ir::lemma_prog_index(self.program@, s@.local.pred);
                    }
                    if s.pc < code.len() {
                        proof {
                            assert(crate::ir::view_insns(code@)[s@.pc] == code@[s@.pc]@);
                        }
                        Some(&code[s.pc])
                    } else {
                        None
                    }
                },
            },
        }
    }

    /// Run until the machine halts, fails globally, or faults: iterate the
    /// step relation while a state is held and the control is not a
    /// stopping instruction.
    ///
    /// On a clean stop the final state is what iterating `step_spec` from
    /// the initial state yields: either a state parked on `Halt` (or on
    /// `Ret` with an empty call stack), or global failure reached by a
    /// step that exhausted the choice points.  A fault is likewise a fault
    /// that the iteration actually reaches — except for the machine's own
    /// step budget, which cuts the run off only after `u64::MAX` steps.
    pub fn run(&mut self) -> (r: Result<(), VmError>)
        requires
            old(self).wf(),
        ensures
            final(self).wf(),
            final(self).program@ == old(self).program@,
            old(self).state is None ==> r is Ok && final(self).state is None,
            old(self).state is Some ==> {
                let p = old(self).program@;
                let s0 = old(self).state->0@;
                match r {
                    Result::Ok(()) => match final(self).state {
                        Option::Some(sf) => at_stop(p, sf@) && (exists|n: nat|
                            reaches(p, s0, sf@, n)),
                        Option::None => (exists|n: nat, s_last: StateV|
                            reaches(p, s0, s_last, n) && step_spec(p, s_last) == Result::<
                                Option<StateV>,
                                VmErrorV,
                            >::Ok(Option::<StateV>::None)),
                    },
                    Result::Err(e) => (e@ is StepLimit && (exists|sf: StateV|
                        reaches(p, s0, sf, u64::MAX as nat))) || (exists|n: nat, s_last: StateV|
                        reaches(p, s0, s_last, n) && step_spec(p, s_last) == Result::<
                            Option<StateV>,
                            VmErrorV,
                        >::Err(e@)),
                }
            },
    {
        let ghost p0 = self.program@;
        let ghost mut steps: nat = 0nat;
        // The run is cut off only at the machine's own bound on steps.
        let mut budget: u64 = 0xffff_ffff_ffff_ffff;
        loop
            invariant
                self.wf(),
                self.program@ == old(self).program@,
                p0 == old(self).program@,
                old(self).state is None ==> self.state is None,
                old(self).state is Some && self.state is Some ==> steps == u64::MAX - budget,
                old(self).state is Some ==> match self.state {
                    Option::Some(cur) => reaches(p0, old(self).state->0@, cur@, steps),
                    Option::None => (exists|n: nat, s_last: StateV|
                        reaches(p0, old(self).state->0@, s_last, n) && step_spec(p0, s_last)
                            == Result::<Option<StateV>, VmErrorV>::Ok(Option::<StateV>::None)),
                },
            decreases budget,
        {
            if self.state.is_none() {
                return Result::Ok(());
            }
            let stop = match self.control() {
                Some(insn) => match insn {
                    Insn::Halt => true,
                    Insn::Ret => match &self.state {
                        Some(s) => s.call_stack.len() == 0,
                        None => false,
                    },
                    _ => false,
                },
                None => false,
            };
            if stop {
                proof {
                    if old(self).state is Some {
                        let cur = self.state->0@;
                        assert(reaches(p0, old(self).state->0@, cur, steps));
                    }
                }
                return Result::Ok(());
            }
            let ghost cur0 = self.state->0@;
            match self.step() {
                Result::Ok(()) => {
                    proof {
                        if old(self).state is Some {
                            if self.state is Some {
                                lemma_reaches_snoc(
                                    p0,
                                    old(self).state->0@,
                                    cur0,
                                    self.state->0@,
                                    steps,
                                );
                                steps = steps + 1;
                            } else {
                                assert(reaches(p0, old(self).state->0@, cur0, steps));
                            }
                        }
                    }
                },
                Result::Err(e) => {
                    proof {
                        if old(self).state is Some {
                            assert(reaches(p0, old(self).state->0@, cur0, steps));
                        }
                    }
                    return Result::Err(e);
                },
            }
            if budget == 0 {
                match &self.state {
                    Some(s) => {
                        return Result::Err(
                            VmError::StepLimit(s.local_state.predicate.clone(), s.pc),
                        );
                    },
                    None => {
                        return Result::Ok(());
                    },
                }
            }
            budget = budget - 1;
        }
    }
}

} // verus!
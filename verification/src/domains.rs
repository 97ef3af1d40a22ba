//! Concrete state of the virtual machine: frames, checkpoints, the global
//! state.

use vstd::prelude::*;

use crate::ast_common::{Pred, PredSig, PredV};
use crate::ir::{TermV, Value, LV};
use crate::pstore::{pmap_clone, pmap_get, pmap_model, pmap_new, pmap_update};
use crate::unification::{GSubst, Unification};

verus! {

/// Mathematical picture of a frame.
pub struct LocalV {
    pub locals: Map<int, TermV>,
    pub op: Seq<TermV>,
    pub pred: (PredV, int),
    pub depth: int,
}

/// State local to one call-stack frame: the locals, the operand stack, the
/// predicate being run, and the frame's depth (a unique call identifier).
pub struct LocalState {
    pub locals: im_rc::HashMap<u64, Value>,
    pub op_stack: Vec<Value>,
    pub predicate: PredSig,
    pub frame_depth: u64,
}

impl View for LocalState {
    type V = LocalV;

    open spec fn view(&self) -> LocalV {
        LocalV {
            locals: pmap_model(self.locals),
            op: crate::ir::view_terms(self.op_stack@),
            pred: self.predicate@,
            depth: self.frame_depth as int,
        }
    }
}

impl LocalState {
    /// A fresh frame with no locals and an empty operand stack.
    pub fn new(predicate: PredSig, frame_depth: u64) -> (r: Self)
        ensures
            r@.locals == Map::<int, TermV>::empty(),
            r@.op == Seq::<TermV>::empty(),
            r@.pred == predicate@,
            r@.depth == frame_depth as int,
    {
        let r = LocalState {
            locals: pmap_new(),
            op_stack: Vec::new(),
            frame_depth,
            predicate,
        };
        proof {
            assert(crate::ir::view_terms(r.op_stack@) =~= Seq::<TermV>::empty());
        }
        r
    }

    /// Push a value onto the operand stack.
    pub fn push_value(&mut self, v: Value)
        ensures
            final(self)@ == (LocalV { op: old(self)@.op.push(v@), ..old(self)@ }),
    {
        let ghost vv = v@;
        self.op_stack.push(v);
        proof {
            crate::ir::lemma_view_terms(old(self).op_stack@);
            crate::ir::lemma_view_terms(self.op_stack@);
            assert(self@.op =~= old(self)@.op.push(vv));
        }
    }

    /// Push a copy of the top of the operand stack.
    pub fn dup(&mut self)
        requires
            old(self)@.op.len() >= 1,
        ensures
            final(self)@ == (LocalV { op: old(self)@.op.push(old(self)@.op.last()), ..old(self)@ }),
    {
        proof {
            crate::ir::lemma_view_terms(self.op_stack@);
        }
        let v = crate::ir::term_clone(&self.op_stack[self.op_stack.len() - 1]);
        self.push_value(v);
    }

    /// Push the value of local slot `pv`.
    pub fn load(&mut self, pv: usize)
        requires
            old(self)@.locals.dom().contains(pv as int),
        ensures
            final(self)@ == (LocalV {
                op: old(self)@.op.push(old(self)@.locals[pv as int]),
                ..old(self)@
            }),
    {
        let v = match pmap_get(&self.locals, pv as u64) {
            Some(v) => crate::ir::term_clone(v),
            None => Value::Num(0),
        };
        self.push_value(v);
    }

    /// Pop the top of the operand stack into local slot `pv`.
    pub fn store(&mut self, pv: usize)
        requires
            old(self)@.op.len() >= 1,
        ensures
            final(self)@ == (LocalV {
                locals: old(self)@.locals.insert(pv as int, old(self)@.op.last()),
                op: old(self)@.op.drop_last(),
                ..old(self)@
            }),
    {
        proof {
            crate::ir::lemma_view_terms(self.op_stack@);
        }
        let v = match self.op_stack.pop() {
            Some(v) => v,
            None => Value::Num(0),
        };
        self.locals = pmap_update(&self.locals, pv as u64, v);
        proof {
            crate::ir::lemma_view_terms(old(self).op_stack@);
            crate::ir::lemma_view_terms(self.op_stack@);
            assert(self@.op =~= old(self)@.op.drop_last());
        }
    }

    /// Pop the top of the operand stack.
    pub fn pop(&mut self) -> (r: Option<Value>)
        ensures
            match r {
                Some(v) => old(self)@.op.len() >= 1 && v@ == old(self)@.op.last() && final(self)@
                    == (LocalV { op: old(self)@.op.drop_last(), ..old(self)@ }),
                None => old(self)@.op.len() == 0 && final(self)@ == old(self)@,
            },
    {
        proof {
            crate::ir::lemma_view_terms(self.op_stack@);
        }
        let r = self.op_stack.pop();
        proof {
            crate::ir::lemma_view_terms(self.op_stack@);
            if old(self).op_stack@.len() > 0 {
                assert(self@.op =~= old(self)@.op.drop_last());
            } else {
                assert(self@.op =~= old(self)@.op);
            }
        }
        r
    }

    /// Split off the top `n` values, returned in stack order (deepest
    /// first).
    pub fn pop_n(&mut self, n: usize) -> (r: Vec<Value>)
        requires
            n <= old(self)@.op.len(),
        ensures
            crate::ir::view_terms(r@) == old(self)@.op.skip(old(self)@.op.len() - n as int),
            final(self)@ == (LocalV {
                op: old(self)@.op.take(old(self)@.op.len() - n as int),
                ..old(self)@
            }),
    {
        proof {
            crate::ir::lemma_view_terms(self.op_stack@);
        }
        let at = self.op_stack.len() - n;
        let r = self.op_stack.split_off(at);
        proof {
            crate::ir::lemma_view_terms(self.op_stack@);
            crate::ir::lemma_view_terms(r@);
            assert(crate::ir::view_terms(r@) =~= old(self)@.op.skip(
                old(self)@.op.len() - n as int,
            ));
            assert(self@.op =~= old(self)@.op.take(old(self)@.op.len() - n as int));
        }
        r
    }

    /// A deep copy of this frame (the locals share structure).
    pub fn duplicate(&self) -> (r: Self)
        ensures
            r@ == self@,
    {
        let mut ops: Vec<Value> = Vec::new();
        let n = self.op_stack.len();
        let mut i: usize = 0;
        while i < n
            invariant
                n == self.op_stack@.len(),
                i <= n,
                ops@.len() == i as int,
                forall|j: int| 0 <= j < i ==> ops@[j]@ == self.op_stack@[j]@,
            decreases n - i,
        {
            ops.push(crate::ir::term_clone(&self.op_stack[i]));
            i += 1;
        }
        let r = LocalState {
            locals: pmap_clone(&self.locals),
            op_stack: ops,
            predicate: self.predicate.clone(),
            frame_depth: self.frame_depth,
        };
        proof {
            crate::ir::lemma_view_terms(r.op_stack@);
            crate::ir::lemma_view_terms(self.op_stack@);
            assert(r@.op =~= self@.op);
        }
        r
    }
}

/// The call stack: a saved frame and return program counter per call.
pub type CallStack = Vec<(LocalState, usize)>;

/// Elementwise view of a call stack.
pub open spec fn view_calls(s: Seq<(LocalState, usize)>) -> Seq<(LocalV, int)> {
    Seq::new(s.len(), |i: int| (s[i].0@, s[i].1 as int))
}

/// A deep copy of a call stack.
pub fn clone_calls(cs: &CallStack) -> (r: CallStack)
    ensures
        view_calls(r@) == view_calls(cs@),
{
    let mut r: CallStack = Vec::new();
    let n = cs.len();
    let mut i: usize = 0;
    while i < n
        invariant
            n == cs@.len(),
            i <= n,
            r@.len() == i as int,
            forall|j: int| 0 <= j < i ==> r@[j].0@ == cs@[j].0@ && r@[j].1 == cs@[j].1,
        decreases n - i,
    {
        r.push((cs[i].0.duplicate(), cs[i].1));
        i += 1;
    }
    proof {
        assert(view_calls(r@) =~= view_calls(cs@));
    }
    r
}

/// Mathematical picture of a checkpoint.
pub struct CheckpointV {
    pub label: (int, int),
    pub local: LocalV,
    pub bindings: GSubst,
    pub pc: int,
    pub calls: Seq<(LocalV, int)>,
}

/// A choice point: a label, snapshots of the frame, the call stack and the
/// substitution version, and the program counter to resume at.
pub struct Checkpoint {
    pub label: (u64, crate::ir::Label),
    pub local_state: LocalState,
    pub bindings: Unification,
    pub pc: usize,
    pub call_stack: CallStack,
}

impl View for Checkpoint {
    type V = CheckpointV;

    open spec fn view(&self) -> CheckpointV {
        CheckpointV {
            label: (self.label.0 as int, self.label.1 as int),
            local: self.local_state@,
            bindings: self.bindings@,
            pc: self.pc as int,
            calls: view_calls(self.call_stack@),
        }
    }
}

/// The checkpoint stack; the last element is the most recent choice point.
pub type CPStack = Vec<Checkpoint>;

/// Elementwise view of a checkpoint stack.
pub open spec fn view_cps(s: Seq<Checkpoint>) -> Seq<CheckpointV> {
    Seq::new(s.len(), |i: int| s[i]@)
}

/// Mathematical picture of the whole machine state.
pub struct StateV {
    pub local: LocalV,
    pub bindings: GSubst,
    pub cps: Seq<CheckpointV>,
    pub pc: int,
    pub calls: Seq<(LocalV, int)>,
    pub gen_idx: int,
    pub unify_count: int,
    pub output: Seq<Seq<char>>,
}

/// The whole machine state: current frame, substitution, choice points,
/// program counter, call stack, the fresh-variable counter, a counter of
/// successful unifications, and the output the built-ins have produced.
pub struct State {
    pub local_state: LocalState,
    pub bindings: Unification,
    pub cp_stack: CPStack,
    pub pc: usize,
    pub call_stack: CallStack,
    pub gen_idx: LV,
    pub unify_count: u64,
    pub output: Vec<String>,
}

impl View for State {
    type V = StateV;

    open spec fn view(&self) -> StateV {
        StateV {
            local: self.local_state@,
            bindings: self.bindings@,
            cps: view_cps(self.cp_stack@),
            pc: self.pc as int,
            calls: view_calls(self.call_stack@),
            gen_idx: self.gen_idx as int,
            unify_count: self.unify_count as int,
            output: Seq::new(self.output@.len(), |i: int| self.output@[i]@),
        }
    }
}

/// Every substitution version held by the state is well-formed.
pub open spec fn statev_wf(s: StateV) -> bool {
    &&& crate::unification::gwf(s.bindings)
    &&& forall|i: int|
        0 <= i < s.cps.len() ==> crate::unification::gwf(#[trigger] s.cps[i].bindings)
}

impl State {
    /// Every substitution version held by the state is well-formed.
    pub open spec fn wf(self) -> bool {
        statev_wf(self@)
    }

    /// The initial state: an empty `main/0` frame at program counter 0.
    pub fn new() -> (r: Self)
        ensures
            r.wf(),
            r@.local.locals == Map::<int, TermV>::empty(),
            r@.local.op == Seq::<TermV>::empty(),
            r@.local.pred == (PredV::User("main"@), 0int),
            r@.local.depth == 0,
            r@.bindings.m == Map::<int, TermV>::empty(),
            r@.cps == Seq::<CheckpointV>::empty(),
            r@.pc == 0,
            r@.calls == Seq::<(LocalV, int)>::empty(),
            r@.gen_idx == 0,
            r@.unify_count == 0,
            r@.output == Seq::<Seq<char>>::empty(),
    {
        let sig = PredSig(Pred::User(String::from_str("main")), 0);
        proof {
            reveal_strlit("main");
        }
        let r = State {
            local_state: LocalState::new(sig, 0),
            bindings: Unification::new(),
            cp_stack: Vec::new(),
            pc: 0,
            call_stack: Vec::new(),
            gen_idx: 0,
            unify_count: 0,
            output: Vec::new(),
        };
        proof {
            assert(r@.cps =~= Seq::<CheckpointV>::empty());
            assert(r@.calls =~= Seq::<(LocalV, int)>::empty());
            assert(r@.output =~= Seq::<Seq<char>>::empty());
        }
        r
    }

    /// Allocate a fresh logic variable from the global counter.
    pub fn fresh_lv(&mut self) -> (r: Value)
        requires
            old(self)@.gen_idx < u64::MAX,
        ensures
            final(self)@ == (StateV { gen_idx: old(self)@.gen_idx + 1, ..old(self)@ }),
            r@ == TermV::LV(old(self)@.gen_idx + 1),
    {
        self.gen_idx = self.gen_idx + 1;
        Value::LV(self.gen_idx)
    }

    /// Return from a predicate call: restore the caller's frame and program
    /// counter.  With an empty call stack the run is over and the state is
    /// consumed.  The caller's frame depth is exactly the one saved at the
    /// call, below the callee's.
    pub fn ret(self) -> (r: Option<State>)
        ensures
            match r {
                Some(s2) => {
                    &&& self@.calls.len() >= 1
                    &&& s2@ == (StateV {
                        local: self@.calls.last().0,
                        pc: self@.calls.last().1,
                        calls: self@.calls.drop_last(),
                        ..self@
                    })
                },
                None => self@.calls.len() == 0,
            },
    {
        let mut me = self;
        match me.call_stack.pop() {
            Some((frame, pc)) => {
                let ghost fv = frame@;
                me.local_state = frame;
                me.pc = pc;
                proof {
                    assert(self@.calls[self@.calls.len() - 1] == (fv, pc as int));
                    assert(me@.calls =~= self@.calls.drop_last());
                    assert(me@ == (StateV {
                        local: self@.calls.last().0,
                        pc: self@.calls.last().1,
                        calls: self@.calls.drop_last(),
                        ..self@
                    }));
                }
                Some(me)
            },
            None => None,
        }
    }

    /// Restore a checkpoint: frame, substitution version, call stack and
    /// program counter all come from the checkpoint, and from nothing else;
    /// the remaining choice points, counters and output stay.
    pub fn load_checkpoint(self, cp: Checkpoint) -> (r: State)
        ensures
            r@ == (StateV {
                local: cp@.local,
                bindings: cp@.bindings,
                pc: cp@.pc,
                calls: cp@.calls,
                ..self@
            }),
    {
        let mut me = self;
        me.local_state = cp.local_state;
        me.bindings = cp.bindings;
        me.pc = cp.pc;
        me.call_stack = cp.call_stack;
        proof {
            assert(view_cps(me.cp_stack@) == view_cps(self.cp_stack@));
        }
        me
    }

    /// The current branch failed: pop the most recent choice point and
    /// restore it, or report global failure if none is left.
    pub fn load_next_checkpoint(self) -> (r: Option<State>)
        ensures
            match r {
                Some(s2) => {
                    &&& self@.cps.len() >= 1
                    &&& s2@ == (StateV {
                        local: self@.cps.last().local,
                        bindings: self@.cps.last().bindings,
                        pc: self@.cps.last().pc,
                        calls: self@.cps.last().calls,
                        cps: self@.cps.drop_last(),
                        ..self@
                    })
                },
                None => self@.cps.len() == 0,
            },
    {
        let mut me = self;
        match me.cp_stack.pop() {
            Some(cp) => {
                proof {
                    assert(view_cps(me.cp_stack@) =~= view_cps(self.cp_stack@).drop_last());
                    assert(cp@ == self@.cps.last());
                }
                Some(me.load_checkpoint(cp))
            },
            None => None,
        }
    }

    /// Enter a user predicate: save the current frame (its operand stack
    /// moves to the callee, where the parameters meet the arguments) and
    /// the return counter, then start a fresh frame one deeper, at program
    /// counter 0.  Frame depth strictly increases across the call.
    pub fn call_user(&mut self, pred: &str, argc: usize, ret_pc: usize)
        requires
            old(self)@.local.depth < u64::MAX,
        ensures
            final(self)@ == (StateV {
                local: LocalV {
                    locals: Map::<int, TermV>::empty(),
                    op: old(self)@.local.op,
                    pred: (PredV::User(pred@), argc as int),
                    depth: old(self)@.local.depth + 1,
                },
                pc: 0,
                calls: old(self)@.calls.push(
                    (LocalV { op: Seq::<TermV>::empty(), ..old(self)@.local }, ret_pc as int),
                ),
                ..old(self)@
            }),
            final(self)@.local.depth > old(self)@.local.depth,
    {
        let new_frame_depth = self.local_state.frame_depth + 1;
        let mut last_frame = LocalState::new(
            PredSig(Pred::User(pred.to_owned()), argc),
            new_frame_depth,
        );
        core::mem::swap(&mut last_frame, &mut self.local_state);
        // The callee shares the caller's operand stack values: move them.
        core::mem::swap(&mut last_frame.op_stack, &mut self.local_state.op_stack);
        self.call_stack.push((last_frame, ret_pc));
        self.pc = 0;
        proof {
            assert(self@.calls =~= old(self)@.calls.push(
                (LocalV { op: Seq::<TermV>::empty(), ..old(self)@.local }, ret_pc as int),
            ));
            assert(view_cps(self.cp_stack@) == view_cps(old(self).cp_stack@));
            assert(self@.local.op =~= old(self)@.local.op);
            assert(crate::ir::view_terms(last_frame.op_stack@) =~= Seq::<TermV>::empty());
        }
    }
}

} // verus!
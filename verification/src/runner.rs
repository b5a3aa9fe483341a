//! The sequencer: plays a port program against the platform, one port
//! access per step.
//!
//! The platform owns the loop. It calls [`Runner::step`], performs the
//! action that comes back, and calls again, handing over the value of its
//! latest read. A busy device therefore blocks the platform's loop, never a
//! function of this crate.

use crate::port::{writes_in, writes_of, Action, PortOp};
use vstd::prelude::*;

verus! {

/// The state of a sequencer, as a mathematical value.
pub struct RunnerState {
    /// The program being played.
    pub prog: Seq<PortOp>,
    /// Index of the instruction that comes next.
    pub pc: nat,
    /// Whether a read for the wait at `pc` is outstanding.
    pub polling: bool,
}

impl RunnerState {
    /// The state in which nothing of `prog` has been played.
    pub open spec fn start(prog: Seq<PortOp>) -> RunnerState {
        RunnerState { prog, pc: 0, polling: false }
    }

    /// A read is outstanding only for a wait instruction, and `pc` stays
    /// within the program.
    pub open spec fn valid(self) -> bool {
        &&& self.pc <= self.prog.len()
        &&& self.polling ==> self.pc < self.prog.len() && self.prog[self.pc as int] is WaitFor
    }

    /// Whether the whole program has been played.
    pub open spec fn finished(self) -> bool {
        self.pc >= self.prog.len()
    }

    /// Takes up the instruction at `pc`: a write is asked for and passed; a
    /// wait asks for its first read.
    pub open spec fn issue(self) -> (RunnerState, Option<Action>) {
        if self.pc >= self.prog.len() {
            (self, None)
        } else {
            match self.prog[self.pc as int] {
                PortOp::Write { port, data } => (
                    RunnerState { pc: self.pc + 1, polling: false, ..self },
                    Some(Action::Write { port, data }),
                ),
                PortOp::WaitFor { port, mask } => (
                    RunnerState { polling: true, ..self },
                    Some(Action::Read { port }),
                ),
            }
        }
    }

    /// One step. While a read is outstanding, `input` is its value: with a
    /// bit of the mask set the wait is over and the next instruction is
    /// taken up at once; otherwise the step asks for a spin hint, and the
    /// step after it reads again. With no read outstanding `input` is
    /// ignored.
    pub open spec fn step(self, input: u8) -> (RunnerState, Option<Action>) {
        if self.polling && self.pc < self.prog.len() {
            match self.prog[self.pc as int] {
                PortOp::WaitFor { port, mask } => if input & mask != 0 {
                    RunnerState { pc: self.pc + 1, polling: false, ..self }.issue()
                } else {
                    (RunnerState { polling: false, ..self }, Some(Action::SpinHint))
                },
                PortOp::Write { .. } => self.issue(),
            }
        } else {
            self.issue()
        }
    }

    /// The state after one step for each value of `inputs`, with the actions
    /// asked for on the way.
    pub open spec fn run(self, inputs: Seq<u8>) -> (RunnerState, Seq<Action>)
        decreases inputs.len(),
    {
        if inputs.len() == 0 {
            (self, Seq::empty())
        } else {
            let (mid, actions) = self.run(inputs.drop_last());
            let (next, action) = mid.step(inputs.last());
            (
                next,
                match action {
                    Some(a) => actions.push(a),
                    None => actions,
                },
            )
        }
    }
}

/// A sequencer for one port program.
pub struct Runner {
    prog: Vec<PortOp>,
    pc: usize,
    polling: bool,
}

impl View for Runner {
    type V = RunnerState;

    closed spec fn view(&self) -> RunnerState {
        RunnerState { prog: self.prog@, pc: self.pc as nat, polling: self.polling }
    }
}

impl Runner {
    #[verifier::type_invariant]
    spec fn inv(self) -> bool {
        self@.valid()
    }

    /// A sequencer that has played nothing of `prog` yet.
    pub fn new(prog: Vec<PortOp>) -> (runner: Runner)
        ensures
            runner@ == RunnerState::start(prog@),
    {
        Runner { prog, pc: 0, polling: false }
    }

    /// Whether the whole program has been played.
    pub fn is_finished(&self) -> (done: bool)
        ensures
            done == self@.finished(),
            self@.valid(),
    {
        proof {
            use_type_invariant(&*self);
        }
        self.pc >= self.prog.len()
    }

    /// The number of instructions that have been played.
    pub fn position(&self) -> (pc: usize)
        ensures
            pc == self@.pc,
    {
        self.pc
    }

    fn issue(&mut self) -> (action: Option<Action>)
        requires
            !old(self).polling,
        ensures
            (final(self)@, action) == old(self)@.issue(),
    {
        proof {
            use_type_invariant(&*self);
        }
        if self.pc >= self.prog.len() {
            None
        } else {
            match self.prog[self.pc] {
                PortOp::Write { port, data } => {
                    self.pc = self.pc + 1;
                    Some(Action::Write { port, data })
                },
                PortOp::WaitFor { port, mask } => {
                    self.polling = true;
                    Some(Action::Read { port })
                },
            }
        }
    }

    /// Plays one step and returns the action that the platform has to
    /// perform before the next, or `None` once the program has been played
    /// to its end. `input` is the value of the platform's latest read.
    pub fn step(&mut self, input: u8) -> (action: Option<Action>)
        ensures
            (final(self)@, action) == old(self)@.step(input),
            old(self)@.valid(),
            final(self)@.valid(),
    {
        proof {
            use_type_invariant(&*self);
        }
        if self.polling && self.pc < self.prog.len() {
            match self.prog[self.pc] {
                PortOp::WaitFor { port, mask } => {
                    self.polling = false;
                    if input & mask != 0 {
                        self.pc = self.pc + 1;
                        self.issue()
                    } else {
                        Some(Action::SpinHint)
                    }
                },
                PortOp::Write { .. } => self.issue(),
            }
        } else {
            self.issue()
        }
    }
}


/// A step keeps the program, keeps a valid state valid, and never moves
/// backwards in the program. Once the program has been played to its end
/// nothing changes any more and nothing is asked for; and nothing is asked
/// for only then.
pub proof fn lemma_step_valid(s: RunnerState, input: u8)
    requires
        s.valid(),
    ensures
        s.step(input).0.valid(),
        s.step(input).0.prog == s.prog,
        s.step(input).0.pc >= s.pc,
        s.finished() ==> s.step(input) == (s, None::<Action>),
        s.step(input).1 is None ==> s.step(input).0.finished(),
{
}

/// The platform is asked for a register write exactly when the step passes
/// a write instruction, and then for that instruction's address and value:
/// the writes of the instructions passed by a step are the writes among its
/// actions.
pub proof fn lemma_step_writes(s: RunnerState, input: u8)
    requires
        s.valid(),
    ensures
        ({
            let (next, action) = s.step(input);
            writes_of(s.prog.take(next.pc as int)) == writes_of(s.prog.take(s.pc as int)) + (
            match action {
                Some(Action::Write { port, data }) => seq![(port, data)],
                _ => Seq::empty(),
            })
        }),
{
    let (next, action) = s.step(input);
    let pc = s.pc as int;
    let before = s.prog.take(pc);
    assert(writes_of(before) + Seq::<(u16, u8)>::empty() =~= writes_of(before));
    if next.pc == pc {
    } else if next.pc == pc + 1 {
        assert(s.prog.take(pc + 1) =~= before.push(s.prog[pc]));
        crate::port::lemma_writes_of_push(before, s.prog[pc]);
        if let PortOp::Write { port, data } = s.prog[pc] {
            assert(writes_of(before).push((port, data)) =~= writes_of(before) + seq![(port, data)]);
        }
    } else {
        let mid = before.push(s.prog[pc]);
        assert(next.pc == pc + 2);
        assert(s.prog.take(pc + 1) =~= mid);
        assert(s.prog.take(pc + 2) =~= mid.push(s.prog[pc + 1]));
        crate::port::lemma_writes_of_push(before, s.prog[pc]);
        crate::port::lemma_writes_of_push(mid, s.prog[pc + 1]);
        if let PortOp::Write { port, data } = s.prog[pc + 1] {
            assert(writes_of(before).push((port, data)) =~= writes_of(before) + seq![(port, data)]);
        }
    }
}

/// Order and fidelity, whatever the device answers: at every moment of a
/// run the register writes asked for so far are the writes of the
/// instructions played so far, in program order; once the program has been
/// played to its end they are the writes of the whole program.
pub proof fn lemma_run_writes(s: RunnerState, inputs: Seq<u8>)
    requires
        s.valid(),
    ensures
        s.run(inputs).0.valid(),
        s.run(inputs).0.prog == s.prog,
        s.run(inputs).0.pc >= s.pc,
        writes_of(s.prog.take(s.run(inputs).0.pc as int)) == writes_of(s.prog.take(s.pc as int))
            + writes_in(s.run(inputs).1),
        s.pc == 0 && s.run(inputs).0.finished() ==> writes_in(s.run(inputs).1) == writes_of(
            s.prog,
        ),
    decreases inputs.len(),
{
    let before = writes_of(s.prog.take(s.pc as int));
    if inputs.len() == 0 {
        assert(before + writes_in(Seq::<Action>::empty()) =~= before);
    } else {
        let (mid, actions) = s.run(inputs.drop_last());
        lemma_run_writes(s, inputs.drop_last());
        lemma_step_valid(mid, inputs.last());
        lemma_step_writes(mid, inputs.last());
        let (next, action) = mid.step(inputs.last());
        match action {
            Some(a) => {
                assert(actions.push(a).drop_last() =~= actions);
                match a {
                    Action::Write { port, data } => {
                        assert(before + writes_in(actions).push((port, data)) =~= (before
                            + writes_in(actions)) + seq![(port, data)]);
                    },
                    _ => {
                        assert((before + writes_in(actions)) + Seq::<(u16, u8)>::empty() =~= before
                            + writes_in(actions));
                    },
                }
            },
            None => {
                assert((before + writes_in(actions)) + Seq::<(u16, u8)>::empty() =~= before
                    + writes_in(actions));
            },
        }
    }
    if s.pc == 0 && s.run(inputs).0.finished() {
        assert(s.prog.take(s.run(inputs).0.pc as int) =~= s.prog);
        assert(s.prog.take(0) =~= Seq::<PortOp>::empty());
        assert(Seq::<(u16, u8)>::empty() + writes_in(s.run(inputs).1) =~= writes_in(
            s.run(inputs).1,
        ));
    }
}

/// Gating: a wait is passed by no step but the one that is handed, for an
/// outstanding read, a value with a bit of the mask set. The first step at a
/// wait asks for a read; a step that is handed a value without such a bit
/// asks for a spin hint and stays; neither asks for a write.
pub proof fn lemma_wait_gates(s: RunnerState, input: u8)
    requires
        s.valid(),
        !s.finished(),
        s.prog[s.pc as int] is WaitFor,
    ensures
        ({
            let (next, action) = s.step(input);
            let port = s.prog[s.pc as int]->WaitFor_port;
            let mask = s.prog[s.pc as int]->WaitFor_mask;
            &&& !s.polling ==> action == Some(Action::Read { port }) && next == RunnerState {
                polling: true,
                ..s
            }
            &&& s.polling && input & mask == 0 ==> action == Some(Action::SpinHint) && next
                == RunnerState { polling: false, ..s }
            &&& next.pc > s.pc <==> s.polling && input & mask != 0
        }),
{
}

} // verus!

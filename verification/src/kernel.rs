//! The boot state machine: initialize the diagnostic console once, then
//! emit diagnostic lines without end; halt for good on a fault.

use crate::diagnostic::{decimal, decimal_value, diagnostic_line, diagnostic_text};
use crate::port::{writes_in, writes_of, Action, PortOp};
use crate::runner::{Runner, RunnerState};
use crate::uart::{char_byte, com_initialize, init_sequence, send_program, Writer, IO_ADDR_COM2};
use vstd::prelude::*;

verus! {

/// Where the boot sequence stands.
#[derive(Clone, Copy, Debug, PartialEq, Eq, Structural)]
pub enum Phase {
    /// Control has arrived; the console is not fully configured yet.
    Uninitialized,
    /// The console is configured; no line has been started.
    Ready,
    /// The diagnostic loop is running.
    Looping,
    /// An unrecoverable fault was reported. Nothing happens any more.
    Faulted,
}

/// The boot counter after `n`: one more, wrapping around at the top of the
/// range.
pub open spec fn next_counter(n: i32) -> i32 {
    if n == i32::MAX {
        i32::MIN
    } else {
        (n + 1) as i32
    }
}

/// The boot counter once `lines` lines are complete.
pub open spec fn counter_at(lines: nat) -> i32
    decreases lines,
{
    if lines == 0 {
        0
    } else {
        next_counter(counter_at((lines - 1) as nat))
    }
}

/// The program that sends the diagnostic line for the counter value `n`
/// through the diagnostic console.
pub open spec fn line_program(n: i32) -> Seq<PortOp> {
    send_program(IO_ADDR_COM2, diagnostic_text(n))
}

/// The register writes of the first `lines` diagnostic lines: line after
/// line, each with the counter value of its place.
pub open spec fn lines_writes(lines: nat) -> Seq<(u16, u8)>
    decreases lines,
{
    if lines == 0 {
        Seq::empty()
    } else {
        lines_writes((lines - 1) as nat) + writes_of(line_program(counter_at((lines - 1) as nat)))
    }
}

/// The actions of a configured boot: the seven register writes of the
/// configuration program for the diagnostic console, in order.
pub open spec fn init_actions() -> Seq<Action> {
    seq![
        Action::Write { port: 0x2f9, data: 0x00 },
        Action::Write { port: 0x2fb, data: 0x80 },
        Action::Write { port: 0x2f8, data: 0x01 },
        Action::Write { port: 0x2f9, data: 0x00 },
        Action::Write { port: 0x2fb, data: 0x03 },
        Action::Write { port: 0x2fa, data: 0xC7 },
        Action::Write { port: 0x2fc, data: 0x0B },
    ]
}

/// The state of the boot machine, as a mathematical value.
pub struct KernelState {
    /// Where the boot sequence stands.
    pub phase: Phase,
    /// The boot counter: the value that the line being sent embeds.
    pub counter: i32,
    /// How many diagnostic lines are complete.
    pub lines: nat,
    /// The sequencer for the program being played.
    pub runner: RunnerState,
}

impl KernelState {
    /// The state at control transfer: nothing done, the configuration
    /// program loaded, the boot counter at zero.
    pub open spec fn boot() -> KernelState {
        KernelState {
            phase: Phase::Uninitialized,
            counter: 0,
            lines: 0,
            runner: RunnerState::start(init_sequence(IO_ADDR_COM2)),
        }
    }

    /// What holds of every state that the machine can be in.
    pub open spec fn valid(self) -> bool {
        match self.phase {
            Phase::Uninitialized => {
                &&& self.runner.valid()
                &&& self.runner.prog == init_sequence(IO_ADDR_COM2)
                &&& !self.runner.finished()
                &&& self.counter == 0
                &&& self.lines == 0
            },
            Phase::Ready => self.counter == 0 && self.lines == 0,
            Phase::Looping => {
                &&& self.runner.valid()
                &&& self.runner.prog == line_program(self.counter)
                &&& !self.runner.finished()
                &&& self.counter == counter_at(self.lines)
            },
            Phase::Faulted => true,
        }
    }

    /// The state after an unrecoverable fault was reported.
    pub open spec fn fault(self) -> KernelState {
        KernelState { phase: Phase::Faulted, ..self }
    }

    /// One step: the next state and the action the platform has to perform,
    /// or no action once the machine is faulted.
    ///
    /// Before the console is configured, each step plays the configuration
    /// program; with its last write the machine is ready. The step after
    /// that starts the loop with the line for counter zero. In the loop each
    /// step plays the program of the current line; with the line's last
    /// write the counter moves on and the next line is loaded.
    pub open spec fn step(self, input: u8) -> (KernelState, Option<Action>) {
        match self.phase {
            Phase::Faulted => (self, None),
            Phase::Uninitialized => {
                let (runner, action) = self.runner.step(input);
                let phase = if runner.finished() {
                    Phase::Ready
                } else {
                    Phase::Uninitialized
                };
                (KernelState { phase, runner, ..self }, action)
            },
            Phase::Ready => {
                let (runner, action) = RunnerState::start(line_program(self.counter)).step(input);
                (KernelState { phase: Phase::Looping, runner, ..self }, action)
            },
            Phase::Looping => {
                let (runner, action) = self.runner.step(input);
                if runner.finished() {
                    let counter = next_counter(self.counter);
                    (
                        KernelState {
                            counter,
                            lines: self.lines + 1,
                            runner: RunnerState::start(line_program(counter)),
                            ..self
                        },
                        action,
                    )
                } else {
                    (KernelState { runner, ..self }, action)
                }
            },
        }
    }

    /// The register writes that lie behind a state reached without a fault:
    /// the configuration writes as far as they have been played, then the
    /// complete lines, then the current line as far as it has been played.
    pub open spec fn written(self) -> Seq<(u16, u8)> {
        match self.phase {
            Phase::Uninitialized => writes_of(self.runner.prog.take(self.runner.pc as int)),
            Phase::Ready => writes_of(init_sequence(IO_ADDR_COM2)),
            Phase::Looping => writes_of(init_sequence(IO_ADDR_COM2)) + lines_writes(self.lines)
                + writes_of(self.runner.prog.take(self.runner.pc as int)),
            Phase::Faulted => Seq::empty(),
        }
    }

    /// The state after one step for each value of `inputs`, with the actions
    /// asked for on the way.
    pub open spec fn run(self, inputs: Seq<u8>) -> (KernelState, Seq<Action>)
        decreases inputs.len(),
    {
        if inputs.len() == 0 {
            (self, Seq::empty())
        } else {
            let (mid, actions) = self.run(inputs.drop_last());
            let (next, action) = mid.step(inputs.last());
            (
                next,
                match action {
                    Some(a) => actions.push(a),
                    None => actions,
                },
            )
        }
    }
}

/// The boot machine.
pub struct Kernel {
    phase: Phase,
    counter: i32,
    lines: Ghost<nat>,
    runner: Runner,
}

impl View for Kernel {
    type V = KernelState;

    closed spec fn view(&self) -> KernelState {
        KernelState {
            phase: self.phase,
            counter: self.counter,
            lines: self.lines@,
            runner: self.runner@,
        }
    }
}

impl Kernel {
    #[verifier::type_invariant]
    spec fn inv(self) -> bool {
        self@.valid()
    }

    /// The machine as it stands when control arrives from the loader.
    pub fn new() -> (kernel: Kernel)
        ensures
            kernel@ == KernelState::boot(),
    {
        Kernel {
            phase: Phase::Uninitialized,
            counter: 0,
            lines: Ghost(0),
            runner: Runner::new(com_initialize(IO_ADDR_COM2)),
        }
    }

    /// Where the boot sequence stands.
    pub fn phase(&self) -> (phase: Phase)
        ensures
            phase == self@.phase,
            self@.valid(),
    {
        proof {
            use_type_invariant(&*self);
        }
        self.phase
    }

    /// The current value of the boot counter.
    pub fn counter(&self) -> (counter: i32)
        ensures
            counter == self@.counter,
    {
        self.counter
    }

    /// Records an unrecoverable fault. From here on no step asks for
    /// anything.
    pub fn fault(&mut self)
        ensures
            final(self)@ == old(self)@.fault(),
    {
        self.phase = Phase::Faulted;
    }

    /// Plays one step and returns the action that the platform has to
    /// perform before the next, or `None` once the machine is faulted: the
    /// platform then halts. `input` is the value of the platform's latest
    /// read.
    pub fn step(&mut self, input: u8) -> (action: Option<Action>)
        ensures
            (final(self)@, action) == old(self)@.step(input),
            action is None <==> old(self)@.phase == Phase::Faulted,
            old(self)@.valid(),
            final(self)@.valid(),
    {
        proof {
            use_type_invariant(&*self);
        }
        // The machine is taken out for the step. What stands in its place
        // meanwhile is faulted: a step that is cut short halts the machine.
        let mut current = Kernel {
            phase: Phase::Faulted,
            counter: 0,
            lines: Ghost(0),
            runner: Runner::new(Vec::new()),
        };
        core::mem::swap(self, &mut current);
        let (next, action) = current.advance(input);
        *self = next;
        action
    }

    fn advance(self, input: u8) -> (res: (Kernel, Option<Action>))
        ensures
            (res.0@, res.1) == self@.step(input),
            res.1 is None <==> self@.phase == Phase::Faulted,
            self@.valid(),
            res.0@.valid(),
    {
        proof {
            use_type_invariant(&self);
        }
        let ghost before = self@;
        let Kernel { phase, counter, lines, mut runner } = self;
        match phase {
            Phase::Faulted => (Kernel { phase, counter, lines, runner }, None),
            Phase::Uninitialized => {
                let action = runner.step(input);
                proof {
                    crate::runner::lemma_step_valid(before.runner, input);
                }
                let phase = if runner.is_finished() {
                    Phase::Ready
                } else {
                    Phase::Uninitialized
                };
                (Kernel { phase, counter, lines, runner }, action)
            },
            Phase::Ready => {
                let mut runner = Kernel::line_runner(counter);
                let action = runner.step(input);
                proof {
                    lemma_line_program_shape(counter);
                }
                (Kernel { phase: Phase::Looping, counter, lines, runner }, action)
            },
            Phase::Looping => {
                let action = runner.step(input);
                proof {
                    crate::runner::lemma_step_valid(before.runner, input);
                }
                if runner.is_finished() {
                    let counter = counter.wrapping_add(1);
                    proof {
                        lemma_line_program_shape(counter);
                    }
                    (
                        Kernel {
                            phase,
                            counter,
                            lines: Ghost((lines@ + 1) as nat),
                            runner: Kernel::line_runner(counter),
                        },
                        action,
                    )
                } else {
                    (Kernel { phase, counter, lines, runner }, action)
                }
            },
        }
    }

    fn line_runner(counter: i32) -> (runner: Runner)
        ensures
            runner@ == RunnerState::start(line_program(counter)),
    {
        let line = diagnostic_line(counter);
        let mut writer = Writer {  };
        Runner::new(writer.write_str(line.as_str()))
    }
}

/// The program of a diagnostic line begins with a wait for the transmitter
/// and has two instructions for each character of the line, of which there
/// are at least three.
pub proof fn lemma_line_program_shape(n: i32)
    ensures
        line_program(n).len() == 2 * diagnostic_text(n).len(),
        diagnostic_text(n).len() >= 3,
        line_program(n)[0] == (PortOp::WaitFor { port: (IO_ADDR_COM2 + 5) as u16, mask: 0x20 }),
{
    reveal_strlit("\n\r");
    crate::diagnostic::lemma_decimal_not_empty(n as int);
}


/// A step keeps a valid state valid. It asks for nothing exactly when the
/// machine is faulted, and no step leads into the faulted phase.
pub proof fn lemma_step_valid(k: KernelState, input: u8)
    requires
        k.valid(),
    ensures
        k.step(input).0.valid(),
        k.step(input).1 is None <==> k.phase == Phase::Faulted,
        k.step(input).0.phase == Phase::Faulted <==> k.phase == Phase::Faulted,
{
    if k.phase == Phase::Uninitialized || k.phase == Phase::Looping {
        crate::runner::lemma_step_valid(k.runner, input);
    }
    lemma_line_program_shape(k.counter);
    lemma_line_program_shape(next_counter(k.counter));
}

/// What a step asks to be written is what it adds to the writes behind the
/// state.
pub proof fn lemma_step_written(k: KernelState, input: u8)
    requires
        k.valid(),
        k.phase != Phase::Faulted,
    ensures
        k.step(input).0.written() == k.written() + (match k.step(input).1 {
            Some(Action::Write { port, data }) => seq![(port, data)],
            _ => Seq::empty(),
        }),
{
    let (next, action) = k.step(input);
    let init = writes_of(init_sequence(IO_ADDR_COM2));
    let none = Seq::<(u16, u8)>::empty();
    let added = match action {
        Some(Action::Write { port, data }) => seq![(port, data)],
        _ => none,
    };
    if k.phase == Phase::Uninitialized || k.phase == Phase::Looping {
        crate::runner::lemma_step_valid(k.runner, input);
        crate::runner::lemma_step_writes(k.runner, input);
    }
    match k.phase {
        Phase::Uninitialized => {
            if next.phase == Phase::Ready {
                assert(k.runner.prog.take(next.runner.pc as int) =~= init_sequence(IO_ADDR_COM2));
            }
        },
        Phase::Ready => {
            let begin = RunnerState::start(line_program(k.counter));
            lemma_line_program_shape(k.counter);
            assert(next.runner.pc == 0);
            assert(next.runner.prog.take(0) =~= Seq::<PortOp>::empty());
            assert(next.written() =~= init);
            assert(k.written() + added =~= init);
        },
        Phase::Looping => {
            let played = writes_of(k.runner.prog.take(k.runner.pc as int));
            let lines = lines_writes(k.lines);
            if next.runner.pc == 0 && next.lines == k.lines + 1 {
                let whole = writes_of(line_program(k.counter));
                let (runner, _) = k.runner.step(input);
                assert(k.runner.prog.take(runner.pc as int) =~= line_program(k.counter));
                assert(whole == played + added);
                assert(next.runner.prog.take(0) =~= Seq::<PortOp>::empty());
                assert(lines_writes(next.lines) == lines + whole);
                assert(next.written() =~= init + lines + whole);
                assert(k.written() + added =~= init + lines + whole);
            } else {
                assert(next.written() =~= init + lines + (played + added));
                assert(k.written() + added =~= init + lines + (played + added));
            }
        },
        Phase::Faulted => {},
    }
}

/// The stream of a boot, whatever the device answers: at every moment of a
/// run from control transfer the register writes asked for so far are the
/// configuration writes, then the diagnostic lines in the order of their
/// counter values, each with one data-register write per character, up to
/// the place that the state records. No such run ends faulted.
pub proof fn lemma_boot_stream(inputs: Seq<u8>)
    ensures
        KernelState::boot().run(inputs).0.valid(),
        KernelState::boot().run(inputs).0.phase != Phase::Faulted,
        writes_in(KernelState::boot().run(inputs).1) == KernelState::boot().run(inputs).0.written(),
    decreases inputs.len(),
{
    let boot = KernelState::boot();
    if inputs.len() == 0 {
        assert(boot.runner.prog.take(0) =~= Seq::<PortOp>::empty());
    } else {
        let (mid, actions) = boot.run(inputs.drop_last());
        lemma_boot_stream(inputs.drop_last());
        lemma_step_valid(mid, inputs.last());
        lemma_step_written(mid, inputs.last());
        match mid.step(inputs.last()).1 {
            Some(a) => {
                assert(actions.push(a).drop_last() =~= actions);
                match a {
                    Action::Write { port, data } => {
                        assert(writes_in(actions).push((port, data)) =~= writes_in(actions) + seq![
                            (port, data),
                        ]);
                    },
                    _ => {
                        assert(writes_in(actions) + Seq::<(u16, u8)>::empty() =~= writes_in(
                            actions,
                        ));
                    },
                }
            },
            None => {},
        }
    }
}

/// Ordering of the configuration: the first seven steps of a boot ask for
/// the seven configuration writes, in their order and for nothing between
/// them, whatever values the steps are handed; after them the machine is
/// ready.
pub proof fn lemma_boot_initializes(inputs: Seq<u8>)
    requires
        inputs.len() <= 7,
    ensures
        KernelState::boot().run(inputs).1 == init_actions().take(inputs.len() as int),
        KernelState::boot().run(inputs).0 == (KernelState {
            phase: if inputs.len() == 7 {
                Phase::Ready
            } else {
                Phase::Uninitialized
            },
            runner: RunnerState { pc: inputs.len(), ..KernelState::boot().runner },
            ..KernelState::boot()
        }),
        inputs.len() == 7 ==> writes_in(KernelState::boot().run(inputs).1) == writes_of(
            init_sequence(IO_ADDR_COM2),
        ),
    decreases inputs.len(),
{
    let boot = KernelState::boot();
    if inputs.len() == 0 {
        assert(init_actions().take(0) =~= Seq::<Action>::empty());
    } else {
        let (mid, actions) = boot.run(inputs.drop_last());
        lemma_boot_initializes(inputs.drop_last());
        let at = inputs.len() - 1;
        assert(init_actions().take(inputs.len() as int) =~= init_actions().take(at).push(
            init_actions()[at],
        ));
    }
    if inputs.len() == 7 {
        lemma_boot_stream(inputs);
    }
}

/// While the counter has not wrapped around, the boot counter once `lines`
/// lines are complete is `lines`.
pub proof fn lemma_counter_counts_lines(lines: nat)
    requires
        lines <= i32::MAX,
    ensures
        counter_at(lines) == lines,
    decreases lines,
{
    if lines > 0 {
        lemma_counter_counts_lines((lines - 1) as nat);
    }
}

/// Loop monotonicity: the diagnostic line at place `n` of the stream,
/// counted from one, is the line that embeds `n - 1`; the number read off
/// it is `n - 1`; and what goes on the wire for it is one data-register
/// write per character of that line. This holds up to the line that embeds
/// the largest counter value.
pub proof fn lemma_nth_line_embeds(n: nat)
    requires
        1 <= n <= 0x8000_0000,
    ensures
        counter_at((n - 1) as nat) == n - 1,
        decimal_value(decimal(counter_at((n - 1) as nat) as int)) == n - 1,
        lines_writes(n) == lines_writes((n - 1) as nat) + diagnostic_text(
            (n - 1) as i32,
        ).map_values(|c: char| (IO_ADDR_COM2, char_byte(c))),
{
    lemma_counter_counts_lines((n - 1) as nat);
    crate::diagnostic::lemma_decimal_round_trip(n - 1);
    crate::uart::lemma_send_program_writes(IO_ADDR_COM2, diagnostic_text((n - 1) as i32));
}

/// Wraparound: the line after the one that embeds the largest counter
/// value embeds the smallest, and the machine goes on.
pub proof fn lemma_counter_wraps()
    ensures
        counter_at(0x8000_0000) == i32::MIN,
{
    lemma_counter_counts_lines(0x7fff_ffff);
    assert(counter_at(0x8000_0000) == next_counter(counter_at(0x7fff_ffff)));
}

/// Fault terminality: from the moment a fault is recorded, in whatever
/// state, no run asks for anything and none changes the state: no register
/// is written or read again.
pub proof fn lemma_fault_is_terminal(k: KernelState, inputs: Seq<u8>)
    ensures
        k.fault().run(inputs) == (k.fault(), Seq::<Action>::empty()),
    decreases inputs.len(),
{
    if inputs.len() > 0 {
        lemma_fault_is_terminal(k, inputs.drop_last());
    }
}

} // verus!

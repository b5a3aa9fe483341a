//! The transmit handshake: how the program for one character plays on the
//! sequencer against a device that is busy for a while.

use crate::port::{writes_in, Action, PortOp};
use crate::runner::RunnerState;
use crate::uart::{char_byte, send_program};
use vstd::prelude::*;

verus! {

/// Whether a line-status value reports the transmit holding register empty.
pub open spec fn transmit_ready(status: u8) -> bool {
    status & 0x20 != 0
}

/// What the platform is asked to do while `rounds` reads of the line status
/// of the UART at `base` in a row find the device busy: read, spin hint,
/// read, spin hint, and so on.
pub open spec fn busy_rounds(base: u16, rounds: nat) -> Seq<Action> {
    Seq::new(
        2 * rounds,
        |i: int|
            if i % 2 == 0 {
                Action::Read { port: (base + 5) as u16 }
            } else {
                Action::SpinHint
            },
    )
}

/// The whole exchange for one byte when the device is found busy `busy`
/// times before it is found ready: the busy rounds, one more read, and the
/// write of the byte to the data register.
pub open spec fn handshake(base: u16, byte: u8, busy: nat) -> Seq<Action> {
    busy_rounds(base, busy).push(Action::Read { port: (base + 5) as u16 }).push(
        Action::Write { port: base, data: byte },
    )
}

/// Of the values handed to the steps of a run, those that answer a read
/// when the sequencer alternates reads and spin hints from its first step:
/// the values at the odd places. Here all of them before place `upto`
/// report a busy device.
pub open spec fn busy_until(inputs: Seq<u8>, upto: nat) -> bool {
    forall|k: int| 0 <= k < upto && k < inputs.len() && k % 2 == 1 ==> !transmit_ready(#[trigger] inputs[k])
}

/// While the device reports busy the sequencer goes round in circles: after
/// `rounds` busy answers it is where it began, and it has asked for reads
/// and spin hints alone.
pub proof fn lemma_busy_rounds(base: u16, c: char, inputs: Seq<u8>, rounds: nat)
    requires
        inputs.len() == 2 * rounds,
        busy_until(inputs, 2 * rounds),
    ensures
        RunnerState::start(send_program(base, seq![c])).run(inputs) == (
            RunnerState::start(send_program(base, seq![c])),
            busy_rounds(base, rounds),
        ),
    decreases rounds,
{
    let begin = RunnerState::start(send_program(base, seq![c]));
    if rounds == 0 {
        assert(busy_rounds(base, 0) =~= Seq::<Action>::empty());
    } else {
        let shorter = inputs.drop_last().drop_last();
        let before = (rounds - 1) as nat;
        assert forall|k: int| 0 <= k < 2 * before && k < shorter.len() && k % 2
            == 1 implies !transmit_ready(#[trigger] shorter[k]) by {
            assert(shorter[k] == inputs[k]);
        }
        lemma_busy_rounds(base, c, shorter, before);
        let answer = inputs.last();
        assert(answer == inputs[2 * rounds - 1]);
        assert(!transmit_ready(answer));
        let reading = RunnerState { polling: true, ..begin };
        assert(begin.issue() == (reading, Some(Action::Read { port: (base + 5) as u16 })));
        assert(begin.run(inputs.drop_last()) == (
            reading,
            busy_rounds(base, before).push(Action::Read { port: (base + 5) as u16 }),
        ));
        assert(reading.step(answer) == (begin, Some(Action::SpinHint)));
        assert(busy_rounds(base, rounds) =~= busy_rounds(base, before).push(
            Action::Read { port: (base + 5) as u16 },
        ).push(Action::SpinHint));
    }
}

/// Transmit gating. Let the line status report busy `busy` times and then
/// ready. The sequencer then asks for no write to the data register while
/// the device is busy, and for exactly one, of the character's byte, at the
/// step that is handed the first ready status; with that write the program
/// is at its end. `inputs` holds the value handed to each step: at the odd
/// places the answers to the reads, at the even places anything at all.
pub proof fn lemma_send_char_handshake(base: u16, c: char, inputs: Seq<u8>, busy: nat)
    requires
        inputs.len() == 2 * busy + 2,
        busy_until(inputs, 2 * busy),
        transmit_ready(inputs[(2 * busy + 1) as int]),
    ensures
        RunnerState::start(send_program(base, seq![c])).run(inputs).1 == handshake(
            base,
            char_byte(c),
            busy,
        ),
        RunnerState::start(send_program(base, seq![c])).run(inputs).0.finished(),
        writes_in(handshake(base, char_byte(c), busy).drop_last()) == Seq::<(u16, u8)>::empty(),
        writes_in(handshake(base, char_byte(c), busy)) == seq![(base, char_byte(c))],
{
    let prog = send_program(base, seq![c]);
    let begin = RunnerState::start(prog);
    let rounds = inputs.take((2 * busy) as int);
    assert forall|k: int| 0 <= k < 2 * busy && k < rounds.len() && k % 2
        == 1 implies !transmit_ready(#[trigger] rounds[k]) by {
        assert(rounds[k] == inputs[k]);
    }
    lemma_busy_rounds(base, c, rounds, busy);
    assert(inputs.drop_last().drop_last() =~= rounds);
    let reading = RunnerState { polling: true, ..begin };
    assert(begin.issue() == (reading, Some(Action::Read { port: (base + 5) as u16 })));
    assert(begin.run(inputs.drop_last()) == (
        reading,
        busy_rounds(base, busy).push(Action::Read { port: (base + 5) as u16 }),
    ));
    let end = RunnerState { pc: 2, ..begin };
    assert(inputs.last() == inputs[(2 * busy + 1) as int]);
    assert(prog[1] == PortOp::Write { port: base, data: char_byte(c) });
    assert(RunnerState { pc: 1, ..begin }.issue() == (
        end,
        Some(Action::Write { port: base, data: char_byte(c) }),
    ));
    assert(reading.step(inputs.last()) == (
        end,
        Some(Action::Write { port: base, data: char_byte(c) }),
    ));
    lemma_no_write_while_busy(base, busy);
    let polls = busy_rounds(base, busy).push(Action::Read { port: (base + 5) as u16 });
    assert(handshake(base, char_byte(c), busy).drop_last() =~= polls);
    assert(writes_in(handshake(base, char_byte(c), busy)) =~= seq![(base, char_byte(c))]);
}

/// Reads and spin hints write to no register.
proof fn lemma_no_write_while_busy(base: u16, rounds: nat)
    ensures
        writes_in(busy_rounds(base, rounds)) == Seq::<(u16, u8)>::empty(),
        writes_in(busy_rounds(base, rounds).push(Action::Read { port: (base + 5) as u16 }))
            == Seq::<(u16, u8)>::empty(),
    decreases rounds,
{
    let read = Action::Read { port: (base + 5) as u16 };
    if rounds == 0 {
        assert(busy_rounds(base, 0) =~= Seq::<Action>::empty());
    } else {
        let before = (rounds - 1) as nat;
        lemma_no_write_while_busy(base, before);
        assert(busy_rounds(base, rounds) =~= busy_rounds(base, before).push(read).push(
            Action::SpinHint,
        ));
        assert(busy_rounds(base, rounds).drop_last() =~= busy_rounds(base, before).push(read));
    }
    assert(busy_rounds(base, rounds).push(read).drop_last() =~= busy_rounds(base, rounds));
}


/// String fidelity on the wire, whatever the device answers on the way:
/// once the program for a text has been played to its end, the register
/// writes that were asked for are one data-register write per character, in
/// the order of the text, each with the byte of its character.
pub proof fn lemma_send_str_fidelity(base: u16, text: Seq<char>, inputs: Seq<u8>)
    requires
        RunnerState::start(send_program(base, text)).run(inputs).0.finished(),
    ensures
        writes_in(RunnerState::start(send_program(base, text)).run(inputs).1) == text.map_values(
            |c: char| (base, char_byte(c)),
        ),
{
    crate::runner::lemma_run_writes(RunnerState::start(send_program(base, text)), inputs);
    crate::uart::lemma_send_program_writes(base, text);
}

/// What the platform is asked to do for a text when every read of the line
/// status finds the device ready: for each character one read, then the
/// write of its byte.
pub open spec fn unhindered(base: u16, text: Seq<char>) -> Seq<Action> {
    Seq::new(
        2 * text.len(),
        |i: int|
            if i % 2 == 0 {
                Action::Read { port: (base + 5) as u16 }
            } else {
                Action::Write { port: base, data: char_byte(text[i / 2]) }
            },
    )
}

/// Progress: against a device that is ready at every poll the program for a
/// text is at its end after two steps for each character, one read and one
/// write. `inputs` holds the value handed to each step: at the odd places
/// the answers to the reads, all ready; at the even places anything.
pub proof fn lemma_ready_device_completes(base: u16, text: Seq<char>, inputs: Seq<u8>)
    requires
        inputs.len() == 2 * text.len(),
        forall|k: int| 0 <= k < inputs.len() && k % 2 == 1 ==> transmit_ready(#[trigger] inputs[k]),
    ensures
        RunnerState::start(send_program(base, text)).run(inputs) == (
            RunnerState { pc: 2 * text.len(), ..RunnerState::start(send_program(base, text)) },
            unhindered(base, text),
        ),
{
    lemma_ready_prefix(base, text, inputs, text.len());
    assert(inputs.take(inputs.len() as int) =~= inputs);
    assert(unhindered(base, text).take((2 * text.len()) as int) =~= unhindered(base, text));
}

proof fn lemma_ready_prefix(base: u16, text: Seq<char>, inputs: Seq<u8>, sent: nat)
    requires
        inputs.len() == 2 * text.len(),
        forall|k: int| 0 <= k < inputs.len() && k % 2 == 1 ==> transmit_ready(#[trigger] inputs[k]),
        sent <= text.len(),
    ensures
        RunnerState::start(send_program(base, text)).run(inputs.take((2 * sent) as int)) == (
            RunnerState { pc: 2 * sent, ..RunnerState::start(send_program(base, text)) },
            unhindered(base, text).take((2 * sent) as int),
        ),
    decreases sent,
{
    let prog = send_program(base, text);
    let begin = RunnerState::start(prog);
    let all = unhindered(base, text);
    if sent == 0 {
        assert(all.take(0) =~= Seq::<Action>::empty());
    } else {
        let before = (sent - 1) as nat;
        lemma_ready_prefix(base, text, inputs, before);
        let upto = inputs.take((2 * sent) as int);
        assert(upto.drop_last() =~= inputs.take(2 * sent - 1));
        assert(upto.drop_last().drop_last() =~= inputs.take((2 * before) as int));
        let at = RunnerState { pc: 2 * before, ..begin };
        let reading = RunnerState { polling: true, ..at };
        let read = Action::Read { port: (base + 5) as u16 };
        let write = Action::Write { port: base, data: char_byte(text[before as int]) };
        assert(prog[(2 * before) as int] == PortOp::WaitFor { port: (base + 5) as u16, mask: 0x20 });
        assert(prog[(2 * before + 1) as int] == PortOp::Write {
            port: base,
            data: char_byte(text[(2 * before + 1) as int / 2]),
        });
        assert(at.issue() == (reading, Some(read)));
        assert(begin.run(upto.drop_last()) == (reading, all.take((2 * before) as int).push(read)));
        assert(upto.last() == inputs[2 * sent - 1]);
        assert(transmit_ready(upto.last()));
        assert(RunnerState { pc: 2 * before + 1, ..begin }.issue() == (
            RunnerState { pc: 2 * sent, ..begin },
            Some(write),
        ));
        assert(reading.step(upto.last()) == (RunnerState { pc: 2 * sent, ..begin }, Some(write)));
        assert(all.take((2 * sent) as int) =~= all.take((2 * before) as int).push(read).push(write));
    }
}

} // verus!

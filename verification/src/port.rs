//! The vocabulary shared by the driver and the platform: instructions of a
//! port program, and the single accesses a platform performs.

use vstd::prelude::*;

verus! {

/// One instruction of a port program.
#[derive(Clone, Copy, Debug, PartialEq, Eq, Structural)]
pub enum PortOp {
    /// Store `data` in the register at `port`.
    Write { port: u16, data: u8 },
    /// Busy-wait on the register at `port`: read it again and again, with a
    /// spin hint between two reads, until a value with a bit of `mask` set
    /// comes back.
    WaitFor { port: u16, mask: u8 },
}

/// One thing the platform is asked to do.
#[derive(Clone, Copy, Debug, PartialEq, Eq, Structural)]
pub enum Action {
    /// Store `data` in the register at `port`.
    Write { port: u16, data: u8 },
    /// Load the register at `port` and hand the value to the next step.
    Read { port: u16 },
    /// Tell the processor that this is a spin loop.
    SpinHint,
}

/// The register writes of a program, as (address, value) pairs in program
/// order.
pub open spec fn writes_of(prog: Seq<PortOp>) -> Seq<(u16, u8)>
    decreases prog.len(),
{
    if prog.len() == 0 {
        Seq::empty()
    } else {
        match prog.last() {
            PortOp::Write { port, data } => writes_of(prog.drop_last()).push((port, data)),
            PortOp::WaitFor { .. } => writes_of(prog.drop_last()),
        }
    }
}

/// The register writes among a sequence of actions, as (address, value)
/// pairs in the order in which they were asked for.
pub open spec fn writes_in(actions: Seq<Action>) -> Seq<(u16, u8)>
    decreases actions.len(),
{
    if actions.len() == 0 {
        Seq::empty()
    } else {
        match actions.last() {
            Action::Write { port, data } => writes_in(actions.drop_last()).push((port, data)),
            _ => writes_in(actions.drop_last()),
        }
    }
}

/// Appending one instruction appends its write, if it is one.
pub proof fn lemma_writes_of_push(prog: Seq<PortOp>, op: PortOp)
    ensures
        writes_of(prog.push(op)) == match op {
            PortOp::Write { port, data } => writes_of(prog).push((port, data)),
            PortOp::WaitFor { .. } => writes_of(prog),
        },
{
    assert(prog.push(op).drop_last() =~= prog);
}

} // verus!

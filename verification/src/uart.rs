//! The UART's register map and the port programs of the driver.

use crate::port::{writes_of, PortOp};
use vstd::prelude::*;

verus! {

/// Base address of the first legacy serial port.
pub const IO_ADDR_COM1: u16 = 0x3f8;

/// Base address of the second legacy serial port, the diagnostic console.
pub const IO_ADDR_COM2: u16 = 0x2f8;

/// Offset of the data register; while the divisor latch is open, of the
/// divisor's low byte.
pub const REG_DATA: u16 = 0;

/// Offset of the interrupt-enable register; while the divisor latch is open,
/// of the divisor's high byte.
pub const REG_INTERRUPT_ENABLE: u16 = 1;

/// Offset of the FIFO-control register.
pub const REG_FIFO_CONTROL: u16 = 2;

/// Offset of the line-control register.
pub const REG_LINE_CONTROL: u16 = 3;

/// Offset of the modem-control register.
pub const REG_MODEM_CONTROL: u16 = 4;

/// Offset of the line-status register.
pub const REG_LINE_STATUS: u16 = 5;

/// Interrupt-enable value: every interrupt off.
pub const INTERRUPTS_OFF: u8 = 0x00;

/// Line-control value that opens the divisor latch.
pub const DIVISOR_LATCH_OPEN: u8 = 0x80;

/// The baud-rate divisor: line speed = 115200 / divisor.
pub const BAUD_DIVISOR: u16 = 0x0001;

/// Line-control value for normal operation: divisor latch closed, eight
/// data bits, no parity, one stop bit.
pub const LINE_8N1: u8 = 0x03;

/// FIFO-control value: FIFOs on and cleared, 14-byte receive threshold.
pub const FIFO_ON_CLEARED_14: u8 = 0xC7;

/// Modem-control value: RTS and DSR asserted.
pub const MODEM_LINES_ON: u8 = 0x0B;

/// Line-status bit that is set while the transmit holding register is empty.
pub const TRANSMIT_READY: u8 = 0x20;

/// Whether the six registers of a UART at `base` all have an address.
pub open spec fn valid_base(base: u16) -> bool {
    base + REG_LINE_STATUS <= u16::MAX
}

/// The program that configures the UART at `base`: interrupts off, divisor
/// latch opened, divisor low byte, divisor high byte, latch closed with the
/// frame format set, FIFOs, modem lines. The order is part of the
/// contract: the two divisor bytes land in the divisor only between the two
/// line-control writes.
pub open spec fn init_sequence(base: u16) -> Seq<PortOp> {
    seq![
        PortOp::Write { port: (base + 1) as u16, data: 0x00 },
        PortOp::Write { port: (base + 3) as u16, data: 0x80 },
        PortOp::Write { port: base, data: 0x01 },
        PortOp::Write { port: (base + 1) as u16, data: 0x00 },
        PortOp::Write { port: (base + 3) as u16, data: 0x03 },
        PortOp::Write { port: (base + 2) as u16, data: 0xC7 },
        PortOp::Write { port: (base + 4) as u16, data: 0x0B },
    ]
}

/// The byte that goes on the wire for a character: the low eight bits of
/// its code point.
pub open spec fn char_byte(c: char) -> u8 {
    ((c as u32) % 256) as u8
}

/// The program that sends `text` through the UART at `base`: for each
/// character in turn, wait until the line status reports the transmit
/// holding register empty, then store the character's byte in the data
/// register.
pub open spec fn send_program(base: u16, text: Seq<char>) -> Seq<PortOp> {
    Seq::new(
        2 * text.len(),
        |i: int|
            if i % 2 == 0 {
                PortOp::WaitFor { port: (base + 5) as u16, mask: 0x20 }
            } else {
                PortOp::Write { port: base, data: char_byte(text[i / 2]) }
            },
    )
}

/// Builds the program that brings the UART at `base_io_addr` into its fixed
/// configuration.
pub fn com_initialize(base_io_addr: u16) -> (prog: Vec<PortOp>)
    requires
        base_io_addr + REG_MODEM_CONTROL <= u16::MAX,
    ensures
        prog@ == init_sequence(base_io_addr),
{
    let divisor_low: u8 = (BAUD_DIVISOR & 0xff) as u8;
    let divisor_high: u8 = (BAUD_DIVISOR >> 8) as u8;
    assert(BAUD_DIVISOR & 0xff == 0x01 && BAUD_DIVISOR >> 8 == 0x00) by (bit_vector);
    let mut prog: Vec<PortOp> = Vec::new();
    prog.push(PortOp::Write { port: base_io_addr + REG_INTERRUPT_ENABLE, data: INTERRUPTS_OFF });
    prog.push(PortOp::Write { port: base_io_addr + REG_LINE_CONTROL, data: DIVISOR_LATCH_OPEN });
    prog.push(PortOp::Write { port: base_io_addr + REG_DATA, data: divisor_low });
    prog.push(PortOp::Write { port: base_io_addr + REG_INTERRUPT_ENABLE, data: divisor_high });
    prog.push(PortOp::Write { port: base_io_addr + REG_LINE_CONTROL, data: LINE_8N1 });
    prog.push(PortOp::Write { port: base_io_addr + REG_FIFO_CONTROL, data: FIFO_ON_CLEARED_14 });
    prog.push(PortOp::Write { port: base_io_addr + REG_MODEM_CONTROL, data: MODEM_LINES_ON });
    prog
}

/// Builds the program that sends one character through the UART at
/// `base_io_addr`.
pub fn com_send_char(base_io_addr: u16, c: char) -> (prog: Vec<PortOp>)
    requires
        valid_base(base_io_addr),
    ensures
        prog@ == send_program(base_io_addr, seq![c]),
{
    let code: u32 = c as u32;
    let mut prog: Vec<PortOp> = Vec::new();
    prog.push(PortOp::WaitFor { port: base_io_addr + REG_LINE_STATUS, mask: TRANSMIT_READY });
    prog.push(PortOp::Write { port: base_io_addr + REG_DATA, data: (code % 256) as u8 });
    prog
}

/// Builds the program that sends the characters of `s`, first to last,
/// through the UART at `base_io_addr`.
pub fn com_send_str(base_io_addr: u16, s: &str) -> (prog: Vec<PortOp>)
    requires
        valid_base(base_io_addr),
    ensures
        prog@ == send_program(base_io_addr, s@),
{
    let mut prog: Vec<PortOp> = Vec::new();
    for c in iter: s.chars()
        invariant
            valid_base(base_io_addr),
            iter.seq() == s@,
            prog@ == send_program(base_io_addr, s@.take(iter.index() as int)),
    {
        let ghost sent = s@.take(iter.index() as int);
        let mut one = com_send_char(base_io_addr, c);
        prog.append(&mut one);
        assert(prog@ == send_program(base_io_addr, s@.take(iter.index() + 1))) by {
            assert(s@.take(iter.index() + 1) =~= sent.push(c));
            assert(send_program(base_io_addr, sent.push(c)) =~= send_program(base_io_addr, sent)
                + send_program(base_io_addr, seq![c]));
        }
    }
    assert(s@.take(s@.len() as int) =~= s@);
    prog
}

/// The capability to send text on the diagnostic console, the UART at
/// [`IO_ADDR_COM2`]. It holds no state: two writers are interchangeable.
#[derive(Clone, Copy, Debug)]
pub struct Writer {}

impl Writer {
    /// Builds the program that sends the characters of `s`, first to last,
    /// through the diagnostic console.
    pub fn write_str(&mut self, s: &str) -> (prog: Vec<PortOp>)
        ensures
            prog@ == send_program(IO_ADDR_COM2, s@),
            *final(self) == *old(self),
    {
        com_send_str(IO_ADDR_COM2, s)
    }
}

/// Whether every character of `text` fits in one byte.
pub open spec fn single_byte_text(text: Seq<char>) -> bool {
    forall|i: int| 0 <= i < text.len() ==> (#[trigger] text[i]) as u32 <= 0xff
}

/// What a terminal shows for a stream of register writes: one character per
/// write, with the written byte as its code point.
pub open spec fn received_text(writes: Seq<(u16, u8)>) -> Seq<char> {
    writes.map_values(|w: (u16, u8)| w.1 as char)
}

/// Sending one text after another is sending the two joined.
pub proof fn lemma_send_program_concat(base: u16, a: Seq<char>, b: Seq<char>)
    ensures
        send_program(base, a + b) == send_program(base, a) + send_program(base, b),
{
    assert(send_program(base, a + b) =~= send_program(base, a) + send_program(base, b));
}

/// String fidelity: the program for a text writes one byte per character to
/// the data register, in the order of the text, each the byte of its
/// character, and it writes nothing else.
pub proof fn lemma_send_program_writes(base: u16, text: Seq<char>)
    ensures
        writes_of(send_program(base, text)) == text.map_values(|c: char| (base, char_byte(c))),
        writes_of(send_program(base, text)).len() == text.len(),
    decreases text.len(),
{
    let per_char = |c: char| (base, char_byte(c));
    if text.len() == 0 {
        assert(send_program(base, text) =~= Seq::<PortOp>::empty());
        assert(text.map_values(per_char) =~= Seq::<(u16, u8)>::empty());
    } else {
        let head = text.drop_last();
        let wait = PortOp::WaitFor { port: (base + 5) as u16, mask: 0x20 };
        let write = PortOp::Write { port: base, data: char_byte(text.last()) };
        lemma_send_program_writes(base, head);
        assert(send_program(base, text) =~= send_program(base, head).push(wait).push(write));
        crate::port::lemma_writes_of_push(send_program(base, head), wait);
        crate::port::lemma_writes_of_push(send_program(base, head).push(wait), write);
        assert(text.map_values(per_char) =~= head.map_values(per_char).push(
            (base, char_byte(text.last())),
        ));
    }
}

/// Round trip: a terminal that shows each written byte as a character
/// shows a text of single-byte characters exactly as it was sent.
pub proof fn lemma_send_round_trip(base: u16, text: Seq<char>)
    requires
        single_byte_text(text),
    ensures
        received_text(writes_of(send_program(base, text))) == text,
{
    lemma_send_program_writes(base, text);
    assert forall|i: int| 0 <= i < text.len() implies (char_byte(#[trigger] text[i]) as char)
        == text[i] by {
        let c = text[i];
        let code = c as u32;
        vstd::utf8::char_u32_cast(c, code);
        assert(char_byte(c) == code);
    }
    assert(received_text(writes_of(send_program(base, text))) =~= text);
}

} // verus!

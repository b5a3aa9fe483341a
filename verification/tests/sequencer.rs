use rust_kernel::port::{Action, PortOp};
use rust_kernel::runner::Runner;
use rust_kernel::uart::{com_initialize, com_send_char, com_send_str};

/// A UART on paper: it answers reads of its line status from a script and
/// records everything that is done to it.
struct SimUart {
    base: u16,
    /// Line-status values still to be handed out; when they run out the
    /// device reports ready.
    status: Vec<u8>,
    writes: Vec<(u16, u8)>,
    reads: Vec<u16>,
    spin_hints: usize,
    /// For each write, the line status that the read before it returned.
    status_before_write: Vec<Option<u8>>,
    last_status: Option<u8>,
}

impl SimUart {
    fn new(base: u16, status: &[u8]) -> SimUart {
        SimUart {
            base,
            status: status.to_vec(),
            writes: Vec::new(),
            reads: Vec::new(),
            spin_hints: 0,
            status_before_write: Vec::new(),
            last_status: None,
        }
    }

    fn perform(&mut self, action: Action, input: &mut u8) {
        match action {
            Action::Write { port, data } => {
                self.writes.push((port, data));
                self.status_before_write.push(self.last_status.take());
            }
            Action::Read { port } => {
                self.reads.push(port);
                let value = if port == self.base + 5 {
                    if self.status.is_empty() {
                        0x60
                    } else {
                        self.status.remove(0)
                    }
                } else {
                    0xff
                };
                self.last_status = Some(value);
                *input = value;
            }
            Action::SpinHint => self.spin_hints += 1,
        }
    }

    fn play(&mut self, prog: Vec<PortOp>) -> Vec<Action> {
        let mut runner = Runner::new(prog);
        let mut input = 0u8;
        let mut actions = Vec::new();
        while let Some(action) = runner.step(input) {
            self.perform(action, &mut input);
            actions.push(action);
            assert!(actions.len() < 100_000);
        }
        assert!(runner.is_finished());
        actions
    }
}

#[test]
fn runner_of_the_empty_program_is_finished_at_once() {
    let mut runner = Runner::new(Vec::new());
    assert!(runner.is_finished());
    assert_eq!(runner.step(0xff), None);
    assert_eq!(runner.step(0x00), None);
    assert_eq!(runner.position(), 0);
}

#[test]
fn runner_plays_writes_without_reading() {
    let mut uart = SimUart::new(0x2f8, &[]);
    let actions = uart.play(com_initialize(0x2f8));
    assert_eq!(actions.len(), 7);
    assert!(uart.reads.is_empty());
    assert_eq!(uart.spin_hints, 0);
    assert_eq!(
        uart.writes,
        vec![
            (0x2f9, 0x00),
            (0x2fb, 0x80),
            (0x2f8, 0x01),
            (0x2f9, 0x00),
            (0x2fb, 0x03),
            (0x2fa, 0xc7),
            (0x2fc, 0x0b),
        ]
    );
}

#[test]
fn runner_ignores_its_input_while_no_read_is_outstanding() {
    for input in [0x00u8, 0x20, 0xff] {
        let mut runner = Runner::new(com_initialize(0x3f8));
        assert_eq!(runner.step(input), Some(Action::Write { port: 0x3f9, data: 0x00 }));
        assert_eq!(runner.step(input), Some(Action::Write { port: 0x3fb, data: 0x80 }));
        assert_eq!(runner.position(), 2);
    }
}

#[test]
fn send_byte_writes_at_once_when_the_device_is_ready() {
    let mut runner = Runner::new(com_send_char(0x2f8, 'A'));
    assert_eq!(runner.step(0), Some(Action::Read { port: 0x2fd }));
    assert_eq!(runner.step(0x20), Some(Action::Write { port: 0x2f8, data: 0x41 }));
    assert!(runner.is_finished());
    assert_eq!(runner.step(0x20), None);
}

#[test]
fn send_byte_holds_back_while_the_device_is_busy() {
    let mut runner = Runner::new(com_send_char(0x2f8, 'A'));
    assert_eq!(runner.step(0x20), Some(Action::Read { port: 0x2fd }));
    for busy in [0x00u8, 0x40, 0xdf, 0x1f, 0x01] {
        assert_eq!(runner.step(busy), Some(Action::SpinHint));
        assert_eq!(runner.position(), 0);
        assert_eq!(runner.step(0x20), Some(Action::Read { port: 0x2fd }));
        assert!(!runner.is_finished());
    }
    assert_eq!(runner.step(0x20), Some(Action::Write { port: 0x2f8, data: 0x41 }));
    assert_eq!(runner.position(), 2);
    assert!(runner.is_finished());
}

#[test]
fn send_byte_looks_at_the_transmit_bit_alone() {
    for ready in [0x20u8, 0x21, 0x60, 0xff, 0xa0] {
        let mut runner = Runner::new(com_send_char(0x3f8, 'z'));
        runner.step(0);
        assert_eq!(runner.step(ready), Some(Action::Write { port: 0x3f8, data: 0x7a }));
    }
    for busy in [0x00u8, 0x01, 0x40, 0xdf, 0x1f] {
        let mut runner = Runner::new(com_send_char(0x3f8, 'z'));
        runner.step(0);
        assert_eq!(runner.step(busy), Some(Action::SpinHint));
    }
}

#[test]
fn send_byte_writes_once_on_the_first_ready_poll() {
    for busy in [0usize, 1, 2, 5, 100] {
        let mut script = vec![0x00u8; busy];
        script.push(0x20);
        script.push(0x00);
        let mut uart = SimUart::new(0x2f8, &script);
        let actions = uart.play(com_send_char(0x2f8, 'x'));
        assert_eq!(uart.writes, vec![(0x2f8, 0x78)]);
        assert_eq!(uart.reads, vec![0x2fd; busy + 1]);
        assert_eq!(uart.spin_hints, busy);
        assert_eq!(uart.status_before_write, vec![Some(0x20)]);
        assert_eq!(actions.len(), 2 * busy + 2);
        assert_eq!(actions[2 * busy + 1], Action::Write { port: 0x2f8, data: 0x78 });
        for (i, action) in actions[..2 * busy].iter().enumerate() {
            if i % 2 == 0 {
                assert_eq!(*action, Action::Read { port: 0x2fd });
            } else {
                assert_eq!(*action, Action::SpinHint);
            }
        }
        assert_eq!(uart.status, vec![0x00]);
    }
}

#[test]
fn send_string_reproduces_the_text_on_the_wire() {
    let text = "liumOS Rust kernel! n = 42\n\r";
    let mut uart = SimUart::new(0x3f8, &[0x00, 0x00, 0x20, 0x00, 0x60]);
    uart.play(com_send_str(0x3f8, text));
    assert_eq!(uart.writes.len(), text.chars().count());
    assert!(uart.writes.iter().all(|w| w.0 == 0x3f8));
    let shown: String = uart.writes.iter().map(|w| w.1 as char).collect();
    assert_eq!(shown, text);
}

#[test]
fn send_string_round_trips_single_byte_characters() {
    let text = "caf\u{e9} \u{a3}5 \u{ff}";
    let mut uart = SimUart::new(0x2f8, &[]);
    uart.play(com_send_str(0x2f8, text));
    let shown: String = uart.writes.iter().map(|w| w.1 as char).collect();
    assert_eq!(shown, text);
}

#[test]
fn send_string_truncates_wider_characters() {
    let mut uart = SimUart::new(0x2f8, &[]);
    uart.play(com_send_str(0x2f8, "\u{100}\u{141}"));
    assert_eq!(uart.writes, vec![(0x2f8, 0x00), (0x2f8, 0x41)]);
}

#[test]
fn send_string_polls_before_every_byte() {
    let mut uart = SimUart::new(0x2f8, &[0x00, 0x20, 0x00, 0x00, 0x20, 0x20]);
    let actions = uart.play(com_send_str(0x2f8, "abc"));
    assert_eq!(uart.writes, vec![(0x2f8, 0x61), (0x2f8, 0x62), (0x2f8, 0x63)]);
    assert_eq!(uart.status_before_write, vec![Some(0x20), Some(0x20), Some(0x20)]);
    assert_eq!(uart.spin_hints, 3);
    assert_eq!(uart.reads.len(), 6);
    assert_eq!(
        actions,
        vec![
            Action::Read { port: 0x2fd },
            Action::SpinHint,
            Action::Read { port: 0x2fd },
            Action::Write { port: 0x2f8, data: 0x61 },
            Action::Read { port: 0x2fd },
            Action::SpinHint,
            Action::Read { port: 0x2fd },
            Action::SpinHint,
            Action::Read { port: 0x2fd },
            Action::Write { port: 0x2f8, data: 0x62 },
            Action::Read { port: 0x2fd },
            Action::Write { port: 0x2f8, data: 0x63 },
        ]
    );
}

#[test]
fn initialize_then_send_ok_on_com2() {
    let mut uart = SimUart::new(0x2f8, &[0x00, 0x20, 0x00, 0x00, 0x60]);
    uart.play(com_initialize(0x2f8));
    assert_eq!(uart.writes.len(), 7);
    assert!(uart.reads.is_empty());
    let configured = uart.writes.len();
    uart.play(com_send_str(0x2f8, "OK"));
    assert_eq!(uart.writes[configured..], [(0x2f8, 0x4f), (0x2f8, 0x4b)]);
    assert_eq!(uart.status_before_write[configured..], [Some(0x20), Some(0x60)]);
    let data_writes = uart.writes[configured..].iter().filter(|w| w.0 == 0x2f8).count();
    assert_eq!(data_writes, 2);
    assert_eq!(uart.reads, vec![0x2fd; 5]);
}

#[test]
fn runner_never_finishes_on_a_device_that_stays_busy() {
    let mut runner = Runner::new(com_send_str(0x2f8, "OK"));
    let mut writes = 0;
    for _ in 0..10_000 {
        match runner.step(0x00) {
            Some(Action::Write { .. }) => writes += 1,
            Some(_) => {}
            None => panic!("finished without a ready device"),
        }
    }
    assert_eq!(writes, 0);
    assert_eq!(runner.position(), 0);
    assert!(!runner.is_finished());
}

#[test]
fn runner_passes_a_wait_at_the_end_of_a_program() {
    let prog = vec![
        PortOp::Write { port: 0x10, data: 1 },
        PortOp::WaitFor { port: 0x11, mask: 0x01 },
    ];
    let mut runner = Runner::new(prog);
    assert_eq!(runner.step(0), Some(Action::Write { port: 0x10, data: 1 }));
    assert_eq!(runner.step(0), Some(Action::Read { port: 0x11 }));
    assert_eq!(runner.step(0xfe), Some(Action::SpinHint));
    assert_eq!(runner.step(0), Some(Action::Read { port: 0x11 }));
    assert_eq!(runner.step(0x01), None);
    assert!(runner.is_finished());
    assert_eq!(runner.position(), 2);
}

#[test]
fn runner_reads_anew_for_each_of_two_waits_in_a_row() {
    let prog = vec![
        PortOp::WaitFor { port: 0x11, mask: 0x01 },
        PortOp::WaitFor { port: 0x12, mask: 0x80 },
        PortOp::Write { port: 0x10, data: 9 },
    ];
    let mut runner = Runner::new(prog);
    assert_eq!(runner.step(0xff), Some(Action::Read { port: 0x11 }));
    assert_eq!(runner.step(0x81), Some(Action::Read { port: 0x12 }));
    assert_eq!(runner.step(0x01), Some(Action::SpinHint));
    assert_eq!(runner.step(0x80), Some(Action::Read { port: 0x12 }));
    assert_eq!(runner.step(0x80), Some(Action::Write { port: 0x10, data: 9 }));
    assert_eq!(runner.step(0x80), None);
}

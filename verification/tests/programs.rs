use rust_kernel::diagnostic::{diagnostic_line, push_decimal, BANNER, LINE_END};
use rust_kernel::port::PortOp;
use rust_kernel::uart::{
    com_initialize, com_send_char, com_send_str, Writer, IO_ADDR_COM1, IO_ADDR_COM2,
};

fn write(port: u16, data: u8) -> PortOp {
    PortOp::Write { port, data }
}

fn wait(port: u16, mask: u8) -> PortOp {
    PortOp::WaitFor { port, mask }
}

#[test]
fn initialize_com2_writes_the_seven_registers_in_order() {
    let expected = vec![
        write(0x2f9, 0x00),
        write(0x2fb, 0x80),
        write(0x2f8, 0x01),
        write(0x2f9, 0x00),
        write(0x2fb, 0x03),
        write(0x2fa, 0xc7),
        write(0x2fc, 0x0b),
    ];
    assert_eq!(com_initialize(IO_ADDR_COM2), expected);
}

#[test]
fn initialize_com1_uses_its_own_base() {
    let expected = vec![
        write(0x3f9, 0x00),
        write(0x3fb, 0x80),
        write(0x3f8, 0x01),
        write(0x3f9, 0x00),
        write(0x3fb, 0x03),
        write(0x3fa, 0xc7),
        write(0x3fc, 0x0b),
    ];
    assert_eq!(com_initialize(IO_ADDR_COM1), expected);
}

#[test]
fn initialize_opens_the_divisor_latch_around_the_divisor() {
    let prog = com_initialize(0x100);
    let open = prog.iter().position(|op| *op == write(0x103, 0x80)).unwrap();
    let close = prog.iter().position(|op| *op == write(0x103, 0x03)).unwrap();
    let low = prog.iter().position(|op| *op == write(0x100, 0x01)).unwrap();
    assert!(open < low);
    assert_eq!(low + 1, close - 1);
    assert_eq!(prog[low + 1], write(0x101, 0x00));
}

#[test]
fn initialize_accepts_the_highest_base_with_a_modem_register() {
    let prog = com_initialize(0xfffb);
    assert_eq!(prog.len(), 7);
    assert_eq!(prog[6], write(0xffff, 0x0b));
}

#[test]
fn send_char_waits_for_the_transmitter_then_writes() {
    assert_eq!(com_send_char(0x2f8, 'O'), vec![wait(0x2fd, 0x20), write(0x2f8, 0x4f)]);
    assert_eq!(com_send_char(0x3f8, '\n'), vec![wait(0x3fd, 0x20), write(0x3f8, 0x0a)]);
}

#[test]
fn send_char_keeps_the_low_byte_of_the_code_point() {
    assert_eq!(com_send_char(0x2f8, '\u{e9}')[1], write(0x2f8, 0xe9));
    assert_eq!(com_send_char(0x2f8, '\u{100}')[1], write(0x2f8, 0x00));
    assert_eq!(com_send_char(0x2f8, '\u{1f600}')[1], write(0x2f8, 0x00));
    assert_eq!(com_send_char(0x2f8, '\u{20ac}')[1], write(0x2f8, 0xac));
}

#[test]
fn send_str_sends_each_character_in_order() {
    let prog = com_send_str(0x2f8, "OK");
    assert_eq!(
        prog,
        vec![wait(0x2fd, 0x20), write(0x2f8, 0x4f), wait(0x2fd, 0x20), write(0x2f8, 0x4b)]
    );
}

#[test]
fn send_str_of_nothing_is_the_empty_program() {
    assert_eq!(com_send_str(0x2f8, ""), Vec::<PortOp>::new());
}

#[test]
fn send_str_counts_characters_not_bytes() {
    let prog = com_send_str(0x3f8, "a\u{e9}\u{4e2d}z");
    assert_eq!(prog.len(), 8);
    let data: Vec<u8> = prog
        .iter()
        .filter_map(|op| match op {
            PortOp::Write { data, .. } => Some(*data),
            PortOp::WaitFor { .. } => None,
        })
        .collect();
    assert_eq!(data, vec![0x61, 0xe9, 0x2d, 0x7a]);
}

#[test]
fn send_str_is_send_char_for_each_character() {
    let text = "liumOS";
    let mut expected = Vec::new();
    for c in text.chars() {
        expected.extend(com_send_char(0x3f8, c));
    }
    assert_eq!(com_send_str(0x3f8, text), expected);
}

#[test]
fn sending_two_texts_is_sending_them_joined() {
    let mut both = com_send_str(0x2f8, "n = ");
    both.extend(com_send_str(0x2f8, "17\n\r"));
    assert_eq!(both, com_send_str(0x2f8, "n = 17\n\r"));
}

#[test]
fn writer_sends_on_the_second_serial_port() {
    let mut writer = Writer {};
    assert_eq!(writer.write_str("hi"), com_send_str(IO_ADDR_COM2, "hi"));
    assert_eq!(writer.write_str("h")[0], wait(0x2fd, 0x20));
    assert_eq!(writer.write_str("h")[1], write(0x2f8, 0x68));
}

#[test]
fn diagnostic_line_embeds_the_counter_in_decimal() {
    assert_eq!(diagnostic_line(0), "liumOS Rust kernel! n = 0\n\r");
    assert_eq!(diagnostic_line(7), "liumOS Rust kernel! n = 7\n\r");
    assert_eq!(diagnostic_line(10), "liumOS Rust kernel! n = 10\n\r");
    assert_eq!(diagnostic_line(12345), "liumOS Rust kernel! n = 12345\n\r");
    assert_eq!(diagnostic_line(1000000), "liumOS Rust kernel! n = 1000000\n\r");
}

#[test]
fn diagnostic_line_at_the_ends_of_the_counter_range() {
    assert_eq!(diagnostic_line(i32::MAX), "liumOS Rust kernel! n = 2147483647\n\r");
    assert_eq!(diagnostic_line(i32::MIN), "liumOS Rust kernel! n = -2147483648\n\r");
    assert_eq!(diagnostic_line(-1), "liumOS Rust kernel! n = -1\n\r");
}

#[test]
fn diagnostic_line_agrees_with_the_standard_formatter() {
    for n in [0, 1, 9, 10, 11, 99, 100, 101, 4096, 65535, 99999, -7, -10, -100, -2147483647] {
        assert_eq!(diagnostic_line(n), format!("{}{}{}", BANNER, n, LINE_END));
    }
}

#[test]
fn push_decimal_appends_to_what_is_there() {
    let mut text = String::from("x=");
    push_decimal(&mut text, 42);
    push_decimal(&mut text, -305);
    push_decimal(&mut text, 0);
    assert_eq!(text, "x=42-3050");
}

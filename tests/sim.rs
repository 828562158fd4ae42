use std::cell::RefCell;
use std::collections::VecDeque;
use std::rc::Rc;

use uart_16550::{
    BaudRate, DivisorLatch, FifoCtrlFlags, IntEnFlags, LineStsFlags, ModemCtrlFlags,
    ModemStsFlags, Reg, RegisterAccess, SerialPort, Uart16550, Uart16550Register,
    Uart16550Registers, WouldBlockError,
};

const BASE: usize = 0x1000;

/// Every access to any register of one simulated UART, in order.
type Log = Rc<RefCell<Vec<(usize, RegisterAccess)>>>;

/// A register that is a plain byte: reads take the scripted values one by
/// one, the last one over and over.
struct SimRegister {
    address: usize,
    reads: VecDeque<u8>,
    log: Log,
}

impl Uart16550Register for SimRegister {
    fn read(&mut self) -> u8 {
        let v = if self.reads.len() > 1 {
            self.reads.pop_front().unwrap()
        } else {
            *self.reads.front().unwrap_or(&0)
        };
        self.log.borrow_mut().push((self.address, RegisterAccess::Read(v)));
        v
    }

    fn write(&mut self, value: u8) {
        self.log.borrow_mut().push((self.address, RegisterAccess::Write(value)));
    }

    fn read_until_set(&mut self, mask: u8) -> u8 {
        for _ in 0..1000 {
            let v = self.read();
            if v & mask != 0 {
                return v;
            }
            std::hint::spin_loop();
        }
        panic!("the simulated bit never came up");
    }
}

/// A simulated UART at `BASE`, stride 1, whose line status reads `status`
/// and whose data register reads `data`.
fn sim(status: &[u8], data: &[u8]) -> (Uart16550Registers<SimRegister>, Log) {
    let log: Log = Rc::new(RefCell::new(Vec::new()));
    let l = log.clone();
    let status: Vec<u8> = status.to_vec();
    let data: Vec<u8> = data.to_vec();
    let regs = Uart16550Registers::new(BASE, move |a: usize| {
        let reads: VecDeque<u8> = if a == BASE + 5 {
            status.iter().copied().collect()
        } else if a == BASE {
            data.iter().copied().collect()
        } else {
            VecDeque::new()
        };
        SimRegister { address: a, reads, log: l.clone() }
    });
    (regs, log)
}

fn reg_at(address: usize) -> Reg {
    match address - BASE {
        0 => Reg::Data,
        1 => Reg::IntEn,
        2 => Reg::FifoCtrl,
        3 => Reg::LineCtrl,
        4 => Reg::ModemCtrl,
        5 => Reg::LineSts,
        _ => panic!("no register there"),
    }
}

fn events(log: &Log) -> Vec<(Reg, RegisterAccess)> {
    log.borrow().iter().map(|&(a, x)| (reg_at(a), x)).collect()
}

fn writes(log: &Log) -> Vec<(Reg, u8)> {
    events(log)
        .into_iter()
        .filter_map(|(r, x)| match x {
            RegisterAccess::Write(v) => Some((r, v)),
            _ => None,
        })
        .collect()
}

fn data_reads(log: &Log) -> Vec<u8> {
    events(log)
        .into_iter()
        .filter_map(|(r, x)| match (r, x) {
            (Reg::Data, RegisterAccess::Read(v)) => Some(v),
            _ => None,
        })
        .collect()
}

#[test]
fn send_plain_byte_writes_it_once() {
    for b in 0..=255u8 {
        if b == 0x08 || b == 0x7F {
            continue;
        }
        let (mut uart, log) = sim(&[0x20], &[]);
        uart.send(b);
        assert_eq!(writes(&log), vec![(Reg::Data, b)], "byte {:#x}", b);
    }
}

#[test]
fn send_line_feed_goes_out_unchanged() {
    let (mut uart, log) = sim(&[0x60], &[]);
    uart.send(0x0A);
    assert_eq!(writes(&log), vec![(Reg::Data, 0x0A)]);
}

#[test]
fn send_backspace_and_delete_erase() {
    for b in [0x08u8, 0x7F] {
        let (mut uart, log) = sim(&[0x20], &[]);
        uart.send(b);
        assert_eq!(
            writes(&log),
            vec![(Reg::Data, 0x08), (Reg::Data, 0x20), (Reg::Data, 0x08)]
        );
    }
}

#[test]
fn try_send_raw_follows_output_empty() {
    for status in 0..=255u8 {
        let (mut uart, log) = sim(&[status], &[]);
        let r = uart.try_send_raw(0x5A);
        if status & 0x20 != 0 {
            assert_eq!(r, Ok(()));
            assert_eq!(
                events(&log),
                vec![
                    (Reg::LineSts, RegisterAccess::Read(status)),
                    (Reg::Data, RegisterAccess::Write(0x5A)),
                ]
            );
        } else {
            assert_eq!(r, Err(WouldBlockError));
            assert_eq!(events(&log), vec![(Reg::LineSts, RegisterAccess::Read(status))]);
        }
    }
}

#[test]
fn try_receive_follows_input_full() {
    for status in 0..=255u8 {
        let (mut uart, log) = sim(&[status], &[0xC3]);
        let r = uart.try_receive();
        if status & 0x01 != 0 {
            assert_eq!(r, Ok(0xC3));
            assert_eq!(data_reads(&log), vec![0xC3]);
        } else {
            assert_eq!(r, Err(WouldBlockError));
            assert_eq!(data_reads(&log), Vec::<u8>::new());
        }
        assert!(writes(&log).is_empty());
    }
}

#[test]
fn init_writes_the_bring_up_sequence() {
    let (mut uart, log) = sim(&[0x00], &[]);
    uart.init();
    assert_eq!(
        events(&log),
        vec![
            (Reg::IntEn, RegisterAccess::Write(0x00)),
            (Reg::LineCtrl, RegisterAccess::Write(0x80)),
            (Reg::Data, RegisterAccess::Write(0x03)),
            (Reg::IntEn, RegisterAccess::Write(0x00)),
            (Reg::LineCtrl, RegisterAccess::Write(0x03)),
            (Reg::FifoCtrl, RegisterAccess::Write(0xC7)),
            (Reg::ModemCtrl, RegisterAccess::Write(0x0B)),
            (Reg::IntEn, RegisterAccess::Write(0x01)),
        ]
    );
}

#[test]
fn send_raw_waits_through_one_busy_poll() {
    let (mut uart, log) = sim(&[0x00, 0x20], &[]);
    uart.send_raw(0x41);
    assert_eq!(
        events(&log),
        vec![
            (Reg::LineSts, RegisterAccess::Read(0x00)),
            (Reg::LineSts, RegisterAccess::Read(0x20)),
            (Reg::Data, RegisterAccess::Write(0x41)),
        ]
    );
}

#[test]
fn send_raw_matches_try_send_raw_retried() {
    let (mut blocking, blocking_log) = sim(&[0x00, 0x40, 0x01, 0x20], &[]);
    blocking.send_raw(0x41);
    let (mut retried, retried_log) = sim(&[0x00, 0x40, 0x01, 0x20], &[]);
    let mut tries = 0;
    while retried.try_send_raw(0x41).is_err() {
        tries += 1;
    }
    assert_eq!(tries, 3);
    assert_eq!(events(&blocking_log), events(&retried_log));
}

#[test]
fn receive_waits_for_input_full() {
    let (mut uart, log) = sim(&[0x20, 0x00, 0x61], &[0x7E]);
    assert_eq!(uart.receive(), 0x7E);
    assert_eq!(
        events(&log),
        vec![
            (Reg::LineSts, RegisterAccess::Read(0x20)),
            (Reg::LineSts, RegisterAccess::Read(0x00)),
            (Reg::LineSts, RegisterAccess::Read(0x61)),
            (Reg::Data, RegisterAccess::Read(0x7E)),
        ]
    );
}

#[test]
fn write_str_sends_each_byte_in_order() {
    let (mut uart, log) = sim(&[0x20], &[]);
    uart.write_str("ok\x7F!\n");
    assert_eq!(
        writes(&log),
        vec![
            (Reg::Data, b'o'),
            (Reg::Data, b'k'),
            (Reg::Data, 0x08),
            (Reg::Data, 0x20),
            (Reg::Data, 0x08),
            (Reg::Data, b'!'),
            (Reg::Data, b'\n'),
        ]
    );
}

#[test]
fn write_str_sends_utf8_bytes() {
    let (mut uart, log) = sim(&[0x20], &[]);
    uart.write_str("é");
    assert_eq!(writes(&log), vec![(Reg::Data, 0xC3), (Reg::Data, 0xA9)]);
}

#[test]
fn line_sts_reads_once_and_keeps_every_bit() {
    let (mut uart, log) = sim(&[0xFF], &[]);
    let sts = uart.line_sts();
    assert_eq!(sts.bits(), 0xFF);
    assert!(sts.contains(LineStsFlags::OUTPUT_EMPTY | LineStsFlags::INPUT_FULL));
    assert_eq!(events(&log), vec![(Reg::LineSts, RegisterAccess::Read(0xFF))]);
}

#[test]
fn loopback_test_passes_on_echo() {
    let (mut uart, log) = sim(&[0x00], &[0xAE]);
    assert_eq!(uart.loopback_test(), Ok(()));
    assert_eq!(
        events(&log),
        vec![
            (Reg::IntEn, RegisterAccess::Write(0x00)),
            (Reg::ModemCtrl, RegisterAccess::Write(0x1E)),
            (Reg::Data, RegisterAccess::Write(0xAE)),
            (Reg::Data, RegisterAccess::Read(0xAE)),
            (Reg::ModemCtrl, RegisterAccess::Write(0x0B)),
            (Reg::IntEn, RegisterAccess::Write(0x01)),
        ]
    );
}

#[test]
fn loopback_test_fails_without_echo() {
    let (mut uart, log) = sim(&[0x00], &[0xFF]);
    assert_eq!(uart.loopback_test(), Err(()));
    assert_eq!(events(&log).len(), 4);
    assert_eq!(data_reads(&log), vec![0xFF]);
}

#[test]
fn register_addresses_follow_the_stride() {
    let seen: Rc<RefCell<Vec<usize>>> = Rc::new(RefCell::new(Vec::new()));
    let s = seen.clone();
    let log: Log = Rc::new(RefCell::new(Vec::new()));
    let l = log.clone();
    let mut uart = Uart16550Registers::new_with_stride(0x1000_0000, 4, move |a: usize| {
        s.borrow_mut().push(a);
        SimRegister { address: a, reads: VecDeque::new(), log: l.clone() }
    });
    assert_eq!(
        *seen.borrow(),
        vec![0x1000_0000, 0x1000_0004, 0x1000_0008, 0x1000_000C, 0x1000_0010, 0x1000_0014]
    );
    uart.init();
    let addresses: Vec<usize> = log.borrow().iter().map(|&(a, _)| a).collect();
    assert_eq!(
        addresses,
        vec![
            0x1000_0004,
            0x1000_000C,
            0x1000_0000,
            0x1000_0004,
            0x1000_000C,
            0x1000_0008,
            0x1000_0010,
            0x1000_0004,
        ]
    );
}

#[test]
fn serial_port_uses_consecutive_ports() {
    let log: Log = Rc::new(RefCell::new(Vec::new()));
    let l = log.clone();
    let mut port = SerialPort::new(0x3F8, move |p: u16| SimRegister {
        address: p as usize,
        reads: if p == 0x3FD { VecDeque::from(vec![0x20]) } else { VecDeque::new() },
        log: l.clone(),
    });
    assert_eq!(port.port_base(), 0x3F8);
    assert_eq!(port.port_data(), 0x3F8);
    assert_eq!(port.port_int_en(), 0x3F9);
    assert_eq!(port.port_fifo_ctrl(), 0x3FA);
    assert_eq!(port.port_line_ctrl(), 0x3FB);
    assert_eq!(port.port_modem_ctrl(), 0x3FC);
    assert_eq!(port.port_line_sts(), 0x3FD);
    port.init();
    port.send(b'x');
    let got: Vec<(usize, RegisterAccess)> = log.borrow().clone();
    assert_eq!(got[0], (0x3F9, RegisterAccess::Write(0x00)));
    assert_eq!(got[1], (0x3FB, RegisterAccess::Write(0x80)));
    assert_eq!(got[5], (0x3FA, RegisterAccess::Write(0xC7)));
    assert_eq!(got[6], (0x3FC, RegisterAccess::Write(0x0B)));
    assert_eq!(got[8], (0x3FD, RegisterAccess::Read(0x20)));
    assert_eq!(got[9], (0x3F8, RegisterAccess::Write(b'x')));
}

fn port_with(status: &[u8], data: &[u8]) -> (Log, impl Fn(u16) -> SimRegister) {
    let log: Log = Rc::new(RefCell::new(Vec::new()));
    let l = log.clone();
    let status: Vec<u8> = status.to_vec();
    let data: Vec<u8> = data.to_vec();
    (log, move |p: u16| SimRegister {
        address: p as usize,
        reads: if p == 0x2F8 {
            data.iter().copied().collect()
        } else if p == 0x2FD {
            status.iter().copied().collect()
        } else {
            VecDeque::new()
        },
        log: l.clone(),
    })
}

#[test]
fn try_create_initializes_and_checks() {
    let (log, connect) = port_with(&[0x00], &[0xAE]);
    let port = SerialPort::try_create(0x2F8, connect);
    assert!(port.is_ok());
    assert_eq!(log.borrow().len(), 8 + 6);
    assert_eq!(log.borrow()[11], (0x2F8, RegisterAccess::Read(0xAE)));
}

#[test]
fn try_create_fails_when_loopback_does_not_echo() {
    let (log, connect) = port_with(&[0x00], &[0x00]);
    let port = SerialPort::try_create(0x2F8, connect);
    assert!(port.is_err());
    assert_eq!(log.borrow().len(), 8 + 4);
}

#[test]
fn serial_port_non_blocking_operations() {
    let (log, connect) = port_with(&[0x01], &[0x99]);
    let mut port = SerialPort::new(0x2F8, connect);
    assert_eq!(port.try_receive(), Ok(0x99));
    assert_eq!(port.try_send_raw(1), Err(WouldBlockError));
    assert_eq!(log.borrow().len(), 3);
}

#[test]
fn validate_accepts_exactly_the_standard_divisors() {
    let standard: [(u8, u8); 10] = [
        (0x00, 0x09),
        (0x80, 0x01),
        (0x60, 0x00),
        (0x30, 0x00),
        (0x18, 0x00),
        (0x0C, 0x00),
        (0x06, 0x00),
        (0x03, 0x00),
        (0x02, 0x00),
        (0x01, 0x00),
    ];
    for low in 0..=255u8 {
        for high in 0..=255u8 {
            let expected = standard.contains(&(low, high));
            assert_eq!(DivisorLatch { low, high }.validate(), expected, "{:#x} {:#x}", low, high);
        }
    }
    assert!(!DivisorLatch { low: 0x80, high: 0x00 }.validate());
    assert!(!DivisorLatch { low: 0x03, high: 0x09 }.validate());
}

#[test]
fn divisor_for_each_rate() {
    let table = [
        (BaudRate::Baud50, 0x00, 0x09),
        (BaudRate::Baud300, 0x80, 0x01),
        (BaudRate::Baud1200, 0x60, 0x00),
        (BaudRate::Baud2400, 0x30, 0x00),
        (BaudRate::Baud4800, 0x18, 0x00),
        (BaudRate::Baud9600, 0x0C, 0x00),
        (BaudRate::Baud19200, 0x06, 0x00),
        (BaudRate::Baud38400, 0x03, 0x00),
        (BaudRate::Baud57600, 0x02, 0x00),
        (BaudRate::Baud115200, 0x01, 0x00),
    ];
    for (rate, low, high) in table {
        let latch = DivisorLatch::for_rate(rate);
        assert_eq!((latch.low, latch.high), (low, high));
        assert!(latch.validate());
    }
}

#[test]
fn flags_drop_unnamed_bits() {
    assert_eq!(IntEnFlags::from_bits_truncate(0xFF).bits(), 0x0F);
    assert_eq!(LineStsFlags::from_bits_truncate(0xFF).bits(), 0xFF);
    assert_eq!(ModemCtrlFlags::from_bits_truncate(0xFF).bits(), 0x1F);
    assert_eq!(ModemStsFlags::from_bits_truncate(0xA5).bits(), 0xA5);
    assert_eq!(FifoCtrlFlags::from_bits_truncate(0x30).bits(), 0x00);
}

#[test]
fn flags_decode_the_bring_up_values() {
    let fifo = FifoCtrlFlags::from_bits_truncate(0xC7);
    assert!(fifo.contains(
        FifoCtrlFlags::ENABLE
            | FifoCtrlFlags::CLEAR_RECEIVER
            | FifoCtrlFlags::CLEAR_TRANSMITTER
            | FifoCtrlFlags::TRIGGER_LOW
            | FifoCtrlFlags::TRIGGER_HIGH
    ));
    assert!(!fifo.contains(FifoCtrlFlags::DMA_MODE));
    let modem = ModemCtrlFlags::from_bits_truncate(0x0B);
    assert!(modem.contains(
        ModemCtrlFlags::DATA_TERMINAL_READY
            | ModemCtrlFlags::REQUEST_TO_SEND
            | ModemCtrlFlags::AUXILIARY_OUTPUT_2
    ));
    assert!(!modem.contains(ModemCtrlFlags::LOOPBACK));
    let int_en = IntEnFlags::from_bits_truncate(0x01);
    assert!(int_en.contains(IntEnFlags::RECEIVED));
    assert!(!int_en.contains(IntEnFlags::SENT));
    let sts = LineStsFlags::from_bits_truncate(0x60);
    assert!(sts.contains(LineStsFlags::OUTPUT_EMPTY | LineStsFlags::OUTPUT_IDLE));
    assert!(!sts.contains(LineStsFlags::INPUT_FULL));
}

#[test]
fn register_indices() {
    assert_eq!(Reg::Data.index(), 0);
    assert_eq!(Reg::IntEn.index(), 1);
    assert_eq!(Reg::FifoCtrl.index(), 2);
    assert_eq!(Reg::LineCtrl.index(), 3);
    assert_eq!(Reg::ModemCtrl.index(), 4);
    assert_eq!(Reg::LineSts.index(), 5);
}

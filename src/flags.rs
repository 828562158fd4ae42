use vstd::prelude::*;

verus! {

/// Interrupt enable flags: which events raise an interrupt.
///
/// Decoding drops the bits that have no name, so it never fails.
#[derive(Clone, Copy, Debug, PartialEq, Eq, Structural)]
pub struct IntEnFlags {
    bits: u8,
}

impl View for IntEnFlags {
    type V = u8;

    closed spec fn view(&self) -> u8 {
        self.bits
    }
}

impl IntEnFlags {
    /// Received data is available.
    pub const RECEIVED: u8 = 0x01;

    /// The transmitter holding register is empty.
    pub const SENT: u8 = 0x02;

    /// A receiver line status error occurred.
    pub const ERRORED: u8 = 0x04;

    /// A modem status input changed.
    pub const STATUS_CHANGE: u8 = 0x08;

    /// The bits that have a name.
    pub const ALL: u8 = 0x0F;

    /// Decodes a raw register value, dropping the bits that have no name.
    pub fn from_bits_truncate(bits: u8) -> (r: Self)
        ensures
            r@ == bits & 0x0F,
    {
        Self { bits: bits & Self::ALL }
    }

    /// The raw register value.
    pub fn bits(&self) -> (r: u8)
        ensures
            r == self@,
    {
        self.bits
    }

    /// Whether every bit of `flags` is set.
    pub fn contains(&self, flags: u8) -> (r: bool)
        ensures
            r == (self@ & flags == flags),
    {
        self.bits & flags == flags
    }
}

/// Line status flags: readiness and errors of the serial line.
///
/// Decoding drops the bits that have no name, so it never fails.
#[derive(Clone, Copy, Debug, PartialEq, Eq, Structural)]
pub struct LineStsFlags {
    bits: u8,
}

impl View for LineStsFlags {
    type V = u8;

    closed spec fn view(&self) -> u8 {
        self.bits
    }
}

impl LineStsFlags {
    /// A received byte is waiting in the data register (data ready).
    pub const INPUT_FULL: u8 = 0x01;

    /// A received byte was lost because the previous one was not read.
    pub const OVERRUN_ERROR: u8 = 0x02;

    /// A received byte had the wrong parity.
    pub const PARITY_ERROR: u8 = 0x04;

    /// A received byte had no valid stop bit.
    pub const FRAMING_ERROR: u8 = 0x08;

    /// The line was held low for longer than a whole character.
    pub const BREAK_INTERRUPT: u8 = 0x10;

    /// The transmitter can take another byte.
    pub const OUTPUT_EMPTY: u8 = 0x20;

    /// The transmitter is empty and the line is idle.
    pub const OUTPUT_IDLE: u8 = 0x40;

    /// At least one byte in the receive FIFO has an error.
    pub const FIFO_ERROR: u8 = 0x80;

    /// The bits that have a name.
    pub const ALL: u8 = 0xFF;

    /// Decodes a raw register value, dropping the bits that have no name.
    pub fn from_bits_truncate(bits: u8) -> (r: Self)
        ensures
            r@ == bits & 0xFF,
    {
        Self { bits: bits & Self::ALL }
    }

    /// The raw register value.
    pub fn bits(&self) -> (r: u8)
        ensures
            r == self@,
    {
        self.bits
    }

    /// Whether every bit of `flags` is set.
    pub fn contains(&self, flags: u8) -> (r: bool)
        ensures
            r == (self@ & flags == flags),
    {
        self.bits & flags == flags
    }
}

/// Modem control flags: the outputs that the UART drives.
///
/// Decoding drops the bits that have no name, so it never fails.
#[derive(Clone, Copy, Debug, PartialEq, Eq, Structural)]
pub struct ModemCtrlFlags {
    bits: u8,
}

impl View for ModemCtrlFlags {
    type V = u8;

    closed spec fn view(&self) -> u8 {
        self.bits
    }
}

impl ModemCtrlFlags {
    /// Assert data terminal ready.
    pub const DATA_TERMINAL_READY: u8 = 0x01;

    /// Assert request to send.
    pub const REQUEST_TO_SEND: u8 = 0x02;

    /// Drive auxiliary output 1.
    pub const AUXILIARY_OUTPUT_1: u8 = 0x04;

    /// Drive auxiliary output 2, commonly wired as the interrupt line.
    pub const AUXILIARY_OUTPUT_2: u8 = 0x08;

    /// Connect the transmitter to the receiver inside the chip.
    pub const LOOPBACK: u8 = 0x10;

    /// The bits that have a name.
    pub const ALL: u8 = 0x1F;

    /// Decodes a raw register value, dropping the bits that have no name.
    pub fn from_bits_truncate(bits: u8) -> (r: Self)
        ensures
            r@ == bits & 0x1F,
    {
        Self { bits: bits & Self::ALL }
    }

    /// The raw register value.
    pub fn bits(&self) -> (r: u8)
        ensures
            r == self@,
    {
        self.bits
    }

    /// Whether every bit of `flags` is set.
    pub fn contains(&self, flags: u8) -> (r: bool)
        ensures
            r == (self@ & flags == flags),
    {
        self.bits & flags == flags
    }
}

/// Modem status flags: the inputs that the UART senses, and their changes.
///
/// Decoding drops the bits that have no name, so it never fails.
#[derive(Clone, Copy, Debug, PartialEq, Eq, Structural)]
pub struct ModemStsFlags {
    bits: u8,
}

impl View for ModemStsFlags {
    type V = u8;

    closed spec fn view(&self) -> u8 {
        self.bits
    }
}

impl ModemStsFlags {
    /// Clear to send changed since the last read.
    pub const CLEAR_TO_SEND_CHANGED: u8 = 0x01;

    /// Data set ready changed since the last read.
    pub const DATA_SET_READY_CHANGED: u8 = 0x02;

    /// The ring indicator went inactive.
    pub const RING_ENDED: u8 = 0x04;

    /// Data carrier detect changed since the last read.
    pub const CARRIER_DETECT_CHANGED: u8 = 0x08;

    /// Clear to send is asserted.
    pub const CLEAR_TO_SEND: u8 = 0x10;

    /// Data set ready is asserted.
    pub const DATA_SET_READY: u8 = 0x20;

    /// The ring indicator is asserted.
    pub const RING_INDICATOR: u8 = 0x40;

    /// Data carrier detect is asserted.
    pub const CARRIER_DETECT: u8 = 0x80;

    /// The bits that have a name.
    pub const ALL: u8 = 0xFF;

    /// Decodes a raw register value, dropping the bits that have no name.
    pub fn from_bits_truncate(bits: u8) -> (r: Self)
        ensures
            r@ == bits & 0xFF,
    {
        Self { bits: bits & Self::ALL }
    }

    /// The raw register value.
    pub fn bits(&self) -> (r: u8)
        ensures
            r == self@,
    {
        self.bits
    }

    /// Whether every bit of `flags` is set.
    pub fn contains(&self, flags: u8) -> (r: bool)
        ensures
            r == (self@ & flags == flags),
    {
        self.bits & flags == flags
    }
}

/// FIFO control flags.
///
/// Decoding drops the bits that have no name, so it never fails.
#[derive(Clone, Copy, Debug, PartialEq, Eq, Structural)]
pub struct FifoCtrlFlags {
    bits: u8,
}

impl View for FifoCtrlFlags {
    type V = u8;

    closed spec fn view(&self) -> u8 {
        self.bits
    }
}

impl FifoCtrlFlags {
    /// Enable the receive and transmit FIFOs.
    pub const ENABLE: u8 = 0x01;

    /// Empty the receive FIFO.
    pub const CLEAR_RECEIVER: u8 = 0x02;

    /// Empty the transmit FIFO.
    pub const CLEAR_TRANSMITTER: u8 = 0x04;

    /// Select DMA mode 1.
    pub const DMA_MODE: u8 = 0x08;

    /// Low bit of the receive interrupt watermark (1, 4, 8 or 14 bytes).
    pub const TRIGGER_LOW: u8 = 0x40;

    /// High bit of the receive interrupt watermark (1, 4, 8 or 14 bytes).
    pub const TRIGGER_HIGH: u8 = 0x80;

    /// The bits that have a name.
    pub const ALL: u8 = 0xCF;

    /// Decodes a raw register value, dropping the bits that have no name.
    pub fn from_bits_truncate(bits: u8) -> (r: Self)
        ensures
            r@ == bits & 0xCF,
    {
        Self { bits: bits & Self::ALL }
    }

    /// The raw register value.
    pub fn bits(&self) -> (r: u8)
        ensures
            r == self@,
    {
        self.bits
    }

    /// Whether every bit of `flags` is set.
    pub fn contains(&self, flags: u8) -> (r: bool)
        ensures
            r == (self@ & flags == flags),
    {
        self.bits & flags == flags
    }
}

} // verus!

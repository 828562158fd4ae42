use vstd::prelude::*;

verus! {

/// The standard baud rates, for a 1.8432 MHz reference clock.
#[derive(Clone, Copy, Debug, PartialEq, Eq, Structural)]
pub enum BaudRate {
    /// 50 bits per second.
    Baud50,
    /// 300 bits per second.
    Baud300,
    /// 1200 bits per second.
    Baud1200,
    /// 2400 bits per second.
    Baud2400,
    /// 4800 bits per second.
    Baud4800,
    /// 9600 bits per second.
    Baud9600,
    /// 19200 bits per second.
    Baud19200,
    /// 38400 bits per second.
    Baud38400,
    /// 57600 bits per second.
    Baud57600,
    /// 115200 bits per second.
    Baud115200,
}

/// The divisor, low byte first, that selects `rate`.
pub open spec fn latch_of(rate: BaudRate) -> (u8, u8) {
    match rate {
        BaudRate::Baud50 => (0x00, 0x09),
        BaudRate::Baud300 => (0x80, 0x01),
        BaudRate::Baud1200 => (0x60, 0x00),
        BaudRate::Baud2400 => (0x30, 0x00),
        BaudRate::Baud4800 => (0x18, 0x00),
        BaudRate::Baud9600 => (0x0C, 0x00),
        BaudRate::Baud19200 => (0x06, 0x00),
        BaudRate::Baud38400 => (0x03, 0x00),
        BaudRate::Baud57600 => (0x02, 0x00),
        BaudRate::Baud115200 => (0x01, 0x00),
    }
}

/// Whether `(low, high)` is one of the ten divisors of a standard rate.
pub open spec fn is_standard_latch(low: u8, high: u8) -> bool {
    ||| (low, high) == (0x00u8, 0x09u8)
    ||| (low, high) == (0x80u8, 0x01u8)
    ||| (low, high) == (0x60u8, 0x00u8)
    ||| (low, high) == (0x30u8, 0x00u8)
    ||| (low, high) == (0x18u8, 0x00u8)
    ||| (low, high) == (0x0Cu8, 0x00u8)
    ||| (low, high) == (0x06u8, 0x00u8)
    ||| (low, high) == (0x03u8, 0x00u8)
    ||| (low, high) == (0x02u8, 0x00u8)
    ||| (low, high) == (0x01u8, 0x00u8)
}

/// The two divisor-latch bytes, written to the data and interrupt-enable
/// offsets while the divisor-latch access bit is set.
#[derive(Clone, Copy, Debug, PartialEq, Eq, Structural)]
pub struct DivisorLatch {
    /// Low byte of the divisor.
    pub low: u8,
    /// High byte of the divisor.
    pub high: u8,
}

impl DivisorLatch {
    /// The divisor that selects `rate`.
    pub fn for_rate(rate: BaudRate) -> (r: Self)
        ensures
            (r.low, r.high) == latch_of(rate),
    {
        match rate {
            BaudRate::Baud50 => DivisorLatch { low: 0x00, high: 0x09 },
            BaudRate::Baud300 => DivisorLatch { low: 0x80, high: 0x01 },
            BaudRate::Baud1200 => DivisorLatch { low: 0x60, high: 0x00 },
            BaudRate::Baud2400 => DivisorLatch { low: 0x30, high: 0x00 },
            BaudRate::Baud4800 => DivisorLatch { low: 0x18, high: 0x00 },
            BaudRate::Baud9600 => DivisorLatch { low: 0x0C, high: 0x00 },
            BaudRate::Baud19200 => DivisorLatch { low: 0x06, high: 0x00 },
            BaudRate::Baud38400 => DivisorLatch { low: 0x03, high: 0x00 },
            BaudRate::Baud57600 => DivisorLatch { low: 0x02, high: 0x00 },
            BaudRate::Baud115200 => DivisorLatch { low: 0x01, high: 0x00 },
        }
    }

    /// Whether the pair is the divisor of a standard rate. A pair whose bytes
    /// each occur in some standard divisor, but not together, is not.
    pub fn validate(&self) -> (r: bool)
        ensures
            r == is_standard_latch(self.low, self.high),
    {
        match self.high {
            0x09 => self.low == 0x00,
            0x01 => self.low == 0x80,
            0x00 => match self.low {
                0x60 | 0x30 | 0x18 | 0x0C | 0x06 | 0x03 | 0x02 | 0x01 => true,
                _ => false,
            },
            _ => false,
        }
    }
}

/// A pair of bytes passes `validate` exactly when `for_rate` gives it for
/// some standard rate.
pub proof fn lemma_standard_latch_iff_rate(low: u8, high: u8)
    ensures
        is_standard_latch(low, high) <==> exists|rate: BaudRate| latch_of(rate) == (low, high),
{
    if is_standard_latch(low, high) {
        let rate = if (low, high) == (0x00u8, 0x09u8) {
            BaudRate::Baud50
        } else if (low, high) == (0x80u8, 0x01u8) {
            BaudRate::Baud300
        } else if (low, high) == (0x60u8, 0x00u8) {
            BaudRate::Baud1200
        } else if (low, high) == (0x30u8, 0x00u8) {
            BaudRate::Baud2400
        } else if (low, high) == (0x18u8, 0x00u8) {
            BaudRate::Baud4800
        } else if (low, high) == (0x0Cu8, 0x00u8) {
            BaudRate::Baud9600
        } else if (low, high) == (0x06u8, 0x00u8) {
            BaudRate::Baud19200
        } else if (low, high) == (0x03u8, 0x00u8) {
            BaudRate::Baud38400
        } else if (low, high) == (0x02u8, 0x00u8) {
            BaudRate::Baud57600
        } else {
            BaudRate::Baud115200
        };
        assert(latch_of(rate) == (low, high));
    }
}

} // verus!

use vstd::prelude::*;

verus! {

/// One access to a single byte-wide register.
#[derive(Clone, Copy, Debug, PartialEq, Eq, Structural)]
pub enum RegisterAccess {
    /// A read that returned the byte.
    Read(u8),
    /// A write of the byte.
    Write(u8),
}

/// The registers of a 16550, in the order of their offsets from the base.
#[derive(Clone, Copy, Debug, PartialEq, Eq, Structural)]
pub enum Reg {
    /// Receive/transmit data (offset 0).
    Data,
    /// Interrupt enable (offset 1).
    IntEn,
    /// FIFO control (offset 2).
    FifoCtrl,
    /// Line control (offset 3).
    LineCtrl,
    /// Modem control (offset 4).
    ModemCtrl,
    /// Line status (offset 5).
    LineSts,
}

impl Reg {
    /// Offset of the register from the base, in units of the register stride.
    pub open spec fn spec_index(self) -> nat {
        match self {
            Reg::Data => 0,
            Reg::IntEn => 1,
            Reg::FifoCtrl => 2,
            Reg::LineCtrl => 3,
            Reg::ModemCtrl => 4,
            Reg::LineSts => 5,
        }
    }

    /// Offset of the register from the base, in units of the register stride.
    pub fn index(self) -> (r: usize)
        ensures
            r == self.spec_index(),
    {
        match self {
            Reg::Data => 0,
            Reg::IntEn => 1,
            Reg::FifoCtrl => 2,
            Reg::LineCtrl => 3,
            Reg::ModemCtrl => 4,
            Reg::LineSts => 5,
        }
    }
}

/// Whether every access of `h` is a read.
pub open spec fn all_reads(h: Seq<RegisterAccess>) -> bool {
    forall|i: int| 0 <= i < h.len() ==> #[trigger] h[i] is Read
}

/// `h` is what a register saw while it was polled until a read showed one of
/// the bits of `mask`: one or more reads, of which only the last has such a bit.
pub open spec fn polled_until(h: Seq<RegisterAccess>, mask: u8) -> bool {
    &&& h.len() > 0
    &&& all_reads(h)
    &&& forall|i: int| 0 <= i < h.len() - 1 ==> (#[trigger] h[i])->Read_0 & mask == 0
    &&& h.last()->Read_0 & mask != 0
}

/// Access to one byte-wide hardware register.
///
/// Every access is a side effect on the device, so reads take `&mut self` too.
pub trait Uart16550Register {
    /// The accesses made through this handle so far, oldest first.
    ///
    /// This is the model that the contracts below speak of. Verus treats it
    /// as unknown for every handle type; the body only lets handles written
    /// outside verified code leave it out.
    closed spec fn accesses(&self) -> Seq<RegisterAccess> {
        Seq::empty()
    }

    /// Reads the register once.
    fn read(&mut self) -> (r: u8)
        ensures
            final(self).accesses() == old(self).accesses().push(RegisterAccess::Read(r)),
    ;

    /// Writes `value` to the register once.
    fn write(&mut self, value: u8)
        ensures
            final(self).accesses() == old(self).accesses().push(RegisterAccess::Write(value)),
    ;

    /// Reads the register over and over, with a spin-loop hint between reads,
    /// until a read shows one of the bits of `mask`; returns that value.
    ///
    /// There is no bound on the number of reads: on hardware whose bit never
    /// comes up, this does not return.
    fn read_until_set(&mut self, mask: u8) -> (r: u8)
        requires
            mask != 0,
        ensures
            exists|h: Seq<RegisterAccess>|
                {
                    &&& polled_until(h, mask)
                    &&& h.last() == RegisterAccess::Read(r)
                    &&& final(self).accesses() == old(self).accesses() + h
                },
    ;
}

} // verus!

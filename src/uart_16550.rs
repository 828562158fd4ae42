use vstd::prelude::*;
use vstd::string::StringSliceAdditionalSpecFns;

use crate::flags::LineStsFlags;
use crate::register::{polled_until, Reg, RegisterAccess, Uart16550Register};
use crate::trace::{
    data_writes, follows, input_full_mask, lemma_follows_trans, lemma_on_register_one,
    lemma_on_register_tag, lemma_transmitted_none, lemma_transmitted_one, lemma_transmitted_trans,
    lemma_transmitted_writes, on_register, output_empty_mask, poll_and_send, tag, transmitted,
    writes_in, Event, Traced,
};

verus! {

/// The one error of the non-blocking operations: the byte could not be
/// transferred without waiting.
#[derive(Clone, Copy, Debug, PartialEq, Eq, Structural)]
pub struct WouldBlockError;

/// The writes that bring a 16550 to 38400 baud, 8 data bits, no parity, one
/// stop bit, with the FIFOs on, in order.
pub open spec fn init_events() -> Seq<Event> {
    seq![
        (Reg::IntEn, RegisterAccess::Write(0x00)),
        (Reg::LineCtrl, RegisterAccess::Write(0x80)),
        (Reg::Data, RegisterAccess::Write(0x03)),
        (Reg::IntEn, RegisterAccess::Write(0x00)),
        (Reg::LineCtrl, RegisterAccess::Write(0x03)),
        (Reg::FifoCtrl, RegisterAccess::Write(0xC7)),
        (Reg::ModemCtrl, RegisterAccess::Write(0x0B)),
        (Reg::IntEn, RegisterAccess::Write(0x01)),
    ]
}

/// What `send` puts on the line for `b`: backspace and delete become
/// backspace, space, backspace, so that a terminal erases the last character;
/// every other byte, line feed included, goes out unchanged.
pub open spec fn expansion(b: u8) -> Seq<u8> {
    if b == 0x08 || b == 0x7F {
        seq![0x08u8, 0x20u8, 0x08u8]
    } else {
        seq![b]
    }
}

/// What `send` puts on the line for each byte of `s`, in order.
pub open spec fn expand_all(s: Seq<u8>) -> Seq<u8>
    decreases s.len(),
{
    if s.len() == 0 {
        Seq::empty()
    } else {
        expand_all(s.drop_last()) + expansion(s.last())
    }
}

/// The events of one non-blocking send of `b` whose line-status read gave `status`.
pub open spec fn try_send_events(status: u8, b: u8) -> Seq<Event> {
    if status & output_empty_mask() != 0 {
        seq![(Reg::LineSts, RegisterAccess::Read(status)), (Reg::Data, RegisterAccess::Write(b))]
    } else {
        seq![(Reg::LineSts, RegisterAccess::Read(status))]
    }
}

/// A non-blocking send writes nothing when the line status it read lacks
/// the output-empty bit, and writes `b` to the data register once when it
/// has it.
pub proof fn lemma_try_send_writes(status: u8, b: u8)
    ensures
        writes_in(try_send_events(status, b)) == if status & output_empty_mask() != 0 {
            seq![(Reg::Data, b)]
        } else {
            Seq::<(Reg, u8)>::empty()
        },
{
    let t = try_send_events(status, b);
    if status & output_empty_mask() != 0 {
        assert(t.drop_last().drop_last() =~= Seq::<Event>::empty());
        assert(writes_in(t.drop_last().drop_last()) == Seq::<(Reg, u8)>::empty());
        assert(writes_in(t.drop_last()) == Seq::<(Reg, u8)>::empty());
        assert(writes_in(t) =~= seq![(Reg::Data, b)]);
    } else {
        assert(t.drop_last() =~= Seq::<Event>::empty());
        assert(writes_in(t.drop_last()) == Seq::<(Reg, u8)>::empty());
    }
}

/// The events of non-blocking sends of `b`, one per line-status value that
/// `h` read, in order.
pub open spec fn retried_sends(h: Seq<RegisterAccess>, b: u8) -> Seq<Event>
    decreases h.len(),
{
    if h.len() == 0 {
        Seq::empty()
    } else {
        retried_sends(h.drop_last(), b) + try_send_events(h.last()->Read_0, b)
    }
}

proof fn lemma_retried_sends_busy(h: Seq<RegisterAccess>, b: u8)
    requires
        forall|i: int| 0 <= i < h.len() ==> #[trigger] h[i] is Read,
        forall|i: int| 0 <= i < h.len() ==> (#[trigger] h[i])->Read_0 & output_empty_mask() == 0,
    ensures
        retried_sends(h, b) == tag(Reg::LineSts, h),
    decreases h.len(),
{
    if h.len() > 0 {
        let n = h.len() - 1;
        assert(h[n] is Read && h[n]->Read_0 & output_empty_mask() == 0);
        assert forall|i: int| 0 <= i < h.drop_last().len() implies #[trigger] h.drop_last()[i] is Read
            && h.drop_last()[i]->Read_0 & output_empty_mask() == 0 by {
            assert(h.drop_last()[i] == h[i]);
        }
        lemma_retried_sends_busy(h.drop_last(), b);
        assert(h[n] == RegisterAccess::Read(h[n]->Read_0));
        assert(tag(Reg::LineSts, h) =~= tag(Reg::LineSts, h.drop_last()) + seq![
            (Reg::LineSts, h[n]),
        ]);
    }
}

/// A blocking send of `b` makes exactly the accesses of non-blocking sends of
/// `b` retried until one succeeds: each poll is the status read of one try.
pub proof fn lemma_send_raw_is_retried_try(h: Seq<RegisterAccess>, b: u8)
    requires
        polled_until(h, output_empty_mask()),
    ensures
        poll_and_send(h, b) == retried_sends(h, b),
{
    let n = h.len() - 1;
    let busy = h.drop_last();
    assert forall|i: int| 0 <= i < busy.len() implies #[trigger] busy[i] is Read
        && busy[i]->Read_0 & output_empty_mask() == 0 by {
        assert(busy[i] == h[i]);
    }
    lemma_retried_sends_busy(busy, b);
    assert(h[n] is Read);
    assert(h[n] == RegisterAccess::Read(h[n]->Read_0));
    assert(poll_and_send(h, b) =~= tag(Reg::LineSts, busy) + try_send_events(h.last()->Read_0, b));
}

/// The events of one non-blocking receive whose line-status read gave
/// `status` and whose result was `r`.
pub open spec fn try_receive_events(status: u8, r: Result<u8, WouldBlockError>) -> Seq<Event> {
    match r {
        Ok(d) => seq![(Reg::LineSts, RegisterAccess::Read(status)), (Reg::Data, RegisterAccess::Read(d))],
        Err(_) => seq![(Reg::LineSts, RegisterAccess::Read(status))],
    }
}

/// The events of one blocking receive of `d`, whose polls of the line status saw `h`.
pub open spec fn receive_events(h: Seq<RegisterAccess>, d: u8) -> Seq<Event> {
    tag(Reg::LineSts, h).push((Reg::Data, RegisterAccess::Read(d)))
}

/// The events of the loopback test whose read of the data register gave `echo`.
pub open spec fn loopback_events(echo: u8) -> Seq<Event> {
    let probe = seq![
        (Reg::IntEn, RegisterAccess::Write(0x00)),
        (Reg::ModemCtrl, RegisterAccess::Write(0x1E)),
        (Reg::Data, RegisterAccess::Write(0xAE)),
        (Reg::Data, RegisterAccess::Read(echo)),
    ];
    if echo == 0xAE {
        probe + seq![(Reg::ModemCtrl, RegisterAccess::Write(0x0B)), (Reg::IntEn, RegisterAccess::Write(0x01))]
    } else {
        probe
    }
}

/// A blocking send of any byte but backspace and delete writes that byte to
/// the data register once, and writes nothing else.
pub proof fn lemma_send_plain_byte(before: Seq<Event>, after: Seq<Event>, b: u8)
    requires
        b != 0x08,
        b != 0x7F,
        transmitted(before, after, expansion(b)),
    ensures
        writes_in(after.subrange(before.len() as int, after.len() as int)) == seq![(Reg::Data, b)],
{
    lemma_transmitted_writes(before, after, expansion(b));
    assert(data_writes(seq![b]) =~= seq![(Reg::Data, b)]);
}

/// A blocking send of backspace or delete writes backspace, space, backspace
/// to the data register, in that order, and writes nothing else.
pub proof fn lemma_send_erase(before: Seq<Event>, after: Seq<Event>, b: u8)
    requires
        b == 0x08 || b == 0x7F,
        transmitted(before, after, expansion(b)),
    ensures
        writes_in(after.subrange(before.len() as int, after.len() as int)) == seq![
            (Reg::Data, 0x08u8),
            (Reg::Data, 0x20u8),
            (Reg::Data, 0x08u8),
        ],
{
    lemma_transmitted_writes(before, after, expansion(b));
    assert(data_writes(seq![0x08u8, 0x20u8, 0x08u8]) =~= seq![
        (Reg::Data, 0x08u8),
        (Reg::Data, 0x20u8),
        (Reg::Data, 0x08u8),
    ]);
}

/// A 16550-compatible UART, whatever connects it.
///
/// `events` is every register access made through the UART, in order; every
/// operation also `follows`, so each register handle saw exactly the new
/// events that went to its register.
pub trait Uart16550: Traced + Sized {
    /// Initializes the UART to 38400 baud, 8 data bits, no parity, one stop
    /// bit, FIFOs on, and the received-data interrupt on.
    fn init(&mut self)
        ensures
            follows(*old(self), *final(self)),
            final(self).events() == old(self).events() + init_events(),
    ;

    /// Reads the line status once.
    fn line_sts(&mut self) -> (r: LineStsFlags)
        ensures
            follows(*old(self), *final(self)),
            final(self).events() == old(self).events().push(
                (Reg::LineSts, RegisterAccess::Read(r@)),
            ),
    ;

    /// Sends a byte, with backspace and delete turned into backspace, space,
    /// backspace. Blocks until the transmitter takes each byte.
    fn send(&mut self, data: u8)
        ensures
            follows(*old(self), *final(self)),
            transmitted(old(self).events(), final(self).events(), expansion(data)),
    ;

    /// Sends a byte as it is. Blocks until the transmitter takes it.
    fn send_raw(&mut self, data: u8)
        ensures
            follows(*old(self), *final(self)),
            transmitted(old(self).events(), final(self).events(), seq![data]),
    ;

    /// Sends a byte as it is if the transmitter can take it now.
    fn try_send_raw(&mut self, data: u8) -> (r: Result<(), WouldBlockError>)
        ensures
            follows(*old(self), *final(self)),
            exists|status: u8|
                {
                    &&& final(self).events() == old(self).events() + try_send_events(status, data)
                    &&& r is Ok <==> status & output_empty_mask() != 0
                },
    ;

    /// Receives a byte. Blocks until one is waiting.
    fn receive(&mut self) -> (r: u8)
        ensures
            follows(*old(self), *final(self)),
            exists|h: Seq<RegisterAccess>|
                {
                    &&& polled_until(h, input_full_mask())
                    &&& final(self).events() == old(self).events() + receive_events(h, r)
                },
    ;

    /// Receives a byte if one is waiting now.
    fn try_receive(&mut self) -> (r: Result<u8, WouldBlockError>)
        ensures
            follows(*old(self), *final(self)),
            exists|status: u8|
                {
                    &&& final(self).events() == old(self).events() + try_receive_events(status, r)
                    &&& r is Ok <==> status & input_full_mask() != 0
                },
    ;

    /// Sends each byte of `s` through `send`, in order.
    fn write_str(&mut self, s: &str)
        ensures
            follows(*old(self), *final(self)),
            transmitted(old(self).events(), final(self).events(), expand_all(s.spec_bytes())),
    ;
}

/// Address of `reg` in a register set at `base` whose registers lie `stride` apart.
pub open spec fn address_of(base: int, stride: int, reg: Reg) -> int {
    base + reg.spec_index() * stride
}

/// With a stride of at least one, the six registers lie at distinct
/// addresses, in the order of their offsets.
pub proof fn lemma_addresses_increase(base: int, stride: int, a: Reg, b: Reg)
    requires
        stride >= 1,
        a.spec_index() < b.spec_index(),
    ensures
        address_of(base, stride, a) < address_of(base, stride, b),
{
    let i = a.spec_index() as int;
    let j = b.spec_index() as int;
    assert(i * stride < j * stride) by (nonlinear_arith)
        requires
            stride >= 1,
            i < j,
    ;
}

proof fn lemma_scaled_index(reg: Reg, stride: int)
    ensures
        reg.spec_index() * stride == match reg {
            Reg::Data => 0,
            Reg::IntEn => stride,
            Reg::FifoCtrl => 2 * stride,
            Reg::LineCtrl => 3 * stride,
            Reg::ModemCtrl => 4 * stride,
            Reg::LineSts => 5 * stride,
        },
{
    let k = reg.spec_index() as int;
    assert(k * stride == k * stride);
    assert(0 <= k <= 5);
    assert(k == 0 ==> k * stride == 0) by (nonlinear_arith);
    assert(k == 1 ==> k * stride == stride) by (nonlinear_arith);
    assert(k == 2 ==> k * stride == 2 * stride) by (nonlinear_arith);
    assert(k == 3 ==> k * stride == 3 * stride) by (nonlinear_arith);
    assert(k == 4 ==> k * stride == 4 * stride) by (nonlinear_arith);
    assert(k == 5 ==> k * stride == 5 * stride) by (nonlinear_arith);
}

/// The six registers of one 16550, and the order of every access made through them.
///
/// Each access goes through one private method that performs it on the
/// register's handle and records it in the trace; `follows` ties the two.
pub struct Uart16550Registers<R> where R: Uart16550Register {
    data: R,
    int_en: R,
    fifo_ctrl: R,
    line_ctrl: R,
    modem_ctrl: R,
    line_sts: R,
    /// Every access made through this set, in order.
    trace: Ghost<Seq<Event>>,
}

impl<R: Uart16550Register> Traced for Uart16550Registers<R> {
    closed spec fn events(&self) -> Seq<Event> {
        self.trace@
    }

    closed spec fn accesses_of(&self, reg: Reg) -> Seq<RegisterAccess> {
        self.register(reg).accesses()
    }
}

impl<R: Uart16550Register> Uart16550Registers<R> {
    /// The handle of `reg`.
    pub closed spec fn register(&self, reg: Reg) -> R {
        match reg {
            Reg::Data => self.data,
            Reg::IntEn => self.int_en,
            Reg::FifoCtrl => self.fifo_ctrl,
            Reg::LineCtrl => self.line_ctrl,
            Reg::ModemCtrl => self.modem_ctrl,
            Reg::LineSts => self.line_sts,
        }
    }

    /// The accesses that `follows` speaks of for `reg` are those of its handle.
    pub proof fn lemma_accesses_of(&self, reg: Reg)
        ensures
            self.accesses_of(reg) == self.register(reg).accesses(),
    {
    }

    /// Builds a register set from the handles of its six registers.
    pub(crate) fn from_parts(
        data: R,
        int_en: R,
        fifo_ctrl: R,
        line_ctrl: R,
        modem_ctrl: R,
        line_sts: R,
    ) -> (r: Self)
        ensures
            r.events() == Seq::<Event>::empty(),
            r.register(Reg::Data) == data,
            r.register(Reg::IntEn) == int_en,
            r.register(Reg::FifoCtrl) == fifo_ctrl,
            r.register(Reg::LineCtrl) == line_ctrl,
            r.register(Reg::ModemCtrl) == modem_ctrl,
            r.register(Reg::LineSts) == line_sts,
    {
        Uart16550Registers {
            data,
            int_en,
            fifo_ctrl,
            line_ctrl,
            modem_ctrl,
            line_sts,
            trace: Ghost(Seq::empty()),
        }
    }

    /// Builds the register set of the UART whose registers lie `stride` apart
    /// from `base` on: `connect(a)` gives the handle of the register at address `a`.
    pub fn new_with_stride<F: Fn(usize) -> R>(base: usize, stride: usize, connect: F) -> (r: Self)
        requires
            base + 5 * stride <= usize::MAX,
            forall|a: usize| connect.requires((a,)),
        ensures
            r.events() == Seq::<Event>::empty(),
            forall|reg: Reg|
                connect.ensures(
                    (address_of(base as int, stride as int, reg) as usize,),
                    #[trigger] r.register(reg),
                ),
    {
        let data = connect(base);
        let int_en = connect(base + stride);
        let fifo_ctrl = connect(base + 2 * stride);
        let line_ctrl = connect(base + 3 * stride);
        let modem_ctrl = connect(base + 4 * stride);
        let line_sts = connect(base + 5 * stride);
        let r = Self::from_parts(data, int_en, fifo_ctrl, line_ctrl, modem_ctrl, line_sts);
        proof {
            assert forall|reg: Reg|
                connect.ensures(
                    (address_of(base as int, stride as int, reg) as usize,),
                    #[trigger] r.register(reg),
                ) by {
                lemma_scaled_index(reg, stride as int);
            }
        }
        r
    }

    /// Builds the register set of the UART whose registers lie one apart from
    /// `base` on: `connect(a)` gives the handle of the register at address `a`.
    pub fn new<F: Fn(usize) -> R>(base: usize, connect: F) -> (r: Self)
        requires
            base + 5 <= usize::MAX,
            forall|a: usize| connect.requires((a,)),
        ensures
            r.events() == Seq::<Event>::empty(),
            forall|reg: Reg|
                connect.ensures(
                    (address_of(base as int, 1, reg) as usize,),
                    #[trigger] r.register(reg),
                ),
    {
        Self::new_with_stride(base, 1, connect)
    }

    /// Checks that the UART works: puts it in loopback mode, writes 0xAE to
    /// the data register and reads it back. On a match, leaves loopback mode
    /// with the lines and the interrupt of `init`; otherwise returns `Err(())`
    /// and leaves the UART in loopback mode.
    pub fn loopback_test(&mut self) -> (r: Result<(), ()>)
        ensures
            follows(*old(self), *final(self)),
            exists|echo: u8|
                {
                    &&& final(self).events() == old(self).events() + loopback_events(echo)
                    &&& r is Ok <==> echo == 0xAE
                },
    {
        let ghost a = *self;
        proof {
            lemma_follows_refl(a);
        }
        // Disable interrupts
        self.write_reg(Reg::IntEn, 0x00, Ghost(a));
        // Loopback mode, with all four modem outputs on
        self.write_reg(Reg::ModemCtrl, 0x1E, Ghost(a));
        self.write_reg(Reg::Data, 0xAE, Ghost(a));
        let echo = self.read_reg(Reg::Data, Ghost(a));
        if echo != 0xAE {
            assert(self.trace@ =~= old(self).trace@ + loopback_events(echo));
            return Err(());
        }
        // Data terminal ready, request to send, auxiliary output 2 (interrupt line)
        self.write_reg(Reg::ModemCtrl, 0x0B, Ghost(a));
        // Interrupt on received data only
        self.write_reg(Reg::IntEn, 0x01, Ghost(a));
        assert(self.trace@ =~= old(self).trace@ + loopback_events(echo));
        Ok(())
    }

    /// Writes `value` to `reg`, and records it.
    fn write_reg(&mut self, reg: Reg, value: u8, Ghost(anchor): Ghost<Self>)
        requires
            follows(anchor, *old(self)),
        ensures
            follows(anchor, *final(self)),
            final(self).trace@ == old(self).trace@.push((reg, RegisterAccess::Write(value))),
    {
        match reg {
            Reg::Data => self.data.write(value),
            Reg::IntEn => self.int_en.write(value),
            Reg::FifoCtrl => self.fifo_ctrl.write(value),
            Reg::LineCtrl => self.line_ctrl.write(value),
            Reg::ModemCtrl => self.modem_ctrl.write(value),
            Reg::LineSts => self.line_sts.write(value),
        }
        self.trace = Ghost(self.trace@.push((reg, RegisterAccess::Write(value))));
        proof {
            lemma_step(*old(self), *self, (reg, RegisterAccess::Write(value)));
            lemma_follows_trans(anchor, *old(self), *self);
        }
    }

    /// Reads `reg`, and records it.
    fn read_reg(&mut self, reg: Reg, Ghost(anchor): Ghost<Self>) -> (v: u8)
        requires
            follows(anchor, *old(self)),
        ensures
            follows(anchor, *final(self)),
            final(self).trace@ == old(self).trace@.push((reg, RegisterAccess::Read(v))),
    {
        let v = match reg {
            Reg::Data => self.data.read(),
            Reg::IntEn => self.int_en.read(),
            Reg::FifoCtrl => self.fifo_ctrl.read(),
            Reg::LineCtrl => self.line_ctrl.read(),
            Reg::ModemCtrl => self.modem_ctrl.read(),
            Reg::LineSts => self.line_sts.read(),
        };
        self.trace = Ghost(self.trace@.push((reg, RegisterAccess::Read(v))));
        proof {
            lemma_step(*old(self), *self, (reg, RegisterAccess::Read(v)));
            lemma_follows_trans(anchor, *old(self), *self);
        }
        v
    }

    /// Polls the line status until a read shows a bit of `mask`, and records
    /// every read.
    fn wait_line_sts(&mut self, mask: u8, Ghost(anchor): Ghost<Self>) -> (v: u8)
        requires
            mask != 0,
            follows(anchor, *old(self)),
        ensures
            follows(anchor, *final(self)),
            exists|h: Seq<RegisterAccess>|
                {
                    &&& polled_until(h, mask)
                    &&& h.last() == RegisterAccess::Read(v)
                    &&& final(self).trace@ == old(self).trace@ + tag(Reg::LineSts, h)
                },
    {
        let ghost h0 = self.line_sts.accesses();
        let v = self.line_sts.read_until_set(mask);
        let ghost h = choose|h: Seq<RegisterAccess>|
            {
                &&& polled_until(h, mask)
                &&& h.last() == RegisterAccess::Read(v)
                &&& self.line_sts.accesses() == h0 + h
            };
        self.trace = Ghost(self.trace@ + tag(Reg::LineSts, h));
        proof {
            let added = tag(Reg::LineSts, h);
            assert forall|reg: Reg| #[trigger]
                self.accesses_of(reg) == old(self).accesses_of(reg) + on_register(added, reg) by {
                lemma_on_register_tag(Reg::LineSts, h, reg);
                if reg != Reg::LineSts {
                    assert(old(self).accesses_of(reg) + on_register(added, reg) =~= old(
                        self,
                    ).accesses_of(reg));
                }
            }
            lemma_follows_by(*old(self), *self, added);
            lemma_follows_trans(anchor, *old(self), *self);
        }
        v
    }
}

/// Nothing added: `follows` holds of a state and itself.
proof fn lemma_follows_refl<T: Traced>(a: T)
    ensures
        follows(a, a),
{
    assert(a.events().subrange(0, a.events().len() as int) =~= a.events());
    assert forall|reg: Reg| #[trigger]
        a.accesses_of(reg) == a.accesses_of(reg) + on_register(
            a.events().subrange(a.events().len() as int, a.events().len() as int),
            reg,
        ) by {
        let none = a.events().subrange(a.events().len() as int, a.events().len() as int);
        assert(none =~= Seq::<Event>::empty());
        assert(a.accesses_of(reg) + on_register(none, reg) =~= a.accesses_of(reg));
    }
}

/// `after` adds `added` to the events, and each handle saw its part of it.
proof fn lemma_follows_by<T: Traced>(before: T, after: T, added: Seq<Event>)
    requires
        after.events() == before.events() + added,
        forall|reg: Reg| #[trigger]
            after.accesses_of(reg) == before.accesses_of(reg) + on_register(added, reg),
    ensures
        follows(before, after),
{
    assert(after.events().subrange(0, before.events().len() as int) =~= before.events());
    assert(after.events().subrange(before.events().len() as int, after.events().len() as int)
        =~= added);
}

/// One access of `e.0`, done and recorded.
proof fn lemma_step<R: Uart16550Register>(before: Uart16550Registers<R>, after: Uart16550Registers<R>, e: Event)
    requires
        after.events() == before.events().push(e),
        after.register(e.0).accesses() == before.register(e.0).accesses().push(e.1),
        forall|reg: Reg| reg != e.0 ==> #[trigger] after.register(reg) == before.register(reg),
    ensures
        follows(before, after),
{
    assert forall|reg: Reg| #[trigger]
        after.accesses_of(reg) == before.accesses_of(reg) + on_register(seq![e], reg) by {
        lemma_on_register_one(e, reg);
        if reg == e.0 {
            assert(before.accesses_of(reg).push(e.1) =~= before.accesses_of(reg) + seq![e.1]);
        } else {
            assert(before.accesses_of(reg) + on_register(seq![e], reg) =~= before.accesses_of(reg));
        }
    }
    assert(before.events().push(e) =~= before.events() + seq![e]);
    lemma_follows_by(before, after, seq![e]);
}

impl<R: Uart16550Register> Uart16550 for Uart16550Registers<R> {
    fn init(&mut self) {
        let ghost a = *self;
        proof {
            lemma_follows_refl(a);
        }
        // Disable interrupts
        self.write_reg(Reg::IntEn, 0x00, Ghost(a));
        // Set the divisor-latch access bit
        self.write_reg(Reg::LineCtrl, 0x80, Ghost(a));
        // Divisor 3, low byte then high byte: 38400 baud
        self.write_reg(Reg::Data, 0x03, Ghost(a));
        self.write_reg(Reg::IntEn, 0x00, Ghost(a));
        // Clear the divisor-latch access bit; 8 data bits, no parity, one stop bit
        self.write_reg(Reg::LineCtrl, 0x03, Ghost(a));
        // Enable and clear the FIFOs, receive interrupt watermark at 14 bytes
        self.write_reg(Reg::FifoCtrl, 0xC7, Ghost(a));
        // Data terminal ready, request to send, auxiliary output 2 (interrupt line)
        self.write_reg(Reg::ModemCtrl, 0x0B, Ghost(a));
        // Interrupt on received data only
        self.write_reg(Reg::IntEn, 0x01, Ghost(a));
        assert(self.trace@ =~= old(self).trace@ + init_events());
    }

    fn line_sts(&mut self) -> (r: LineStsFlags) {
        let ghost a = *self;
        proof {
            lemma_follows_refl(a);
        }
        let v = self.read_reg(Reg::LineSts, Ghost(a));
        let r = LineStsFlags::from_bits_truncate(v);
        assert(v & 0xFF == v) by (bit_vector);
        r
    }

    fn send(&mut self, data: u8) {
        if data == 0x08 || data == 0x7F {
            let ghost s0 = *self;
            self.send_raw(0x08);
            let ghost s1 = *self;
            self.send_raw(0x20);
            let ghost s2 = *self;
            self.send_raw(0x08);
            proof {
                lemma_follows_trans(s0, s1, s2);
                lemma_follows_trans(s0, s2, *self);
                lemma_transmitted_trans(s0.trace@, s1.trace@, s2.trace@, seq![0x08u8], seq![0x20u8]);
                lemma_transmitted_trans(s0.trace@, s2.trace@, self.trace@, seq![0x08u8] + seq![0x20u8], seq![0x08u8]);
                assert(seq![0x08u8] + seq![0x20u8] + seq![0x08u8] =~= expansion(data));
            }
        } else {
            self.send_raw(data);
        }
    }

    fn send_raw(&mut self, data: u8) {
        let ghost a = *self;
        proof {
            lemma_follows_refl(a);
        }
        let _ = self.wait_line_sts(LineStsFlags::OUTPUT_EMPTY, Ghost(a));
        let ghost t1 = self.trace@;
        self.write_reg(Reg::Data, data, Ghost(a));
        proof {
            let h = choose|h: Seq<RegisterAccess>|
                {
                    &&& polled_until(h, output_empty_mask())
                    &&& t1 == old(self).trace@ + tag(Reg::LineSts, h)
                };
            lemma_transmitted_one(old(self).trace@, h, data);
            assert(self.trace@ =~= old(self).trace@ + poll_and_send(h, data));
        }
    }

    fn try_send_raw(&mut self, data: u8) -> (r: Result<(), WouldBlockError>) {
        let ghost a = *self;
        proof {
            lemma_follows_refl(a);
        }
        let v = self.read_reg(Reg::LineSts, Ghost(a));
        let sts = LineStsFlags::from_bits_truncate(v);
        if sts.contains(LineStsFlags::OUTPUT_EMPTY) {
            self.write_reg(Reg::Data, data, Ghost(a));
            assert(v & 0xFF & 0x20 == 0x20 ==> v & 0x20 != 0) by (bit_vector);
            assert(self.trace@ =~= old(self).trace@ + try_send_events(v, data));
            Ok(())
        } else {
            assert(v & 0xFF & 0x20 != 0x20 ==> v & 0x20 == 0) by (bit_vector);
            assert(self.trace@ =~= old(self).trace@ + try_send_events(v, data));
            Err(WouldBlockError)
        }
    }

    fn receive(&mut self) -> (r: u8) {
        let ghost a = *self;
        proof {
            lemma_follows_refl(a);
        }
        let _ = self.wait_line_sts(LineStsFlags::INPUT_FULL, Ghost(a));
        let ghost t1 = self.trace@;
        let d = self.read_reg(Reg::Data, Ghost(a));
        proof {
            let h = choose|h: Seq<RegisterAccess>|
                {
                    &&& polled_until(h, input_full_mask())
                    &&& t1 == old(self).trace@ + tag(Reg::LineSts, h)
                };
            assert(self.trace@ =~= old(self).trace@ + receive_events(h, d));
        }
        d
    }

    fn try_receive(&mut self) -> (r: Result<u8, WouldBlockError>) {
        let ghost a = *self;
        proof {
            lemma_follows_refl(a);
        }
        let v = self.read_reg(Reg::LineSts, Ghost(a));
        let sts = LineStsFlags::from_bits_truncate(v);
        if sts.contains(LineStsFlags::INPUT_FULL) {
            let d = self.read_reg(Reg::Data, Ghost(a));
            assert(v & 0xFF & 0x01 == 0x01 ==> v & 0x01 != 0) by (bit_vector);
            let r = Ok(d);
            assert(self.trace@ =~= old(self).trace@ + try_receive_events(v, r));
            r
        } else {
            assert(v & 0xFF & 0x01 != 0x01 ==> v & 0x01 == 0) by (bit_vector);
            let r = Err(WouldBlockError);
            assert(self.trace@ =~= old(self).trace@ + try_receive_events(v, r));
            r
        }
    }

    fn write_str(&mut self, s: &str) {
        let bytes = s.as_bytes();
        let mut i: usize = 0;
        proof {
            lemma_follows_refl(*self);
            lemma_transmitted_none(self.trace@);
            assert(bytes@.subrange(0, 0) =~= Seq::<u8>::empty());
        }
        while i < bytes.len()
            invariant
                i <= bytes@.len(),
                bytes@ == s.spec_bytes(),
                follows(*old(self), *self),
                transmitted(old(self).trace@, self.trace@, expand_all(bytes@.subrange(0, i as int))),
            decreases bytes@.len() - i,
        {
            let ghost prev = *self;
            self.send(bytes[i]);
            proof {
                lemma_follows_trans(*old(self), prev, *self);
                lemma_transmitted_trans(
                    old(self).trace@,
                    prev.trace@,
                    self.trace@,
                    expand_all(bytes@.subrange(0, i as int)),
                    expansion(bytes@[i as int]),
                );
                assert(bytes@.subrange(0, i + 1).drop_last() =~= bytes@.subrange(0, i as int));
            }
            i += 1;
        }
        assert(bytes@.subrange(0, i as int) =~= bytes@);
    }
}

} // verus!

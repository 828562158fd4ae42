use vstd::prelude::*;
use vstd::string::StringSliceAdditionalSpecFns;

use crate::flags::LineStsFlags;
use crate::register::{polled_until, Reg, RegisterAccess, Uart16550Register};
use crate::trace::{
    follows, input_full_mask, lemma_follows_trans, on_register, output_empty_mask, transmitted,
    Event, Traced,
};
use crate::uart_16550::{
    expand_all, expansion, init_events, loopback_events, receive_events, try_receive_events,
    try_send_events,
    Uart16550, Uart16550Registers, WouldBlockError,
};

verus! {

/// A UART on x86 I/O ports: its six registers are the ports `base` to `base + 5`.
pub struct SerialPort<R> where R: Uart16550Register {
    base: u16,
    regs: Uart16550Registers<R>,
}

impl<R: Uart16550Register> SerialPort<R> {
    /// The base port.
    pub closed spec fn base(&self) -> u16 {
        self.base
    }

    /// The handle of `reg`.
    pub closed spec fn register(&self, reg: Reg) -> R {
        self.regs.register(reg)
    }

    /// Builds the UART whose base port is `base`: `connect(p)` gives the
    /// handle of the register at port `p`.
    pub fn new<F: Fn(u16) -> R>(base: u16, connect: F) -> (r: Self)
        requires
            base + 5 <= u16::MAX,
            forall|p: u16| connect.requires((p,)),
        ensures
            r.wf(),
            r.events() == Seq::<Event>::empty(),
            r.base() == base,
            forall|reg: Reg|
                connect.ensures(((base + reg.spec_index()) as u16,), #[trigger] r.register(reg)),
    {
        let data = connect(base);
        let int_en = connect(base + 1);
        let fifo_ctrl = connect(base + 2);
        let line_ctrl = connect(base + 3);
        let modem_ctrl = connect(base + 4);
        let line_sts = connect(base + 5);
        let regs = Uart16550Registers::from_parts(
            data,
            int_en,
            fifo_ctrl,
            line_ctrl,
            modem_ctrl,
            line_sts,
        );
        let r = SerialPort { base, regs };
        assert forall|reg: Reg|
            connect.ensures(((base + reg.spec_index()) as u16,), #[trigger] r.register(reg)) by {
            match reg {
                Reg::Data => assert((base + reg.spec_index()) as u16 == base),
                _ => {},
            }
        }
        r
    }

    /// Builds the UART whose base port is `base`, initializes it and checks
    /// it with `loopback_test`; `Err(())` when the check fails.
    pub fn try_create<F: Fn(u16) -> R>(base: u16, connect: F) -> (r: Result<Self, ()>)
        requires
            base + 5 <= u16::MAX,
            forall|p: u16| connect.requires((p,)),
        ensures
            r matches Ok(port) ==> {
                &&& port.wf()
                &&& port.base() == base
                &&& port.events() == init_events() + loopback_events(0xAE)
                &&& forall|reg: Reg|
                    #[trigger] on_register(port.events(), reg).is_suffix_of(port.accesses_of(reg))
            },
    {
        let mut port = Self::new(base, connect);
        let ghost p0 = port;
        port.init();
        let ghost p1 = port;
        let ghost t = port.events();
        let res = port.loopback_test();
        match res {
            Ok(()) => {
                proof {
                    let echo = choose|echo: u8|
                        {
                            &&& port.events() == t + loopback_events(echo)
                            &&& res is Ok <==> echo == 0xAE
                        };
                    assert(echo == 0xAE);
                    assert(t =~= init_events());
                    lemma_follows_trans(p0, p1, port);
                    assert(port.events().subrange(0, 0) =~= Seq::<Event>::empty());
                    assert forall|reg: Reg|
                        #[trigger] on_register(port.events(), reg).is_suffix_of(
                            port.accesses_of(reg),
                        ) by {
                        assert(port.events().subrange(0, port.events().len() as int)
                            =~= port.events());
                        let h0 = p0.accesses_of(reg);
                        let mine = on_register(port.events(), reg);
                        assert(port.accesses_of(reg) == h0 + mine);
                        assert((h0 + mine).subrange(h0.len() as int, (h0 + mine).len() as int)
                            =~= mine);
                    }
                }
                Ok(port)
            },
            Err(()) => Err(()),
        }
    }

    /// Checks that the UART works: puts it in loopback mode, writes 0xAE to
    /// the data port and reads it back. On a match, leaves loopback mode with
    /// the lines and the interrupt of `init`; otherwise returns `Err(())`.
    pub fn loopback_test(&mut self) -> (r: Result<(), ()>)
        requires
            old(self).wf(),
        ensures
            final(self).wf(),
            final(self).base() == old(self).base(),
            follows(*old(self), *final(self)),
            exists|echo: u8|
                {
                    &&& final(self).events() == old(self).events() + loopback_events(echo)
                    &&& r is Ok <==> echo == 0xAE
                },
    {
        let r = self.regs.loopback_test();
        proof {
            lemma_lift(*old(self), *self);
        }
        r
    }

    /// The six ports fit below 0x10000.
    pub closed spec fn wf(&self) -> bool {
        self.base + 5 <= u16::MAX
    }

    /// Initializes the UART to 38400 baud, 8 data bits, no parity, one stop
    /// bit, FIFOs on, and the received-data interrupt on.
    pub fn init(&mut self)
        requires
            old(self).wf(),
        ensures
            final(self).wf(),
            final(self).base() == old(self).base(),
            follows(*old(self), *final(self)),
            final(self).events() == old(self).events() + init_events(),
    {
        let r = self.regs.init();
        proof {
            lemma_lift(*old(self), *self);
        }
        r
    }

    /// Reads the line status once.
    pub fn line_sts(&mut self) -> (r: LineStsFlags)
        requires
            old(self).wf(),
        ensures
            final(self).wf(),
            final(self).base() == old(self).base(),
            follows(*old(self), *final(self)),
            final(self).events() == old(self).events().push(
                (Reg::LineSts, RegisterAccess::Read(r@)),
            ),
    {
        let r = self.regs.line_sts();
        proof {
            lemma_lift(*old(self), *self);
        }
        r
    }

    /// Sends a byte, with backspace and delete turned into backspace, space,
    /// backspace. Blocks until the transmitter takes each byte.
    pub fn send(&mut self, data: u8)
        requires
            old(self).wf(),
        ensures
            final(self).wf(),
            final(self).base() == old(self).base(),
            follows(*old(self), *final(self)),
            transmitted(old(self).events(), final(self).events(), expansion(data)),
    {
        let r = self.regs.send(data);
        proof {
            lemma_lift(*old(self), *self);
        }
        r
    }

    /// Sends a byte as it is. Blocks until the transmitter takes it.
    pub fn send_raw(&mut self, data: u8)
        requires
            old(self).wf(),
        ensures
            final(self).wf(),
            final(self).base() == old(self).base(),
            follows(*old(self), *final(self)),
            transmitted(old(self).events(), final(self).events(), seq![data]),
    {
        let r = self.regs.send_raw(data);
        proof {
            lemma_lift(*old(self), *self);
        }
        r
    }

    /// Sends a byte as it is if the transmitter can take it now.
    pub fn try_send_raw(&mut self, data: u8) -> (r: Result<(), WouldBlockError>)
        requires
            old(self).wf(),
        ensures
            final(self).wf(),
            final(self).base() == old(self).base(),
            follows(*old(self), *final(self)),
            exists|status: u8|
                {
                    &&& final(self).events() == old(self).events() + try_send_events(status, data)
                    &&& r is Ok <==> status & output_empty_mask() != 0
                },
    {
        let r = self.regs.try_send_raw(data);
        proof {
            lemma_lift(*old(self), *self);
        }
        r
    }

    /// Receives a byte. Blocks until one is waiting.
    pub fn receive(&mut self) -> (r: u8)
        requires
            old(self).wf(),
        ensures
            final(self).wf(),
            final(self).base() == old(self).base(),
            follows(*old(self), *final(self)),
            exists|h: Seq<RegisterAccess>|
                {
                    &&& polled_until(h, input_full_mask())
                    &&& final(self).events() == old(self).events() + receive_events(h, r)
                },
    {
        let r = self.regs.receive();
        proof {
            lemma_lift(*old(self), *self);
        }
        r
    }

    /// Receives a byte if one is waiting now.
    pub fn try_receive(&mut self) -> (r: Result<u8, WouldBlockError>)
        requires
            old(self).wf(),
        ensures
            final(self).wf(),
            final(self).base() == old(self).base(),
            follows(*old(self), *final(self)),
            exists|status: u8|
                {
                    &&& final(self).events() == old(self).events() + try_receive_events(status, r)
                    &&& r is Ok <==> status & input_full_mask() != 0
                },
    {
        let r = self.regs.try_receive();
        proof {
            lemma_lift(*old(self), *self);
        }
        r
    }

    /// Sends each byte of `s` through `send`, in order.
    pub fn write_str(&mut self, s: &str)
        requires
            old(self).wf(),
        ensures
            final(self).wf(),
            final(self).base() == old(self).base(),
            follows(*old(self), *final(self)),
            transmitted(old(self).events(), final(self).events(), expand_all(s.spec_bytes())),
    {
        let r = self.regs.write_str(s);
        proof {
            lemma_lift(*old(self), *self);
        }
        r
    }

    /// The base port.
    pub fn port_base(&self) -> (r: u16)
        ensures
            r == self.base(),
    {
        self.base
    }

    /// The data port (read and write).
    pub fn port_data(&self) -> (r: u16)
        ensures
            r == self.base(),
    {
        self.port_base()
    }

    /// The interrupt enable port (write only).
    pub fn port_int_en(&self) -> (r: u16)
        requires
            self.wf(),
        ensures
            r == self.base() + 1,
    {
        self.port_base() + 1
    }

    /// The FIFO control port (write only).
    pub fn port_fifo_ctrl(&self) -> (r: u16)
        requires
            self.wf(),
        ensures
            r == self.base() + 2,
    {
        self.port_base() + 2
    }

    /// The line control port (write only).
    pub fn port_line_ctrl(&self) -> (r: u16)
        requires
            self.wf(),
        ensures
            r == self.base() + 3,
    {
        self.port_base() + 3
    }

    /// The modem control port (write only).
    pub fn port_modem_ctrl(&self) -> (r: u16)
        requires
            self.wf(),
        ensures
            r == self.base() + 4,
    {
        self.port_base() + 4
    }

    /// The line status port (read only).
    pub fn port_line_sts(&self) -> (r: u16)
        requires
            self.wf(),
        ensures
            r == self.base() + 5,
    {
        self.port_base() + 5
    }
}

impl<R: Uart16550Register> Traced for SerialPort<R> {
    closed spec fn events(&self) -> Seq<Event> {
        self.regs.events()
    }

    closed spec fn accesses_of(&self, reg: Reg) -> Seq<RegisterAccess> {
        self.regs.accesses_of(reg)
    }
}

/// What holds of the register sets holds of the ports that hold them.
proof fn lemma_lift<R: Uart16550Register>(a: SerialPort<R>, b: SerialPort<R>)
    requires
        follows(a.regs, b.regs),
    ensures
        follows(a, b),
{
}

} // verus!

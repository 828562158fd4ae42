use vstd::prelude::*;

use crate::register::{all_reads, polled_until, Reg, RegisterAccess};

verus! {

/// One access made by a register set: which register, and what was done.
pub type Event = (Reg, RegisterAccess);

/// The line-status bit that says the transmitter can take a byte.
pub open spec fn output_empty_mask() -> u8 {
    0x20
}

/// The line-status bit that says a received byte is waiting.
pub open spec fn input_full_mask() -> u8 {
    0x01
}

/// The accesses of `t` that went to `reg`, in order.
pub open spec fn on_register(t: Seq<Event>, reg: Reg) -> Seq<RegisterAccess>
    decreases t.len(),
{
    if t.len() == 0 {
        Seq::empty()
    } else if t.last().0 == reg {
        on_register(t.drop_last(), reg).push(t.last().1)
    } else {
        on_register(t.drop_last(), reg)
    }
}

/// The accesses `h` of one register, as events of the register set.
pub open spec fn tag(reg: Reg, h: Seq<RegisterAccess>) -> Seq<Event> {
    h.map_values(|a: RegisterAccess| (reg, a))
}

/// Something that makes register accesses through six register handles, and
/// keeps the order of all of them.
pub trait Traced {
    /// Every register access made so far, in order.
    spec fn events(&self) -> Seq<Event>;

    /// The accesses that the handle of `reg` has seen.
    spec fn accesses_of(&self, reg: Reg) -> Seq<RegisterAccess>;
}

/// From `before` to `after`, events were only added, and the handle of each
/// register saw exactly the new events that went to that register, in order.
pub open spec fn follows<T: Traced>(before: T, after: T) -> bool {
    &&& before.events().len() <= after.events().len()
    &&& after.events().subrange(0, before.events().len() as int) == before.events()
    &&& forall|reg: Reg| #[trigger]
        after.accesses_of(reg) == before.accesses_of(reg) + on_register(
            after.events().subrange(before.events().len() as int, after.events().len() as int),
            reg,
        )
}

/// Polling the line status until `h` shows the output empty, then writing `b`
/// to the data register.
pub open spec fn poll_and_send(h: Seq<RegisterAccess>, b: u8) -> Seq<Event> {
    tag(Reg::LineSts, h).push((Reg::Data, RegisterAccess::Write(b)))
}

/// The events of sending `bytes` one after the other, where the polls before
/// the `i`-th byte saw `hs[i]`.
pub open spec fn transmission(hs: Seq<Seq<RegisterAccess>>, bytes: Seq<u8>) -> Seq<Event>
    decreases bytes.len(),
{
    if bytes.len() == 0 || hs.len() == 0 {
        Seq::empty()
    } else {
        transmission(hs.drop_last(), bytes.drop_last()) + poll_and_send(hs.last(), bytes.last())
    }
}

/// `after` is `before` followed by the blocking sends of `bytes`: for each
/// byte, reads of the line status until one shows the output empty (only the
/// last one does), then one write of the byte to the data register.
pub open spec fn transmitted(before: Seq<Event>, after: Seq<Event>, bytes: Seq<u8>) -> bool {
    exists|hs: Seq<Seq<RegisterAccess>>|
        {
            &&& hs.len() == bytes.len()
            &&& forall|i: int| 0 <= i < hs.len() ==> polled_until(#[trigger] hs[i], output_empty_mask())
            &&& after == before + transmission(hs, bytes)
        }
}

/// The writes among `t`, in order: which register, and the value.
pub open spec fn writes_in(t: Seq<Event>) -> Seq<(Reg, u8)>
    decreases t.len(),
{
    if t.len() == 0 {
        Seq::empty()
    } else {
        match t.last().1 {
            RegisterAccess::Write(v) => writes_in(t.drop_last()).push((t.last().0, v)),
            RegisterAccess::Read(_) => writes_in(t.drop_last()),
        }
    }
}

/// Writes of `bytes` to the data register, in order.
pub open spec fn data_writes(bytes: Seq<u8>) -> Seq<(Reg, u8)> {
    bytes.map_values(|b: u8| (Reg::Data, b))
}

pub proof fn lemma_on_register_append(a: Seq<Event>, b: Seq<Event>, reg: Reg)
    ensures
        on_register(a + b, reg) == on_register(a, reg) + on_register(b, reg),
    decreases b.len(),
{
    if b.len() == 0 {
        assert(a + b =~= a);
        assert(on_register(a, reg) + on_register(b, reg) =~= on_register(a, reg));
    } else {
        lemma_on_register_append(a, b.drop_last(), reg);
        assert((a + b).drop_last() =~= a + b.drop_last());
        if b.last().0 == reg {
            assert(on_register(a, reg) + on_register(b, reg) =~= (on_register(a, reg)
                + on_register(b.drop_last(), reg)).push(b.last().1));
        }
    }
}

pub proof fn lemma_on_register_one(e: Event, reg: Reg)
    ensures
        on_register(seq![e], reg) == if e.0 == reg {
            seq![e.1]
        } else {
            Seq::<RegisterAccess>::empty()
        },
{
    assert(seq![e].drop_last() =~= Seq::<Event>::empty());
    assert(on_register(seq![e].drop_last(), reg) == Seq::<RegisterAccess>::empty());
    assert(seq![e].last() == e);
    if e.0 == reg {
        assert(Seq::<RegisterAccess>::empty().push(e.1) =~= seq![e.1]);
    }
}

pub proof fn lemma_on_register_tag(reg: Reg, h: Seq<RegisterAccess>, other: Reg)
    ensures
        on_register(tag(reg, h), other) == if other == reg {
            h
        } else {
            Seq::<RegisterAccess>::empty()
        },
    decreases h.len(),
{
    if h.len() == 0 {
        assert(tag(reg, h) =~= Seq::<Event>::empty());
        assert(h =~= Seq::<RegisterAccess>::empty());
    } else {
        lemma_on_register_tag(reg, h.drop_last(), other);
        assert(tag(reg, h).drop_last() =~= tag(reg, h.drop_last()));
        if other == reg {
            assert(h.drop_last().push(h.last()) =~= h);
        }
    }
}

/// `follows` chains.
pub proof fn lemma_follows_trans<T: Traced>(a: T, b: T, c: T)
    requires
        follows(a, b),
        follows(b, c),
    ensures
        follows(a, c),
{
    let ea = a.events();
    let eb = b.events();
    let ec = c.events();
    assert(ec.subrange(0, ea.len() as int) =~= ea) by {
        assert(ec.subrange(0, ea.len() as int) =~= ec.subrange(0, eb.len() as int).subrange(
            0,
            ea.len() as int,
        ));
    }
    let x = eb.subrange(ea.len() as int, eb.len() as int);
    let y = ec.subrange(eb.len() as int, ec.len() as int);
    assert(ec.subrange(ea.len() as int, ec.len() as int) =~= x + y) by {
        assert(eb =~= ec.subrange(0, eb.len() as int));
    }
    assert forall|reg: Reg| #[trigger]
        c.accesses_of(reg) == a.accesses_of(reg) + on_register(
            ec.subrange(ea.len() as int, ec.len() as int),
            reg,
        ) by {
        assert(b.accesses_of(reg) == a.accesses_of(reg) + on_register(x, reg));
        assert(c.accesses_of(reg) == b.accesses_of(reg) + on_register(y, reg));
        lemma_on_register_append(x, y, reg);
        assert(a.accesses_of(reg) + on_register(x, reg) + on_register(y, reg) =~= a.accesses_of(reg)
            + (on_register(x, reg) + on_register(y, reg)));
    }
}

proof fn lemma_transmission_append(
    hs1: Seq<Seq<RegisterAccess>>,
    b1: Seq<u8>,
    hs2: Seq<Seq<RegisterAccess>>,
    b2: Seq<u8>,
)
    requires
        hs1.len() == b1.len(),
        hs2.len() == b2.len(),
    ensures
        transmission(hs1 + hs2, b1 + b2) == transmission(hs1, b1) + transmission(hs2, b2),
    decreases b2.len(),
{
    if b2.len() == 0 {
        assert(hs1 + hs2 =~= hs1);
        assert(b1 + b2 =~= b1);
        assert(transmission(hs1, b1) + transmission(hs2, b2) =~= transmission(hs1, b1));
    } else {
        lemma_transmission_append(hs1, b1, hs2.drop_last(), b2.drop_last());
        assert((hs1 + hs2).drop_last() =~= hs1 + hs2.drop_last());
        assert((b1 + b2).drop_last() =~= b1 + b2.drop_last());
        assert(transmission(hs1 + hs2, b1 + b2) =~= transmission(hs1, b1) + transmission(hs2, b2));
    }
}

/// Sending nothing leaves the trace as it is.
pub proof fn lemma_transmitted_none(t: Seq<Event>)
    ensures
        transmitted(t, t, Seq::empty()),
{
    let hs = Seq::<Seq<RegisterAccess>>::empty();
    assert(t =~= t + transmission(hs, Seq::empty()));
}

/// Polls `h` until the output was empty, then a write of `b`, is a blocking
/// send of `b`.
pub proof fn lemma_transmitted_one(t: Seq<Event>, h: Seq<RegisterAccess>, b: u8)
    requires
        polled_until(h, output_empty_mask()),
    ensures
        transmitted(t, t + poll_and_send(h, b), seq![b]),
{
    let hs = seq![h];
    assert(hs.drop_last() =~= Seq::<Seq<RegisterAccess>>::empty());
    assert(seq![b].drop_last() =~= Seq::<u8>::empty());
    assert(transmission(hs.drop_last(), seq![b].drop_last()) == Seq::<Event>::empty());
    assert(transmission(hs, seq![b]) =~= poll_and_send(h, b));
    assert(hs[0] == h);
}

/// Sending `x` and then `y` is sending `x + y`.
pub proof fn lemma_transmitted_trans(a: Seq<Event>, b: Seq<Event>, c: Seq<Event>, x: Seq<u8>, y: Seq<u8>)
    requires
        transmitted(a, b, x),
        transmitted(b, c, y),
    ensures
        transmitted(a, c, x + y),
{
    let hs1 = choose|hs: Seq<Seq<RegisterAccess>>|
        {
            &&& hs.len() == x.len()
            &&& forall|i: int| 0 <= i < hs.len() ==> polled_until(#[trigger] hs[i], output_empty_mask())
            &&& b == a + transmission(hs, x)
        };
    let hs2 = choose|hs: Seq<Seq<RegisterAccess>>|
        {
            &&& hs.len() == y.len()
            &&& forall|i: int| 0 <= i < hs.len() ==> polled_until(#[trigger] hs[i], output_empty_mask())
            &&& c == b + transmission(hs, y)
        };
    lemma_transmission_append(hs1, x, hs2, y);
    let hs = hs1 + hs2;
    assert forall|i: int| 0 <= i < hs.len() implies polled_until(#[trigger] hs[i], output_empty_mask()) by {
        if i < hs1.len() {
            assert(hs[i] == hs1[i]);
        } else {
            assert(hs[i] == hs2[i - hs1.len()]);
        }
    }
    assert(c =~= a + transmission(hs, x + y));
}

pub proof fn lemma_writes_in_append(a: Seq<Event>, b: Seq<Event>)
    ensures
        writes_in(a + b) == writes_in(a) + writes_in(b),
    decreases b.len(),
{
    if b.len() == 0 {
        assert(a + b =~= a);
        assert(writes_in(a) + writes_in(b) =~= writes_in(a));
    } else {
        lemma_writes_in_append(a, b.drop_last());
        assert((a + b).drop_last() =~= a + b.drop_last());
        match b.last().1 {
            RegisterAccess::Write(v) => {
                assert(writes_in(a) + writes_in(b) =~= (writes_in(a) + writes_in(b.drop_last())).push(
                    (b.last().0, v),
                ));
            },
            RegisterAccess::Read(_) => {},
        }
    }
}

pub proof fn lemma_writes_in_tag(reg: Reg, h: Seq<RegisterAccess>)
    requires
        all_reads(h),
    ensures
        writes_in(tag(reg, h)) == Seq::<(Reg, u8)>::empty(),
    decreases h.len(),
{
    if h.len() > 0 {
        assert(h[h.len() - 1] is Read);
        assert forall|i: int| 0 <= i < h.drop_last().len() implies #[trigger] h.drop_last()[i] is Read by {
            assert(h.drop_last()[i] == h[i]);
        }
        lemma_writes_in_tag(reg, h.drop_last());
        assert(tag(reg, h).drop_last() =~= tag(reg, h.drop_last()));
    }
}

proof fn lemma_transmission_writes(hs: Seq<Seq<RegisterAccess>>, bytes: Seq<u8>)
    requires
        hs.len() == bytes.len(),
        forall|i: int| 0 <= i < hs.len() ==> polled_until(#[trigger] hs[i], output_empty_mask()),
    ensures
        writes_in(transmission(hs, bytes)) == data_writes(bytes),
    decreases bytes.len(),
{
    if bytes.len() > 0 {
        let n = hs.len() - 1;
        assert(polled_until(hs[n], output_empty_mask()));
        assert forall|i: int| 0 <= i < hs.drop_last().len() implies polled_until(
            #[trigger] hs.drop_last()[i],
            output_empty_mask(),
        ) by {
            assert(hs.drop_last()[i] == hs[i]);
        }
        lemma_transmission_writes(hs.drop_last(), bytes.drop_last());
        let p = poll_and_send(hs.last(), bytes.last());
        lemma_writes_in_append(transmission(hs.drop_last(), bytes.drop_last()), p);
        lemma_writes_in_tag(Reg::LineSts, hs.last());
        assert(p.drop_last() =~= tag(Reg::LineSts, hs.last()));
        assert(writes_in(p) =~= seq![(Reg::Data, bytes.last())]);
        assert(data_writes(bytes) =~= data_writes(bytes.drop_last()).push((Reg::Data, bytes.last())));
    }
}

/// What a blocking send of `bytes` adds to the trace writes exactly `bytes`
/// to the data register, in order, and nothing else anywhere.
pub proof fn lemma_transmitted_writes(before: Seq<Event>, after: Seq<Event>, bytes: Seq<u8>)
    requires
        transmitted(before, after, bytes),
    ensures
        before.len() <= after.len(),
        after.subrange(0, before.len() as int) == before,
        writes_in(after.subrange(before.len() as int, after.len() as int)) == data_writes(bytes),
{
    let hs = choose|hs: Seq<Seq<RegisterAccess>>|
        {
            &&& hs.len() == bytes.len()
            &&& forall|i: int| 0 <= i < hs.len() ==> polled_until(#[trigger] hs[i], output_empty_mask())
            &&& after == before + transmission(hs, bytes)
        };
    lemma_transmission_writes(hs, bytes);
    assert(after.subrange(0, before.len() as int) =~= before);
    assert(after.subrange(before.len() as int, after.len() as int) =~= transmission(hs, bytes));
}

} // verus!

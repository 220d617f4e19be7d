//! The UDP transport core: the queueable backlog with per-tick drain
//! pacing, MTU packing of datagrams, the replay buffer for sleeping
//! clients, per-client liveness tracking, the liveness probe template and
//! the DHCP lease-file parser.  The sockets themselves live with the
//! caller; everything here is a pure function of bytes and clocks.

use crate::payload::{Payload, PayloadModel};
use crate::util::ticks_for;
use crate::views::dvs;
use vstd::prelude::*;

verus! {

/// Largest UDP payload that avoids fragmentation on Ethernet.
pub const UDP_MAX_SIZE: usize = 1472;

/// How many queueable payloads are kept for replay to returning clients.
pub const INACTIVE_BUFFER_SIZE: usize = 8192;

/// A client with no probe reply for more than ten whole seconds is
/// inactive (millisecond form of the whole-second comparison).
pub const DEAD_THRESHOLD_MS: u64 = 11000;

/// A client is back in the application five whole seconds after the last
/// refused delivery.
pub const IN_APP_THRESHOLD_MS: u64 = 5000;

/// At most one replay per client per thirty seconds.
pub const REPLAY_INTERVAL_MS: u64 = 30000;

/// One MTU-packing step: flush the buffer first whenever appending `p`
/// would exceed the MTU, then append.
pub open spec fn pack_step(out: Seq<Seq<u8>>, buf: Seq<u8>, p: Seq<u8>) -> (Seq<Seq<u8>>, Seq<
    u8,
>) {
    if buf.len() + p.len() > UDP_MAX_SIZE {
        (out.push(buf), p)
    } else {
        (out, buf + p)
    }
}

/// MTU packing of a list of byte blocks into datagrams, front to back.
pub open spec fn pack_fold(ps: Seq<Seq<u8>>, out: Seq<Seq<u8>>, buf: Seq<u8>) -> (Seq<Seq<u8>>, Seq<
    u8,
>)
    decreases ps.len(),
{
    if ps.len() == 0 {
        (out, buf)
    } else {
        let (out1, buf1) = pack_step(out, buf, ps[0]);
        pack_fold(ps.skip(1), out1, buf1)
    }
}

/// The payload byte sequences of a list of payload models.
pub open spec fn payload_bytes(ps: Seq<PayloadModel>) -> Seq<Seq<u8>> {
    ps.map_values(|p: PayloadModel| p.payload)
}

/// The queueable payloads of a tick's input, in order.
pub open spec fn queueables(ps: Seq<PayloadModel>) -> Seq<PayloadModel>
    decreases ps.len(),
{
    if ps.len() == 0 {
        Seq::<PayloadModel>::empty()
    } else {
        let rest = queueables(ps.drop_last());
        if ps.last().queueable {
            rest.push(ps.last())
        } else {
            rest
        }
    }
}

/// The immediate payloads of a tick's input, in order.
pub open spec fn immediates(ps: Seq<PayloadModel>) -> Seq<PayloadModel>
    decreases ps.len(),
{
    if ps.len() == 0 {
        Seq::<PayloadModel>::empty()
    } else {
        let rest = immediates(ps.drop_last());
        if !ps.last().queueable {
            rest.push(ps.last())
        } else {
            rest
        }
    }
}

/// How many further queued payloads still fit into a buffer of `buflen`
/// bytes without crossing the MTU.
pub open spec fn opp_take(rest: Seq<PayloadModel>, buflen: int) -> int
    decreases rest.len(),
{
    if rest.len() > 0 && buflen + rest[0].payload.len() <= UDP_MAX_SIZE {
        1 + opp_take(rest.skip(1), buflen + rest[0].payload.len())
    } else {
        0
    }
}

/// How many queued payloads one tick drains: the ceiling of the queue
/// length over the tick frequency.
pub open spec fn to_drain_of(len: int, freq: u16) -> int {
    (len + freq - 1) / (freq as int)
}

/// What one call of `UDP::assemble` does: queue the queueables (also into
/// the bounded replay buffer), MTU-pack the immediates, drain the paced
/// share of the queue into the packing, then fill the leftover buffer from
/// the queue front as long as whole payloads fit, and flush.
///
/// The result is the new queue, the new replay buffer, the datagrams to
/// send to every client this tick, and how many queued payloads left.
pub open spec fn udp_assemble_spec(
    queue: Seq<PayloadModel>,
    inactive: Seq<PayloadModel>,
    incoming: Seq<PayloadModel>,
    freq: u16,
) -> (Seq<PayloadModel>, Seq<PayloadModel>, Seq<Seq<u8>>, int)
    recommends
        freq >= 1,
{
    let queue1 = queue + queueables(incoming);
    let inactive_grown = inactive + queueables(incoming);
    let inactive1 = if inactive_grown.len() > INACTIVE_BUFFER_SIZE {
        inactive_grown.skip(inactive_grown.len() - INACTIVE_BUFFER_SIZE)
    } else {
        inactive_grown
    };
    let packed1 = pack_fold(payload_bytes(immediates(incoming)), Seq::<Seq<u8>>::empty(), Seq::<
        u8,
    >::empty());
    let d = to_drain_of(queue1.len() as int, freq);
    let packed2 = pack_fold(payload_bytes(queue1.take(d)), packed1.0, packed1.1);
    if packed2.1.len() > 0 {
        let k = opp_take(queue1.skip(d), packed2.1.len() as int);
        let extra = pack_fold(payload_bytes(queue1.subrange(d, d + k)), packed2.0, packed2.1);
        (queue1.skip(d + k), inactive1, extra.0.push(extra.1), d + k)
    } else {
        (queue1.skip(d), inactive1, packed2.0, d)
    }
}

/// The datagrams that replay the whole buffered uplink backlog, oldest
/// first, MTU-packed.
pub open spec fn replay_spec(inactive: Seq<PayloadModel>) -> Seq<Seq<u8>> {
    let packed = pack_fold(payload_bytes(inactive), Seq::<Seq<u8>>::empty(), Seq::<u8>::empty());
    if packed.1.len() > 0 {
        packed.0.push(packed.1)
    } else {
        packed.0
    }
}

/// The paced drain keeps the queue bounded: under an ingress of at most
/// `g` queueable payloads per tick, a queue that was at most `freq * g`
/// long stays at most `freq * g` long; and with no ingress a non-empty
/// queue strictly shrinks.
pub proof fn lemma_queue_bounded(len: int, g: int, d: int, freq: u16)
    requires
        freq >= 1,
        g >= 1,
        0 <= len <= (freq as int) * g + g,
        d >= to_drain_of(len, freq),
        d <= len,
    ensures
        len - d <= (freq as int) * g,
{
    let f = freq as int;
    vstd::arithmetic::div_mod::lemma_fundamental_div_mod(len + f - 1, f);
    let q = (len + f - 1) / f;
    let r = (len + f - 1) % f;
    if len - d > f * g {
        // d is at least the ceiling q, so q < len - f*g; but the ceiling of
        // len / f cannot leave more than f*g behind when len <= f*g + g
        assert(false) by (nonlinear_arith)
            requires
                f >= 1,
                g >= 1,
                0 <= len <= f * g + g,
                len + f - 1 == f * q + r,
                0 <= r < f,
                d >= q,
                len - d > f * g,
        ;
    }
}

/// The drain share is never larger than the queue itself.
pub proof fn lemma_to_drain_le(len: int, freq: u16)
    requires
        freq >= 1,
        len >= 0,
    ensures
        0 <= to_drain_of(len, freq) <= len,
        len > 0 ==> to_drain_of(len, freq) >= 1,
{
    let f = freq as int;
    vstd::arithmetic::div_mod::lemma_fundamental_div_mod(len + f - 1, f);
    let q = (len + f - 1) / f;
    let r = (len + f - 1) % f;
    if q < 0 {
        vstd::arithmetic::mul::lemma_mul_inequality(q, -1, f);
        vstd::arithmetic::mul::lemma_mul_is_commutative(q, f);
        vstd::arithmetic::mul::lemma_mul_is_commutative(-1, f);
    }
    if q > len {
        assert(false) by (nonlinear_arith)
            requires
                f >= 1,
                len >= 0,
                len + f - 1 == f * q + r,
                0 <= r < f,
                q > len,
        ;
    }
    if len > 0 && q < 1 {
        assert(false) by (nonlinear_arith)
            requires
                f >= 1,
                len > 0,
                len + f - 1 == f * q + r,
                0 <= r < f,
                q < 1,
        ;
    }
}

/// Folding one more block into a packing equals packing then stepping.
pub proof fn lemma_pack_fold_push(ps: Seq<Seq<u8>>, out: Seq<Seq<u8>>, buf: Seq<u8>, x: Seq<u8>)
    ensures
        pack_fold(ps.push(x), out, buf) == ({
            let (o, b) = pack_fold(ps, out, buf);
            pack_step(o, b, x)
        }),
    decreases ps.len(),
{
    if ps.len() == 0 {
        assert(ps.push(x)[0] == x);
        assert(ps.push(x).skip(1) =~= Seq::<Seq<u8>>::empty());
        let (o1, b1) = pack_step(out, buf, x);
        assert(pack_fold(Seq::<Seq<u8>>::empty(), o1, b1) == (o1, b1));
        assert(pack_fold(ps.push(x), out, buf) == pack_fold(ps.push(x).skip(1), o1, b1));
        assert(pack_fold(ps, out, buf) == (out, buf));
    } else {
        let (out1, buf1) = pack_step(out, buf, ps[0]);
        lemma_pack_fold_push(ps.skip(1), out1, buf1, x);
        assert(ps.push(x)[0] == ps[0]);
        assert(ps.push(x).skip(1) =~= ps.skip(1).push(x));
        assert(pack_fold(ps.push(x), out, buf) == pack_fold(ps.push(x).skip(1), out1, buf1));
        assert(pack_fold(ps, out, buf) == pack_fold(ps.skip(1), out1, buf1));
    }
}

/// Whether appending a block of `plen` bytes to a buffer of `buflen` bytes
/// would cross the MTU.
fn crosses_mtu(buflen: usize, plen: usize) -> (r: bool)
    ensures
        r == (buflen + plen > UDP_MAX_SIZE),
{
    plen > UDP_MAX_SIZE || buflen > UDP_MAX_SIZE - plen
}

/// Append the bytes of `src` to `dst`.
fn append_bytes(dst: &mut Vec<u8>, src: &Vec<u8>)
    requires
        old(dst)@.len() + src@.len() <= usize::MAX,
    ensures
        final (dst)@ == old(dst)@ + src@,
{
    let mut i: usize = 0;
    while i < src.len()
        invariant
            i <= src@.len(),
            dst@ == old(dst)@ + src@.take(i as int),
            old(dst)@.len() + src@.len() <= usize::MAX,
        decreases src@.len() - i,
    {
        dst.push(src[i]);
        proof {
            assert(old(dst)@ + src@.take(i + 1) =~= (old(dst)@ + src@.take(i as int)).push(
                src@[i as int],
            ));
        }
        i = i + 1;
    }
    proof {
        assert(old(dst)@ + src@.take(src@.len() as int) =~= old(dst)@ + src@);
    }
}

/// The UDP transport state: the paced backlog of queueable payloads, the
/// bounded replay buffer (oldest first) and the probe schedule counter.
pub struct UDP {
    pub queue: Vec<Payload>,
    pub inactive_buffer: Vec<Payload>,
    pub ping_counter: u32,
}

impl UDP {
    pub fn new() -> (r: Self)
        ensures
            dvs(r.queue@) == Seq::<PayloadModel>::empty(),
            dvs(r.inactive_buffer@) == Seq::<PayloadModel>::empty(),
            r.ping_counter == 0,
    {
        let r = UDP { queue: Vec::new(), inactive_buffer: Vec::new(), ping_counter: 0 };
        proof {
            assert(dvs(r.queue@) =~= Seq::<PayloadModel>::empty());
            assert(dvs(r.inactive_buffer@) =~= Seq::<PayloadModel>::empty());
        }
        r
    }

    /// Take in a tick's payloads and pack this tick's datagrams: queueables
    /// join the backlog and the replay buffer, immediates and the paced
    /// drain of the backlog are MTU-packed, and leftover buffer space is
    /// filled from the backlog front.  Returns the datagrams to send to
    /// every client and how many backlog entries were drained.
    pub fn assemble(&mut self, freq: u16, incoming: &Vec<Payload>) -> (r: (Vec<Vec<u8>>, usize))
        requires
            freq >= 1,
        ensures
            ({
                let (q2, ib2, out, d) = udp_assemble_spec(
                    dvs(old(self).queue@),
                    dvs(old(self).inactive_buffer@),
                    dvs(incoming@),
                    freq,
                );
                &&& dvs(final (self).queue@) == q2
                &&& dvs(final (self).inactive_buffer@) == ib2
                &&& dvs(r.0@) == out
                &&& r.1 == d
            }),
            final (self).ping_counter == old(self).ping_counter,
            final (self).inactive_buffer@.len() <= INACTIVE_BUFFER_SIZE,
    {
        let ghost q0 = dvs(old(self).queue@);
        let ghost ib0 = dvs(old(self).inactive_buffer@);
        let mut out: Vec<Vec<u8>> = Vec::new();
        let mut buffer: Vec<u8> = Vec::new();

        let mut i: usize = 0;
        while i < incoming.len()
            invariant
                i <= incoming@.len(),
                dvs(self.queue@) == q0 + queueables(dvs(incoming@).take(i as int)),
                dvs(self.inactive_buffer@) == ib0 + queueables(dvs(incoming@).take(i as int)),
                (dvs(out@), buffer@) == pack_fold(
                    payload_bytes(immediates(dvs(incoming@).take(i as int))),
                    Seq::<Seq<u8>>::empty(),
                    Seq::<u8>::empty(),
                ),
                self.ping_counter == old(self).ping_counter,
                q0 == dvs(old(self).queue@),
                ib0 == dvs(old(self).inactive_buffer@),
            decreases incoming@.len() - i,
        {
            proof {
                assert(dvs(incoming@).take(i + 1).drop_last() =~= dvs(incoming@).take(i as int));
                assert(dvs(incoming@).take(i + 1).last() == incoming@[i as int].deep_view());
            }
            let p = &incoming[i];
            if p.queueable {
                let ghost pre_q = self.queue@;
                let ghost pre_ib = self.inactive_buffer@;
                self.queue.push(p.clone());
                self.inactive_buffer.push(p.clone());
                proof {
                    assert(dvs(self.queue@) =~= dvs(pre_q).push(p.deep_view()));
                    assert(dvs(self.inactive_buffer@) =~= dvs(pre_ib).push(p.deep_view()));
                }
            } else {
                proof {
                    lemma_pack_fold_push(
                        payload_bytes(immediates(dvs(incoming@).take(i as int))),
                        Seq::<Seq<u8>>::empty(),
                        Seq::<u8>::empty(),
                        p.deep_view().payload,
                    );
                    assert(payload_bytes(immediates(dvs(incoming@).take(i + 1))) =~= payload_bytes(
                        immediates(dvs(incoming@).take(i as int)),
                    ).push(p.deep_view().payload));
                }
                if crosses_mtu(buffer.len(), p.payload.len()) {
                    let ghost pre_out = out@;
                    let ghost fullv = buffer@;
                    let full = buffer;
                    buffer = Vec::new();
                    out.push(full);
                    proof {
                        assert(out@.last().deep_view() =~= fullv);
                        assert(dvs(out@) =~= dvs(pre_out).push(fullv));
                    }
                    let mut fresh: Vec<u8> = Vec::new();
                    append_bytes(&mut fresh, &p.payload);
                    proof {
                        assert(Seq::<u8>::empty() + p.payload@ =~= p.payload@);
                    }
                    buffer = fresh;
                } else {
                    append_bytes(&mut buffer, &p.payload);
                }
            }
            i = i + 1;
        }
        proof {
            assert(dvs(incoming@).take(incoming@.len() as int) =~= dvs(incoming@));
        }

        // bound the replay buffer, dropping the oldest entries
        let ghost grown = dvs(self.inactive_buffer@);
        // reading the length binds the view's length to the machine word
        let gl = self.inactive_buffer.len();
        proof {
            assert(grown.len() == gl);
        }
        let mut t: usize = 0;
        while self.inactive_buffer.len() > INACTIVE_BUFFER_SIZE
            invariant
                dvs(self.inactive_buffer@) == grown.skip(t as int),
                t <= grown.len(),
                grown.len() <= usize::MAX,
                t == 0 || self.inactive_buffer@.len() >= INACTIVE_BUFFER_SIZE,
                dvs(self.queue@) == q0 + queueables(dvs(incoming@)),
                (dvs(out@), buffer@) == pack_fold(
                    payload_bytes(immediates(dvs(incoming@))),
                    Seq::<Seq<u8>>::empty(),
                    Seq::<u8>::empty(),
                ),
                self.ping_counter == old(self).ping_counter,
                q0 == dvs(old(self).queue@),
            decreases self.inactive_buffer@.len(),
        {
            let ghost pre = self.inactive_buffer@;
            self.inactive_buffer.remove(0);
            proof {
                assert(dvs(self.inactive_buffer@) =~= dvs(pre).skip(1));
                assert(dvs(pre).skip(1) =~= grown.skip(t + 1));
            }
            t = t + 1;
        }
        proof {
            if grown.len() > INACTIVE_BUFFER_SIZE {
                assert(self.inactive_buffer@.len() == grown.len() - t);
                assert(t == grown.len() - INACTIVE_BUFFER_SIZE);
            } else {
                assert(t == 0);
                assert(grown.skip(0) =~= grown);
            }
        }

        // paced drain of the backlog: the ceiling of the queue length over
        // the frequency, computed without overflow
        let ghost queue1 = dvs(self.queue@);
        proof {
            assert(queue1.len() == self.queue@.len());
        }
        let qlen = self.queue.len();
        let to_drain: usize = if qlen % freq as usize != 0 {
            proof {
                vstd::arithmetic::div_mod::lemma_fundamental_div_mod(qlen as int, freq as int);
                assert((qlen as int) / (freq as int) < qlen as int) by (nonlinear_arith)
                    requires
                        freq >= 1 && qlen as int == (freq as int) * ((qlen as int) / (freq as int))
                            + (qlen as int) % (freq as int) && 0 < (qlen as int) % (freq as int) < (
                        freq as int),
                ;
            }
            qlen / freq as usize + 1
        } else {
            qlen / freq as usize
        };
        proof {
            lemma_to_drain_le(queue1.len() as int, freq);
            let f = freq as int;
            let q = (qlen as int) / f;
            let r = (qlen as int) % f;
            vstd::arithmetic::div_mod::lemma_fundamental_div_mod(qlen as int, f);
            if r == 0 {
                vstd::arithmetic::div_mod::lemma_div_multiples_vanish_fancy(q, f - 1, f);
                assert(f * q + (f - 1) == qlen + f - 1);
            } else {
                vstd::arithmetic::div_mod::lemma_div_multiples_vanish_fancy(q + 1, r - 1, f);
                assert(f * (q + 1) + (r - 1) == qlen + f - 1) by (nonlinear_arith)
                    requires
                        qlen == f * q + r,
                ;
            }
            assert(to_drain == to_drain_of(queue1.len() as int, freq));
        }
        let ghost packed1 = pack_fold(
            payload_bytes(immediates(dvs(incoming@))),
            Seq::<Seq<u8>>::empty(),
            Seq::<u8>::empty(),
        );
        let mut j: usize = 0;
        while j < to_drain
            invariant
                j <= to_drain,
                to_drain == to_drain_of(queue1.len() as int, freq),
                to_drain <= queue1.len(),
                queue1.len() <= usize::MAX,
                dvs(self.queue@) == queue1.skip(j as int),
                (dvs(out@), buffer@) == pack_fold(
                    payload_bytes(queue1.take(j as int)),
                    packed1.0,
                    packed1.1,
                ),
                packed1 == pack_fold(
                    payload_bytes(immediates(dvs(incoming@))),
                    Seq::<Seq<u8>>::empty(),
                    Seq::<u8>::empty(),
                ),
                self.ping_counter == old(self).ping_counter,
                dvs(self.inactive_buffer@) == udp_assemble_spec(
                    q0,
                    ib0,
                    dvs(incoming@),
                    freq,
                ).1,
                self.inactive_buffer@.len() <= INACTIVE_BUFFER_SIZE,
                queue1 == q0 + queueables(dvs(incoming@)),
                q0 == dvs(old(self).queue@),
            decreases to_drain - j,
        {
            proof {
                lemma_pack_fold_push(
                    payload_bytes(queue1.take(j as int)),
                    packed1.0,
                    packed1.1,
                    queue1[j as int].payload,
                );
                assert(payload_bytes(queue1.take(j + 1)) =~= payload_bytes(
                    queue1.take(j as int),
                ).push(queue1[j as int].payload));
            }
            proof {
                assert(dvs(self.queue@).len() == queue1.len() - j);
            }
            let ghost pre_q = self.queue@;
            let p = self.queue.remove(0);
            proof {
                assert(dvs(self.queue@) =~= dvs(pre_q).skip(1));
                assert(dvs(pre_q).skip(1) =~= queue1.skip(j + 1));
                assert(dvs(pre_q)[0] == queue1[j as int]);
            }
            if crosses_mtu(buffer.len(), p.payload.len()) {
                let ghost pre_out = out@;
                let ghost fullv = buffer@;
                let full = buffer;
                buffer = Vec::new();
                out.push(full);
                proof {
                    assert(out@.last().deep_view() =~= fullv);
                    assert(dvs(out@) =~= dvs(pre_out).push(fullv));
                }
                let mut fresh: Vec<u8> = Vec::new();
                append_bytes(&mut fresh, &p.payload);
                proof {
                    assert(Seq::<u8>::empty() + p.payload@ =~= p.payload@);
                }
                buffer = fresh;
            } else {
                append_bytes(&mut buffer, &p.payload);
            }
            j = j + 1;
        }
        let ghost packed2 = pack_fold(payload_bytes(queue1.take(to_drain as int)), packed1.0, packed1.1);

        // squeeze whole queued payloads into the leftover buffer space
        let mut drained: usize = to_drain;
        if buffer.len() > 0 {
            let ghost buf_d = buffer@;
            let ghost kk = opp_take(queue1.skip(to_drain as int), buf_d.len() as int);
            let mut k: usize = 0;
            while self.queue.len() > 0 && !crosses_mtu(buffer.len(), self.queue[0].payload.len())
                invariant
                    to_drain + k <= queue1.len(),
                    queue1.len() <= usize::MAX,
                    dvs(self.queue@) == queue1.skip(to_drain + k),
                    (dvs(out@), buffer@) == pack_fold(
                        payload_bytes(queue1.subrange(to_drain as int, to_drain + k)),
                        packed2.0,
                        packed2.1,
                    ),
                    buffer@.len() >= 1,
                    opp_take(queue1.skip(to_drain as int), buf_d.len() as int) == k + opp_take(
                        queue1.skip(to_drain + k),
                        buffer@.len() as int,
                    ),
                    packed2 == (dvs(out@), buf_d) || k > 0,
                    packed2.1 == buf_d,
                    self.ping_counter == old(self).ping_counter,
                    dvs(self.inactive_buffer@) == udp_assemble_spec(
                        q0,
                        ib0,
                        dvs(incoming@),
                        freq,
                    ).1,
                    self.inactive_buffer@.len() <= INACTIVE_BUFFER_SIZE,
                    queue1 == q0 + queueables(dvs(incoming@)),
                    q0 == dvs(old(self).queue@),
                    to_drain == to_drain_of(queue1.len() as int, freq),
                    dvs(out@) == packed2.0,
                decreases queue1.len() - to_drain - k,
            {
                proof {
                    lemma_pack_fold_push(
                        payload_bytes(queue1.subrange(to_drain as int, to_drain + k)),
                        packed2.0,
                        packed2.1,
                        queue1[to_drain + k].payload,
                    );
                    assert(payload_bytes(queue1.subrange(to_drain as int, to_drain + k + 1))
                        =~= payload_bytes(queue1.subrange(to_drain as int, to_drain + k)).push(
                        queue1[to_drain + k].payload,
                    ));
                    assert(queue1.skip(to_drain + k)[0] == queue1[to_drain + k]);
                    assert(queue1.skip(to_drain + k).skip(1) =~= queue1.skip(to_drain + k + 1));
                }
                let ghost pre_q = self.queue@;
                let p = self.queue.remove(0);
                proof {
                    assert(dvs(self.queue@) =~= dvs(pre_q).skip(1));
                    assert(dvs(pre_q).skip(1) =~= queue1.skip(to_drain + k + 1));
                    assert(dvs(pre_q)[0] == queue1[to_drain + k]);
                }
                append_bytes(&mut buffer, &p.payload);
                k = k + 1;
            }
            proof {
                assert(opp_take(queue1.skip(to_drain + k), buffer@.len() as int) == 0);
                assert(kk == k);
            }
            let ghost pre_out = out@;
            let ghost fullv = buffer@;
            let full = buffer;
            out.push(full);
            drained = to_drain + k;
            proof {
                assert(out@.last().deep_view() =~= fullv);
                assert(dvs(out@) =~= dvs(pre_out).push(fullv));
                let (q2, ib2, outs, dd) = udp_assemble_spec(q0, ib0, dvs(incoming@), freq);
                assert(queue1.subrange(to_drain as int, to_drain + k) =~= queue1.skip(
                    to_drain as int,
                ).take(k as int));
                assert(dvs(self.queue@) =~= q2);
                assert(dvs(out@) =~= outs);
            }
        } else {
            proof {
                let (q2, ib2, outs, dd) = udp_assemble_spec(q0, ib0, dvs(incoming@), freq);
                assert(dvs(self.queue@) =~= q2);
                assert(dvs(out@) =~= outs);
            }
        }
        (out, drained)
    }

    /// The replay datagrams for a returning client: the whole buffered
    /// backlog, oldest first, MTU-packed.
    pub fn replay_datagrams(&self) -> (r: Vec<Vec<u8>>)
        ensures
            dvs(r@) == replay_spec(dvs(self.inactive_buffer@)),
    {
        let ghost ib = dvs(self.inactive_buffer@);
        let mut out: Vec<Vec<u8>> = Vec::new();
        let mut buffer: Vec<u8> = Vec::new();
        let mut i: usize = 0;
        while i < self.inactive_buffer.len()
            invariant
                i <= self.inactive_buffer@.len(),
                ib == dvs(self.inactive_buffer@),
                (dvs(out@), buffer@) == pack_fold(
                    payload_bytes(ib.take(i as int)),
                    Seq::<Seq<u8>>::empty(),
                    Seq::<u8>::empty(),
                ),
            decreases self.inactive_buffer@.len() - i,
        {
            proof {
                lemma_pack_fold_push(
                    payload_bytes(ib.take(i as int)),
                    Seq::<Seq<u8>>::empty(),
                    Seq::<u8>::empty(),
                    ib[i as int].payload,
                );
                assert(payload_bytes(ib.take(i + 1)) =~= payload_bytes(ib.take(i as int)).push(
                    ib[i as int].payload,
                ));
            }
            let p = &self.inactive_buffer[i];
            if crosses_mtu(buffer.len(), p.payload.len()) {
                let ghost pre_out = out@;
                let ghost fullv = buffer@;
                let full = buffer;
                buffer = Vec::new();
                out.push(full);
                proof {
                    assert(out@.last().deep_view() =~= fullv);
                    assert(dvs(out@) =~= dvs(pre_out).push(fullv));
                }
                let mut fresh: Vec<u8> = Vec::new();
                append_bytes(&mut fresh, &p.payload);
                proof {
                    assert(Seq::<u8>::empty() + p.payload@ =~= p.payload@);
                }
                buffer = fresh;
            } else {
                append_bytes(&mut buffer, &p.payload);
            }
            i = i + 1;
        }
        proof {
            assert(ib.take(ib.len() as int) =~= ib);
        }
        if buffer.len() > 0 {
            let ghost pre_out = out@;
            let ghost fullv = buffer@;
            let full = buffer;
            out.push(full);
            proof {
                assert(out@.last().deep_view() =~= fullv);
                assert(dvs(out@) =~= dvs(pre_out).push(fullv));
            }
        }
        out
    }

    /// Advance the probe schedule; true when this tick should send the
    /// liveness probe to every client (once a second).
    pub fn should_ping(&mut self, freq: u16) -> (r: bool)
        requires
            old(self).ping_counter < u32::MAX,
        ensures
            r == ((old(self).ping_counter + 1) as u32 >= crate::util::run_every_ticks(freq, 10)),
            r ==> final (self).ping_counter == 0,
            !r ==> final (self).ping_counter == old(self).ping_counter + 1,
            final (self).queue == old(self).queue,
            final (self).inactive_buffer == old(self).inactive_buffer,
    {
        self.ping_counter = self.ping_counter + 1;
        if self.ping_counter >= ticks_for(freq, 10) {
            self.ping_counter = 0;
            true
        } else {
            false
        }
    }
}

/// The liveness probe: an ICMP echo request with a fixed identifier, a zero
/// sequence number and the probe text.
pub open spec fn ping_packet_spec() -> Seq<u8> {
    seq![
        0x08u8,
        0x00u8,
        0x25u8,
        0xC9u8,
        0xD9u8,
        0x9Du8,
        0x00u8,
        0x00u8,
        80u8,
        73u8,
        84u8,
        79u8,
        84u8,
    ]
}

/// Build the liveness probe packet.
pub fn ping_packet() -> (r: Vec<u8>)
    ensures
        r@ == ping_packet_spec(),
{
    let mut v: Vec<u8> = Vec::new();
    v.push(0x08);
    v.push(0x00);
    v.push(0x25);
    v.push(0xC9);
    v.push(0xD9);
    v.push(0x9D);
    v.push(0x00);
    v.push(0x00);
    v.push(80);
    v.push(73);
    v.push(84);
    v.push(79);
    v.push(84);
    proof {
        assert(v@ =~= ping_packet_spec());
    }
    v
}

/// Whether a received 22-byte header-plus-payload block is an echo reply:
/// its type and code bytes are both zero.
pub fn is_echo_reply(buf: &Vec<u8>) -> (r: bool)
    ensures
        r == (buf@.len() == 22 && buf@[20] == 0 && buf@[21] == 0),
{
    buf.len() == 22 && buf[20] == 0 && buf[21] == 0
}

/// Per-client liveness state, all timestamps on the monotonic clock in
/// milliseconds.
#[derive(Clone, Copy, Debug, PartialEq)]
pub struct ClientState {
    /// A probe reply has been seen recently.
    pub active: bool,
    /// When the last probe reply arrived.
    pub last_reply: u64,
    /// The client's application is believed to be listening.
    pub in_app: bool,
    /// When the last delivery was refused.
    pub last_refused: u64,
    /// When this client last received a replay.
    pub last_replay: u64,
}

/// All of a client state's timestamps lie at or before `now`.
pub open spec fn client_wf(c: ClientState, now: u64) -> bool {
    c.last_reply <= now && c.last_refused <= now && c.last_replay <= now
}

/// The client state after this tick's reconciliation, and whether the
/// client just came back into the application (a rising edge that makes it
/// a replay candidate).
pub open spec fn reconcile_spec(c: ClientState, now: u64) -> (ClientState, bool) {
    let (active, last_refused) = if now - c.last_reply >= DEAD_THRESHOLD_MS {
        (false, c.last_refused)
    } else if !c.active {
        (true, now)
    } else {
        (true, c.last_refused)
    };
    if active {
        if now - last_refused < IN_APP_THRESHOLD_MS {
            (
                ClientState {
                    active,
                    last_reply: c.last_reply,
                    in_app: false,
                    last_refused,
                    last_replay: c.last_replay,
                },
                false,
            )
        } else if !c.in_app {
            (
                ClientState {
                    active,
                    last_reply: c.last_reply,
                    in_app: true,
                    last_refused,
                    last_replay: c.last_replay,
                },
                true,
            )
        } else {
            (
                ClientState {
                    active,
                    last_reply: c.last_reply,
                    in_app: true,
                    last_refused,
                    last_replay: c.last_replay,
                },
                false,
            )
        }
    } else {
        (
            ClientState {
                active,
                last_reply: c.last_reply,
                in_app: c.in_app,
                last_refused,
                last_replay: c.last_replay,
            },
            false,
        )
    }
}

impl ClientState {
    /// A newly discovered client: presumed active, not yet in the
    /// application, with every timestamp set to now.
    pub fn new(now: u64) -> (r: Self)
        ensures
            r == (ClientState {
                active: true,
                last_reply: now,
                in_app: false,
                last_refused: now,
                last_replay: now,
            }),
    {
        ClientState { active: true, last_reply: now, in_app: false, last_refused: now, last_replay: now }
    }

    /// Record a probe reply from this client.
    pub fn note_echo_reply(&mut self, now: u64)
        ensures
            *final (self) == (ClientState { last_reply: now, ..*old(self) }),
    {
        self.last_reply = now;
    }

    /// Record a refused delivery to this client.
    pub fn note_refused(&mut self, now: u64)
        ensures
            *final (self) == (ClientState { last_refused: now, ..*old(self) }),
    {
        self.last_refused = now;
    }

    /// Reconcile this client's liveness against the probe thresholds;
    /// true exactly on the rising edge back into the application.
    pub fn reconcile(&mut self, now: u64) -> (r: bool)
        requires
            client_wf(*old(self), now),
        ensures
            (*final (self), r) == reconcile_spec(*old(self), now),
            client_wf(*final (self), now),
    {
        if now - self.last_reply >= DEAD_THRESHOLD_MS {
            self.active = false;
        } else if !self.active {
            self.active = true;
            self.last_refused = now;
        }
        if self.active {
            if now - self.last_refused < IN_APP_THRESHOLD_MS {
                self.in_app = false;
            } else if !self.in_app {
                self.in_app = true;
                return true;
            }
        }
        false
    }

    /// Whether a replay is due for a rising-edge client: at most one replay
    /// per interval; stamps the replay time when granting one.
    pub fn replay_due(&mut self, now: u64) -> (r: bool)
        requires
            client_wf(*old(self), now),
        ensures
            r == (now - old(self).last_replay >= REPLAY_INTERVAL_MS),
            r ==> *final (self) == (ClientState { last_replay: now, ..*old(self) }),
            !r ==> *final (self) == *old(self),
    {
        if now - self.last_replay < REPLAY_INTERVAL_MS {
            false
        } else {
            self.last_replay = now;
            true
        }
    }
}

/// The big-endian 32-bit value at `off`.
pub open spec fn be_u32_at(b: Seq<u8>, off: int) -> int {
    b[off] * 0x1000000 + b[off + 1] * 0x10000 + b[off + 2] * 0x100 + b[off + 3]
}

/// The big-endian 64-bit value at `off`.
pub open spec fn be_u64_at(b: Seq<u8>, off: int) -> int {
    be_u32_at(b, off) * 0x100000000 + be_u32_at(b, off + 4)
}

/// A lease file holds an 8-byte written-at timestamp and then 36-byte
/// records: 4-byte expiry offset, 4 address bytes, 6-byte hardware address,
/// 20-byte hostname and 2 bytes of padding.
pub open spec fn lease_record_count(b: Seq<u8>) -> int {
    (b.len() - 8) / 36
}

/// The addresses of the first `k` lease records that are still alive at
/// `now_sec`: those whose written-at plus expiry lies in the future.
pub open spec fn lease_alive_upto(b: Seq<u8>, now_sec: i64, k: int) -> Seq<u32>
    decreases k,
{
    if k <= 0 {
        Seq::<u32>::empty()
    } else {
        let prev = lease_alive_upto(b, now_sec, k - 1);
        let off = 8 + 36 * (k - 1);
        if (now_sec as int) < be_u64_at(b, 0) + be_u32_at(b, off) {
            prev.push(be_u32_at(b, off + 4) as u32)
        } else {
            prev
        }
    }
}

/// Parse a DHCP lease file: the still-alive client addresses, in record
/// order, or `None` when the file is too short to hold its header.
pub fn parse_lease_file(b: &Vec<u8>, now_sec: i64) -> (r: Option<Vec<u32>>)
    ensures
        b@.len() < 8 ==> r is None,
        b@.len() >= 8 ==> r is Some && r.unwrap()@ == lease_alive_upto(
            b@,
            now_sec,
            lease_record_count(b@),
        ),
{
    if b.len() < 8 {
        return None;
    }
    // reading the length binds the view's length to the machine word
    let blen = b.len();
    let written: u64 = be_u64_exec(b, 0);
    let count: usize = (blen - 8) / 36;
    proof {
        vstd::arithmetic::div_mod::lemma_fundamental_div_mod(b@.len() - 8, 36);
        assert(36 * ((b@.len() - 8) / 36) <= b@.len() - 8);
    }
    let mut out: Vec<u32> = Vec::new();
    let mut k: usize = 0;
    while k < count
        invariant
            k <= count,
            count == lease_record_count(b@),
            8 + 36 * count <= b@.len(),
            b@.len() <= usize::MAX,
            written == be_u64_at(b@, 0),
            out@ == lease_alive_upto(b@, now_sec, k as int),
        decreases count - k,
    {
        proof {
            assert(36 * (k as int) + 36 <= 36 * (count as int)) by (nonlinear_arith)
                requires
                    0 <= k < count,
            ;
        }
        let off: usize = 8 + 36 * k;
        let expiry: u32 = be_u32_exec(b, off);
        let ip: u32 = be_u32_exec(b, off + 4);
        if (now_sec as i128) < written as i128 + expiry as i128 {
            out.push(ip);
        }
        k = k + 1;
    }
    Some(out)
}

/// The big-endian 32-bit value starting at `off`.
fn be_u32_exec(b: &Vec<u8>, off: usize) -> (r: u32)
    requires
        off + 4 <= b@.len(),
    ensures
        r == be_u32_at(b@, off as int),
{
    // reading the length binds the view's length to the machine word
    let _len = b.len();
    (b[off] as u32) * 0x1000000 + (b[off + 1] as u32) * 0x10000 + (b[off + 2] as u32) * 0x100 + (
    b[off + 3] as u32)
}

/// The big-endian 64-bit value starting at `off`.
fn be_u64_exec(b: &Vec<u8>, off: usize) -> (r: u64)
    requires
        off + 8 <= b@.len(),
    ensures
        r == be_u64_at(b@, off as int),
{
    // reading the length binds the view's length to the machine word
    let _len = b.len();
    (be_u32_exec(b, off) as u64) * 0x100000000 + (be_u32_exec(b, off + 4) as u64)
}

proof fn lemma_opp_take_le(rest: Seq<PayloadModel>, buflen: int)
    ensures
        0 <= opp_take(rest, buflen) <= rest.len(),
    decreases rest.len(),
{
    if rest.len() > 0 && buflen + rest[0].payload.len() <= UDP_MAX_SIZE {
        lemma_opp_take_le(rest.skip(1), buflen + rest[0].payload.len());
    }
}

/// Each call drains at least the paced share of the backlog: with `n`
/// entries on hand after the tick's queueables joined, at least
/// `ceil(n / freq)` leave the front, so at most `n - ceil(n / freq)`
/// remain.
pub proof fn lemma_assemble_paced_drain(
    queue: Seq<PayloadModel>,
    inactive: Seq<PayloadModel>,
    incoming: Seq<PayloadModel>,
    freq: u16,
)
    requires
        freq >= 1,
    ensures
        ({
            let combined = queue + queueables(incoming);
            let share = to_drain_of(combined.len() as int, freq);
            let r = udp_assemble_spec(queue, inactive, incoming, freq);
            &&& share <= r.3 <= combined.len()
            &&& r.0 == combined.skip(r.3)
            &&& r.0.len() <= combined.len() - share
        }),
{
    let combined = queue + queueables(incoming);
    let d = to_drain_of(combined.len() as int, freq);
    lemma_to_drain_le(combined.len() as int, freq);
    let packed1 = pack_fold(payload_bytes(immediates(incoming)), Seq::<Seq<u8>>::empty(), Seq::<
        u8,
    >::empty());
    let packed2 = pack_fold(payload_bytes(combined.take(d)), packed1.0, packed1.1);
    if packed2.1.len() > 0 {
        lemma_opp_take_le(combined.skip(d), packed2.1.len() as int);
    }
}

/// Paced egress keeps the backlog bounded: with at most `g` queueable
/// payloads arriving per tick, a backlog of at most `freq * g` entries
/// never grows past `freq * g`; and with no ingress at all, a non-empty
/// backlog strictly shrinks every tick.
pub proof fn lemma_assemble_queue_bounded(
    queue: Seq<PayloadModel>,
    inactive: Seq<PayloadModel>,
    incoming: Seq<PayloadModel>,
    freq: u16,
    g: int,
)
    requires
        freq >= 1,
        g >= 1,
        queueables(incoming).len() <= g,
        queue.len() <= (freq as int) * g,
    ensures
        udp_assemble_spec(queue, inactive, incoming, freq).0.len() <= (freq as int) * g,
        queueables(incoming).len() == 0 && queue.len() > 0 ==> udp_assemble_spec(
            queue,
            inactive,
            incoming,
            freq,
        ).0.len() < queue.len(),
{
    let queue1 = queue + queueables(incoming);
    let d = to_drain_of(queue1.len() as int, freq);
    lemma_to_drain_le(queue1.len() as int, freq);
    let packed1 = pack_fold(payload_bytes(immediates(incoming)), Seq::<Seq<u8>>::empty(), Seq::<
        u8,
    >::empty());
    let packed2 = pack_fold(payload_bytes(queue1.take(d)), packed1.0, packed1.1);
    if packed2.1.len() > 0 {
        let k = opp_take(queue1.skip(d), packed2.1.len() as int);
        lemma_opp_take_le(queue1.skip(d), packed2.1.len() as int);
        lemma_queue_bounded(queue1.len() as int, g, d + k, freq);
    } else {
        lemma_queue_bounded(queue1.len() as int, g, d, freq);
    }
}

} // verus!

//! Deterministic network simulation in virtual time: one-way links with a
//! fixed latency and seeded packet loss, and a ping/pong exchange over a
//! pair of them with retransmission.

use vstd::prelude::*;
use crate::frame::{Frame, FrameHeader, Opcode};
use crate::time::{Duration, Instant};

verus! {

/// Parts per million, the unit of loss rates.
pub const PPM: u64 = 1_000_000;

/// A frame on a link: when it was sent and when it arrives.
pub struct InFlight {
    pub sent_at: Instant,
    pub deliver_at: Instant,
    pub frame: Frame,
}

/// A one-way link: every frame that is not lost arrives `latency` after it
/// was sent; the loss draw comes from a generator seeded at creation.
pub struct SimLink {
    latency: Duration,
    loss_ppm: u64,
    rng: u64,
    in_flight: Vec<InFlight>,
}

/// The next state of the link's xorshift generator.
pub open spec fn next_draw(x: u64) -> u64 {
    let a = x ^ (x << 13u64);
    let b = a ^ (a >> 7u64);
    b ^ (b << 17u64)
}

/// The generator state that a seed gives (zero, which xorshift cannot
/// leave, is replaced by a fixed odd constant).
pub open spec fn seed_state(seed: u64) -> u64 {
    if seed == 0 {
        0x9e37_79b9_7f4a_7c15
    } else {
        seed
    }
}

impl SimLink {
    /// Every frame on the link arrives exactly `latency` after it was sent.
    pub closed spec fn wf(&self) -> bool {
        forall|k: int|
            0 <= k < self.in_flight@.len() ==> (#[trigger] self.in_flight@[k]).deliver_at.nanos
                == self.in_flight@[k].sent_at.nanos + self.latency.nanos
    }

    /// The link's latency.
    pub closed spec fn spec_latency(&self) -> Duration {
        self.latency
    }

    /// The link's loss rate in parts per million.
    pub closed spec fn loss_ppm(&self) -> u64 {
        self.loss_ppm
    }

    /// The state of the loss generator.
    pub closed spec fn rng_state(&self) -> u64 {
        self.rng
    }

    /// The send times of the frames on the link, oldest first.
    pub closed spec fn sent_times(&self) -> Seq<u64> {
        self.in_flight@.map_values(|e: InFlight| e.sent_at.nanos)
    }

    /// A link with the given latency, loss rate (parts per million) and
    /// seed.
    pub fn new(latency: Duration, loss_ppm: u64, seed: u64) -> (r: SimLink)
        ensures
            r.wf(),
            r.spec_latency() == latency,
            r.loss_ppm() == loss_ppm,
            r.rng_state() == seed_state(seed),
            r.sent_times().len() == 0,
    {
        let rng = if seed == 0 {
            0x9e37_79b9_7f4a_7c15
        } else {
            seed
        };
        let r = SimLink { latency, loss_ppm, rng, in_flight: Vec::new() };
        assert(r.sent_times() =~= Seq::<u64>::empty());
        r
    }

    /// The latency.
    pub fn latency(&self) -> (r: Duration)
        ensures
            r == self.spec_latency(),
    {
        self.latency
    }

    fn next_random(&mut self) -> (r: u64)
        ensures
            r == next_draw(old(self).rng),
            final(self).rng == r,
            final(self).in_flight@ == old(self).in_flight@,
            final(self).latency == old(self).latency,
            final(self).loss_ppm == old(self).loss_ppm,
    {
        let x = self.rng;
        let a = x ^ (x << 13u64);
        let b = a ^ (a >> 7u64);
        let c = b ^ (b << 17u64);
        self.rng = c;
        c
    }

    /// Sends `frame` at `now`; returns whether it was lost. The generator
    /// moves one step, and the frame is lost when the new draw, taken
    /// modulo a million, is below the loss rate.
    pub fn send(&mut self, now: Instant, frame: Frame) -> (lost: bool)
        requires
            old(self).wf(),
            now.nanos + old(self).spec_latency().nanos <= u64::MAX,
        ensures
            final(self).wf(),
            final(self).spec_latency() == old(self).spec_latency(),
            final(self).loss_ppm() == old(self).loss_ppm(),
            final(self).rng_state() == next_draw(old(self).rng_state()),
            lost == (next_draw(old(self).rng_state()) % PPM < old(self).loss_ppm()),
            old(self).loss_ppm() == 0 ==> !lost,
            lost ==> final(self).sent_times() == old(self).sent_times(),
            !lost ==> final(self).sent_times() == old(self).sent_times().push(now.nanos),
    {
        let draw = self.next_random();
        let ghost before = self.in_flight@;
        if draw % PPM < self.loss_ppm {
            assert(self.in_flight@ == before);
            return true;
        }
        let deliver_at = now.plus(self.latency);
        self.in_flight.push(InFlight { sent_at: now, deliver_at, frame });
        assert(self.sent_times() =~= before.map_values(|e: InFlight| e.sent_at.nanos).push(now.nanos));
        false
    }

    /// Takes the frames that have arrived by `now`, oldest first. Every
    /// frame due is handed out and every other frame stays; each frame
    /// handed out was sent at least one latency before `now`.
    pub fn deliver_due(&mut self, now: Instant) -> (r: Vec<InFlight>)
        requires
            old(self).wf(),
        ensures
            final(self).wf(),
            final(self).spec_latency() == old(self).spec_latency(),
            final(self).loss_ppm() == old(self).loss_ppm(),
            final(self).rng_state() == old(self).rng_state(),
            r@.len() + final(self).sent_times().len() == old(self).sent_times().len(),
            forall|k: int| 0 <= k < r@.len() ==> (#[trigger] r@[k]).sent_at.nanos + old(self).spec_latency().nanos <= now.nanos,
            forall|k: int| 0 <= k < r@.len() ==> old(self).sent_times().contains((#[trigger] r@[k]).sent_at.nanos),
            forall|k: int|
                0 <= k < final(self).sent_times().len() ==> old(self).sent_times().contains(#[trigger] final(self).sent_times()[k])
                    && final(self).sent_times()[k] + old(self).spec_latency().nanos > now.nanos,
            forall|t: u64|
                old(self).sent_times().contains(t) && t + old(self).spec_latency().nanos <= now.nanos
                    ==> exists|k: int| 0 <= k < r@.len() && (#[trigger] r@[k]).sent_at.nanos == t,
            forall|t: u64|
                old(self).sent_times().contains(t) && t + old(self).spec_latency().nanos > now.nanos
                    ==> #[trigger] final(self).sent_times().contains(t),
    {
        let ghost old_in = self.in_flight@;
        let ghost old_times = self.sent_times();
        let ghost n = old_in.len();
        let latency = self.latency;
        let mut due: Vec<InFlight> = Vec::new();
        let mut rest: Vec<InFlight> = Vec::new();
        let ghost mut c: int = 0;
        let ghost loss = self.loss_ppm;
        let ghost rng = self.rng;
        while self.in_flight.len() > 0
            invariant
                self.latency == latency,
                self.loss_ppm == loss,
                self.rng == rng,
                0 <= c <= n,
                n == old_in.len(),
                old_times == old_in.map_values(|e: InFlight| e.sent_at.nanos),
                forall|k: int| 0 <= k < n ==> (#[trigger] old_in[k]).deliver_at.nanos == old_in[k].sent_at.nanos + latency.nanos,
                self.in_flight@ == old_in.subrange(c, n as int),
                due@.len() + rest@.len() == c,
                forall|k: int| 0 <= k < rest@.len() ==> (#[trigger] rest@[k]).deliver_at.nanos == rest@[k].sent_at.nanos + latency.nanos
                    && rest@[k].sent_at.nanos + latency.nanos > now.nanos && old_times.contains(rest@[k].sent_at.nanos),
                forall|k: int| 0 <= k < due@.len() ==> (#[trigger] due@[k]).sent_at.nanos + latency.nanos <= now.nanos
                    && old_times.contains(due@[k].sent_at.nanos),
                forall|j: int| 0 <= j < c && old_times[j] + latency.nanos <= now.nanos
                    ==> exists|k: int| 0 <= k < due@.len() && (#[trigger] due@[k]).sent_at.nanos == old_times[j],
                forall|j: int| 0 <= j < c && old_times[j] + latency.nanos > now.nanos
                    ==> exists|k: int| 0 <= k < rest@.len() && (#[trigger] rest@[k]).sent_at.nanos == old_times[j],
            decreases self.in_flight@.len(),
        {
            let ghost due0 = due@;
            let ghost rest0 = rest@;
            let e = self.in_flight.remove(0);
            proof {
                assert(e == old_in[c]);
                assert(old_times[c] == e.sent_at.nanos);
                assert(old_times.contains(e.sent_at.nanos));
            }
            if e.deliver_at.nanos <= now.nanos {
                due.push(e);
                proof {
                    assert forall|j: int| 0 <= j < c + 1 && old_times[j] + latency.nanos <= now.nanos implies exists|k: int|
                        0 <= k < due@.len() && (#[trigger] due@[k]).sent_at.nanos == old_times[j] by {
                        if j < c {
                            let k = choose|k: int| 0 <= k < due0.len() && (#[trigger] due0[k]).sent_at.nanos == old_times[j];
                            assert(due@[k] == due0[k]);
                        } else {
                            assert(due@[due0.len() as int].sent_at.nanos == old_times[j]);
                        }
                    }
                    assert forall|j: int| 0 <= j < c + 1 && old_times[j] + latency.nanos > now.nanos implies exists|k: int|
                        0 <= k < rest@.len() && (#[trigger] rest@[k]).sent_at.nanos == old_times[j] by {
                        if j < c {
                            let k = choose|k: int| 0 <= k < rest0.len() && (#[trigger] rest0[k]).sent_at.nanos == old_times[j];
                        }
                    }
                }
            } else {
                rest.push(e);
                proof {
                    assert forall|j: int| 0 <= j < c + 1 && old_times[j] + latency.nanos > now.nanos implies exists|k: int|
                        0 <= k < rest@.len() && (#[trigger] rest@[k]).sent_at.nanos == old_times[j] by {
                        if j < c {
                            let k = choose|k: int| 0 <= k < rest0.len() && (#[trigger] rest0[k]).sent_at.nanos == old_times[j];
                            assert(rest@[k] == rest0[k]);
                        } else {
                            assert(rest@[rest0.len() as int].sent_at.nanos == old_times[j]);
                        }
                    }
                    assert forall|j: int| 0 <= j < c + 1 && old_times[j] + latency.nanos <= now.nanos implies exists|k: int|
                        0 <= k < due@.len() && (#[trigger] due@[k]).sent_at.nanos == old_times[j] by {
                        if j < c {
                            let k = choose|k: int| 0 <= k < due0.len() && (#[trigger] due0[k]).sent_at.nanos == old_times[j];
                        }
                    }
                }
            }
            proof {
                c = c + 1;
            }
        }
        self.in_flight = rest;
        proof {
            assert(c == n);
            assert forall|t: u64| old_times.contains(t) && t + latency.nanos <= now.nanos implies exists|k: int|
                0 <= k < due@.len() && (#[trigger] due@[k]).sent_at.nanos == t by {
                let j = choose|j: int| 0 <= j < old_times.len() && old_times[j] == t;
            }
            assert forall|t: u64| old_times.contains(t) && t + latency.nanos > now.nanos implies #[trigger] self.sent_times().contains(t) by {
                let j = choose|j: int| 0 <= j < old_times.len() && old_times[j] == t;
                let k = choose|k: int| 0 <= k < rest@.len() && (#[trigger] rest@[k]).sent_at.nanos == old_times[j];
                assert(self.sent_times()[k] == t);
            }
            assert forall|k: int| 0 <= k < self.sent_times().len() implies old_times.contains(#[trigger] self.sent_times()[k])
                && self.sent_times()[k] + latency.nanos > now.nanos by {
                assert(self.sent_times()[k] == rest@[k].sent_at.nanos);
            }
        }
        due
    }
}

/// A bound that keeps all virtual times of a simulation far from overflow.
pub const MAX_SIM_NANOS: u64 = 0x1000_0000_0000_0000;

/// Runs a ping/pong exchange from time zero over two links with the given
/// latency and loss: the client sends a Ping every `retransmit` until a
/// Pong arrives, the server answers every Ping it receives, and the clock
/// advances by `step` up to `duration`. Returns the time from the first
/// Ping to the first Pong, or `None` if no Pong arrived in time. Any round
/// trip takes at least twice the latency; without loss, a Pong arrives
/// within twice the latency plus two steps.
pub fn ping_round_trip(
    latency: Duration,
    loss_ppm: u64,
    seed: u64,
    duration: Duration,
    retransmit: Duration,
    step: Duration,
) -> (r: Option<Duration>)
    requires
        latency.nanos <= MAX_SIM_NANOS,
        duration.nanos <= MAX_SIM_NANOS,
        retransmit.nanos <= MAX_SIM_NANOS,
        0 < step.nanos <= MAX_SIM_NANOS,
    ensures
        r matches Some(rtt) ==> rtt.nanos >= 2 * latency.nanos,
        loss_ppm == 0 && 2 * (latency.nanos + step.nanos) <= duration.nanos ==> (r matches Some(rtt)
            && rtt.nanos <= 2 * (latency.nanos + step.nanos)),
{
    let mut up = SimLink::new(latency, loss_ppm, seed);
    let mut down = SimLink::new(latency, loss_ppm, seed ^ 0x5851_f42d_4c95_7f2d);
    let mut now = Instant::from_nanos(0);
    let mut next_ping: u64 = 0;
    let ghost live = loss_ppm == 0;
    let ghost l = latency.nanos as int;
    let ghost st = step.nanos as int;
    let ghost mut first_pong: Option<int> = None;
    while now.nanos <= duration.nanos
        invariant
            up.wf(),
            down.wf(),
            up.spec_latency() == latency,
            down.spec_latency() == latency,
            up.loss_ppm() == loss_ppm,
            down.loss_ppm() == loss_ppm,
            live == (loss_ppm == 0),
            l == latency.nanos,
            st == step.nanos,
            now.nanos <= duration.nanos + step.nanos,
            latency.nanos <= MAX_SIM_NANOS,
            duration.nanos <= MAX_SIM_NANOS,
            retransmit.nanos <= MAX_SIM_NANOS,
            0 < step.nanos <= MAX_SIM_NANOS,
            now.nanos == 0 ==> next_ping == 0 && first_pong is None,
            forall|k: int| 0 <= k < down.sent_times().len() ==> #[trigger] down.sent_times()[k] >= latency.nanos,
            first_pong is None ==> down.sent_times().len() == 0,
            live && now.nanos > 0 && first_pong is None ==> up.sent_times().contains(0u64) && now.nanos < l + st,
            live && first_pong is Some ==> down.sent_times().contains(first_pong->Some_0 as u64)
                && 0 <= first_pong->Some_0 < l + st && now.nanos < first_pong->Some_0 + l + st,
        decreases duration.nanos + step.nanos - now.nanos,
    {
        if now.nanos >= next_ping {
            let ghost up_before = up.sent_times();
            let _ = up.send(now, Frame::new(FrameHeader::new(Opcode::Ping), Vec::new()));
            next_ping = now.nanos + retransmit.nanos;
            proof {
                if live {
                    assert(up.sent_times()[up_before.len() as int] == now.nanos);
                    if up_before.contains(0u64) {
                        let j = choose|j: int| 0 <= j < up_before.len() && up_before[j] == 0u64;
                        assert(up.sent_times()[j] == 0u64);
                    }
                }
            }
        }
        proof {
            if live && first_pong is None {
                if now.nanos == 0 {
                    assert(up.sent_times().contains(0u64));
                }
                assert(up.sent_times().contains(0u64));
            }
        }
        let ghost up_times = up.sent_times();
        let arrived = up.deliver_due(now);
        proof {
            if live && first_pong is None && arrived@.len() == 0 {
                assert(!(0 + l <= now.nanos));
            }
            if first_pong is None && arrived@.len() > 0 {
                first_pong = Some(now.nanos as int);
            }
        }
        let ghost down_start = down.sent_times();
        let mut i: usize = 0;
        while i < arrived.len()
            invariant
                i <= arrived@.len(),
                down.wf(),
                down.spec_latency() == latency,
                down.loss_ppm() == loss_ppm,
                live == (loss_ppm == 0),
                now.nanos <= duration.nanos + step.nanos,
                latency.nanos <= MAX_SIM_NANOS,
                duration.nanos <= MAX_SIM_NANOS,
                0 < step.nanos <= MAX_SIM_NANOS,
                forall|k: int| 0 <= k < arrived@.len() ==> (#[trigger] arrived@[k]).sent_at.nanos + latency.nanos <= now.nanos,
                forall|k: int| 0 <= k < down.sent_times().len() ==> #[trigger] down.sent_times()[k] >= latency.nanos,
                forall|t: u64| down_start.contains(t) ==> #[trigger] down.sent_times().contains(t),
                i == 0 ==> down.sent_times() == down_start,
                live && i > 0 ==> down.sent_times().contains(now.nanos),
            decreases arrived@.len() - i,
        {
            assert(arrived@[i as int].sent_at.nanos + latency.nanos <= now.nanos);
            let ghost before = down.sent_times();
            let _ = down.send(now, Frame::new(FrameHeader::new(Opcode::Pong), Vec::new()));
            proof {
                assert forall|k: int| 0 <= k < down.sent_times().len() implies #[trigger] down.sent_times()[k] >= latency.nanos by {
                    if k < before.len() {
                        assert(down.sent_times()[k] == before[k]);
                    }
                }
                assert forall|t: u64| down_start.contains(t) implies #[trigger] down.sent_times().contains(t) by {
                    assert(before.contains(t));
                    let j = choose|j: int| 0 <= j < before.len() && before[j] == t;
                    assert(down.sent_times()[j] == before[j]);
                }
                if live {
                    assert(down.sent_times()[before.len() as int] == now.nanos);
                }
            }
            i = i + 1;
        }
        let ghost before_down = down.sent_times();
        let answers = down.deliver_due(now);
        proof {
            assert forall|k: int| 0 <= k < down.sent_times().len() implies #[trigger] down.sent_times()[k] >= latency.nanos by {
                let x = down.sent_times()[k];
                assert(before_down.contains(x));
                let j = choose|j: int| 0 <= j < before_down.len() && before_down[j] == x;
                assert(before_down[j] >= latency.nanos);
            }
            if live && first_pong is Some {
                let p = first_pong->Some_0;
                assert(before_down.contains(p as u64));
                if answers@.len() == 0 {
                    assert(!(p + l <= now.nanos));
                    assert(down.sent_times().contains(p as u64));
                }
            }
            if live && first_pong is None {
                assert(up.sent_times().contains(0u64));
            }
        }
        if answers.len() > 0 {
            proof {
                let x = answers@[0].sent_at.nanos;
                assert(before_down.contains(x));
                let j = choose|j: int| 0 <= j < before_down.len() && before_down[j] == x;
                assert(before_down[j] >= latency.nanos);
            }
            return Some(Duration::from_nanos(now.nanos));
        }
        now = now.plus(step);
    }
    None
}

} // verus!

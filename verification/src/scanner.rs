//! The reconnaissance scan: which step the driver takes next, what a probe
//! looks like, and what becomes of the replies once the listener has stopped.

use crate::addr::{lemma_bits_of_octets, rand_ip, Ipv4};
use crate::echo::{
    echo_request, echoes, encode, lemma_echo_keeps, payload_of, response_payload, same_data,
};
use crate::store::IPStore;
use std::collections::HashMap;
use vstd::prelude::*;

verus! {

/// The data that every probe of a scan carries.
pub const PROBE: [u8; 64] = [
    0x66, 0x66, 0x66, 0x66, 0x66, 0x66, 0x66, 0x66, 0x66, 0x66, 0x66, 0x66, 0x66, 0x66, 0x66, 0x66,
    0x66, 0x66, 0x66, 0x66, 0x66, 0x66, 0x66, 0x66, 0x66, 0x66, 0x66, 0x66, 0x66, 0x66, 0x66, 0x66,
    0x66, 0x66, 0x66, 0x66, 0x66, 0x66, 0x66, 0x66, 0x66, 0x66, 0x66, 0x66, 0x66, 0x66, 0x66, 0x66,
    0x66, 0x66, 0x66, 0x66, 0x66, 0x66, 0x66, 0x66, 0x66, 0x66, 0x66, 0x66, 0x66, 0x66, 0x66, 0x66,
];

/// Where the probed address stands in a probe: in place of the identifier and
/// the sequence number.
pub const PROBE_IP_START: usize = 4;

/// Where a received echo repeats the probed address.
pub const RESPONSE_IP_START: usize = 24;

/// A reachable echo responder.
#[derive(Clone, Copy, Debug, PartialEq, Eq, Structural)]
pub struct Destination {
    /// Nanoseconds between the probe and its reply
    pub round_trip: u64,
    /// The endpoint shortens the echo data
    pub small: bool,
    pub ip: Ipv4,
}

/// A reply that the listener caught.
#[derive(Clone, Copy, Debug, PartialEq, Eq, Structural)]
pub struct PingResponse {
    /// Clock reading when the reply was handled, in nanoseconds
    pub finish: u64,
    pub corrupt: bool,
    pub ip: Ipv4,
    pub small: bool,
}

/// The verdict on one reply: a destination to keep, or an address to give up.
pub type ScanResult = Result<Destination, Ipv4>;

/// What the scan driver does next.
#[derive(Clone, Copy, Debug, PartialEq, Eq, Structural)]
pub enum ScanStep {
    /// Wait for the oldest outstanding sender to finish.
    Await,
    /// Choose the next address, start a sender for it, record the probe and
    /// pause for the throttle.
    Probe,
    /// Every probe is out and every sender has finished: stop the listener
    /// and collect its replies.
    Finish,
}

/// Where a run stands.
#[derive(Clone, Copy, Debug, PartialEq, Eq, Structural)]
pub enum ScanPhase {
    /// No probe has been issued yet.
    Idle,
    /// Probes are being issued.
    Scanning,
    /// Every probe is out; senders are still outstanding.
    Draining,
    /// Every probe is out and every sender has finished.
    Done,
}

/// What the listener found on the channel from the driver.
#[derive(Clone, Copy, Debug, PartialEq, Eq, Structural)]
pub enum Signal {
    /// Nothing yet
    Empty,
    /// The driver asks the listener to stop
    Stop,
    /// The driver is gone
    Disconnected,
}

/// The driver's account of a run.
#[derive(Clone, Copy, Debug, PartialEq, Eq, Structural)]
pub struct ScanRun {
    /// Probes issued so far
    pub issued: usize,
    /// Senders that were started and have not been waited for
    pub outstanding: usize,
    /// The most senders that may be outstanding
    pub parallel: usize,
    /// The number of probes that the run issues
    pub limit: usize,
}

/// The state of a scan: what was probed in this run, and what the scans so
/// far have found.
#[derive(Clone, Debug)]
pub struct Scanner {
    /// When each address of this run was probed: a clock reading in
    /// nanoseconds, by the 32 bits of the address
    pub timings: HashMap<u32, u64>,
    pub dsts: Vec<Destination>,
    pub dead: Vec<Ipv4>,
}

/// The bytes of the probe for `ip`: an echo request that carries the four
/// octets of `ip` where identifier and sequence number stand, so that the
/// reply names the address it answers for.
pub open spec fn spec_probe(ip: Ipv4, data: Seq<u8>) -> Seq<u8> {
    echo_request((ip.a() * 256 + ip.b()) as u16, (ip.c() * 256 + ip.d()) as u16, data)
}

/// What the handler makes of a received echo: the address is read from the
/// four bytes at `RESPONSE_IP_START`, and the reply is corrupt unless its data
/// is the probe pattern.
pub open spec fn spec_handler(response: Seq<u8>, finish: u64) -> PingResponse {
    PingResponse {
        finish,
        corrupt: payload_of(response) != PROBE@,
        ip: Ipv4 {
            bits: (response[24] as int * 0x100_0000 + response[25] as int * 0x1_0000
                + response[26] as int * 0x100 + response[27] as int) as u32,
        },
        small: false,
    }
}

/// The verdict on `reply`, given when each address was probed: an address is
/// given up where its reply is corrupt or short, or where it was not probed
/// in this run; otherwise it is kept with the time its reply took.
pub open spec fn spec_judge(timings: Map<u32, u64>, reply: PingResponse) -> ScanResult {
    if reply.corrupt || reply.small || !timings.contains_key(reply.ip.bits) {
        Err(reply.ip)
    } else {
        let start = timings[reply.ip.bits];
        Ok(
            Destination {
                round_trip: if reply.finish >= start {
                    (reply.finish - start) as u64
                } else {
                    0
                },
                small: reply.small,
                ip: reply.ip,
            },
        )
    }
}

/// The destinations that `replies` add, in the order of the replies.
pub open spec fn live(timings: Map<u32, u64>, replies: Seq<PingResponse>) -> Seq<Destination>
    decreases replies.len(),
{
    if replies.len() == 0 {
        seq![]
    } else {
        let before = live(timings, replies.drop_last());
        match spec_judge(timings, replies.last()) {
            Ok(destination) => before.push(destination),
            Err(_) => before,
        }
    }
}

/// The addresses that `replies` give up, in the order of the replies.
pub open spec fn given_up(timings: Map<u32, u64>, replies: Seq<PingResponse>) -> Seq<Ipv4>
    decreases replies.len(),
{
    if replies.len() == 0 {
        seq![]
    } else {
        let before = given_up(timings, replies.drop_last());
        match spec_judge(timings, replies.last()) {
            Ok(_) => before,
            Err(ip) => before.push(ip),
        }
    }
}

impl ScanRun {
    /// The step that the driver takes next. While probes are left to issue,
    /// it waits as long as `parallel` senders are outstanding and probes
    /// otherwise; once `limit` probes are out it waits for the senders that
    /// are left, then finishes. A single sender is always allowed, so that a
    /// run with `parallel == 0` goes on.
    pub open spec fn next_step(self) -> ScanStep {
        if self.issued < self.limit {
            if self.outstanding > 0 && self.outstanding >= self.parallel {
                ScanStep::Await
            } else {
                ScanStep::Probe
            }
        } else if self.outstanding > 0 {
            ScanStep::Await
        } else {
            ScanStep::Finish
        }
    }

    /// The account after `step`: a probe is one more issued and one more
    /// sender outstanding, a wait is one sender fewer.
    pub open spec fn after(self, step: ScanStep) -> ScanRun {
        match step {
            ScanStep::Probe => ScanRun {
                issued: (self.issued + 1) as usize,
                outstanding: (self.outstanding + 1) as usize,
                ..self
            },
            ScanStep::Await => ScanRun { outstanding: (self.outstanding - 1) as usize, ..self },
            ScanStep::Finish => self,
        }
    }

    /// The account is one that a run can reach: no more probes issued than
    /// the limit, no more senders outstanding than were started, nor than the
    /// budget allows.
    pub open spec fn in_budget(self) -> bool {
        &&& self.issued <= self.limit
        &&& self.outstanding <= self.issued
        &&& (self.outstanding <= self.parallel || self.outstanding <= 1)
    }

    /// Where the run stands.
    pub open spec fn spec_phase(self) -> ScanPhase {
        if self.issued >= self.limit {
            if self.outstanding > 0 {
                ScanPhase::Draining
            } else {
                ScanPhase::Done
            }
        } else if self.issued == 0 {
            ScanPhase::Idle
        } else {
            ScanPhase::Scanning
        }
    }

    /// The steps that are left before the run finishes: each probe still to
    /// issue takes a step and leaves a sender to wait for.
    pub open spec fn steps_left(self) -> int {
        2 * (self.limit - self.issued) + self.outstanding
    }

    /// The account of a run that has not begun.
    pub fn new(parallel: usize, limit: usize) -> (run: Self)
        ensures
            run == (ScanRun { issued: 0, outstanding: 0, parallel, limit }),
            run.in_budget(),
    {
        ScanRun { issued: 0, outstanding: 0, parallel, limit }
    }

    /// Where the run stands.
    pub fn phase(&self) -> (phase: ScanPhase)
        ensures
            phase == self.spec_phase(),
    {
        if self.issued >= self.limit {
            if self.outstanding > 0 {
                ScanPhase::Draining
            } else {
                ScanPhase::Done
            }
        } else if self.issued == 0 {
            ScanPhase::Idle
        } else {
            ScanPhase::Scanning
        }
    }

    /// Decide the driver's next step and account for it. The caller carries
    /// the step out: for `Probe` it starts a sender, for `Await` it waits for
    /// the oldest one.
    pub fn step(&mut self) -> (step: ScanStep)
        ensures
            step == old(self).next_step(),
            *final(self) == old(self).after(step),
    {
        if self.issued < self.limit {
            if self.outstanding > 0 && self.outstanding >= self.parallel {
                self.outstanding = self.outstanding - 1;
                ScanStep::Await
            } else {
                self.issued = self.issued + 1;
                self.outstanding = self.outstanding + 1;
                ScanStep::Probe
            }
        } else if self.outstanding > 0 {
            self.outstanding = self.outstanding - 1;
            ScanStep::Await
        } else {
            ScanStep::Finish
        }
    }
}

/// Assemble the probe for `ip`.
pub fn ping(ip: Ipv4, data: &[u8; 64]) -> (packet: Vec<u8>)
    ensures
        packet@ == spec_probe(ip, data@),
        packet@.subrange(PROBE_IP_START as int, PROBE_IP_START + 4) == ip.spec_octets(),
{
    let octets = ip.octets();
    let packet = encode(
        octets[0] as u16 * 256 + octets[1] as u16,
        octets[2] as u16 * 256 + octets[3] as u16,
        data,
    );
    assert(packet@.subrange(PROBE_IP_START as int, PROBE_IP_START + 4) == ip.spec_octets());
    packet
}

/// Make a `PingResponse` of a received echo, handled at clock reading
/// `finish`.
pub fn handler(res: &[u8; 92], finish: u64) -> (reply: PingResponse)
    ensures
        reply == spec_handler(res@, finish),
        reply.ip.spec_octets() == res@.subrange(
            RESPONSE_IP_START as int,
            RESPONSE_IP_START + 4,
        ),
{
    let ip = Ipv4::new(
        res[RESPONSE_IP_START],
        res[RESPONSE_IP_START + 1],
        res[RESPONSE_IP_START + 2],
        res[RESPONSE_IP_START + 3],
    );
    let data = response_payload(res);
    let corrupt = !same_data(&data, &PROBE);
    assert(res@.subrange(RESPONSE_IP_START as int, RESPONSE_IP_START + 4) == ip.spec_octets());
    PingResponse { finish, corrupt, ip, small: false }
}

/// One turn of the listener: a received echo, if there is one, is handled and
/// appended to `replies`; then the listener stops if the driver has said so or
/// is gone.
pub fn listner(
    replies: &mut Vec<PingResponse>,
    received: Option<&[u8; 92]>,
    finish: u64,
    signal: Signal,
) -> (stop: bool)
    ensures
        final(replies)@ == match received {
            Some(res) => old(replies)@.push(spec_handler(res@, finish)),
            None => old(replies)@,
        },
        stop == (signal != Signal::Empty),
{
    match received {
        Some(res) => {
            replies.push(handler(res, finish));
        },
        None => {},
    }
    match signal {
        Signal::Empty => false,
        _ => true,
    }
}

impl Scanner {
    /// A scanner that knows no destination and has probed nothing.
    pub fn new() -> (scanner: Self)
        ensures
            scanner.timings@ == Map::<u32, u64>::empty(),
            scanner.dsts@ == Seq::<Destination>::empty(),
            scanner.dead@ == Seq::<Ipv4>::empty(),
    {
        Self { timings: HashMap::new(), dsts: Vec::new(), dead: Vec::new() }
    }

    /// A scanner that starts from a catalog and has probed nothing.
    pub fn load(store: IPStore) -> (scanner: Self)
        ensures
            scanner.timings@ == Map::<u32, u64>::empty(),
            scanner.dsts == store.dsts,
            scanner.dead == store.dead,
    {
        Self { timings: HashMap::new(), dsts: store.dsts, dead: store.dead }
    }

    /// Whether `ip` has been probed in this run.
    pub fn scanned(&self, ip: &Ipv4) -> (seen: bool)
        ensures
            seen == self.timings@.contains_key(ip.bits),
    {
        self.timings.contains_key(&ip.bits)
    }

    /// A random routable address that has not been probed in this run: the
    /// first such among at most `tries` candidates, or `None`.
    pub fn next_ip(&self, tries: usize) -> (found: Option<Ipv4>)
        ensures
            found matches Some(ip) ==> ip.spec_is_global() && !self.timings@.contains_key(
                ip.bits,
            ),
            tries == 0 ==> found is None,
    {
        let mut left = tries;
        while left > 0
            invariant
                left <= tries,
            decreases left,
        {
            match self.keep_new(rand_ip(1)) {
                Some(ip) => {
                    return Some(ip);
                },
                None => {},
            }
            left -= 1;
        }
        None
    }

    /// What the search for the next address makes of one draw: the address
    /// drawn where this run has not probed it, and nothing where it has or
    /// where nothing was drawn.
    pub fn keep_new(&self, drawn: Option<Ipv4>) -> (kept: Option<Ipv4>)
        ensures
            kept == match drawn {
                Some(ip) => if self.timings@.contains_key(ip.bits) {
                    None::<Ipv4>
                } else {
                    Some(ip)
                },
                None => None::<Ipv4>,
            },
    {
        match drawn {
            Some(ip) => {
                if self.scanned(&ip) {
                    None
                } else {
                    Some(ip)
                }
            },
            None => None,
        }
    }

    /// Record that `ip` was probed at clock reading `now`.
    pub fn probed(&mut self, ip: Ipv4, now: u64)
        ensures
            final(self).timings@ == old(self).timings@.insert(ip.bits, now),
            final(self).dsts == old(self).dsts,
            final(self).dead == old(self).dead,
    {
        self.timings.insert(ip.bits, now);
    }

    /// The verdict on one reply.
    pub fn judge(&self, reply: &PingResponse) -> (verdict: ScanResult)
        ensures
            verdict == spec_judge(self.timings@, *reply),
    {
        if reply.corrupt || reply.small {
            return Err(reply.ip);
        }
        match self.timings.get(&reply.ip.bits) {
            None => Err(reply.ip),
            Some(start) => {
                let round_trip = if reply.finish >= *start {
                    reply.finish - *start
                } else {
                    0
                };
                Ok(Destination { round_trip, small: reply.small, ip: reply.ip })
            },
        }
    }

    /// Take in the replies of a finished scan, in their order: each adds a
    /// destination or an address that is given up.
    pub fn mass_scan(&mut self, replies: &Vec<PingResponse>)
        ensures
            final(self).timings@ == old(self).timings@,
            final(self).dsts@ == old(self).dsts@ + live(old(self).timings@, replies@),
            final(self).dead@ == old(self).dead@ + given_up(old(self).timings@, replies@),
    {
        let mut i: usize = 0;
        while i < replies.len()
            invariant
                i <= replies.len(),
                self.timings@ == old(self).timings@,
                self.dsts@ == old(self).dsts@ + live(
                    old(self).timings@,
                    replies@.subrange(0, i as int),
                ),
                self.dead@ == old(self).dead@ + given_up(
                    old(self).timings@,
                    replies@.subrange(0, i as int),
                ),
            decreases replies.len() - i,
        {
            let verdict = self.judge(&replies[i]);
            proof {
                let next = replies@.subrange(0, i + 1);
                assert(next.drop_last() == replies@.subrange(0, i as int));
                assert(next.last() == replies@[i as int]);
            }
            match verdict {
                Ok(destination) => self.dsts.push(destination),
                Err(ip) => self.dead.push(ip),
            }
            i += 1;
        }
        assert(replies@.subrange(0, replies.len() as int) == replies@);
    }
}

/// The place of a phase in the course of a run.
pub open spec fn phase_rank(phase: ScanPhase) -> int {
    match phase {
        ScanPhase::Idle => 0,
        ScanPhase::Scanning => 1,
        ScanPhase::Draining => 2,
        ScanPhase::Done => 3,
    }
}

/// A run never goes back: a step leaves it in its phase or takes it to a
/// later one. It probes only while idle or scanning, and it is done exactly
/// when its next step is to finish.
pub proof fn lemma_phases_in_order(run: ScanRun)
    requires
        run.in_budget(),
    ensures
        phase_rank(run.spec_phase()) <= phase_rank(run.after(run.next_step()).spec_phase()),
        run.next_step() == ScanStep::Probe ==> run.spec_phase() == ScanPhase::Idle
            || run.spec_phase() == ScanPhase::Scanning,
        run.next_step() == ScanStep::Finish <==> run.spec_phase() == ScanPhase::Done,
        run.spec_phase() == ScanPhase::Draining ==> run.next_step() == ScanStep::Await,
{
}

/// The driver keeps to its budget and comes to an end. A step leaves an
/// account within the budget; every step but the last brings the end
/// one step nearer; and the run finishes exactly when no step is left. So a
/// run of `limit` probes finishes after `2 * limit` steps, with every probe
/// issued and every sender waited for.
pub proof fn lemma_run_within_budget(run: ScanRun)
    requires
        run.in_budget(),
    ensures
        run.after(run.next_step()).in_budget(),
        run.next_step() != ScanStep::Finish ==> run.after(run.next_step()).steps_left()
            == run.steps_left() - 1,
        run.next_step() == ScanStep::Finish <==> run.steps_left() == 0,
        run.next_step() == ScanStep::Finish ==> run.issued == run.limit && run.outstanding == 0,
{
}

/// A scan with a limit of 0 issues no probe: its first step is to finish.
/// With no probe recorded, no reply adds a destination, whatever the listener
/// caught.
pub proof fn lemma_no_limit_no_probe(parallel: usize, replies: Seq<PingResponse>)
    ensures
        (ScanRun { issued: 0, outstanding: 0, parallel, limit: 0 }).next_step()
            == ScanStep::Finish,
        live(Map::<u32, u64>::empty(), replies) == Seq::<Destination>::empty(),
        given_up(Map::<u32, u64>::empty(), replies).len() == replies.len(),
    decreases replies.len(),
{
    if replies.len() > 0 {
        lemma_no_limit_no_probe(parallel, replies.drop_last());
    }
}

/// Every reply is accounted for once: it adds a destination or an address
/// that is given up. Each destination added was probed in this run, does not
/// shorten, and has the address of a reply that was not corrupt.
pub proof fn lemma_replies_accounted(timings: Map<u32, u64>, replies: Seq<PingResponse>)
    ensures
        live(timings, replies).len() + given_up(timings, replies).len() == replies.len(),
        forall|i: int|
            0 <= i < live(timings, replies).len() ==> {
                let destination = #[trigger] live(timings, replies)[i];
                &&& timings.contains_key(destination.ip.bits)
                &&& !destination.small
                &&& exists|r: int|
                    0 <= r < replies.len() && (#[trigger] replies[r]).ip == destination.ip
                        && !replies[r].corrupt
            },
    decreases replies.len(),
{
    if replies.len() > 0 {
        let before = replies.drop_last();
        lemma_replies_accounted(timings, before);
        assert forall|i: int| 0 <= i < live(timings, replies).len() implies {
            let destination = #[trigger] live(timings, replies)[i];
            &&& timings.contains_key(destination.ip.bits)
            &&& !destination.small
            &&& exists|r: int|
                0 <= r < replies.len() && (#[trigger] replies[r]).ip == destination.ip
                    && !replies[r].corrupt
        } by {
            let destination = live(timings, replies)[i];
            if i < live(timings, before).len() {
                assert(destination == live(timings, before)[i]);
                let r = choose|r: int|
                    0 <= r < before.len() && (#[trigger] before[r]).ip == destination.ip
                        && !before[r].corrupt;
                assert(replies[r] == before[r]);
            } else {
                assert(replies[replies.len() - 1] == replies.last());
            }
        }
    }
}

/// The answer to the probe for `ip` is handled as a sound reply from `ip`,
/// and if `ip` was probed in this run it becomes a destination.
pub proof fn lemma_probe_answered(
    timings: Map<u32, u64>,
    ip: Ipv4,
    response: Seq<u8>,
    finish: u64,
)
    requires
        echoes(response, spec_probe(ip, PROBE@)),
    ensures
        spec_handler(response, finish).ip == ip,
        !spec_handler(response, finish).corrupt,
        !spec_handler(response, finish).small,
        timings.contains_key(ip.bits) ==> spec_judge(timings, spec_handler(response, finish))
            is Ok,
{
    lemma_bits_of_octets(ip);
    let (a, b, c, d) = (ip.a(), ip.b(), ip.c(), ip.d());
    let identifier = (a * 256 + b) as u16;
    let sequence = (c * 256 + d) as u16;
    assert(identifier / 256 == a && identifier % 256 == b);
    assert(sequence / 256 == c && sequence % 256 == d);
    lemma_echo_keeps(response, identifier, sequence, PROBE@);
    let repeated = response.subrange(RESPONSE_IP_START as int, RESPONSE_IP_START + 4);
    assert(repeated[0] == response[24] && repeated[1] == response[25] && repeated[2]
        == response[26] && repeated[3] == response[27]);
    assert(response[24] == a && response[25] == b && response[26] == c && response[27] == d);
    assert(spec_handler(response, finish).ip.bits == ip.bits);
}

impl Default for Scanner {
    fn default() -> (scanner: Self)
        ensures
            scanner.timings@ == Map::<u32, u64>::empty(),
            scanner.dsts@ == Seq::<Destination>::empty(),
            scanner.dead@ == Seq::<Ipv4>::empty(),
    {
        Self::new()
    }
}

} // verus!

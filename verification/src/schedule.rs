use vstd::prelude::*;
use vstd::utf8::encode_utf8;
use crate::policy::RawPolicy;
use crate::telemetry::Payload;

verus! {

/// The four data sources the supervisor can drive.
#[derive(Clone, Copy, Debug, PartialEq, Eq, Structural)]
pub enum CollectorKind {
    Process,
    Network,
    UserSession,
    FileEvents,
}

/// Why one collection cycle produced nothing. Such a failure is logged
/// and the cycle skipped; it never stops the other collectors.
#[derive(Clone, Copy, Debug, PartialEq, Eq, Structural)]
pub enum CollectorError {
    Enumeration,
    NotImplemented,
}

/// Explicit timer state for one poll-based collector.
#[derive(Clone, Copy, Debug, PartialEq, Eq, Structural)]
pub struct CollectorSchedule {
    pub kind: CollectorKind,
    pub interval: u64,
    pub next_due: u64,
}

/// The fixed cadence of the network scan.
pub const NETWORK_INTERVAL: u64 = 20;

/// The fixed cadence of the user-session check.
pub const SESSION_INTERVAL: u64 = 30;

impl CollectorSchedule {
    /// A schedule that fires at `now` and every `interval` seconds after
    /// each firing.
    pub fn new(kind: CollectorKind, interval: u64, now: u64) -> (r: CollectorSchedule)
        requires
            interval >= 1,
        ensures
            r == (CollectorSchedule { kind, interval, next_due: now }),
    {
        CollectorSchedule { kind, interval, next_due: now }
    }

    /// The schedule is due at `now`.
    pub open spec fn spec_fires(self, now: u64) -> bool {
        now >= self.next_due
    }

    /// One timer check: fires exactly when the tick is due, and a firing
    /// pushes the next due time one full interval past the firing time.
    pub fn poll(&mut self, now: u64) -> (fired: bool)
        requires
            now <= u64::MAX - old(self).interval,
        ensures
            fired == old(self).spec_fires(now),
            fired ==> *final(self) == (CollectorSchedule {
                next_due: (now + old(self).interval) as u64,
                ..*old(self)
            }),
            !fired ==> *final(self) == *old(self),
    {
        if now >= self.next_due {
            self.next_due = now + self.interval;
            true
        } else {
            false
        }
    }
}

/// Law: two consecutive firings of one schedule lie at least one full
/// interval apart, so a window shorter than the interval sees at most
/// one result.
pub proof fn lemma_firings_spaced(s0: CollectorSchedule, s1: CollectorSchedule, t1: u64, t2: u64)
    requires
        s0.spec_fires(t1),
        s1 == (CollectorSchedule { next_due: (t1 + s0.interval) as u64, ..s0 }),
        t1 + s0.interval <= u64::MAX,
        s1.spec_fires(t2),
    ensures
        t2 >= t1 + s0.interval,
{
}

/// Law: after a firing at `t1`, the schedule is due again at every time
/// from `t1 + interval` on, so any window of at least one interval in
/// which the timer is checked yields a result.
pub proof fn lemma_due_within_interval(s1: CollectorSchedule, t1: u64, t: u64)
    requires
        s1.next_due == t1 + s1.interval,
        t >= t1 + s1.interval,
    ensures
        s1.spec_fires(t),
{
}

/// The byte run `forensic`.
pub open spec fn spec_forensic_bytes() -> Seq<u8> {
    seq![0x66u8, 0x6fu8, 0x72u8, 0x65u8, 0x6eu8, 0x73u8, 0x69u8, 0x63u8]
}

/// The policy asks for the full forensic collector set.
pub open spec fn spec_mode_forensic(p: RawPolicy) -> bool {
    encode_utf8(p.mode@) == spec_forensic_bytes()
}

/// Decides whether a policy's mode field reads `forensic`.
pub fn mode_is_forensic(p: &RawPolicy) -> (r: bool)
    ensures
        r == spec_mode_forensic(*p),
{
    let b = p.mode.as_str().as_bytes();
    if b.len() != 8 {
        proof {
            assert(encode_utf8(p.mode@).len() != spec_forensic_bytes().len());
        }
        return false;
    }
    let expected: [u8; 8] = [0x66, 0x6f, 0x72, 0x65, 0x6e, 0x73, 0x69, 0x63];
    let mut i: usize = 0;
    while i < 8
        invariant
            i <= 8,
            b@.len() == 8,
            b@ == encode_utf8(p.mode@),
            expected@ =~= spec_forensic_bytes(),
            forall|k: int| 0 <= k < i ==> b@[k] == spec_forensic_bytes()[k],
        decreases 8 - i,
    {
        if b[i] != expected[i] {
            proof {
                assert(encode_utf8(p.mode@)[i as int] != spec_forensic_bytes()[i as int]);
            }
            return false;
        }
        i = i + 1;
    }
    proof {
        assert(encode_utf8(p.mode@) =~= spec_forensic_bytes());
    }
    true
}

/// Owns the timer state of every active collector. Forensic mode runs
/// the process, network and user-session timers and the push-based file
/// watch; minimal mode runs the process timer alone.
pub struct CollectorSupervisor {
    pub schedules: Vec<CollectorSchedule>,
    pub file_watch: bool,
}

impl CollectorSupervisor {
    /// Builds the collector set that the verified policy asks for, every
    /// timer due immediately.
    pub fn new(policy: &RawPolicy, now: u64) -> (r: CollectorSupervisor)
        requires
            policy.collection_interval >= 1,
        ensures
            spec_mode_forensic(*policy) ==> r.schedules@ == seq![
                CollectorSchedule { kind: CollectorKind::Process, interval: policy.collection_interval, next_due: now },
                CollectorSchedule { kind: CollectorKind::Network, interval: NETWORK_INTERVAL, next_due: now },
                CollectorSchedule { kind: CollectorKind::UserSession, interval: SESSION_INTERVAL, next_due: now },
            ] && r.file_watch,
            !spec_mode_forensic(*policy) ==> r.schedules@ == seq![
                CollectorSchedule { kind: CollectorKind::Process, interval: policy.collection_interval, next_due: now },
            ] && !r.file_watch,
    {
        let mut schedules: Vec<CollectorSchedule> = Vec::new();
        schedules.push(CollectorSchedule::new(CollectorKind::Process, policy.collection_interval, now));
        if mode_is_forensic(policy) {
            schedules.push(CollectorSchedule::new(CollectorKind::Network, NETWORK_INTERVAL, now));
            schedules.push(CollectorSchedule::new(CollectorKind::UserSession, SESSION_INTERVAL, now));
            proof {
                assert(schedules@ =~= seq![
                    CollectorSchedule { kind: CollectorKind::Process, interval: policy.collection_interval, next_due: now },
                    CollectorSchedule { kind: CollectorKind::Network, interval: NETWORK_INTERVAL, next_due: now },
                    CollectorSchedule { kind: CollectorKind::UserSession, interval: SESSION_INTERVAL, next_due: now },
                ]);
            }
            CollectorSupervisor { schedules, file_watch: true }
        } else {
            proof {
                assert(schedules@ =~= seq![
                    CollectorSchedule { kind: CollectorKind::Process, interval: policy.collection_interval, next_due: now },
                ]);
            }
            CollectorSupervisor { schedules, file_watch: false }
        }
    }

    /// How many collectors run on timers.
    pub fn timer_count(&self) -> (n: usize)
        ensures
            n == self.schedules@.len(),
    {
        self.schedules.len()
    }
}

/// Fault isolation: one failed collection cycle yields nothing to relay
/// and nothing else; the supervisor carries on and retries next tick.
pub fn on_collect_result(r: Result<Payload, CollectorError>) -> (out: Option<Payload>)
    ensures
        r matches Ok(p) ==> out == Some(p),
        r is Err ==> out is None,
{
    match r {
        Ok(p) => Some(p),
        Err(_) => None,
    }
}

/// The user-session source has no adapter on this platform yet: it
/// reports so instead of fabricating data.
pub fn collect_user_sessions() -> (r: Result<Payload, CollectorError>)
    ensures
        r == Err::<Payload, CollectorError>(CollectorError::NotImplemented),
{
    Err(CollectorError::NotImplemented)
}

} // verus!

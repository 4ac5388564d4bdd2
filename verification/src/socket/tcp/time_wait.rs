//! Compact protocol state shared by attached and detached TIME-WAIT sockets.
use crate::phy::PacketMeta;
use crate::socket::tcp::{Socket, TcpTimestampGenerator, TimeWaitReuse, Tuple};
use crate::time::{quotient, Duration, Instant};
use crate::wire::ip::{IpProtocol, IpRepr};
use crate::wire::tcp::{
    is_newer, is_older, newer, older, wrap_i32, TcpControl, TcpRepr, TcpSeqNumber, TcpTimestampRepr,
};
use std::sync::Arc;
use vstd::prelude::*;

verus! {

/// For how long the timestamps of a silent peer stay comparable: 24 days, in microseconds.
pub const PAWS_WINDOW: u64 = 2_073_600_000_000;

/// For how long an old timestamp discredits a reset: 60 seconds, in microseconds.
pub const PAWS_RESET_WINDOW: u64 = 60_000_000;

/// The shortest time between two replies: 500 milliseconds, in microseconds.
pub const REPLY_INTERVAL: u64 = 500_000;

/// How far past the old connection the sequence numbers of the next one start.
pub const ISN_STEP: usize = 65537;

/// What is left of a connection in TIME-WAIT.
pub struct TimeWaitState {
    pub tuple: Tuple,
    pub device: u32,
    pub expires: Instant,
    /// The latest timestamp of the peer, and when it came.
    pub ts_recent: Option<(u32, Instant)>,
    pub duration: Duration,
    pub snd_nxt: TcpSeqNumber,
    pub rcv_nxt: TcpSeqNumber,
    pub window: u16,
    pub hop_limit: u8,
    pub ts_generator: Option<Arc<dyn TcpTimestampGenerator>>,
    /// When the next reply may be sent.
    pub ack_at: Instant,
}

/// What a segment calls for.
#[derive(Debug, Clone, Copy, PartialEq, Eq, Structural)]
pub enum TimeWaitAction {
    /// Nothing.
    Ignore,
    /// An acknowledgement.
    Ack,
    /// A new connection between the same endpoints.
    Reopen,
    /// The end of the protection.
    Remove,
}

/// The segment carries an older timestamp than one that the peer sent not long ago.
pub open spec fn paws_rejects(
    recent: Option<(u32, Instant)>,
    repr: TcpRepr<'_>,
    now: Instant,
) -> bool {
    match (recent, repr.timestamp) {
        (Some((recent, stamp)), Some(ts)) => {
            &&& recent != 0
            &&& is_older(ts.tsval, recent)
            &&& now.distance(stamp) < PAWS_WINDOW
            &&& repr.control == TcpControl::Rst ==> now.distance(stamp) < PAWS_RESET_WINDOW
        },
        _ => false,
    }
}

/// Whether the segment carries an older timestamp than one that the peer sent not long ago.
pub fn paws_reject(
    recent: Option<(u32, Instant)>,
    repr: &TcpRepr<'_>,
    now: Instant,
) -> (r: bool)
    ensures
        r == paws_rejects(recent, *repr, now),
{
    match (recent, repr.timestamp) {
        (Some((recent, stamp)), Some(ts)) => {
            let age: u64 = now.abs_diff(stamp).micros;
            recent != 0 && older(ts.tsval, recent) && age < PAWS_WINDOW && (repr.control
                != TcpControl::Rst || age < PAWS_RESET_WINDOW)
        },
        _ => false,
    }
}

/// `Option::clone` on a shared generator: another pointer to the same generator, where there
/// is one.
#[verifier::external_body]
pub(crate) fn share_generator(
    generator: &Option<Arc<dyn TcpTimestampGenerator>>,
) -> (r: Option<Arc<dyn TcpTimestampGenerator>>)
    ensures
        r == *generator,
{
    generator.clone()
}

impl Clone for TimeWaitState {
    fn clone(&self) -> (r: TimeWaitState)
        ensures
            r == *self,
    {
        TimeWaitState {
            tuple: self.tuple,
            device: self.device,
            expires: self.expires,
            ts_recent: self.ts_recent,
            duration: self.duration,
            snd_nxt: self.snd_nxt,
            rcv_nxt: self.rcv_nxt,
            window: self.window,
            hop_limit: self.hop_limit,
            ts_generator: share_generator(&self.ts_generator),
            ack_at: self.ack_at,
        }
    }
}

/// `now` moved on by `duration` is representable.
pub open spec fn can_add(now: Instant, duration: Duration) -> bool {
    duration.micros <= i64::MAX && now.micros + duration.micros <= i64::MAX
}

/// Whether `now` moved on by `duration` is representable.
pub fn fits(now: Instant, duration: Duration) -> (r: bool)
    ensures
        r == can_add(now, duration),
{
    duration.micros <= 0x7fff_ffff_ffff_ffff && now.micros <= 0x7fff_ffff_ffff_ffff
        - duration.micros as i64
}

/// `now` moved on by `duration`.
pub open spec fn later(now: Instant, duration: Duration) -> Instant {
    Instant { micros: (now.micros + duration.micros) as i64 }
}

impl TimeWaitState {
    /// The two endpoints are of one version.
    pub open spec fn one_family(self) -> bool {
        self.tuple.local.addr.spec_version() == self.tuple.remote.addr.spec_version()
    }

    /// What is left of a socket that enters TIME-WAIT at `now`.
    pub open spec fn left_of(socket: Socket, now: Instant) -> TimeWaitState {
        TimeWaitState {
            tuple: socket.tuple->0,
            device: socket.spec_lifecycle_device(),
            expires: later(now, socket.time_wait_duration),
            duration: socket.time_wait_duration,
            snd_nxt: socket.local_seq_no,
            rcv_nxt: socket.spec_rcv_nxt(),
            window: socket.spec_scaled_window(),
            hop_limit: match socket.hop_limit {
                Some(hop_limit) => hop_limit,
                None => 64,
            },
            ts_recent: socket.ts_recent,
            ts_generator: socket.tsval_generator,
            ack_at: Instant { micros: 0 },
        }
    }

    /// What is left of a connected socket that enters TIME-WAIT at `now`.
    pub fn from_socket(socket: &Socket, now: Instant) -> (r: TimeWaitState)
        requires
            socket.tuple is Some,
            can_add(now, socket.time_wait_duration),
        ensures
            r == TimeWaitState::left_of(*socket, now),
    {
        TimeWaitState {
            tuple: socket.tuple.unwrap(),
            device: socket.lifecycle_device(),
            expires: now + socket.time_wait_duration,
            duration: socket.time_wait_duration,
            snd_nxt: socket.local_seq_no,
            rcv_nxt: socket.rcv_nxt(),
            window: socket.scaled_window(),
            hop_limit: socket.hop_limit.unwrap_or(64),
            ts_recent: socket.ts_recent,
            ts_generator: share_generator(&socket.tsval_generator),
            ack_at: Instant::from_millis(0),
        }
    }

    /// The initial sequence number of the next connection: past those that the old one used, and
    /// never zero.
    pub open spec fn spec_new_isn(self) -> TcpSeqNumber {
        let seq = wrap_i32(self.snd_nxt.0 + ISN_STEP);
        TcpSeqNumber(
            if seq == 0 {
                1
            } else {
                seq
            },
        )
    }

    /// The initial sequence number of the next connection: past those that the old one used, and
    /// never zero.
    pub fn new_isn(&self) -> (r: TcpSeqNumber)
        ensures
            r == self.spec_new_isn(),
            r.0 != 0,
    {
        let seq = self.snd_nxt + ISN_STEP;
        if seq.0 == 0 {
            TcpSeqNumber(1)
        } else {
            seq
        }
    }

    /// The segment starts after everything that was received, or the listener goes on to use
    /// timestamps.
    pub open spec fn spec_can_reopen_on(self, repr: TcpRepr<'_>, listener: Socket) -> bool {
        repr.seq_number.spec_after(self.rcv_nxt) || listener.tsval_generator is Some
    }

    /// Relaxing the receive sequence cutoff is safe only if the new connection
    /// continues negotiating timestamps; otherwise delayed old segments lose
    /// the PAWS protection on which timestamp-only reopening depends.
    pub fn can_reopen_on(&self, repr: &TcpRepr<'_>, listener: &Socket) -> (r: bool)
        ensures
            r == self.spec_can_reopen_on(*repr, *listener),
    {
        repr.seq_number.after(self.rcv_nxt) || listener.tsval_generator.is_some()
    }

    /// The old connection used timestamps. The system takes over its endpoints on loopback only,
    /// and in a later second than that of the last timestamp.
    pub open spec fn spec_active_reuse(self, now: Instant, mode: TimeWaitReuse) -> bool {
        &&& self.ts_generator is Some
        &&& self.ts_recent matches Some((_, stamp)) && match mode {
            TimeWaitReuse::Explicit => true,
            TimeWaitReuse::Automatic { loopback } => loopback && whole_seconds(now)
                > whole_seconds(stamp),
        }
    }

    /// Whether an outgoing connection may take over the endpoints.
    pub fn active_reuse(&self, now: Instant, mode: TimeWaitReuse) -> (r: bool)
        ensures
            r == self.spec_active_reuse(now, mode),
    {
        let stamp = match self.ts_recent {
            Some((_, stamp)) => stamp,
            None => {
                return false;
            },
        };
        if self.ts_generator.is_none() {
            return false;
        }
        match mode {
            TimeWaitReuse::Explicit => true,
            TimeWaitReuse::Automatic { loopback } => loopback && now.total_millis() / 1000
                > stamp.total_millis() / 1000,
        }
    }

    /// The protection is over.
    pub open spec fn is_expired(self, now: Instant) -> bool {
        now.micros >= self.expires.micros
    }

    /// The segment stands exactly where the old stream ended, and holds no data unless it is a
    /// reset.
    pub open spec fn is_exact(self, now: Instant, repr: TcpRepr<'_>) -> bool {
        &&& !paws_rejects(self.ts_recent, repr, now)
        &&& repr.seq_number == self.rcv_nxt
        &&& repr.spec_segment_len() == 0 || repr.control == TcpControl::Rst
    }

    /// The segment opens a new connection: a plain SYN, its timestamp not old, that comes after
    /// the old stream by its sequence number or by its timestamp.
    pub open spec fn is_reopening(self, now: Instant, repr: TcpRepr<'_>) -> bool {
        &&& repr.control == TcpControl::Syn
        &&& repr.ack_number is None
        &&& !paws_rejects(self.ts_recent, repr, now)
        &&& {
            ||| repr.seq_number.spec_after(self.rcv_nxt)
            ||| (self.ts_recent matches Some((recent, _)) && repr.timestamp matches Some(ts)
                && is_newer(ts.tsval, recent))
        }
    }

    /// What a segment calls for.
    pub open spec fn action(self, now: Instant, repr: TcpRepr<'_>) -> TimeWaitAction {
        if self.is_expired(now) {
            TimeWaitAction::Remove
        } else if self.is_exact(now, repr) {
            if repr.control == TcpControl::Rst {
                TimeWaitAction::Remove
            } else {
                TimeWaitAction::Ignore
            }
        } else if self.is_reopening(now, repr) {
            TimeWaitAction::Reopen
        } else if repr.control == TcpControl::Rst {
            TimeWaitAction::Ignore
        } else {
            TimeWaitAction::Ack
        }
    }

    /// The segment shows that the peer is still there, so that the protection starts anew: it is
    /// no reset and opens nothing, and it stands where the old stream ended, carries an old
    /// timestamp, or acknowledges something.
    pub open spec fn refreshes(self, now: Instant, repr: TcpRepr<'_>) -> bool {
        &&& !self.is_expired(now)
        &&& repr.control != TcpControl::Rst
        &&& {
            ||| self.is_exact(now, repr)
            ||| !self.is_reopening(now, repr) && (paws_rejects(self.ts_recent, repr, now)
                || repr.ack_number is Some)
        }
    }

    /// The state after a segment: its end put off and its latest timestamp taken over, as the
    /// segment calls for.
    pub open spec fn processed(self, now: Instant, repr: TcpRepr<'_>) -> TimeWaitState {
        TimeWaitState {
            expires: if self.refreshes(now, repr) {
                later(now, self.duration)
            } else {
                self.expires
            },
            ts_recent: match repr.timestamp {
                Some(ts) if !self.is_expired(now) && self.is_exact(now, repr) && repr.control
                    != TcpControl::Rst => Some((ts.tsval, now)),
                _ => self.ts_recent,
            },
            ..self
        }
    }

    /// What a segment calls for, and whether the protection starts anew.
    pub fn judge(&self, now: Instant, repr: &TcpRepr<'_>) -> (r: (TimeWaitAction, bool))
        ensures
            r.0 == self.action(now, *repr),
            r.1 == self.refreshes(now, *repr),
    {
        if now.micros >= self.expires.micros {
            return (TimeWaitAction::Remove, false);
        }
        let paws = paws_reject(self.ts_recent, repr, now);
        if !paws && repr.seq_number == self.rcv_nxt && (repr.takes_no_space() || repr.control
            == TcpControl::Rst) {
            if repr.control == TcpControl::Rst {
                return (TimeWaitAction::Remove, false);
            }
            return (TimeWaitAction::Ignore, true);
        }
        let newer_timestamp = match (self.ts_recent, repr.timestamp) {
            (Some((recent, _)), Some(ts)) => newer(ts.tsval, recent),
            _ => false,
        };
        if repr.control == TcpControl::Syn && repr.ack_number.is_none() && !paws && (
        repr.seq_number.after(self.rcv_nxt) || newer_timestamp) {
            return (TimeWaitAction::Reopen, false);
        }
        if repr.control == TcpControl::Rst {
            return (TimeWaitAction::Ignore, false);
        }
        (TimeWaitAction::Ack, paws || repr.ack_number.is_some())
    }

    /// Decides what a segment calls for, and takes note of it.
    pub fn process(&mut self, now: Instant, repr: &TcpRepr<'_>) -> (r: TimeWaitAction)
        requires
            old(self).refreshes(now, *repr) ==> can_add(now, old(self).duration),
        ensures
            r == old(self).action(now, *repr),
            *final(self) == old(self).processed(now, *repr),
    {
        let (action, refresh) = self.judge(now, repr);
        if refresh {
            self.expires = now + self.duration;
            if action == TimeWaitAction::Ignore {
                if let Some(ts) = repr.timestamp {
                    self.ts_recent = Some((ts.tsval, now));
                }
            }
        }
        action
    }

    /// A reply is due: the last one lies far enough back.
    pub open spec fn may_reply(self, now: Instant) -> bool {
        now.micros >= self.ack_at.micros
    }

    /// The acknowledgement of everything that was received, with `tsval` on the clock where the
    /// connection uses timestamps.
    pub open spec fn ack_segment(self, tsval: Option<u32>) -> TcpRepr<'static> {
        TcpRepr {
            src_port: self.tuple.local.port,
            dst_port: self.tuple.remote.port,
            control: TcpControl::Plain,
            seq_number: self.snd_nxt,
            ack_number: Some(self.rcv_nxt),
            window_len: self.window,
            window_scale: None,
            max_seg_size: None,
            sack_permitted: false,
            sack_ranges: [None, None, None],
            timestamp: match tsval {
                Some(tsval) => Some(
                    TcpTimestampRepr {
                        tsval,
                        tsecr: match self.ts_recent {
                            Some((recent, _)) => recent,
                            None => 0,
                        },
                    },
                ),
                None => None,
            },
            payload: &[],
        }
    }

    /// The header of a reply of that length.
    pub open spec fn ack_header(self, len: usize) -> IpRepr {
        IpRepr::spec_new(
            self.tuple.local.addr,
            self.tuple.remote.addr,
            IpProtocol::Tcp,
            len,
            self.hop_limit,
        )
    }

    /// The reply at the time `tsval` on the clock of the connection: an acknowledgement of 20
    /// octets, or of 32 with a timestamp.
    pub open spec fn ack_packet(self, tsval: Option<u32>) -> (IpRepr, TcpRepr<'static>) {
        (
            self.ack_header(
                if tsval is Some {
                    32
                } else {
                    20
                },
            ),
            self.ack_segment(tsval),
        )
    }

    /// Makes the reply at the time `tsval` on the clock of the connection.
    pub fn ack(&self, tsval: Option<u32>) -> (r: (IpRepr, TcpRepr<'static>))
        requires
            self.one_family(),
        ensures
            r == self.ack_packet(tsval),
    {
        let timestamp = match tsval {
            Some(tsval) => Some(
                TcpTimestampRepr {
                    tsval,
                    tsecr: match self.ts_recent {
                        Some((recent, _)) => recent,
                        None => 0,
                    },
                },
            ),
            None => None,
        };
        let tcp = TcpRepr {
            src_port: self.tuple.local.port,
            dst_port: self.tuple.remote.port,
            control: TcpControl::Plain,
            seq_number: self.snd_nxt,
            ack_number: Some(self.rcv_nxt),
            window_len: self.window,
            window_scale: None,
            max_seg_size: None,
            sack_permitted: false,
            sack_ranges: [None, None, None],
            timestamp,
            payload: &[],
        };
        let len: usize = tcp.buffer_len();
        let ip = IpRepr::new(
            self.tuple.local.addr,
            self.tuple.remote.addr,
            IpProtocol::Tcp,
            len,
            self.hop_limit,
        );
        (ip, tcp)
    }

    /// A reply was made or held back: after one, the next is due half a second later.
    pub open spec fn replied(self, now: Instant) -> TimeWaitState {
        if self.may_reply(now) {
            TimeWaitState { ack_at: later(now, Duration { micros: REPLY_INTERVAL }), ..self }
        } else {
            self
        }
    }

    /// What came of a reply: none where it is held back, and otherwise an acknowledgement with
    /// what the clock of the connection showed, where it has one.
    pub open spec fn is_reply(
        self,
        now: Instant,
        reply: Option<(IpRepr, TcpRepr<'static>)>,
    ) -> bool {
        match reply {
            Some(packet) => {
                &&& self.may_reply(now)
                &&& exists|tsval: Option<u32>|
                    {
                        &&& packet == #[trigger] self.ack_packet(tsval)
                        &&& match (self.ts_generator, tsval) {
                            (Some(generator), Some(tsval)) => generator.may_show(tsval),
                            (None, None) => true,
                            _ => false,
                        }
                    }
            },
            None => !self.may_reply(now),
        }
    }

    /// Acknowledges what was received, at most every half second.
    pub fn reply(&mut self, now: Instant, _repr: &TcpRepr<'_>) -> (r: Option<
        (IpRepr, TcpRepr<'static>),
    >)
        requires
            old(self).may_reply(now) ==> {
                &&& old(self).one_family()
                &&& can_add(now, Duration { micros: REPLY_INTERVAL })
            },
        ensures
            old(self).is_reply(now, r),
            *final(self) == old(self).replied(now),
    {
        if now.micros < self.ack_at.micros {
            return None;
        }
        let ghost before = *self;
        self.ack_at = now + Duration::from_millis(500);
        let tsval = match &self.ts_generator {
            Some(generator) => Some(generator.tsval()),
            None => None,
        };
        let packet = self.ack(tsval);
        assert(packet == before.ack_packet(tsval));
        Some(packet)
    }

    /// The device that a reply is bound to.
    pub fn meta(&self) -> (r: PacketMeta)
        ensures
            r == (PacketMeta { id: self.device }),
    {
        PacketMeta { id: self.device }
    }
}

/// The whole seconds since the origin, by way of whole milliseconds.
pub open spec fn whole_seconds(time: Instant) -> int {
    quotient(quotient(time.micros as int, 1000), 1000)
}

/// After a reply the next one comes half a second later, and no earlier.
pub proof fn replies_keep_their_distance(state: TimeWaitState, first: Instant, second: Instant)
    requires
        state.may_reply(first),
        can_add(first, Duration { micros: REPLY_INTERVAL }),
    ensures
        state.replied(first).may_reply(second) <==> second.micros - first.micros >= REPLY_INTERVAL,
{
}

/// The next connection starts with another sequence number than zero, ahead of those that the old
/// connection used.
pub proof fn new_isn_lies_ahead(state: TimeWaitState)
    ensures
        state.spec_new_isn().0 != 0,
        state.spec_new_isn().spec_after(state.snd_nxt),
{
}

/// A segment with an old timestamp neither opens a connection nor ends the protection before its
/// time. Unless it is a reset it is acknowledged, and the protection starts anew.
pub proof fn stale_segment_is_harmless(state: TimeWaitState, now: Instant, repr: TcpRepr<'_>)
    requires
        !state.is_expired(now),
        paws_rejects(state.ts_recent, repr, now),
    ensures
        state.action(now, repr) == if repr.control == TcpControl::Rst {
            TimeWaitAction::Ignore
        } else {
            TimeWaitAction::Ack
        },
        repr.control != TcpControl::Rst ==> state.processed(now, repr).expires == later(
            now,
            state.duration,
        ),
        repr.control == TcpControl::Rst ==> state.processed(now, repr) == state,
{
}

/// The protection ends when its time is over or by a reset exactly where the old stream ended, and
/// by nothing else.
pub proof fn only_time_or_an_exact_reset_ends_protection(
    state: TimeWaitState,
    now: Instant,
    repr: TcpRepr<'_>,
)
    ensures
        state.action(now, repr) == TimeWaitAction::Remove <==> state.is_expired(now) || (
        repr.control == TcpControl::Rst && repr.seq_number == state.rcv_nxt && !paws_rejects(
            state.ts_recent,
            repr,
            now,
        )),
{
}

/// A segment puts the end of the protection off by at most its duration, and never brings it
/// closer than it was. Nothing that tells the connection apart changes.
pub proof fn refreshing_is_bounded(state: TimeWaitState, now: Instant, repr: TcpRepr<'_>)
    requires
        can_add(now, state.duration),
        state.expires.micros <= now.micros + state.duration.micros,
    ensures
        state.expires.micros <= state.processed(now, repr).expires.micros <= now.micros
            + state.duration.micros,
        state.processed(now, repr).tuple == state.tuple,
        state.processed(now, repr).device == state.device,
        state.processed(now, repr).snd_nxt == state.snd_nxt,
        state.processed(now, repr).rcv_nxt == state.rcv_nxt,
        state.processed(now, repr).replied(now).tuple == state.tuple,
        state.processed(now, repr).replied(now).device == state.device,
{
}

/// A connection that is opened again without newer sequence numbers was told from the old one by a
/// newer timestamp, and goes on to use timestamps.
pub proof fn timestamp_only_reopen_keeps_timestamps(
    state: TimeWaitState,
    now: Instant,
    repr: TcpRepr<'_>,
    listener: Socket,
)
    requires
        state.action(now, repr) == TimeWaitAction::Reopen,
        state.spec_can_reopen_on(repr, listener),
        !repr.seq_number.spec_after(state.rcv_nxt),
    ensures
        listener.tsval_generator is Some,
        state.ts_recent is Some,
        repr.timestamp is Some,
        is_newer(repr.timestamp->0.tsval, (state.ts_recent->0).0),
{
}

/// Endpoints are taken over by an outgoing connection only after one that used timestamps, and
/// where the system takes them over by itself, the caller could have asked for it.
pub proof fn reuse_rests_on_timestamps(state: TimeWaitState, now: Instant, mode: TimeWaitReuse)
    requires
        state.spec_active_reuse(now, mode),
    ensures
        state.ts_generator is Some,
        state.ts_recent is Some,
        state.spec_active_reuse(now, TimeWaitReuse::Explicit),
        mode matches TimeWaitReuse::Automatic { loopback } ==> loopback && whole_seconds(now)
            > whole_seconds((state.ts_recent->0).1),
{
}

} // verus!

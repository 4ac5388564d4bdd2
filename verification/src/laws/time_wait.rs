//! Laws of what is left of a connection in TIME-WAIT.
use crate::laws::numbers::steps;
use crate::phy::PacketMeta;
use crate::socket::tcp::time_wait::{
    paws_reject, whole_seconds, TimeWaitAction, TimeWaitState,
};
use crate::socket::tcp::{Socket, TimeWaitReuse};
use crate::time::Instant;
use crate::wire::ip::{IpProtocol, IpRepr};
use crate::wire::tcp::{TcpControl, TcpRepr, TcpSeqNumber};
use vstd::prelude::*;

verus! {

/// The time between two instants, whichever comes first.
pub open spec fn apart(a: Instant, b: Instant) -> int {
    if a.micros >= b.micros {
        a.micros - b.micros
    } else {
        b.micros - a.micros
    }
}

/// A number lies ahead of another by fewer than half of all steps of its ring.
pub open spec fn ahead(number: int, reference: int) -> bool {
    0 < steps(reference, number) < 0x8000_0000
}

/// A segment is stale: its timestamp lies behind the last one of the peer, which is not zero and came
/// less than 24 days ago, or less than a minute ago where the segment is a reset.
pub open spec fn is_stale(
    last: Option<(u32, Instant)>,
    segment: TcpRepr<'_>,
    now: Instant,
) -> bool {
    &&& last is Some
    &&& segment.timestamp is Some
    &&& (last->0).0 != 0
    &&& steps((last->0).0 as int, segment.timestamp->0.tsval as int) >= 0x8000_0000
    &&& apart(now, (last->0).1) < if segment.control == TcpControl::Rst {
        60 * 1_000_000
    } else {
        24 * 24 * 60 * 60 * 1_000_000
    }
}

/// Old timestamps are told from others as described, and without a last timestamp, or without one in
/// the segment, nothing is old.
pub proof fn old_timestamps_are_told(
    last: Option<(u32, Instant)>,
    segment: &TcpRepr<'_>,
    now: Instant,
    r: bool,
)
    requires
        call_ensures(paws_reject, (last, segment, now), r),
    ensures
        r <==> is_stale(last, *segment, now),
{
}

/// The segment takes no sequence number: it holds no octets and neither opens nor ends a stream.
pub open spec fn is_hollow(segment: TcpRepr<'_>) -> bool {
    segment.payload@.len() == 0 && segment.control != TcpControl::Syn && segment.control
        != TcpControl::Fin
}

/// The segment only asks for a new connection.
pub open spec fn only_opens(segment: TcpRepr<'_>) -> bool {
    segment.control == TcpControl::Syn && segment.ack_number is None
}

/// The timestamp of the segment lies ahead of the last one of the peer.
pub open spec fn has_newer_timestamp(state: TimeWaitState, segment: TcpRepr<'_>) -> bool {
    &&& state.ts_recent is Some
    &&& segment.timestamp is Some
    &&& ahead(segment.timestamp->0.tsval as int, (state.ts_recent->0).0 as int)
}

/// Once the time of the protection is over, every segment ends it.
pub proof fn time_ends_protection(
    state: &TimeWaitState,
    now: Instant,
    segment: &TcpRepr<'_>,
    r: (TimeWaitAction, bool),
)
    requires
        call_ensures(TimeWaitState::judge, (state, now, segment), r),
        now.micros >= state.expires.micros,
    ensures
        r == (TimeWaitAction::Remove, false),
{
}

/// Before that, a stale segment is acknowledged and the protection starts anew; a stale reset is
/// ignored.
pub proof fn stale_segments_are_acknowledged(
    state: &TimeWaitState,
    now: Instant,
    segment: &TcpRepr<'_>,
    r: (TimeWaitAction, bool),
)
    requires
        call_ensures(TimeWaitState::judge, (state, now, segment), r),
        now.micros < state.expires.micros,
        is_stale(state.ts_recent, *segment, now),
    ensures
        segment.control == TcpControl::Rst ==> r == (TimeWaitAction::Ignore, false),
        segment.control != TcpControl::Rst ==> r == (TimeWaitAction::Ack, true),
{
}

/// A SYN without acknowledgement that is not stale, and lies ahead of all that was received or
/// carries a newer timestamp, opens a new connection: with a timestamp or without one.
pub proof fn fresh_syn_ahead_reopens(
    state: &TimeWaitState,
    now: Instant,
    segment: &TcpRepr<'_>,
    r: (TimeWaitAction, bool),
)
    requires
        call_ensures(TimeWaitState::judge, (state, now, segment), r),
        now.micros < state.expires.micros,
        only_opens(*segment),
        !is_stale(state.ts_recent, *segment, now),
        ahead(segment.seq_number.0 as int, state.rcv_nxt.0 as int) || has_newer_timestamp(
            *state,
            *segment,
        ),
    ensures
        r == (TimeWaitAction::Reopen, false),
{
}

/// Nothing else opens a new connection.
pub proof fn only_fresh_syns_ahead_reopen(
    state: &TimeWaitState,
    now: Instant,
    segment: &TcpRepr<'_>,
    r: (TimeWaitAction, bool),
)
    requires
        call_ensures(TimeWaitState::judge, (state, now, segment), r),
        r.0 == TimeWaitAction::Reopen,
    ensures
        now.micros < state.expires.micros,
        only_opens(*segment),
        !is_stale(state.ts_recent, *segment, now),
        ahead(segment.seq_number.0 as int, state.rcv_nxt.0 as int) || has_newer_timestamp(
            *state,
            *segment,
        ),
{
}

/// A fresh reset ends the protection exactly where it stands where the old stream ended, and is
/// ignored elsewhere.
pub proof fn fresh_reset_ends_protection_at_the_end_of_the_stream(
    state: &TimeWaitState,
    now: Instant,
    segment: &TcpRepr<'_>,
    r: (TimeWaitAction, bool),
)
    requires
        call_ensures(TimeWaitState::judge, (state, now, segment), r),
        now.micros < state.expires.micros,
        segment.control == TcpControl::Rst,
        !is_stale(state.ts_recent, *segment, now),
    ensures
        r == if segment.seq_number.0 == state.rcv_nxt.0 {
            (TimeWaitAction::Remove, false)
        } else {
            (TimeWaitAction::Ignore, false)
        },
{
}

/// A fresh segment that is no reset and takes no sequence number, where the old stream ended, is
/// ignored, and the protection starts anew.
pub proof fn hollow_segment_at_the_end_refreshes(
    state: &TimeWaitState,
    now: Instant,
    segment: &TcpRepr<'_>,
    r: (TimeWaitAction, bool),
)
    requires
        call_ensures(TimeWaitState::judge, (state, now, segment), r),
        now.micros < state.expires.micros,
        segment.control != TcpControl::Rst,
        !is_stale(state.ts_recent, *segment, now),
        is_hollow(*segment),
        segment.seq_number.0 == state.rcv_nxt.0,
    ensures
        r == (TimeWaitAction::Ignore, true),
{
}

/// Every other fresh segment is acknowledged, and the protection starts anew where it acknowledges
/// something.
pub proof fn other_segments_are_acknowledged(
    state: &TimeWaitState,
    now: Instant,
    segment: &TcpRepr<'_>,
    r: (TimeWaitAction, bool),
)
    requires
        call_ensures(TimeWaitState::judge, (state, now, segment), r),
        now.micros < state.expires.micros,
        segment.control != TcpControl::Rst,
        !is_stale(state.ts_recent, *segment, now),
        !(is_hollow(*segment) && segment.seq_number.0 == state.rcv_nxt.0),
        !(only_opens(*segment) && (ahead(segment.seq_number.0 as int, state.rcv_nxt.0 as int)
            || has_newer_timestamp(*state, *segment))),
    ensures
        r == (TimeWaitAction::Ack, segment.ack_number is Some),
{
}

/// Everything but the end of the protection, the last timestamp and the time of the next reply is
/// the same in two states.
pub open spec fn same_connection(a: TimeWaitState, b: TimeWaitState) -> bool {
    &&& a.tuple == b.tuple
    &&& a.device == b.device
    &&& a.duration == b.duration
    &&& a.snd_nxt == b.snd_nxt
    &&& a.rcv_nxt == b.rcv_nxt
    &&& a.window == b.window
    &&& a.hop_limit == b.hop_limit
    &&& a.ts_generator == b.ts_generator
}

/// Processing a segment calls for what it is judged to call for. Where the protection starts anew it
/// lasts as long as at first, counted from now. The timestamp of a segment that is ignored then is
/// noted. Nothing else changes.
pub proof fn processing_takes_note(now: Instant, segment: &TcpRepr<'_>)
    ensures
        forall|state: &mut TimeWaitState, r: TimeWaitAction, judged: (TimeWaitAction, bool)|
            #[trigger] call_ensures(TimeWaitState::process, (state, now, segment), r)
                && #[trigger] call_ensures(TimeWaitState::judge, (&*state, now, segment), judged)
                && now.micros + state.duration.micros <= i64::MAX ==> {
                &&& r == judged.0
                &&& same_connection(*final(state), *state)
                &&& final(state).ack_at == state.ack_at
                &&& final(state).expires.micros == if judged.1 {
                    now.micros + state.duration.micros
                } else {
                    state.expires.micros as int
                }
                &&& final(state).ts_recent == if judged == (TimeWaitAction::Ignore, true)
                    && segment.timestamp is Some {
                    Some((segment.timestamp->0.tsval, now))
                } else {
                    state.ts_recent
                }
            },
{
}

/// A reply is an acknowledgement of all that was received, from the local to the remote endpoint. It
/// carries what the clock of the connection shows, where it has one, with the last timestamp of the
/// peer, or zero. It is sent at most every 500 milliseconds.
pub proof fn replies_acknowledge_all_that_was_received(now: Instant, segment: &TcpRepr<'_>)
    ensures
        forall|state: &mut TimeWaitState, r: Option<(IpRepr, TcpRepr<'static>)>|
            #[trigger] call_ensures(TimeWaitState::reply, (state, now, segment), r)
                && now.micros + 500_000 <= i64::MAX && state.tuple.local.addr is Ipv4
                == state.tuple.remote.addr is Ipv4 ==> {
                &&& r is Some <==> now.micros >= state.ack_at.micros
                &&& same_connection(*final(state), *state)
                &&& final(state).expires == state.expires
                &&& final(state).ts_recent == state.ts_recent
                &&& final(state).ack_at.micros == if r is Some {
                    now.micros + 500_000
                } else {
                    state.ack_at.micros as int
                }
                &&& r matches Some((ip, tcp)) ==> is_acknowledgement(*state, ip, tcp)
            },
{
    assert forall|state: &mut TimeWaitState, r: Option<(IpRepr, TcpRepr<'static>)>|
        #[trigger] call_ensures(TimeWaitState::reply, (state, now, segment), r) && r is Some
            && state.tuple.local.addr is Ipv4
            == state.tuple.remote.addr is Ipv4 implies is_acknowledgement(
        *state,
        (r->0).0,
        (r->0).1,
    ) by {
        assert(state.is_reply(now, r));
    }
}

/// The packet acknowledges all that was received.
pub open spec fn is_acknowledgement(
    state: TimeWaitState,
    ip: IpRepr,
    tcp: TcpRepr<'static>,
) -> bool {
    &&& ip.spec_src_addr() == state.tuple.local.addr
    &&& ip.spec_dst_addr() == state.tuple.remote.addr
    &&& ip.spec_next_header() == IpProtocol::Tcp
    &&& ip.spec_payload_len() == if tcp.timestamp is Some {
        32int
    } else {
        20
    }
    &&& ip matches IpRepr::Ipv4(repr) ==> repr.hop_limit == state.hop_limit
    &&& ip matches IpRepr::Ipv6(repr) ==> repr.hop_limit == state.hop_limit
    &&& tcp.src_port == state.tuple.local.port
    &&& tcp.dst_port == state.tuple.remote.port
    &&& tcp.control == TcpControl::Plain
    &&& tcp.seq_number == state.snd_nxt
    &&& tcp.ack_number == Some(state.rcv_nxt)
    &&& tcp.window_len == state.window
    &&& tcp.window_scale is None
    &&& tcp.max_seg_size is None
    &&& !tcp.sack_permitted
    &&& tcp.sack_ranges@[0] is None && tcp.sack_ranges@[1] is None && tcp.sack_ranges@[2] is None
    &&& tcp.payload@.len() == 0
    &&& tcp.timestamp is Some <==> state.ts_generator is Some
    &&& tcp.timestamp matches Some(ts) ==> {
        &&& state.ts_generator->0.may_show(ts.tsval)
        &&& ts.tsecr == if state.ts_recent is Some {
            (state.ts_recent->0).0
        } else {
            0
        }
    }
}

/// The whole seconds of an instant, toward the origin.
pub open spec fn seconds(time: Instant) -> int {
    if time.micros >= 0 {
        time.micros as int / 1_000_000
    } else {
        -((-time.micros) as int / 1_000_000)
    }
}

/// The endpoints of a connection that used timestamps may be taken over: always where the caller asks
/// for it, and where the system picks them, on loopback only and in a later second than that of the
/// last timestamp. Those of a connection without timestamps never may.
pub proof fn endpoints_of_timestamped_connections_are_reused(
    state: &TimeWaitState,
    now: Instant,
    mode: TimeWaitReuse,
    r: bool,
)
    requires
        call_ensures(TimeWaitState::active_reuse, (state, now, mode), r),
    ensures
        r <==> may_reuse(*state, now, mode),
{
    lemma_may_reuse(*state, now, mode);
}

/// The endpoints of a connection may be taken over.
pub open spec fn may_reuse(state: TimeWaitState, now: Instant, mode: TimeWaitReuse) -> bool {
    &&& state.ts_recent is Some
    &&& state.ts_generator is Some
    &&& mode != TimeWaitReuse::Explicit ==> mode == (TimeWaitReuse::Automatic { loopback: true })
        && seconds(now) > seconds((state.ts_recent->0).1)
}

/// The rule for taking over endpoints is the one described.
pub proof fn lemma_may_reuse(state: TimeWaitState, now: Instant, mode: TimeWaitReuse)
    ensures
        state.spec_active_reuse(now, mode) <==> may_reuse(state, now, mode),
{
    lemma_seconds(now);
    if state.ts_recent is Some {
        lemma_seconds((state.ts_recent->0).1);
    }
}

proof fn lemma_seconds(time: Instant)
    ensures
        whole_seconds(time) == seconds(time),
{
    let n: int = if time.micros >= 0 {
        time.micros as int
    } else {
        -time.micros as int
    };
    vstd::arithmetic::div_mod::lemma_div_denominator(n, 1000, 1000);
}

/// The next connection starts 65537 numbers past the old one, and with one instead of zero.
pub proof fn next_connection_starts_past_the_old_one(state: &TimeWaitState, r: TcpSeqNumber)
    requires
        call_ensures(TimeWaitState::new_isn, (state,), r),
    ensures
        r.0 != 0,
        steps(state.snd_nxt.0 as int, r.0 as int) == 65537 || (r.0 == 1 && steps(
            state.snd_nxt.0 as int,
            0,
        ) == 65537),
{
}

/// A listener may take the new connection where the segment lies ahead of all that was received, or
/// the listener uses timestamps, and nowhere else.
pub proof fn reopening_needs_newer_numbers_or_timestamps(
    state: &TimeWaitState,
    segment: &TcpRepr<'_>,
    listener: &Socket,
    r: bool,
)
    requires
        call_ensures(TimeWaitState::can_reopen_on, (state, segment, listener), r),
    ensures
        r <==> ahead(segment.seq_number.0 as int, state.rcv_nxt.0 as int)
            || listener.tsval_generator is Some,
{
}

/// What is left of a socket are its endpoints, its device, the numbers that it sends and expects
/// next, its window, its hop limit or 64, and its timestamps. The protection lasts as long as the
/// socket says, counted from now, and a reply may be sent at once.
pub proof fn what_is_left_of_a_socket(
    socket: &Socket,
    now: Instant,
    r: TimeWaitState,
    window: u16,
)
    requires
        call_ensures(Socket::scaled_window, (socket,), window),
        call_ensures(TimeWaitState::from_socket, (socket, now), r),
        socket.tuple is Some,
        now.micros + socket.time_wait_duration.micros <= i64::MAX,
    ensures
        r.tuple == socket.tuple->0,
        r.device == socket.connection_bound_device,
        r.expires.micros == now.micros + socket.time_wait_duration.micros,
        r.duration == socket.time_wait_duration,
        r.snd_nxt == socket.local_seq_no,
        steps(socket.remote_seq_no.0 as int, r.rcv_nxt.0 as int) == socket.rx_buffer@.len()
            % 0x1_0000_0000,
        r.hop_limit == if socket.hop_limit is Some {
            socket.hop_limit->0
        } else {
            64
        },
        r.ts_recent == socket.ts_recent,
        r.ts_generator == socket.tsval_generator,
        r.ack_at.micros == 0,
        r.window == window,
{
}

/// Replies are bound to the device of the connection.
pub proof fn replies_are_bound_to_the_device(state: &TimeWaitState, r: PacketMeta)
    requires
        call_ensures(TimeWaitState::meta, (state,), r),
    ensures
        r.id == state.device,
{
}

/// A reply at a time on the clock acknowledges all that was received, from the local to the remote endpoint.
/// With a time it takes 32 octets and carries that and the last timestamp of the peer, or zero; without
/// one it takes 20.
pub proof fn reply_at_a_time_on_the_clock(
    state: &TimeWaitState,
    tsval: Option<u32>,
    r: (IpRepr, TcpRepr<'static>),
)
    requires
        call_ensures(TimeWaitState::ack, (state, tsval), r),
        state.tuple.local.addr is Ipv4 == state.tuple.remote.addr is Ipv4,
    ensures
        r.0.spec_src_addr() == state.tuple.local.addr,
        r.0.spec_dst_addr() == state.tuple.remote.addr,
        r.0.spec_next_header() == IpProtocol::Tcp,
        r.0.spec_payload_len() == if tsval is Some {
            32int
        } else {
            20
        },
        r.0 matches IpRepr::Ipv4(repr) ==> repr.hop_limit == state.hop_limit,
        r.0 matches IpRepr::Ipv6(repr) ==> repr.hop_limit == state.hop_limit,
        r.1.src_port == state.tuple.local.port,
        r.1.dst_port == state.tuple.remote.port,
        r.1.control == TcpControl::Plain,
        r.1.seq_number == state.snd_nxt,
        r.1.ack_number == Some(state.rcv_nxt),
        r.1.window_len == state.window,
        r.1.window_scale is None,
        r.1.max_seg_size is None,
        !r.1.sack_permitted,
        r.1.sack_ranges@[0] is None,
        r.1.sack_ranges@[1] is None,
        r.1.sack_ranges@[2] is None,
        r.1.payload@.len() == 0,
        r.1.timestamp is Some <==> tsval is Some,
        r.1.timestamp matches Some(ts) ==> {
            &&& ts.tsval == tsval->0
            &&& ts.tsecr == if state.ts_recent is Some {
                (state.ts_recent->0).0
            } else {
                0
            }
        },
{
}

} // verus!

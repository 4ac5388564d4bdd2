use smoltcp::socket::tcp::time_wait::{paws_reject, TimeWaitAction, TimeWaitState};
use smoltcp::socket::tcp::{TcpTimestampGenerator, TimeWaitReuse, Tuple};
use smoltcp::time::{Duration, Instant};
use smoltcp::wire::ip::{IpAddress, IpEndpoint};
use smoltcp::wire::tcp::{TcpControl, TcpRepr, TcpSeqNumber, TcpTimestampRepr};
use std::sync::Arc;

struct Clock;

impl TcpTimestampGenerator for Clock {
    fn tsval(&self) -> u32 {
        5000
    }
}

fn endpoints() -> (IpEndpoint, IpEndpoint) {
    (
        IpEndpoint::new(IpAddress::v4(127, 0, 0, 1), 80),
        IpEndpoint::new(IpAddress::v4(127, 0, 0, 1), 40000),
    )
}

fn closed() -> TimeWaitState {
    let (local, remote) = endpoints();
    TimeWaitState {
        tuple: Tuple { local, remote },
        device: 0,
        expires: Instant::from_secs(61),
        ts_recent: Some((3000, Instant::from_secs(1))),
        duration: Duration::from_secs(60),
        snd_nxt: TcpSeqNumber(1000),
        rcv_nxt: TcpSeqNumber(2000),
        window: 64,
        hop_limit: 64,
        ts_generator: Some(Arc::new(Clock)),
        ack_at: Instant::from_millis(0),
    }
}

fn syn(seq: i32, ts: u32) -> TcpRepr<'static> {
    let (local, remote) = endpoints();
    TcpRepr {
        src_port: remote.port,
        dst_port: local.port,
        control: TcpControl::Syn,
        seq_number: TcpSeqNumber(seq),
        ack_number: None,
        window_len: 1000,
        window_scale: None,
        max_seg_size: Some(1460),
        sack_permitted: false,
        sack_ranges: [None; 3],
        timestamp: Some(TcpTimestampRepr {
            tsval: ts,
            tsecr: 0,
        }),
        payload: &[],
    }
}

#[test]
fn old_syn_paws_and_sequence_wrap() {
    let mut tw = closed();
    assert_eq!(
        tw.process(Instant::from_secs(2), &syn(2100, 2999)),
        TimeWaitAction::Ack
    );
    assert_eq!(
        tw.process(Instant::from_secs(2), &syn(1999, 3000)),
        TimeWaitAction::Ack
    );
    assert_eq!(
        tw.process(Instant::from_secs(2), &syn(2100, 3000)),
        TimeWaitAction::Reopen
    );
    assert_eq!(
        tw.process(Instant::from_secs(2), &syn(1999, 3001)),
        TimeWaitAction::Reopen
    );
    tw.rcv_nxt = TcpSeqNumber(i32::MAX - 1);
    assert_eq!(
        tw.process(Instant::from_secs(2), &syn(i32::MIN + 1, 3000)),
        TimeWaitAction::Reopen
    );
    tw.ts_recent = Some((u32::MAX, Instant::from_secs(1)));
    assert_eq!(
        tw.process(Instant::from_secs(2), &syn(i32::MIN, 1)),
        TimeWaitAction::Reopen
    );
}

#[test]
fn active_reuse_distinguishes_explicit_and_automatic() {
    let tw = closed();
    assert!(tw.active_reuse(Instant::from_millis(1500), TimeWaitReuse::Explicit));
    assert!(!tw.active_reuse(
        Instant::from_millis(1500),
        TimeWaitReuse::Automatic { loopback: true }
    ));
    assert!(!tw.active_reuse(
        Instant::from_secs(2),
        TimeWaitReuse::Automatic { loopback: false }
    ));
    assert!(tw.active_reuse(
        Instant::from_secs(2),
        TimeWaitReuse::Automatic { loopback: true }
    ));
}

#[test]
fn fin_ack_rst_and_rate_limit() {
    let mut tw = closed();
    let mut fin = syn(1999, 3000);
    fin.control = TcpControl::Fin;
    fin.ack_number = Some(TcpSeqNumber(1000));
    let now = Instant::from_secs(5);
    assert_eq!(tw.process(now, &fin), TimeWaitAction::Ack);
    let reply = tw.reply(now, &fin).unwrap().1;
    assert_eq!(reply.ack_number, Some(TcpSeqNumber(2000)));
    assert_eq!(tw.expires, Instant::from_secs(65));
    assert!(tw.reply(now, &fin).is_none());
    assert!(tw.reply(now + Duration::from_millis(500), &fin).is_some());
    let mut ack = fin;
    ack.control = TcpControl::Plain;
    ack.seq_number = TcpSeqNumber(2000);
    assert_eq!(
        tw.process(Instant::from_secs(6), &ack),
        TimeWaitAction::Ignore
    );
    assert_eq!(tw.expires, Instant::from_secs(66));
    ack.control = TcpControl::Rst;
    ack.seq_number = TcpSeqNumber(1990);
    assert_eq!(tw.process(now, &ack), TimeWaitAction::Ignore);
    ack.seq_number = TcpSeqNumber(2000);
    assert_eq!(tw.process(now, &ack), TimeWaitAction::Remove);
}

#[test]
fn paws_ignores_zero_recent_and_relaxes_rst_after_msl() {
    let mut packet = syn(2000, 2999);
    packet.control = TcpControl::Rst;
    assert!(paws_reject(
        Some((3000, Instant::from_secs(1))),
        &packet,
        Instant::from_secs(2)
    ));
    assert!(!paws_reject(
        Some((3000, Instant::from_secs(1))),
        &packet,
        Instant::from_secs(61)
    ));
    assert!(!paws_reject(
        Some((0, Instant::from_secs(1))),
        &syn(2000, u32::MAX),
        Instant::from_secs(2)
    ));
}

#[test]
fn new_isn_skips_zero() {
    let mut tw = closed();
    assert_eq!(tw.new_isn(), TcpSeqNumber(66537));
    tw.snd_nxt = TcpSeqNumber(-65537);
    assert_eq!(tw.new_isn(), TcpSeqNumber(1));
    tw.snd_nxt = TcpSeqNumber(i32::MAX);
    assert_eq!(tw.new_isn(), TcpSeqNumber(i32::MIN + 65536));
}

#[test]
fn old_timestamps_lose_their_weight_after_24_days() {
    let packet = syn(2000, 2999);
    let day: i64 = 24 * 60 * 60;
    let recent = Some((3000, Instant::from_secs(0)));
    assert!(paws_reject(recent, &packet, Instant::from_secs(24 * day - 1)));
    assert!(!paws_reject(recent, &packet, Instant::from_secs(24 * day)));
    assert!(!paws_reject(None, &packet, Instant::from_secs(1)));
    assert!(!paws_reject(
        Some((2999, Instant::from_secs(0))),
        &packet,
        Instant::from_secs(1)
    ));
}

#[test]
fn reuse_needs_timestamps() {
    let mut tw = closed();
    tw.ts_generator = None;
    assert!(!tw.active_reuse(Instant::from_secs(5), TimeWaitReuse::Explicit));
    let mut tw = closed();
    tw.ts_recent = None;
    assert!(!tw.active_reuse(Instant::from_secs(5), TimeWaitReuse::Explicit));
}

#[test]
fn reply_without_timestamps_is_shorter() {
    let mut tw = closed();
    tw.ts_generator = None;
    tw.device = 3;
    let (ip, tcp) = tw.reply(Instant::from_secs(1), &syn(1, 1)).unwrap();
    assert_eq!(ip.payload_len(), 20);
    assert_eq!(tcp.timestamp, None);
    assert_eq!(tw.meta().id, 3);
    assert_eq!(tw.ack_at, Instant::from_millis(1500));
    let (ip, tcp) = closed().reply(Instant::from_secs(1), &syn(1, 1)).unwrap();
    assert_eq!(ip.payload_len(), 32);
    assert_eq!(
        tcp.timestamp,
        Some(TcpTimestampRepr {
            tsval: 5000,
            tsecr: 3000
        })
    );
}

#[test]
fn data_and_plain_acks_are_told_apart() {
    let now = Instant::from_secs(2);
    // Data where the stream ended is acknowledged, and without an acknowledgement of its own it
    // does not put off the end.
    let mut tw = closed();
    let mut data = syn(2000, 3000);
    data.control = TcpControl::Psh;
    data.payload = b"x";
    assert_eq!(tw.process(now, &data), TimeWaitAction::Ack);
    assert_eq!(tw.expires, Instant::from_secs(61));
    data.ack_number = Some(TcpSeqNumber(1000));
    assert_eq!(tw.process(now, &data), TimeWaitAction::Ack);
    assert_eq!(tw.expires, Instant::from_secs(62));
    assert_eq!(tw.ts_recent, Some((3000, Instant::from_secs(1))));
    // A plain acknowledgement there is ignored, and its timestamp is noted.
    let mut ack = syn(2000, 3005);
    ack.control = TcpControl::Plain;
    assert_eq!(tw.process(now, &ack), TimeWaitAction::Ignore);
    assert_eq!(tw.ts_recent, Some((3005, now)));
    // The time is over.
    assert_eq!(
        tw.process(Instant::from_secs(62), &ack),
        TimeWaitAction::Remove
    );
}

#[test]
fn segment_lengths() {
    let mut repr = syn(1, 1);
    assert_eq!(repr.segment_len(), 1);
    assert_eq!(repr.header_len(), 36);
    repr.payload = b"abc";
    repr.control = TcpControl::Plain;
    repr.window_scale = Some(2);
    repr.sack_permitted = true;
    repr.sack_ranges = [Some((1, 2)), None, None];
    assert_eq!(repr.segment_len(), 3);
    assert_eq!(repr.header_len(), 52);
    assert_eq!(repr.buffer_len(), 55);
}

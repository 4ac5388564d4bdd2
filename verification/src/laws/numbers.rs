//! Laws of times, sequence numbers, timestamps, lengths and written numbers.
use crate::text::decimal;
use crate::time::{Duration, Instant};
use crate::wire::tcp::{newer, older, TcpControl, TcpRepr, TcpSeqNumber};
use vstd::prelude::*;
use vstd::std_specs::ops::AddSpec;

verus! {

/// The number of steps from `from` forward to `to` on the ring of 32-bit numbers.
pub open spec fn steps(from: int, to: int) -> int {
    (to - from) % 0x1_0000_0000
}

/// A number comes after another if fewer than half of all steps lead there, and before it if
/// at least half do; two different numbers are in one of the two relations.
pub proof fn sequence_numbers_are_ordered_by_steps(
    a: &TcpSeqNumber,
    b: TcpSeqNumber,
    after: bool,
    before: bool,
)
    requires
        call_ensures(TcpSeqNumber::after, (a, b), after),
        call_ensures(TcpSeqNumber::before, (a, b), before),
    ensures
        after <==> 0 < steps(b.0 as int, a.0 as int) < 0x8000_0000,
        before <==> steps(b.0 as int, a.0 as int) >= 0x8000_0000,
        *a != b ==> after != before,
{
}

/// Moving a sequence number on by some steps leads as many steps ahead.
pub proof fn adding_to_a_sequence_number_moves_it_on(a: TcpSeqNumber, n: usize)
    requires
        n <= i32::MAX,
    ensures
        <TcpSeqNumber as AddSpec<usize>>::obeys_add_spec(),
        a.add_req(n),
        steps(a.0 as int, a.add_spec(n).0 as int) == n,
{
}

/// A timestamp is newer than another if fewer than half of all steps lead there, and older if at
/// least half do.
pub proof fn timestamps_are_ordered_by_steps(value: u32, reference: u32, is_old: bool, is_new: bool)
    requires
        call_ensures(older, (value, reference), is_old),
        call_ensures(newer, (value, reference), is_new),
    ensures
        is_new <==> 0 < steps(reference as int, value as int) < 0x8000_0000,
        is_old <==> steps(reference as int, value as int) >= 0x8000_0000,
        value != reference ==> is_old != is_new,
{
}

/// A segment takes one sequence number for each octet, and one more for a SYN or a FIN.
pub proof fn segments_take_sequence_numbers(repr: &TcpRepr<'_>, len: usize, none: bool)
    requires
        call_ensures(TcpRepr::segment_len, (repr,), len),
        call_ensures(TcpRepr::takes_no_space, (repr,), none),
    ensures
        repr.control == TcpControl::Syn || repr.control == TcpControl::Fin ==> len
            == repr.payload@.len() + 1,
        repr.control == TcpControl::Plain || repr.control == TcpControl::Psh || repr.control
            == TcpControl::Rst ==> len == repr.payload@.len(),
        none <==> len == 0,
{
}

/// The octets of the options of a segment: a maximum segment size takes four, a window scale three,
/// the permission of selective acknowledgements two, a timestamp ten, and selective
/// acknowledgements two and eight for each.
pub open spec fn options_len(repr: TcpRepr<'_>) -> int {
    let sacks = (if repr.sack_ranges@[0] is Some {
        1int
    } else {
        0
    }) + (if repr.sack_ranges@[1] is Some {
        1int
    } else {
        0
    }) + (if repr.sack_ranges@[2] is Some {
        1int
    } else {
        0
    });
    (if repr.max_seg_size is Some {
        4int
    } else {
        0
    }) + (if repr.window_scale is Some {
        3int
    } else {
        0
    }) + (if repr.sack_permitted {
        2int
    } else {
        0
    }) + (if repr.timestamp is Some {
        10int
    } else {
        0
    }) + (if sacks > 0 {
        2 + 8 * sacks
    } else {
        0
    })
}

/// A header holds twenty octets and its options, padded to whole 32-bit words with as few octets
/// as possible. The payload follows it.
pub proof fn header_is_padded_to_whole_words(repr: &TcpRepr<'_>, header: usize, buffer: usize)
    requires
        call_ensures(TcpRepr::header_len, (repr,), header),
        call_ensures(TcpRepr::buffer_len, (repr,), buffer),
    ensures
        header % 4 == 0,
        20 + options_len(*repr) <= header < 24 + options_len(*repr),
        buffer == header + repr.payload@.len(),
{
}

/// The distance between two instants is the same in both directions, and leads from the earlier to
/// the later one.
pub proof fn distance_leads_from_one_instant_to_the_other(
    a: Instant,
    b: Instant,
    there: Duration,
    back: Duration,
)
    requires
        call_ensures(Instant::abs_diff, (&a, b), there),
        call_ensures(Instant::abs_diff, (&b, a), back),
    ensures
        there == back,
        a.micros <= b.micros ==> a.micros + there.micros == b.micros,
{
}

/// Adding a length of time leads that much later.
pub proof fn adding_time_leads_later(a: Instant, d: Duration)
    requires
        d.micros <= i64::MAX,
        a.micros + d.micros <= i64::MAX,
    ensures
        <Instant as AddSpec<Duration>>::obeys_add_spec(),
        a.add_req(d),
        a.add_spec(d).micros == a.micros + d.micros,
{
}

/// Seconds, milliseconds and microseconds count the same time.
pub proof fn units_of_time_agree(n: i64, secs: Instant, millis: Instant, micros: Instant)
    requires
        call_ensures(Instant::from_secs, (n,), secs),
        call_ensures(Instant::from_millis, (n,), millis),
        call_ensures(Instant::from_micros, (n,), micros),
    ensures
        secs.micros == n * 1_000_000,
        millis.micros == n * 1_000,
        micros.micros == n,
{
}

/// The milliseconds of an instant are the whole ones between it and the origin.
pub proof fn milliseconds_are_whole(time: &Instant, r: i64)
    requires
        call_ensures(Instant::total_millis, (time,), r),
    ensures
        time.micros >= 0 ==> r * 1_000 <= time.micros < (r + 1) * 1_000,
        time.micros <= 0 ==> (r - 1) * 1_000 < time.micros <= r * 1_000,
{
}

/// Seconds, milliseconds and microseconds measure the same lengths of time.
pub proof fn units_of_duration_agree(n: u64, secs: Duration, millis: Duration, micros: Duration)
    requires
        call_ensures(Duration::from_secs, (n,), secs),
        call_ensures(Duration::from_millis, (n,), millis),
        call_ensures(Duration::from_micros, (n,), micros),
    ensures
        secs.micros == n * 1_000_000,
        millis.micros == n * 1_000,
        micros.micros == n,
{
}

/// The number that decimal digits write.
pub open spec fn value(digits: Seq<char>) -> int
    decreases digits.len(),
{
    if digits.len() == 0 {
        0
    } else {
        value(digits.drop_last()) * 10 + (digits.last() as int - '0' as int)
    }
}

/// A number in decimal reads back as that number. It is made of digits only, of one at least, and
/// does not start with a zero unless it is zero.
pub proof fn decimal_reads_back(n: nat)
    ensures
        value(decimal(n)) == n,
        decimal(n).len() >= 1,
        forall|i: int| 0 <= i < decimal(n).len() ==> '0' <= #[trigger] decimal(n)[i] <= '9',
        n > 0 ==> decimal(n)[0] != '0',
    decreases n,
{
    if n < 10 {
        assert(decimal(n).drop_last() =~= Seq::<char>::empty());
        assert(value(decimal(n).drop_last()) == 0);
    } else {
        decimal_reads_back(n / 10);
        assert(decimal(n).drop_last() =~= decimal(n / 10));
    }
}

} // verus!

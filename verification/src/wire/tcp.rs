//! The Transmission Control Protocol, as far as the handling of connections reads it.
use vstd::prelude::*;

verus! {

/// The number of the ring of 32-bit numbers that `n` stands for, as a signed one.
pub open spec fn wrap_i32(n: int) -> i32 {
    let rest = n % 0x1_0000_0000;
    if rest < 0x8000_0000 {
        rest as i32
    } else {
        (rest - 0x1_0000_0000) as i32
    }
}

/// A TCP sequence number: a point on the ring of 32-bit numbers.
#[derive(Debug, Clone, Copy, PartialEq, Eq, Hash, Structural)]
pub struct TcpSeqNumber(pub i32);

impl TcpSeqNumber {
    /// This point lies less than half the ring after `other`.
    pub open spec fn spec_after(self, other: TcpSeqNumber) -> bool {
        wrap_i32(self.0 - other.0) > 0
    }

    /// This point lies at most half the ring before `other`.
    pub open spec fn spec_before(self, other: TcpSeqNumber) -> bool {
        wrap_i32(self.0 - other.0) < 0
    }

    /// Whether this point lies at most half the ring before `other`.
    pub fn before(&self, other: TcpSeqNumber) -> (r: bool)
        ensures
            r == self.spec_before(other),
    {
        self.0.wrapping_sub(other.0) < 0
    }

    /// Whether this point lies less than half the ring after `other`.
    pub fn after(&self, other: TcpSeqNumber) -> (r: bool)
        ensures
            r == self.spec_after(other),
    {
        self.0.wrapping_sub(other.0) > 0
    }
}

impl core::ops::Add<usize> for TcpSeqNumber {
    type Output = TcpSeqNumber;

    fn add(self, rhs: usize) -> (r: TcpSeqNumber) {
        TcpSeqNumber(self.0.wrapping_add(rhs as i32))
    }
}

impl vstd::std_specs::ops::AddSpecImpl<usize> for TcpSeqNumber {
    open spec fn obeys_add_spec() -> bool {
        true
    }

    /// No step is longer than half the ring.
    open spec fn add_req(self, rhs: usize) -> bool {
        rhs <= i32::MAX
    }

    open spec fn add_spec(self, rhs: usize) -> TcpSeqNumber {
        TcpSeqNumber(wrap_i32(self.0 + rhs))
    }
}

/// A timestamp `value` is older than `reference` on the ring of 32-bit numbers.
pub open spec fn is_older(value: u32, reference: u32) -> bool {
    (value - reference) % 0x1_0000_0000 >= 0x8000_0000
}

/// A timestamp `value` is newer than `reference` on the ring of 32-bit numbers.
pub open spec fn is_newer(value: u32, reference: u32) -> bool {
    0 < (value - reference) % 0x1_0000_0000 < 0x8000_0000
}

/// Whether the timestamp `value` is older than `reference`.
pub fn older(value: u32, reference: u32) -> (r: bool)
    ensures
        r == is_older(value, reference),
{
    value.wrapping_sub(reference) >= 0x8000_0000
}

/// Whether the timestamp `value` is newer than `reference`.
pub fn newer(value: u32, reference: u32) -> (r: bool)
    ensures
        r == is_newer(value, reference),
{
    let ahead: u32 = value.wrapping_sub(reference);
    0 < ahead && ahead < 0x8000_0000
}

/// The control flag of a segment.
#[derive(Debug, Clone, Copy, PartialEq, Eq, Structural)]
pub enum TcpControl {
    /// No flag.
    Plain,
    Psh,
    Syn,
    Fin,
    Rst,
}

impl TcpControl {
    /// Synchronising and finishing a stream take one sequence number each.
    pub open spec fn spec_len(self) -> nat {
        if self == TcpControl::Syn || self == TcpControl::Fin {
            1
        } else {
            0
        }
    }

    /// The number of sequence numbers that the flag takes.
    pub fn len(&self) -> (r: usize)
        ensures
            r == self.spec_len(),
    {
        match *self {
            TcpControl::Syn | TcpControl::Fin => 1,
            _ => 0,
        }
    }
}

/// The timestamp option of a segment.
#[derive(Debug, Clone, Copy, PartialEq, Eq, Structural)]
pub struct TcpTimestampRepr {
    pub tsval: u32,
    pub tsecr: u32,
}

/// A high-level representation of a TCP segment.
#[derive(Debug, Clone, Copy, PartialEq, Eq)]
pub struct TcpRepr<'a> {
    pub src_port: u16,
    pub dst_port: u16,
    pub control: TcpControl,
    pub seq_number: TcpSeqNumber,
    pub ack_number: Option<TcpSeqNumber>,
    pub window_len: u16,
    pub window_scale: Option<u8>,
    pub max_seg_size: Option<u16>,
    pub sack_permitted: bool,
    pub sack_ranges: [Option<(u32, u32)>; 3],
    pub timestamp: Option<TcpTimestampRepr>,
    pub payload: &'a [u8],
}

/// The octets that an option takes where it is there.
pub open spec fn option_len(there: bool, len: nat) -> nat {
    if there {
        len
    } else {
        0
    }
}

/// The octets that an option takes where it is there.
fn size_if(there: bool, len: usize) -> (r: usize)
    ensures
        r == option_len(there, len as nat),
        r <= len,
{
    if there {
        len
    } else {
        0
    }
}

/// `len` rounded up to whole 32-bit words.
pub open spec fn whole_words(len: nat) -> nat {
    (len + 3) / 4 * 4
}

/// `len` rounded up to whole 32-bit words.
fn round_up(len: usize) -> (r: usize)
    requires
        len <= 65,
    ensures
        r == whole_words(len as nat),
        r <= 68,
{
    (len + 3) / 4 * 4
}

impl<'a> TcpRepr<'a> {
    /// The number of sequence numbers that the segment takes.
    pub open spec fn spec_segment_len(self) -> nat {
        self.payload@.len() + self.control.spec_len()
    }

    /// The number of sequence numbers that the segment takes.
    pub fn segment_len(&self) -> (r: usize)
        requires
            self.spec_segment_len() <= usize::MAX,
        ensures
            r == self.spec_segment_len(),
    {
        self.payload.len() + self.control.len()
    }

    /// Whether the segment takes no sequence number.
    pub fn takes_no_space(&self) -> (r: bool)
        ensures
            r == (self.spec_segment_len() == 0),
    {
        self.payload.len() == 0 && self.control.len() == 0
    }

    /// The number of selective acknowledgements.
    pub open spec fn sack_count(self) -> nat {
        option_len(self.sack_ranges@[0] is Some, 1) + option_len(self.sack_ranges@[1] is Some, 1)
            + option_len(self.sack_ranges@[2] is Some, 1)
    }

    /// The length of the header, with its options, in whole 32-bit words.
    pub open spec fn spec_header_len(self) -> nat {
        whole_words(
            20 + option_len(self.max_seg_size is Some, 4) + option_len(
                self.window_scale is Some,
                3,
            ) + option_len(self.sack_permitted, 2) + option_len(self.timestamp is Some, 10)
                + option_len(self.sack_count() > 0, 2 + 8 * self.sack_count()),
        )
    }

    /// The length of the header, with its options, in whole 32-bit words.
    pub fn header_len(&self) -> (r: usize)
        ensures
            r == self.spec_header_len(),
            r <= 68,
    {
        let sacks: usize = self.sacks();
        let mss: usize = size_if(self.max_seg_size.is_some(), 4);
        let scale: usize = size_if(self.window_scale.is_some(), 3);
        let permitted: usize = size_if(self.sack_permitted, 2);
        let timestamp: usize = size_if(self.timestamp.is_some(), 10);
        let ranges: usize = size_if(sacks > 0, 2 + 8 * sacks);
        round_up(20 + mss + scale + permitted + timestamp + ranges)
    }

    /// The number of selective acknowledgements.
    fn sacks(&self) -> (r: usize)
        ensures
            r == self.sack_count(),
            r <= 3,
    {
        size_if(self.sack_ranges[0].is_some(), 1) + size_if(self.sack_ranges[1].is_some(), 1)
            + size_if(self.sack_ranges[2].is_some(), 1)
    }

    /// The length of the header and the payload.
    pub fn buffer_len(&self) -> (r: usize)
        requires
            self.spec_header_len() + self.payload@.len() <= usize::MAX,
        ensures
            r == self.spec_header_len() + self.payload@.len(),
    {
        self.header_len() + self.payload.len()
    }
}

} // verus!

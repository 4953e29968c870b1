//! A single-shot probe: one echo sent, its reply classified.

use crate::echo::{echo_request, encode, payload_of, DATA_START, IDENTIFIER, RESPONSE_SIZE, SIZE};
use vstd::prelude::*;

verus! {

/// `std::io::ErrorKind`: the kind of an I/O error, passed on as it came.
#[verifier::external_type_specification]
#[verifier::external_body]
pub struct ExErrorKind(std::io::ErrorKind);

/// How many leading bytes of the echo data must come back for an endpoint
/// that shortens its replies to count as usable: a quarter of the data.
pub const QUARTER: usize = 16;

/// What came of one echo.
#[derive(Clone, Copy, Debug)]
pub struct PingResponse {
    /// Milliseconds between sending the echo and receiving its reply
    pub round_trip: usize,
    /// The reply had the wrong length, or its data differed from what was sent
    pub corrupt: bool,
    /// Only the start of the data came back
    pub small: bool,
    /// The reply as received
    pub data: [u8; 92],
}

/// A classified reply, or the kind of the I/O error that kept it away.
pub type PingResult = Result<PingResponse, std::io::ErrorKind>;

/// What the socket reported of one echo.
#[derive(Clone, Copy, Debug)]
pub enum Exchange {
    /// The echo could not be sent.
    SendFailed(std::io::ErrorKind),
    /// The echo was sent, and receiving the reply failed.
    ReceiveFailed(std::io::ErrorKind),
    /// The echo was sent, and `size` bytes were received into `response`
    /// after `round_trip` milliseconds.
    Replied { size: usize, response: [u8; 92], round_trip: usize },
}

/// Sends echoes that carry `data`, numbered by `seq`, low byte first.
#[derive(Clone, Copy, Debug)]
pub struct Pinger {
    pub data: [u8; 64],
    pub seq: [u8; 2],
}

/// The sequence number that follows `seq`: one more, and 1 after `0xFFFF`, so
/// that it is never 0.
pub open spec fn next_seq(seq: int) -> int {
    if seq >= 0xFFFF {
        1
    } else {
        seq + 1
    }
}

/// The reply carries exactly the data that was sent.
pub open spec fn echoed(response: Seq<u8>, data: Seq<u8>) -> bool {
    payload_of(response) == data
}

/// The reply does not carry the data that was sent, but its first quarter.
pub open spec fn echoed_start(response: Seq<u8>, data: Seq<u8>) -> bool {
    !echoed(response, data) && payload_of(response).subrange(0, QUARTER as int) == data.subrange(
        0,
        QUARTER as int,
    )
}

/// A reply is corrupt where it has not the full length, or where its data is
/// neither what was sent nor starts like it.
pub open spec fn is_corrupt(response: Seq<u8>, size: int, data: Seq<u8>) -> bool {
    size != RESPONSE_SIZE || (!echoed(response, data) && !echoed_start(response, data))
}

impl PingResponse {
    /// A response that has not been found wanting yet.
    pub fn new(data: [u8; 92], round_trip: usize) -> (response: Self)
        ensures
            response == (PingResponse { round_trip, corrupt: false, small: false, data }),
    {
        Self { round_trip, corrupt: false, small: false, data }
    }
}

impl Default for PingResponse {
    fn default() -> (response: Self)
        ensures
            response.round_trip == 0,
            !response.corrupt,
            !response.small,
            response.data@ == Seq::new(RESPONSE_SIZE as nat, |i: int| 0u8),
    {
        let response = Self::new([0; 92], 0);
        assert(response.data@ == Seq::new(RESPONSE_SIZE as nat, |i: int| 0u8));
        response
    }
}

impl Pinger {
    /// The sequence number of the next echo. `seq` holds its low byte first.
    pub open spec fn sequence(&self) -> int {
        self.seq@[0] as int + 256 * self.seq@[1] as int
    }

    /// What `ping` makes of a reply of `size` bytes received into `response`.
    pub open spec fn classified(&self, response: [u8; 92], size: usize, round_trip: usize)
        -> PingResponse {
        PingResponse {
            round_trip,
            corrupt: is_corrupt(response@, size as int, self.data@),
            small: echoed_start(response@, self.data@),
            data: response,
        }
    }

    /// A pinger that sends zeroes, starting with sequence number 1.
    pub fn new() -> (pinger: Self)
        ensures
            pinger.data@ == Seq::new(SIZE as nat, |i: int| 0u8),
            pinger.seq@ == seq![1u8, 0u8],
            pinger.sequence() == 1,
    {
        let pinger = Self { data: [0; 64], seq: [1, 0] };
        assert(pinger.data@ == Seq::new(SIZE as nat, |i: int| 0u8));
        assert(pinger.seq@ == seq![1u8, 0u8]);
        pinger
    }

    /// The same pinger, sending `data`.
    pub fn data(self, data: [u8; 64]) -> (pinger: Self)
        ensures
            pinger.data == data,
            pinger.seq == self.seq,
    {
        Self { data, seq: self.seq }
    }

    /// The echo request that `ping` expects to have been sent: identifier
    /// `0xDEAD`, the current sequence number, and the pinger's data.
    pub fn packet(&self) -> (packet: Vec<u8>)
        ensures
            packet@ == echo_request(IDENTIFIER, self.sequence() as u16, self.data@),
    {
        let sequence: u16 = self.seq[0] as u16 + 256 * (self.seq[1] as u16);
        encode(IDENTIFIER, sequence, &self.data)
    }

    /// Account for one echo: the caller has sent `packet()` to the
    /// destination and, where that went well, waited for the reply.
    ///
    /// A failed send is returned as it is and leaves the pinger untouched.
    /// After a send the sequence number advances. A failed receive is returned
    /// as it is; a reply is classified against the data that was sent.
    pub fn ping(&mut self, exchange: Exchange) -> (result: PingResult)
        ensures
            final(self).data == old(self).data,
            match exchange {
                Exchange::SendFailed(kind) => {
                    &&& result == Err::<PingResponse, std::io::ErrorKind>(kind)
                    &&& final(self).seq == old(self).seq
                },
                Exchange::ReceiveFailed(kind) => {
                    &&& result == Err::<PingResponse, std::io::ErrorKind>(kind)
                    &&& final(self).sequence() == next_seq(old(self).sequence())
                },
                Exchange::Replied { size, response, round_trip } => {
                    &&& result == Ok::<PingResponse, std::io::ErrorKind>(
                        old(self).classified(response, size, round_trip),
                    )
                    &&& final(self).sequence() == next_seq(old(self).sequence())
                },
            },
    {
        match exchange {
            Exchange::SendFailed(kind) => Err(kind),
            Exchange::ReceiveFailed(kind) => {
                self.inc_seq();
                Err(kind)
            },
            Exchange::Replied { size, response, round_trip } => {
                self.inc_seq();
                Ok(self.classify(response, size, round_trip))
            },
        }
    }

    /// Classify a reply of `size` bytes received into `response`.
    pub fn classify(&self, response: [u8; 92], size: usize, round_trip: usize) -> (result:
        PingResponse)
        ensures
            result == self.classified(response, size, round_trip),
    {
        let mut result = PingResponse::new(response, round_trip);
        if size != RESPONSE_SIZE {
            result.corrupt = true;
        }
        let same = self.matches(&response, SIZE);
        if !same {
            if self.matches(&response, QUARTER) {
                result.small = true;
            } else {
                result.corrupt = true;
            }
        }
        proof {
            let payload = payload_of(response@);
            assert(payload.subrange(0, SIZE as int) == payload);
            assert(self.data@.subrange(0, SIZE as int) == self.data@);
            if same {
                assert(payload.subrange(0, QUARTER as int) == self.data@.subrange(
                    0,
                    QUARTER as int,
                ));
            }
        }
        result
    }

    /// Whether the first `len` bytes of the reply's data are those that were
    /// sent.
    fn matches(&self, response: &[u8; 92], len: usize) -> (same: bool)
        requires
            len <= SIZE,
        ensures
            same == (payload_of(response@).subrange(0, len as int) == self.data@.subrange(
                0,
                len as int,
            )),
    {
        let mut i: usize = 0;
        while i < len
            invariant
                i <= len <= SIZE,
                forall|j: int| 0 <= j < i ==> response@[DATA_START + j] == self.data@[j],
            decreases len - i,
        {
            if response[DATA_START + i] != self.data[i] {
                assert(payload_of(response@).subrange(0, len as int)[i as int]
                    != self.data@.subrange(0, len as int)[i as int]);
                return false;
            }
            i += 1;
        }
        assert(payload_of(response@).subrange(0, len as int) == self.data@.subrange(
            0,
            len as int,
        ));
        true
    }

    /// Advance the sequence number, skipping 0 when it wraps.
    pub fn inc_seq(&mut self)
        ensures
            final(self).sequence() == next_seq(old(self).sequence()),
            final(self).sequence() != 0,
            final(self).data == old(self).data,
    {
        let low = self.seq[0];
        let high = self.seq[1];
        if low < 0xFF {
            self.seq = [low + 1, high];
        } else if high < 0xFF {
            self.seq = [0, high + 1];
        } else {
            self.seq = [1, 0];
        }
    }
}

impl Default for Pinger {
    fn default() -> (pinger: Self)
        ensures
            pinger.data@ == Seq::new(SIZE as nat, |i: int| 0u8),
            pinger.sequence() == 1,
    {
        Self::new()
    }
}

} // verus!

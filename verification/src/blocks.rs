//! The block engine: replica groups of echo endpoints presented as a linear
//! device of 64-byte blocks.
//!
//! A block is written by sending one echo request that carries it to every
//! endpoint of its group, and read by receiving the replies. The engine plans
//! which packets go to which group and makes a block of the replies; the
//! caller owns the sockets.

use crate::addr::Ipv4;
use crate::echo::{
    echo_request, echoes, encode, lemma_echo_keeps, payload_of, response_payload, same_data,
    IDENTIFIER, SIZE,
};
use crate::scanner::Destination;
use crate::store::IPStore;
use vstd::prelude::*;

verus! {

/// Endpoints in one replica group.
pub const REPLICAS: usize = 7;

/// The sequence number of every echo that the store sends.
pub const STORE_SEQUENCE: u16 = 1;

/// What fills the part of a block that a write does not cover.
pub const PAD: u8 = 0;

/// Why the store turned a request down.
#[derive(Clone, Copy, Debug, PartialEq, Eq, Structural)]
pub enum StoreError {
    /// The request reaches beyond the device, or starts at its end.
    OutOfRange,
    /// The caller did not hand over one reply for each replica, or one block
    /// for each block of the range.
    Incomplete,
}

/// The blocks that a byte range touches.
#[derive(Clone, Copy, Debug, PartialEq, Eq, Structural)]
pub struct Span {
    /// Index of the first block
    pub first: usize,
    /// Number of consecutive blocks
    pub count: usize,
    /// Bytes of the first block that lie before the range
    pub lead: usize,
}

/// How the first reply stands among the replies for one block.
#[derive(Clone, Copy, Debug, PartialEq, Eq, Structural)]
pub enum Standing {
    /// More than half of the replies are the same as the first.
    Majority,
    /// Some later reply is the same as the first, but not more than half of
    /// all are.
    Minority,
    /// No later reply is the same as the first, and the others outnumber it.
    FirstOnly,
}

/// The outcome of the vote among the replies for one block.
#[derive(Debug)]
pub struct Vote {
    /// The block as read
    pub good: [u8; 64],
    /// The replicas whose reply disagrees with it, in ascending order
    pub suspects: Vec<usize>,
    /// How many replies stand behind the block
    pub standing: Standing,
}

/// A replica group: the endpoints that hold copies of one block.
#[derive(Debug)]
pub struct Ping {
    ips: Vec<Ipv4>,
}

/// The block device: one replica group for each block.
#[derive(Debug)]
pub struct PingStore {
    pings: Vec<Ping>,
}

/// The addresses of the destinations that can hold a whole block, in catalog
/// order: those that do not shorten the echo data.
pub open spec fn usable(dsts: Seq<Destination>) -> Seq<Ipv4>
    decreases dsts.len(),
{
    if dsts.len() == 0 {
        seq![]
    } else if dsts.last().small {
        usable(dsts.drop_last())
    } else {
        usable(dsts.drop_last()).push(dsts.last().ip)
    }
}

/// Consecutive groups of `REPLICAS` addresses; what is left over at the end
/// belongs to no group.
pub open spec fn grouped(ips: Seq<Ipv4>) -> Seq<Seq<Ipv4>> {
    Seq::new(
        ips.len() / REPLICAS as nat,
        |g: int| ips.subrange(g * REPLICAS, g * REPLICAS + REPLICAS),
    )
}

/// The block that holds the byte at offset `off`.
pub open spec fn first_block(off: u64) -> int {
    off as int / SIZE as int
}

/// How far into its block the byte at offset `off` lies.
pub open spec fn lead(off: u64) -> int {
    off as int % SIZE as int
}

/// How many blocks the `len` bytes from offset `off` on touch.
pub open spec fn block_count(len: nat, off: u64) -> int {
    if len == 0 {
        0
    } else {
        (off + len + SIZE - 1) / SIZE as int - off as int / SIZE as int
    }
}

/// The `k`-th block that a write of `buf` sends, where `buf` starts `lead`
/// bytes into the first block: the bytes of `buf` that fall into the block,
/// each at its place, with `PAD` elsewhere.
pub open spec fn block_payload(buf: Seq<u8>, lead: int, k: int) -> Seq<u8> {
    Seq::new(
        SIZE as nat,
        |j: int|
            {
                let p = k * SIZE + j - lead;
                if 0 <= p < buf.len() {
                    buf[p]
                } else {
                    PAD
                }
            },
    )
}

/// The packets that a write of `buf` at offset `off` sends, one for each
/// block it touches, in the order of the blocks.
pub open spec fn written(buf: Seq<u8>, off: u64) -> Seq<Seq<u8>> {
    Seq::new(
        block_count(buf.len(), off) as nat,
        |k: int| echo_request(IDENTIFIER, STORE_SEQUENCE, block_payload(buf, lead(off), k)),
    )
}

/// The echo data of each reply.
pub open spec fn payloads_of(replies: Seq<[u8; 92]>) -> Seq<Seq<u8>> {
    Seq::new(replies.len(), |r: int| payload_of(replies[r]@))
}

/// The bytes of each payload.
pub open spec fn bytes_of(payloads: Seq<[u8; 64]>) -> Seq<Seq<u8>> {
    Seq::new(payloads.len(), |r: int| payloads[r]@)
}

/// The `len` bytes that start `lead` bytes into the first of `blocks`, read
/// across the blocks one after the other.
pub open spec fn carved(blocks: Seq<[u8; 64]>, lead: int, len: nat) -> Seq<u8> {
    Seq::new(len, |p: int| blocks[(lead + p) / SIZE as int]@[(lead + p) % SIZE as int])
}

/// The places in `payloads` that do not hold `good`, in ascending order.
pub open spec fn differing(payloads: Seq<Seq<u8>>, good: Seq<u8>) -> Seq<usize>
    decreases payloads.len(),
{
    if payloads.len() == 0 {
        seq![]
    } else if payloads.last() == good {
        differing(payloads.drop_last(), good)
    } else {
        differing(payloads.drop_last(), good).push((payloads.len() - 1) as usize)
    }
}

/// How the first of `replies` replies stands when `suspects` of them differ
/// from it.
pub open spec fn standing_of(replies: nat, suspects: nat) -> Standing {
    let agreeing = replies - suspects;
    if 2 * agreeing > replies {
        Standing::Majority
    } else if agreeing <= 1 {
        Standing::FirstOnly
    } else {
        Standing::Minority
    }
}

/// Choose among the payloads that the replicas of one block sent back.
///
/// The first payload is taken as good. Each later payload that differs from
/// what is good and equals the first makes the first good again. So the first
/// reply always wins, whatever the others say; those that differ from it are
/// reported as suspects. Without any payload there is no vote.
pub fn vote(payloads: &Vec<[u8; 64]>) -> (outcome: Option<Vote>)
    ensures
        payloads.len() == 0 <==> outcome is None,
        outcome matches Some(v) ==> {
            &&& v.good@ == payloads[0]@
            &&& v.suspects@ == differing(bytes_of(payloads@), payloads[0]@)
            &&& v.standing == standing_of(payloads@.len(), v.suspects@.len())
        },
{
    if payloads.len() == 0 {
        return None;
    }
    let first = payloads[0];
    let mut good = payloads[0];
    let mut i: usize = 1;
    while i < payloads.len()
        invariant
            1 <= i <= payloads.len(),
            first == payloads[0],
            good == first,
        decreases payloads.len() - i,
    {
        if !same_data(&payloads[i], &good) && same_data(&payloads[i], &first) {
            good = first;
        }
        i += 1;
    }
    let ghost views = bytes_of(payloads@);
    let mut suspects: Vec<usize> = Vec::new();
    let mut r: usize = 0;
    while r < payloads.len()
        invariant
            r <= payloads.len(),
            views == bytes_of(payloads@),
            suspects@ == differing(views.subrange(0, r as int), good@),
            suspects@.len() <= r,
        decreases payloads.len() - r,
    {
        proof {
            let next = views.subrange(0, r + 1);
            assert(next.drop_last() == views.subrange(0, r as int));
            assert(next.last() == payloads[r as int]@);
        }
        if !same_data(&good, &payloads[r]) {
            suspects.push(r);
        }
        r += 1;
    }
    assert(views.subrange(0, payloads.len() as int) == views);
    let agreeing = payloads.len() - suspects.len();
    let standing = if agreeing > payloads.len() - agreeing {
        Standing::Majority
    } else if agreeing <= 1 {
        Standing::FirstOnly
    } else {
        Standing::Minority
    };
    Some(Vote { good, suspects, standing })
}

impl View for Ping {
    type V = Seq<Ipv4>;

    /// The endpoints of the group, in the order in which they were added.
    closed spec fn view(&self) -> Seq<Ipv4> {
        self.ips@
    }
}

impl Ping {
    /// A group without endpoints.
    pub fn new() -> (ping: Self)
        ensures
            ping@ == Seq::<Ipv4>::empty(),
    {
        Self { ips: Vec::new() }
    }

    /// Add an endpoint to the group.
    pub fn add(&mut self, ip: Ipv4)
        ensures
            final(self)@ == old(self)@.push(ip),
    {
        self.ips.push(ip);
    }

    /// The number of endpoints in the group.
    pub fn copies(&self) -> (copies: usize)
        ensures
            copies == self@.len(),
    {
        self.ips.len()
    }

    /// The `i`-th endpoint of the group.
    pub fn ip(&self, i: usize) -> (ip: Option<Ipv4>)
        ensures
            ip == if i < self@.len() {
                Some(self@[i as int])
            } else {
                None
            },
    {
        if i < self.ips.len() {
            Some(self.ips[i])
        } else {
            None
        }
    }
}

impl PingStore {
    #[verifier::type_invariant]
    spec fn well_formed(self) -> bool {
        &&& self.pings@.len() * SIZE <= u64::MAX
        &&& forall|g: int| 0 <= g < self.pings@.len() ==> (#[trigger] self.pings@[g])@.len() == REPLICAS
    }

    /// The replica groups, each with its endpoints. Block `g` is held by
    /// group `g`.
    pub closed spec fn groups(&self) -> Seq<Seq<Ipv4>> {
        Seq::new(self.pings@.len(), |g: int| self.pings@[g]@)
    }

    /// The size of the device in bytes: one block for each group.
    pub open spec fn spec_size(&self) -> int {
        SIZE * self.groups().len()
    }

    /// Whether the device holds the `len` bytes from offset `off` on. A range
    /// that starts at the end of the device is not held, even if it is empty.
    pub open spec fn in_range(&self, len: nat, off: u64) -> bool {
        off < self.spec_size() && off + len <= self.spec_size()
    }

    /// A store without any group.
    pub fn new() -> (store: Self)
        ensures
            store.groups() == Seq::<Seq<Ipv4>>::empty(),
    {
        let store = Self { pings: Vec::new() };
        assert(store.groups() == Seq::<Seq<Ipv4>>::empty());
        store
    }

    /// Form the replica groups of a catalog: its usable destinations in
    /// catalog order, `REPLICAS` to a group. Destinations that are left over
    /// belong to no group.
    pub fn load_clients(catalog: &IPStore) -> (store: Self)
        requires
            catalog.dsts@.len() / REPLICAS as nat * SIZE <= u64::MAX,
        ensures
            store.groups() == grouped(usable(catalog.dsts@)),
    {
        let mut ips: Vec<Ipv4> = Vec::new();
        let mut i: usize = 0;
        while i < catalog.dsts.len()
            invariant
                i <= catalog.dsts.len(),
                ips@ == usable(catalog.dsts@.subrange(0, i as int)),
                ips@.len() <= i,
            decreases catalog.dsts.len() - i,
        {
            proof {
                let next = catalog.dsts@.subrange(0, i + 1);
                assert(next.drop_last() == catalog.dsts@.subrange(0, i as int));
                assert(next.last() == catalog.dsts@[i as int]);
            }
            if !catalog.dsts[i].small {
                ips.push(catalog.dsts[i].ip);
            }
            i += 1;
        }
        assert(catalog.dsts@.subrange(0, catalog.dsts.len() as int) == catalog.dsts@);
        let count = ips.len() / REPLICAS;
        let mut pings: Vec<Ping> = Vec::new();
        let mut g: usize = 0;
        while g < count
            invariant
                g <= count,
                count == ips@.len() / REPLICAS as nat,
                count * REPLICAS <= ips@.len() <= usize::MAX,
                pings@.len() == g,
                forall|h: int| 0 <= h < g ==> (#[trigger] pings@[h])@ == ips@.subrange(
                    h * REPLICAS,
                    h * REPLICAS + REPLICAS,
                ),
            decreases count - g,
        {
            let mut ping = Ping::new();
            let mut j: usize = 0;
            while j < REPLICAS
                invariant
                    j <= REPLICAS,
                    g * REPLICAS + REPLICAS <= ips@.len() <= usize::MAX,
                    ping@ == ips@.subrange(g * REPLICAS, g * REPLICAS + j),
                decreases REPLICAS - j,
            {
                ping.add(ips[g * REPLICAS + j]);
                j += 1;
            }
            pings.push(ping);
            g += 1;
        }
        let store = Self { pings };
        assert(store.groups() == grouped(usable(catalog.dsts@)));
        store
    }

    /// The number of replica groups, which is the number of blocks.
    pub fn len(&self) -> (len: usize)
        ensures
            len == self.groups().len(),
    {
        self.pings.len()
    }

    /// The replica group that holds block `addr`.
    pub fn group(&self, addr: usize) -> (group: Option<&Ping>)
        ensures
            match group {
                Some(ping) => addr < self.groups().len() && ping@ == self.groups()[addr as int]
                    && ping@.len() == REPLICAS,
                None => addr >= self.groups().len(),
            },
    {
        proof {
            use_type_invariant(self);
        }
        if addr < self.pings.len() {
            Some(&self.pings[addr])
        } else {
            None
        }
    }

    /// The size of the device in bytes.
    pub fn size(&self) -> (size: u64)
        ensures
            size == self.spec_size(),
            size == SIZE * self.groups().len(),
    {
        proof {
            use_type_invariant(self);
        }
        self.pings.len() as u64 * SIZE as u64
    }

    /// How many of the `len` bytes from offset `off` on the device holds:
    /// all of them, or as many as lie before its end.
    pub fn within(&self, len: usize, off: u64) -> (held: usize)
        ensures
            held == if off >= self.spec_size() {
                0
            } else if off + len <= self.spec_size() {
                len as int
            } else {
                self.spec_size() - off
            },
            held > 0 ==> self.in_range(held as nat, off),
    {
        let size = self.size();
        if off >= size {
            0
        } else if len as u64 <= size - off {
            len
        } else {
            (size - off) as usize
        }
    }

    /// Nothing is held back, so there is nothing to flush.
    pub fn flush(&self) -> (done: Result<(), StoreError>)
        ensures
            done is Ok,
    {
        Ok(())
    }

    /// The blocks that the `len` bytes from offset `off` on touch, if the
    /// device holds them.
    pub fn span(&self, len: usize, off: u64) -> (span: Result<Span, StoreError>)
        ensures
            match span {
                Ok(s) => {
                    &&& self.in_range(len as nat, off)
                    &&& s.first == first_block(off)
                    &&& s.count == block_count(len as nat, off)
                    &&& s.lead == lead(off)
                    &&& s.first + s.count <= self.groups().len()
                },
                Err(e) => e == StoreError::OutOfRange && !self.in_range(len as nat, off),
            },
    {
        let size = self.size();
        if off >= size || len as u64 > size - off {
            return Err(StoreError::OutOfRange);
        }
        let groups = self.len();
        let first = off / SIZE as u64;
        let end = off + len as u64;
        let past = if end % SIZE as u64 == 0 {
            end / SIZE as u64
        } else {
            end / SIZE as u64 + 1
        };
        let count = if len == 0 {
            0
        } else {
            past - first
        };
        Ok(Span { first: first as usize, count: count as usize, lead: (off % SIZE as u64) as usize })
    }

    /// Make block `addr` of the replies that its replicas sent: one received
    /// echo for each replica of the group, in the order of the group.
    pub fn read(&self, addr: usize, replies: &Vec<[u8; 92]>) -> (block: Result<Vote, StoreError>)
        ensures
            match block {
                Ok(v) => {
                    &&& addr < self.groups().len()
                    &&& replies.len() == REPLICAS
                    &&& v.good@ == payload_of(replies[0]@)
                    &&& v.suspects@ == differing(payloads_of(replies@), v.good@)
                    &&& v.standing == standing_of(REPLICAS as nat, v.suspects@.len())
                },
                Err(e) => if addr >= self.groups().len() {
                    e == StoreError::OutOfRange
                } else {
                    e == StoreError::Incomplete && replies.len() != REPLICAS
                },
            },
    {
        if addr >= self.pings.len() {
            return Err(StoreError::OutOfRange);
        }
        if replies.len() != REPLICAS {
            return Err(StoreError::Incomplete);
        }
        let mut datas: Vec<[u8; 64]> = Vec::new();
        let mut r: usize = 0;
        while r < REPLICAS
            invariant
                r <= REPLICAS,
                replies.len() == REPLICAS,
                datas@.len() == r,
                forall|q: int| 0 <= q < r ==> (#[trigger] datas@[q])@ == payload_of(replies@[q]@),
            decreases REPLICAS - r,
        {
            datas.push(response_payload(&replies[r]));
            r += 1;
        }
        assert(bytes_of(datas@) == payloads_of(replies@));
        match vote(&datas) {
            Some(v) => Ok(v),
            None => Err(StoreError::Incomplete),
        }
    }

    /// Fill `buf` with the bytes from offset `off` on, out of the blocks that
    /// the range touches: `blocks` holds them in their order, each as `read`
    /// made it. What lies before the range in the first block is left out.
    pub fn read_at(&self, buf: &mut [u8], off: u64, blocks: &Vec<[u8; 64]>) -> (done: Result<
        (),
        StoreError,
    >)
        ensures
            final(buf)@.len() == old(buf)@.len(),
            match done {
                Ok(_) => {
                    &&& self.in_range(old(buf)@.len(), off)
                    &&& blocks.len() == block_count(old(buf)@.len(), off)
                    &&& final(buf)@ == carved(blocks@, lead(off), old(buf)@.len())
                },
                Err(e) => {
                    &&& final(buf)@ == old(buf)@
                    &&& if !self.in_range(old(buf)@.len(), off) {
                        e == StoreError::OutOfRange
                    } else {
                        e == StoreError::Incomplete && blocks.len() != block_count(
                            old(buf)@.len(),
                            off,
                        )
                    }
                },
            },
    {
        let len = buf.len();
        let span = match self.span(len, off) {
            Ok(span) => span,
            Err(e) => {
                return Err(e);
            },
        };
        if blocks.len() != span.count {
            return Err(StoreError::Incomplete);
        }
        proof {
            use_type_invariant(self);
        }
        let mut p: usize = 0;
        while p < len
            invariant
                p <= len,
                len == buf@.len(),
                span.lead < SIZE,
                span.lead + len <= u64::MAX,
                len > 0 ==> blocks.len() * SIZE >= span.lead + len,
                forall|q: int|
                    0 <= q < p ==> buf@[q] == carved(blocks@, span.lead as int, len as nat)[q],
            decreases len - p,
        {
            let at: u64 = span.lead as u64 + p as u64;
            assert(at / 64 < blocks.len());
            let k = (at / SIZE as u64) as usize;
            let j = (at % SIZE as u64) as usize;
            buf[p] = blocks[k][j];
            p += 1;
        }
        assert(buf@ == carved(blocks@, lead(off), len as nat));
        Ok(())
    }

    /// The packet that writes `data` to block `addr`: the caller sends it to
    /// every replica of the group, in the order of the group.
    pub fn ping(&self, addr: usize, data: &[u8; 64]) -> (packet: Result<Vec<u8>, StoreError>)
        ensures
            match packet {
                Ok(bytes) => addr < self.groups().len() && bytes@ == echo_request(
                    IDENTIFIER,
                    STORE_SEQUENCE,
                    data@,
                ),
                Err(e) => e == StoreError::OutOfRange && addr >= self.groups().len(),
            },
    {
        if addr >= self.pings.len() {
            return Err(StoreError::OutOfRange);
        }
        Ok(encode(IDENTIFIER, STORE_SEQUENCE, data))
    }

    /// The packets that write `buf` at offset `off`, one for each block that
    /// the range touches: the `k`-th is for block `first_block(off) + k`.
    pub fn write_at(&self, buf: &[u8], off: u64) -> (packets: Result<Vec<Vec<u8>>, StoreError>)
        ensures
            match packets {
                Ok(list) => {
                    &&& self.in_range(buf@.len(), off)
                    &&& list@.len() == block_count(buf@.len(), off)
                    &&& forall|k: int|
                        0 <= k < list@.len() ==> (#[trigger] list@[k])@ == written(buf@, off)[k]
                },
                Err(e) => e == StoreError::OutOfRange && !self.in_range(buf@.len(), off),
            },
    {
        let len = buf.len();
        let span = match self.span(len, off) {
            Ok(span) => span,
            Err(e) => {
                return Err(e);
            },
        };
        let groups = self.len();
        let mut packets: Vec<Vec<u8>> = Vec::new();
        let mut p: usize = 0;
        let mut k: usize = 0;
        while k < span.count
            invariant
                k <= span.count,
                len == buf@.len(),
                span.lead == lead(off),
                span.count == block_count(len as nat, off),
                span.first + span.count <= self.groups().len(),
                span.first + span.count <= usize::MAX,
                p <= len,
                k < span.count ==> p == if k == 0 {
                    0
                } else {
                    k * SIZE - span.lead
                },
                packets@.len() == k,
                forall|h: int| 0 <= h < k ==> (#[trigger] packets@[h])@ == written(buf@, off)[h],
            decreases span.count - k,
        {
            let mut data: [u8; 64] = [PAD; 64];
            let mut j: usize = if k == 0 {
                span.lead
            } else {
                0
            };
            while j < SIZE && p < len
                invariant
                    j <= SIZE,
                    p <= len,
                    len == buf@.len(),
                    span.lead < SIZE,
                    p == k * SIZE + j - span.lead,
                    forall|i: int|
                        0 <= i < SIZE ==> data@[i] == if i < j {
                            block_payload(buf@, span.lead as int, k as int)[i]
                        } else {
                            PAD
                        },
                decreases SIZE - j,
            {
                data[j] = buf[p];
                j += 1;
                p += 1;
            }
            assert(data@ == block_payload(buf@, span.lead as int, k as int));
            let addr = span.first + k;
            match self.ping(addr, &data) {
                Ok(packet) => {
                    packets.push(packet);
                },
                Err(e) => {
                    return Err(e);
                },
            }
            k += 1;
        }
        Ok(packets)
    }
}

/// A usable destination adds one address, a shortening one adds none: there
/// are no more usable addresses than destinations, and as many where no
/// destination shortens.
pub proof fn lemma_usable_len(dsts: Seq<Destination>)
    ensures
        usable(dsts).len() <= dsts.len(),
        (forall|i: int| 0 <= i < dsts.len() ==> !dsts[i].small) ==> usable(dsts).len()
            == dsts.len(),
    decreases dsts.len(),
{
    if dsts.len() > 0 {
        lemma_usable_len(dsts.drop_last());
        if forall|i: int| 0 <= i < dsts.len() ==> !dsts[i].small {
            assert forall|i: int| 0 <= i < dsts.drop_last().len() implies !dsts.drop_last()[i].small by {
                assert(dsts.drop_last()[i] == dsts[i]);
            }
        }
    }
}

/// The device built of a catalog has one block of `SIZE` bytes for every
/// `REPLICAS` usable destinations, each group holds `REPLICAS` endpoints,
/// and group `g` holds the usable destinations from place `g * REPLICAS` on.
/// A catalog in which no destination shortens gives
/// `dsts.len() / REPLICAS` groups.
pub proof fn lemma_groups_of_catalog(dsts: Seq<Destination>)
    ensures
        grouped(usable(dsts)).len() == usable(dsts).len() / REPLICAS as nat,
        grouped(usable(dsts)).len() * REPLICAS <= dsts.len(),
        forall|g: int|
            0 <= g < grouped(usable(dsts)).len() ==> (#[trigger] grouped(usable(dsts))[g]).len()
                == REPLICAS,
        forall|g: int, j: int|
            0 <= g < grouped(usable(dsts)).len() && 0 <= j < REPLICAS ==> #[trigger] grouped(
                usable(dsts),
            )[g][j] == usable(dsts)[g * REPLICAS + j],
        (forall|i: int| 0 <= i < dsts.len() ==> !dsts[i].small) ==> grouped(usable(dsts)).len()
            == dsts.len() / REPLICAS as nat,
{
    lemma_usable_len(dsts);
}

/// Where no address occurs twice among the usable destinations of a catalog,
/// the endpoints of each replica group are distinct.
pub proof fn lemma_groups_distinct(dsts: Seq<Destination>, g: int)
    requires
        usable(dsts).no_duplicates(),
        0 <= g < grouped(usable(dsts)).len(),
    ensures
        grouped(usable(dsts))[g].no_duplicates(),
{
    let ips = usable(dsts);
    let group = grouped(ips)[g];
    assert forall|i: int, j: int| 0 <= i < group.len() && 0 <= j < group.len() && i != j implies group[i]
        != group[j] by {
        assert(group[i] == ips[g * REPLICAS + i]);
        assert(group[j] == ips[g * REPLICAS + j]);
    }
}

/// A catalog with fewer than `REPLICAS` destinations gives a device without
/// blocks: it has no group, so its size is 0 however a group is weighed, and
/// it holds no byte range at all, not even an empty one at offset 0.
pub proof fn lemma_short_catalog(store: PingStore, dsts: Seq<Destination>, len: nat, off: u64)
    requires
        store.groups() == grouped(usable(dsts)),
        dsts.len() < REPLICAS,
    ensures
        store.groups().len() == 0,
        store.spec_size() == 0,
        store.spec_size() == REPLICAS * SIZE * store.groups().len(),
        !store.in_range(len, off),
{
    lemma_usable_len(dsts);
}

/// A byte range touches exactly the blocks that hold one of its bytes: the
/// `block_count` blocks from `first_block` on, and no others.
pub proof fn lemma_span_exact(len: nat, off: u64, block: int)
    requires
        off + len <= u64::MAX,
    ensures
        first_block(off) <= block < first_block(off) + block_count(len, off) <==> exists|at: int|
            off <= at < off + len && #[trigger] (at / SIZE as int) == block,
{
    let first = first_block(off);
    let count = block_count(len, off);
    if first <= block < first + count {
        let at = if block == first {
            off as int
        } else {
            block * SIZE
        };
        assert(off <= at < off + len && at / SIZE as int == block);
    }
}

/// What is written is read back. Let `buf` be written at `off`, let every
/// replica of every block that the range touches answer the packet that it was
/// sent, and let each block be read as the vote of its replies makes it. Then a
/// read of as many bytes at `off` yields `buf`.
pub proof fn lemma_write_then_read(
    buf: Seq<u8>,
    off: u64,
    replies: Seq<Seq<[u8; 92]>>,
    blocks: Seq<[u8; 64]>,
)
    requires
        replies.len() == block_count(buf.len(), off),
        blocks.len() == block_count(buf.len(), off),
        forall|k: int, r: int|
            0 <= k < replies.len() && 0 <= r < replies[k].len() ==> echoes(
                #[trigger] replies[k][r]@,
                written(buf, off)[k],
            ),
        forall|k: int|
            0 <= k < blocks.len() ==> replies[k].len() == REPLICAS && (#[trigger] blocks[k])@
                == payload_of(replies[k][0]@),
    ensures
        carved(blocks, lead(off), buf.len()) == buf,
{
    let lead = lead(off);
    let back = carved(blocks, lead, buf.len());
    assert forall|p: int| 0 <= p < buf.len() implies back[p] == buf[p] by {
        let k = (lead + p) / SIZE as int;
        let j = (lead + p) % SIZE as int;
        assert(0 <= k < block_count(buf.len(), off));
        let sent = block_payload(buf, lead, k);
        assert(blocks[k]@ == payload_of(replies[k][0]@));
        assert(echoes(replies[k][0]@, written(buf, off)[k]));
        lemma_echo_keeps(replies[k][0]@, IDENTIFIER, STORE_SEQUENCE, sent);
        assert(sent[j] == buf[k * SIZE + j - lead]);
    }
}

impl Default for PingStore {
    fn default() -> (store: Self)
        ensures
            store.groups() == Seq::<Seq<Ipv4>>::empty(),
    {
        Self::new()
    }
}

} // verus!

//! IPv4 addresses, and the choice of random ones that the public Internet
//! routes.

use vstd::prelude::*;

verus! {

/// An IPv4 address, held as its 32 bits in network order: `a.b.c.d` is
/// `a * 2^24 + b * 2^16 + c * 2^8 + d`.
#[derive(Clone, Copy, Debug, PartialEq, Eq, Hash, Structural)]
pub struct Ipv4 {
    pub bits: u32,
}

impl Ipv4 {
    /// The first octet of the address.
    pub open spec fn a(self) -> int {
        self.bits as int / 0x100_0000
    }

    /// The second octet of the address.
    pub open spec fn b(self) -> int {
        (self.bits as int / 0x1_0000) % 0x100
    }

    /// The third octet of the address.
    pub open spec fn c(self) -> int {
        (self.bits as int / 0x100) % 0x100
    }

    /// The fourth octet of the address.
    pub open spec fn d(self) -> int {
        self.bits as int % 0x100
    }

    /// The four octets in the order in which they are written.
    pub open spec fn spec_octets(self) -> Seq<u8> {
        seq![self.a() as u8, self.b() as u8, self.c() as u8, self.d() as u8]
    }

    /// Whether the public Internet routes the address. It does not where the
    /// address lies in one of these ranges:
    /// `0.0.0.0/8` (this network), `10.0.0.0/8`, `172.16.0.0/12` and
    /// `192.168.0.0/16` (private), `100.64.0.0/10` (shared), `127.0.0.0/8`
    /// (loopback), `169.254.0.0/16` (link-local), `192.0.0.0/24` but for
    /// `192.0.0.9` and `192.0.0.10` (protocol assignments), `192.0.2.0/24`,
    /// `198.51.100.0/24` and `203.0.113.0/24` (documentation),
    /// `198.18.0.0/15` (benchmarking), `224.0.0.0/4` (multicast) and
    /// `240.0.0.0/4` (reserved, with the broadcast address).
    pub open spec fn spec_is_global(self) -> bool {
        let (a, b, c, d) = (self.a(), self.b(), self.c(), self.d());
        !(a == 0
            || a == 10
            || (a == 172 && 16 <= b <= 31)
            || (a == 192 && b == 168)
            || (a == 100 && 64 <= b <= 127)
            || a == 127
            || (a == 169 && b == 254)
            || (a == 192 && b == 0 && c == 0 && d != 9 && d != 10)
            || (a == 192 && b == 0 && c == 2)
            || (a == 198 && b == 51 && c == 100)
            || (a == 203 && b == 0 && c == 113)
            || (a == 198 && 18 <= b <= 19)
            || a >= 224)
    }

    /// The address `a.b.c.d`.
    pub fn new(a: u8, b: u8, c: u8, d: u8) -> (ip: Ipv4)
        ensures
            ip.bits == a * 0x100_0000 + b * 0x1_0000 + c * 0x100 + d,
            ip.a() == a && ip.b() == b && ip.c() == c && ip.d() == d,
            ip.spec_octets() == seq![a, b, c, d],
    {
        let bits: u32 = a as u32 * 0x100_0000 + b as u32 * 0x1_0000 + c as u32 * 0x100 + d as u32;
        assert(bits / 0x100_0000 == a && (bits / 0x1_0000) % 0x100 == b && (bits / 0x100) % 0x100 == c
            && bits % 0x100 == d) by (bit_vector)
            requires
                bits == a as u32 * 0x100_0000 + b as u32 * 0x1_0000 + c as u32 * 0x100 + d as u32,
        ;
        Ipv4 { bits }
    }

    /// The four octets in the order in which they are written.
    pub fn octets(&self) -> (octets: [u8; 4])
        ensures
            octets@ == self.spec_octets(),
    {
        [
            (self.bits / 0x100_0000) as u8,
            ((self.bits / 0x1_0000) % 0x100) as u8,
            ((self.bits / 0x100) % 0x100) as u8,
            (self.bits % 0x100) as u8,
        ]
    }

    /// Whether the public Internet routes the address.
    pub fn is_global(&self) -> (global: bool)
        ensures
            global == self.spec_is_global(),
    {
        let o = self.octets();
        let (a, b, c, d) = (o[0], o[1], o[2], o[3]);
        if a == 0 || a == 10 || a == 127 || a >= 224 {
            false
        } else if a == 100 {
            !(64 <= b && b <= 127)
        } else if a == 169 {
            b != 254
        } else if a == 172 {
            !(16 <= b && b <= 31)
        } else if a == 192 {
            if b == 168 {
                false
            } else if b == 0 {
                if c == 0 {
                    d == 9 || d == 10
                } else {
                    c != 2
                }
            } else {
                true
            }
        } else if a == 198 {
            !(b == 18 || b == 19 || (b == 51 && c == 100))
        } else if a == 203 {
            !(b == 0 && c == 113)
        } else {
            true
        }
    }
}

/// The bits of an address are its octets, the first one highest.
pub proof fn lemma_bits_of_octets(ip: Ipv4)
    ensures
        ip.bits == ip.a() * 0x100_0000 + ip.b() * 0x1_0000 + ip.c() * 0x100 + ip.d(),
        0 <= ip.a() < 0x100,
        0 <= ip.b() < 0x100,
        0 <= ip.c() < 0x100,
        0 <= ip.d() < 0x100,
{
    let bits = ip.bits;
    assert(bits == (bits / 0x100_0000) * 0x100_0000 + ((bits / 0x1_0000) % 0x100) * 0x1_0000 + ((bits
        / 0x100) % 0x100) * 0x100 + bits % 0x100) by (bit_vector);
}

/// `rand::random` draws one byte from the thread's generator. Nothing is
/// known of the byte.
#[verifier::external_body]
fn random_octet() -> u8 {
    rand::random()
}

/// Get a random IPv4 address: four bytes drawn one after the other.
pub fn rand_ip4() -> Ipv4 {
    let a = random_octet();
    let b = random_octet();
    let c = random_octet();
    let d = random_octet();
    Ipv4::new(a, b, c, d)
}

/// Get a random globally routable IPv4 address: the first routable one among
/// at most `tries` random addresses, or `None` where none of them is.
pub fn rand_ip(tries: usize) -> (found: Option<Ipv4>)
    ensures
        found matches Some(ip) ==> ip.spec_is_global(),
        tries == 0 ==> found is None,
{
    let mut left = tries;
    while left > 0
        invariant
            left <= tries,
        decreases left,
    {
        match keep_global(rand_ip4()) {
            Some(ip) => {
                return Some(ip);
            },
            None => {},
        }
        left -= 1;
    }
    None
}

/// What the search for a routable address makes of one candidate: the
/// candidate itself where the public Internet routes it, and nothing
/// otherwise.
pub fn keep_global(candidate: Ipv4) -> (kept: Option<Ipv4>)
    ensures
        kept == if candidate.spec_is_global() {
            Some(candidate)
        } else {
            None::<Ipv4>
        },
{
    if candidate.is_global() {
        Some(candidate)
    } else {
        None
    }
}

} // verus!

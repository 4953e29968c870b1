//! A block device whose storage medium is ICMP echo traffic in flight.
//!
//! The crate holds the rules of the scheme: the wire format of an echo, the
//! steps of a scan and the sorting of its replies into live and dead
//! endpoints, the mapping of byte ranges onto replica groups and the vote
//! among the replies of one group. Sockets, clocks and scheduling belong to
//! the caller, which performs what these functions plan and hands back what
//! it observed.

pub mod addr;
pub mod blocks;
pub mod echo;
pub mod pinger;
pub mod scanner;
pub mod store;
pub mod sum;

pub use addr::{rand_ip, rand_ip4, Ipv4};
pub use blocks::PingStore;
pub use echo::{ICMP_PACKET, PACKET_SIZE, RESPONSE_SIZE, SIZE};
pub use scanner::Scanner;
pub use store::IPStore;
pub use sum::checksum;

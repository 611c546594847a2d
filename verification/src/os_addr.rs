//! Socket addresses and packet information as the Linux kernel lays them out.

use vstd::prelude::*;

use crate::net::{IpAddr, Ipv4Addr, Ipv6Addr, SocketAddr};

verus! {

/// Address family number of IPv4.
pub const AF_INET: u16 = 2;

/// Address family number of IPv6.
pub const AF_INET6: u16 = 10;

/// Length of a `sockaddr_in`.
pub const SOCKADDR_IN_LEN: usize = 16;

/// Length of a `sockaddr_in6`.
pub const SOCKADDR_IN6_LEN: usize = 28;

/// Control message level of IPv4.
pub const IPPROTO_IP: i32 = 0;

/// Control message type of IPv4 packet information.
pub const IP_PKTINFO: i32 = 8;

/// Control message level of IPv6.
pub const IPPROTO_IPV6: i32 = 41;

/// Control message type of IPv6 packet information.
pub const IPV6_PKTINFO: i32 = 50;

/// Error number: protocol option not available.
pub const ENOPROTOOPT: i32 = 92;

/// Error number: invalid argument.
pub const EINVAL: i32 = 22;

/// Order of the bytes of a number in memory.
#[derive(Clone, Copy, Debug, Eq, PartialEq, Structural)]
pub enum ByteOrder {
    /// Least significant byte first.
    Little,
    /// Most significant byte first.
    Big,
}

/// The bytes of `value`, `count` of them, most significant first.
pub open spec fn big_endian(value: nat, count: nat) -> Seq<u8>
    decreases count,
{
    if count == 0 {
        Seq::empty()
    } else {
        big_endian(value / 256, (count - 1) as nat).push((value % 256) as u8)
    }
}

/// The number whose bytes are `bytes`, most significant first.
pub open spec fn big_endian_value(bytes: Seq<u8>) -> nat
    decreases bytes.len(),
{
    if bytes.len() == 0 {
        0
    } else {
        big_endian_value(bytes.drop_last()) * 256 + bytes.last() as nat
    }
}

/// The bytes of `value` in the given order.
pub open spec fn native_bytes(order: ByteOrder, value: nat, count: nat) -> Seq<u8> {
    match order {
        ByteOrder::Big => big_endian(value, count),
        ByteOrder::Little => big_endian(value, count).reverse(),
    }
}

/// The number whose bytes in the given order are `bytes`.
pub open spec fn native_value(order: ByteOrder, bytes: Seq<u8>) -> nat {
    match order {
        ByteOrder::Big => big_endian_value(bytes),
        ByteOrder::Little => big_endian_value(bytes.reverse()),
    }
}

/// The largest number of `count` bytes, plus one.
pub open spec fn byte_range(count: nat) -> nat
    decreases count,
{
    if count == 0 {
        1
    } else {
        byte_range((count - 1) as nat) * 256
    }
}

proof fn lemma_big_endian(value: nat, count: nat)
    requires
        value < byte_range(count),
    ensures
        big_endian(value, count).len() == count,
        big_endian_value(big_endian(value, count)) == value,
    decreases count,
{
    if count > 0 {
        assert(value / 256 < byte_range((count - 1) as nat)) by (nonlinear_arith)
            requires
                value < byte_range((count - 1) as nat) * 256,
        ;
        lemma_big_endian(value / 256, (count - 1) as nat);
        let bytes = big_endian(value, count);
        assert(bytes.drop_last() =~= big_endian(value / 256, (count - 1) as nat));
    }
}

proof fn lemma_native(order: ByteOrder, value: nat, count: nat)
    requires
        value < byte_range(count),
    ensures
        native_bytes(order, value, count).len() == count,
        native_value(order, native_bytes(order, value, count)) == value,
{
    lemma_big_endian(value, count);
    assert(big_endian(value, count).reverse().reverse() =~= big_endian(value, count));
}

/// The bytes of the kernel's form of `addr`.
///
/// IPv4: family, port, address, padding. IPv6: family, port, flow information,
/// address, scope. Port and addresses are in network order, the other numbers
/// in the machine's order.
pub open spec fn sockaddr_bytes(order: ByteOrder, addr: SocketAddr) -> Seq<u8> {
    match addr {
        SocketAddr::V4 { ip, port } => native_bytes(order, AF_INET as nat, 2) + big_endian(
            port as nat,
            2,
        ) + big_endian(ip.bits as nat, 4) + Seq::new(8, |i: int| 0u8),
        SocketAddr::V6 { ip, port, flowinfo, scope_id } => native_bytes(order, AF_INET6 as nat, 2)
            + big_endian(port as nat, 2) + native_bytes(order, flowinfo as nat, 4) + big_endian(
            ip.bits as nat,
            16,
        ) + native_bytes(order, scope_id as nat, 4),
    }
}

/// The address that the kernel's form `bytes` stands for: a known family with
/// at least the bytes of its form.
pub open spec fn sockaddr_value(order: ByteOrder, bytes: Seq<u8>) -> Option<SocketAddr> {
    if bytes.len() < 2 {
        None
    } else {
        let family = native_value(order, bytes.subrange(0, 2));
        if family == AF_INET && bytes.len() >= SOCKADDR_IN_LEN {
            Some(
                SocketAddr::V4 {
                    port: big_endian_value(bytes.subrange(2, 4)) as u16,
                    ip: Ipv4Addr { bits: big_endian_value(bytes.subrange(4, 8)) as u32 },
                },
            )
        } else if family == AF_INET6 && bytes.len() >= SOCKADDR_IN6_LEN {
            Some(
                SocketAddr::V6 {
                    port: big_endian_value(bytes.subrange(2, 4)) as u16,
                    flowinfo: native_value(order, bytes.subrange(4, 8)) as u32,
                    ip: Ipv6Addr { bits: big_endian_value(bytes.subrange(8, 24)) as u128 },
                    scope_id: native_value(order, bytes.subrange(24, 28)) as u32,
                },
            )
        } else {
            None
        }
    }
}

proof fn lemma_byte_ranges()
    ensures
        byte_range(2) == 0x1_0000,
        byte_range(4) == 0x1_0000_0000,
        byte_range(16) == 0x1_0000_0000_0000_0000_0000_0000_0000_0000,
{
    reveal_with_fuel(byte_range, 17);
}

/// Reading back the kernel's form of an address gives that address.
pub proof fn law_sockaddr_round_trip(order: ByteOrder, addr: SocketAddr)
    ensures
        sockaddr_value(order, sockaddr_bytes(order, addr)) == Some(addr),
{
    lemma_byte_ranges();
    let bytes = sockaddr_bytes(order, addr);
    match addr {
        SocketAddr::V4 { ip, port } => {
            lemma_native(order, AF_INET as nat, 2);
            lemma_big_endian(port as nat, 2);
            lemma_big_endian(ip.bits as nat, 4);
            assert(bytes.subrange(0, 2) =~= native_bytes(order, AF_INET as nat, 2));
            assert(bytes.subrange(2, 4) =~= big_endian(port as nat, 2));
            assert(bytes.subrange(4, 8) =~= big_endian(ip.bits as nat, 4));
        },
        SocketAddr::V6 { ip, port, flowinfo, scope_id } => {
            lemma_native(order, AF_INET6 as nat, 2);
            lemma_big_endian(port as nat, 2);
            lemma_native(order, flowinfo as nat, 4);
            lemma_big_endian(ip.bits as nat, 16);
            lemma_native(order, scope_id as nat, 4);
            assert(bytes.subrange(0, 2) =~= native_bytes(order, AF_INET6 as nat, 2));
            assert(bytes.subrange(2, 4) =~= big_endian(port as nat, 2));
            assert(bytes.subrange(4, 8) =~= native_bytes(order, flowinfo as nat, 4));
            assert(bytes.subrange(8, 24) =~= big_endian(ip.bits as nat, 16));
            assert(bytes.subrange(24, 28) =~= native_bytes(order, scope_id as nat, 4));
        },
    }
}

/// Appends the `count` bytes of `value` in the given order.
fn push_number(out: &mut Vec<u8>, order: ByteOrder, value: u128, count: usize)
    requires
        count <= 16,
        value < byte_range(count as nat),
    ensures
        final(out)@ == old(out)@ + native_bytes(order, value as nat, count as nat),
{
    proof {
        lemma_big_endian(value as nat, count as nat);
    }
    let mut little: Vec<u8> = Vec::new();
    let mut rest: u128 = value;
    let mut done: usize = 0;
    let ghost whole = big_endian(value as nat, count as nat);
    while done < count
        invariant
            done <= count,
            little@.len() == done,
            whole == big_endian(value as nat, count as nat),
            whole.len() == count,
            big_endian(rest as nat, (count - done) as nat) == whole.take(count - done),
            forall|i: int| 0 <= i < done ==> (#[trigger] little@[i]) == whole[count - 1 - i],
        decreases count - done,
    {
        proof {
            let current = big_endian(rest as nat, (count - done) as nat);
            assert(current.last() == (rest % 256) as u8);
            assert(current.last() == whole[count - 1 - done]);
            assert(current.drop_last() =~= big_endian(
                (rest / 256) as nat,
                (count - done - 1) as nat,
            ));
            assert(whole.take(count - done).drop_last() =~= whole.take(count - done - 1));
        }
        little.push((rest % 256) as u8);
        rest = rest / 256;
        done = done + 1;
    }
    proof {
        assert(little@ =~= whole.reverse());
    }
    match order {
        ByteOrder::Little => {
            let mut at: usize = 0;
            proof {
                assert(old(out)@ + little@.take(0) =~= old(out)@);
            }
            while at < count
                invariant
                    at <= count,
                    little@.len() == count,
                    out@ == old(out)@ + little@.take(at as int),
                decreases count - at,
            {
                proof {
                    assert(old(out)@ + little@.take(at as int + 1) =~= (old(out)@ + little@.take(
                        at as int,
                    )).push(little@[at as int]));
                }
                out.push(little[at]);
                at = at + 1;
            }
            proof {
                assert(little@.take(count as int) =~= little@);
            }
        },
        ByteOrder::Big => {
            let mut at: usize = 0;
            proof {
                assert(old(out)@ + whole.take(0) =~= old(out)@);
            }
            while at < count
                invariant
                    at <= count,
                    little@.len() == count,
                    whole.len() == count,
                    little@ == whole.reverse(),
                    out@ == old(out)@ + whole.take(at as int),
                decreases count - at,
            {
                proof {
                    assert(little@[count - 1 - at] == whole[at as int]);
                    assert(old(out)@ + whole.take(at as int + 1) =~= (old(out)@ + whole.take(
                        at as int,
                    )).push(whole[at as int]));
                }
                out.push(little[count - 1 - at]);
                at = at + 1;
            }
            proof {
                assert(whole.take(count as int) =~= whole);
            }
        },
    }
}

/// Reads the number in `bytes[at..at + count]`, written in the given order.
fn read_number(bytes: &[u8], at: usize, count: usize, order: ByteOrder) -> (r: u128)
    requires
        count <= 16,
        at + count <= bytes@.len(),
    ensures
        r == native_value(order, bytes@.subrange(at as int, at + count)),
        r < byte_range(count as nat),
{
    let ghost field = bytes@.subrange(at as int, at + count);
    let ghost digits = match order {
        ByteOrder::Big => field,
        ByteOrder::Little => field.reverse(),
    };
    let length: usize = bytes.len();
    let mut value: u128 = 0;
    let mut done: usize = 0;
    proof {
        assert(digits.take(0) =~= Seq::<u8>::empty());
        lemma_byte_ranges();
        reveal_with_fuel(byte_range, 1);
    }
    while done < count
        invariant
            done <= count <= 16,
            length == bytes@.len(),
            at + count <= length,
            field == bytes@.subrange(at as int, at + count),
            digits == (match order {
                ByteOrder::Big => field,
                ByteOrder::Little => field.reverse(),
            }),
            value == big_endian_value(digits.take(done as int)),
            value < byte_range(done as nat),
        decreases count - done,
    {
        let byte: u8 = match order {
            ByteOrder::Big => bytes[at + done],
            ByteOrder::Little => bytes[at + (count - 1 - done)],
        };
        proof {
            assert(byte == digits[done as int]);
            assert(digits.take(done as int + 1).drop_last() =~= digits.take(done as int));
            lemma_byte_range_fits((done + 1) as nat);
            assert(value * 256 + byte < byte_range(done as nat) * 256) by (nonlinear_arith)
                requires
                    value < byte_range(done as nat),
                    byte < 256,
            ;
        }
        value = value * 256 + byte as u128;
        done = done + 1;
    }
    proof {
        assert(digits.take(count as int) =~= digits);
    }
    value
}

proof fn lemma_byte_range_fits(count: nat)
    requires
        count <= 16,
    ensures
        byte_range(count) <= 0x1_0000_0000_0000_0000_0000_0000_0000_0000,
{
    lemma_byte_range_grows(count, 16);
    lemma_byte_ranges();
}

proof fn lemma_byte_range_grows(low: nat, high: nat)
    requires
        low <= high,
    ensures
        byte_range(low) <= byte_range(high),
    decreases high,
{
    if low < high {
        lemma_byte_range_grows(low, (high - 1) as nat);
    }
}

/// Encodes a socket address for the kernel.
pub fn sockaddr_from_socketaddr(addr: &SocketAddr, order: ByteOrder) -> (r: Vec<u8>)
    ensures
        r@ == sockaddr_bytes(order, *addr),
        r@.len() == (if *addr is V4 {
            SOCKADDR_IN_LEN
        } else {
            SOCKADDR_IN6_LEN
        }),
{
    let mut out: Vec<u8> = Vec::new();
    proof {
        lemma_byte_ranges();
    }
    match *addr {
        SocketAddr::V4 { ip, port } => {
            push_number(&mut out, order, AF_INET as u128, 2);
            push_number(&mut out, ByteOrder::Big, port as u128, 2);
            push_number(&mut out, ByteOrder::Big, ip.bits as u128, 4);
            let mut padded: usize = 0;
            let ghost unpadded = out@;
            while padded < 8
                invariant
                    padded <= 8,
                    out@ == unpadded + Seq::new(padded as nat, |i: int| 0u8),
                decreases 8 - padded,
            {
                out.push(0);
                padded = padded + 1;
                assert(out@ =~= unpadded + Seq::new(padded as nat, |i: int| 0u8));
            }
            proof {
                lemma_native(order, AF_INET as nat, 2);
                lemma_big_endian(port as nat, 2);
                lemma_big_endian(ip.bits as nat, 4);
                assert(out@ =~= sockaddr_bytes(order, *addr));
            }
        },
        SocketAddr::V6 { ip, port, flowinfo, scope_id } => {
            push_number(&mut out, order, AF_INET6 as u128, 2);
            push_number(&mut out, ByteOrder::Big, port as u128, 2);
            push_number(&mut out, order, flowinfo as u128, 4);
            push_number(&mut out, ByteOrder::Big, ip.bits, 16);
            push_number(&mut out, order, scope_id as u128, 4);
            proof {
                lemma_native(order, AF_INET6 as nat, 2);
                lemma_big_endian(port as nat, 2);
                lemma_native(order, flowinfo as nat, 4);
                lemma_big_endian(ip.bits as nat, 16);
                lemma_native(order, scope_id as nat, 4);
                assert(out@ =~= sockaddr_bytes(order, *addr));
            }
        },
    }
    out
}

/// Decodes a socket address that the kernel filled in.
pub fn socketaddr_from_raw(bytes: &[u8], order: ByteOrder) -> (r: Option<SocketAddr>)
    ensures
        r == sockaddr_value(order, bytes@),
{
    if bytes.len() < 2 {
        return None;
    }
    proof {
        lemma_byte_ranges();
    }
    let family: u128 = read_number(bytes, 0, 2, order);
    if family == AF_INET as u128 && bytes.len() >= SOCKADDR_IN_LEN {
        let port: u16 = read_number(bytes, 2, 2, ByteOrder::Big) as u16;
        let bits: u32 = read_number(bytes, 4, 4, ByteOrder::Big) as u32;
        Some(SocketAddr::V4 { ip: Ipv4Addr { bits }, port })
    } else if family == AF_INET6 as u128 && bytes.len() >= SOCKADDR_IN6_LEN {
        let port: u16 = read_number(bytes, 2, 2, ByteOrder::Big) as u16;
        let flowinfo: u32 = read_number(bytes, 4, 4, order) as u32;
        let bits: u128 = read_number(bytes, 8, 16, ByteOrder::Big);
        let scope_id: u32 = read_number(bytes, 24, 4, order) as u32;
        Some(SocketAddr::V6 { ip: Ipv6Addr { bits }, port, flowinfo, scope_id })
    } else {
        None
    }
}

/// One control message that came with a datagram.
#[derive(Debug)]
pub struct ControlMessage {
    /// Originating protocol.
    pub level: i32,
    /// Protocol-specific type.
    pub kind: i32,
    /// The message's data.
    pub data: Vec<u8>,
}

/// The destination address that one control message names, if it is packet information.
///
/// IPv4 packet information holds the address in bytes 8 to 12, IPv6 packet
/// information in its first 16 bytes.
pub open spec fn message_destination(message: ControlMessage) -> Option<IpAddr> {
    if message.level == IPPROTO_IP && message.kind == IP_PKTINFO && message.data@.len() >= 12 {
        Some(
            IpAddr::V4(Ipv4Addr { bits: big_endian_value(message.data@.subrange(8, 12)) as u32 }),
        )
    } else if message.level == IPPROTO_IPV6 && message.kind == IPV6_PKTINFO
        && message.data@.len() >= 16 {
        Some(
            IpAddr::V6(Ipv6Addr { bits: big_endian_value(message.data@.subrange(0, 16)) as u128 }),
        )
    } else {
        None
    }
}

/// The destination named by the first packet information among the messages from `at` on.
pub open spec fn destination_from(messages: Seq<ControlMessage>, at: int) -> Option<IpAddr>
    decreases messages.len() - at,
{
    if at >= messages.len() {
        None
    } else if message_destination(messages[at]) is Some {
        message_destination(messages[at])
    } else {
        destination_from(messages, at + 1)
    }
}

/// Returns the local address that a datagram arrived on, where a control
/// message tells it.
pub fn parse_pktinfo_destination(messages: &Vec<ControlMessage>) -> (r: Option<IpAddr>)
    ensures
        r == destination_from(messages@, 0),
{
    proof {
        lemma_byte_ranges();
    }
    let mut at: usize = 0;
    while at < messages.len()
        invariant
            at <= messages@.len(),
            destination_from(messages@, 0) == destination_from(messages@, at as int),
            byte_range(4) == 0x1_0000_0000,
        decreases messages@.len() - at,
    {
        let message = &messages[at];
        if message.level == IPPROTO_IP && message.kind == IP_PKTINFO && message.data.len() >= 12 {
            let bits: u32 = read_number(message.data.as_slice(), 8, 4, ByteOrder::Big) as u32;
            return Some(IpAddr::V4(Ipv4Addr { bits }));
        }
        if message.level == IPPROTO_IPV6 && message.kind == IPV6_PKTINFO && message.data.len()
            >= 16 {
            let bits: u128 = read_number(message.data.as_slice(), 0, 16, ByteOrder::Big);
            return Some(IpAddr::V6(Ipv6Addr { bits }));
        }
        at = at + 1;
    }
    None
}

/// Judges the error numbers of switching on packet information for both
/// families, where `None` stands for success.
///
/// A socket of one family refuses the other family's option; that is no failure.
pub fn pktinfo_outcome(v4: Option<i32>, v6: Option<i32>) -> (r: Result<(), i32>)
    ensures
        r == (if v4 is Some && !tolerated_pktinfo_error(v4->0) {
            Err::<(), i32>(v4->0)
        } else if v6 is Some && !tolerated_pktinfo_error(v6->0) {
            Err::<(), i32>(v6->0)
        } else {
            Ok::<(), i32>(())
        }),
{
    if let Some(code) = v4 {
        if code != ENOPROTOOPT && code != EINVAL {
            return Err(code);
        }
    }
    if let Some(code) = v6 {
        if code != ENOPROTOOPT && code != EINVAL {
            return Err(code);
        }
    }
    Ok(())
}

/// The socket does not support the option.
pub open spec fn tolerated_pktinfo_error(code: i32) -> bool {
    code == ENOPROTOOPT || code == EINVAL
}

/// Most significant byte first: one more byte makes what stands before it count 256 times.
pub proof fn law_numbers_are_read_byte_by_byte(bytes: Seq<u8>, byte: u8)
    ensures
        big_endian_value(Seq::<u8>::empty()) == 0,
        big_endian_value(bytes.push(byte)) == big_endian_value(bytes) * 256 + byte,
        native_value(ByteOrder::Big, bytes.push(byte)) == native_value(ByteOrder::Big, bytes) * 256
            + byte,
        native_value(ByteOrder::Little, seq![byte] + bytes) == native_value(
            ByteOrder::Little,
            bytes,
        ) * 256 + byte,
{
    assert(bytes.push(byte).drop_last() =~= bytes);
    assert((seq![byte] + bytes).reverse() =~= bytes.reverse().push(byte));
    assert(bytes.reverse().push(byte).drop_last() =~= bytes.reverse());
}

proof fn lemma_two_bytes(bytes: Seq<u8>)
    requires
        bytes.len() == 2,
    ensures
        big_endian_value(bytes) == bytes[0] * 256 + bytes[1],
        native_value(ByteOrder::Big, bytes) == bytes[0] * 256 + bytes[1],
        native_value(ByteOrder::Little, bytes) == bytes[1] * 256 + bytes[0],
{
    reveal_with_fuel(big_endian_value, 3);
    assert(bytes.drop_last().drop_last() =~= Seq::<u8>::empty());
    assert(bytes.reverse().drop_last().drop_last() =~= Seq::<u8>::empty());
}

proof fn lemma_four_bytes(bytes: Seq<u8>)
    requires
        bytes.len() == 4,
    ensures
        big_endian_value(bytes) == bytes[0] * 0x100_0000 + bytes[1] * 0x1_0000 + bytes[2] * 0x100
            + bytes[3],
        native_value(ByteOrder::Big, bytes) == bytes[0] * 0x100_0000 + bytes[1] * 0x1_0000
            + bytes[2] * 0x100 + bytes[3],
        native_value(ByteOrder::Little, bytes) == bytes[3] * 0x100_0000 + bytes[2] * 0x1_0000
            + bytes[1] * 0x100 + bytes[0],
{
    reveal_with_fuel(big_endian_value, 5);
    assert(bytes.drop_last().drop_last().drop_last().drop_last() =~= Seq::<u8>::empty());
    assert(bytes.reverse().drop_last().drop_last().drop_last().drop_last() =~= Seq::<u8>::empty());
}

proof fn lemma_value_bound(bytes: Seq<u8>)
    ensures
        big_endian_value(bytes) < byte_range(bytes.len()),
    decreases bytes.len(),
{
    if bytes.len() > 0 {
        lemma_value_bound(bytes.drop_last());
    }
}

/// The kernel's form of an address is read from fixed places: the family first, the port
/// and the address most significant byte first, and the rest in the machine's order. Bytes
/// of another family, or too few of them, are no address.
pub proof fn law_raw_addresses_are_read_from_their_places(
    bytes: &[u8],
    order: ByteOrder,
    r: Option<SocketAddr>,
)
    requires
        call_ensures(socketaddr_from_raw, (bytes, order), r),
    ensures
        ({
            let b = bytes@;
            let family = if order is Big {
                b[0] * 256 + b[1]
            } else {
                b[1] * 256 + b[0]
            };
            &&& r matches Some(SocketAddr::V4 { ip, port }) ==> {
                &&& b.len() >= 16
                &&& family == 2
                &&& port == b[2] * 256 + b[3]
                &&& ip.bits == b[4] * 0x100_0000 + b[5] * 0x1_0000 + b[6] * 0x100 + b[7]
            }
            &&& r matches Some(SocketAddr::V6 { ip, port, flowinfo, scope_id }) ==> {
                &&& b.len() >= 28
                &&& family == 10
                &&& port == b[2] * 256 + b[3]
                &&& order is Little ==> flowinfo == b[7] * 0x100_0000 + b[6] * 0x1_0000 + b[5]
                    * 0x100 + b[4]
                &&& order is Big ==> flowinfo == b[4] * 0x100_0000 + b[5] * 0x1_0000 + b[6] * 0x100
                    + b[7]
                &&& ip.bits == big_endian_value(b.subrange(8, 24))
                &&& order is Little ==> scope_id == b[27] * 0x100_0000 + b[26] * 0x1_0000 + b[25]
                    * 0x100 + b[24]
                &&& order is Big ==> scope_id == b[24] * 0x100_0000 + b[25] * 0x1_0000 + b[26]
                    * 0x100 + b[27]
            }
            &&& r is None ==> b.len() < 2 || !(family == 2 && b.len() >= 16) && !(family == 10
                && b.len() >= 28)
        }),
{
    let b = bytes@;
    if b.len() >= 2 {
        lemma_two_bytes(b.subrange(0, 2));
        if b.len() >= 16 {
            lemma_two_bytes(b.subrange(2, 4));
            lemma_four_bytes(b.subrange(4, 8));
        }
        if b.len() >= 28 {
            lemma_four_bytes(b.subrange(24, 28));
            lemma_value_bound(b.subrange(8, 24));
            lemma_byte_ranges();
        }
    }
}

/// An address is written where it is read: reading its bytes gives it back, and the bytes
/// that carry nothing are zero.
pub proof fn law_addresses_are_written_to_their_places(
    addr: &SocketAddr,
    order: ByteOrder,
    r: Vec<u8>,
)
    requires
        call_ensures(sockaddr_from_socketaddr, (addr, order), r),
    ensures
        forall|bytes: &[u8], read: Option<SocketAddr>|
            bytes@ == r@ && #[trigger] call_ensures(socketaddr_from_raw, (bytes, order), read)
                ==> read == Some(*addr),
        *addr matches SocketAddr::V4 { ip, port } ==> {
            &&& r@.len() == 16
            &&& r@[2] * 256 + r@[3] == port
            &&& r@[4] * 0x100_0000 + r@[5] * 0x1_0000 + r@[6] * 0x100 + r@[7] == ip.bits
            &&& forall|i: int| 8 <= i < 16 ==> #[trigger] r@[i] == 0
        },
        *addr matches SocketAddr::V6 { ip, port, .. } ==> {
            &&& r@.len() == 28
            &&& r@[2] * 256 + r@[3] == port
            &&& big_endian_value(r@.subrange(8, 24)) == ip.bits
        },
        order is Little ==> r@[0] == (if *addr is V4 {
            2int
        } else {
            10
        }) && r@[1] == 0,
        order is Big ==> r@[0] == 0 && r@[1] == (if *addr is V4 {
            2int
        } else {
            10
        }),
{
    law_sockaddr_round_trip(order, *addr);
    lemma_byte_ranges();
    lemma_two_bytes(r@.subrange(0, 2));
    lemma_two_bytes(r@.subrange(2, 4));
    lemma_native(order, 2, 2);
    lemma_native(order, 10, 2);
    match *addr {
        SocketAddr::V4 { ip, port } => {
            lemma_four_bytes(r@.subrange(4, 8));
            lemma_big_endian(port as nat, 2);
            lemma_big_endian(ip.bits as nat, 4);
            assert(r@.subrange(0, 2) =~= native_bytes(order, 2, 2));
            assert(r@.subrange(2, 4) =~= big_endian(port as nat, 2));
            assert(r@.subrange(4, 8) =~= big_endian(ip.bits as nat, 4));
        },
        SocketAddr::V6 { ip, port, flowinfo, scope_id } => {
            lemma_native(order, flowinfo as nat, 4);
            lemma_native(order, scope_id as nat, 4);
            lemma_big_endian(port as nat, 2);
            lemma_big_endian(ip.bits as nat, 16);
            assert(r@.subrange(0, 2) =~= native_bytes(order, 10, 2));
            assert(r@.subrange(2, 4) =~= big_endian(port as nat, 2));
            assert(r@.subrange(8, 24) =~= big_endian(ip.bits as nat, 16));
        },
    }
}

proof fn lemma_destination_from(messages: Seq<ControlMessage>, at: int)
    requires
        0 <= at <= messages.len(),
    ensures
        destination_from(messages, at) is None ==> forall|i: int|
            at <= i < messages.len() ==> message_destination(#[trigger] messages[i]) is None,
        destination_from(messages, at) is Some ==> exists|found: int|
            {
                &&& at <= found < messages.len()
                &&& message_destination(#[trigger] messages[found]) == destination_from(
                    messages,
                    at,
                )
                &&& forall|i: int|
                    at <= i < found ==> message_destination(#[trigger] messages[i]) is None
            },
    decreases messages.len() - at,
{
    if at < messages.len() {
        lemma_destination_from(messages, at + 1);
        if message_destination(messages[at]) is Some {
            assert(message_destination(messages[at]) == destination_from(messages, at));
        } else if destination_from(messages, at) is Some {
            let found = choose|found: int|
                {
                    &&& at + 1 <= found < messages.len()
                    &&& message_destination(#[trigger] messages[found]) == destination_from(
                        messages,
                        at + 1,
                    )
                    &&& forall|i: int|
                        at + 1 <= i < found ==> message_destination(#[trigger] messages[i]) is None
                };
            assert(message_destination(messages[found]) == destination_from(messages, at));
        }
    }
}

/// The destination comes from the first control message that is packet information and
/// long enough: an IPv4 address behind eight bytes, or an IPv6 address at the start.
pub proof fn law_destinations_come_from_packet_information(
    messages: &Vec<ControlMessage>,
    r: Option<IpAddr>,
)
    requires
        call_ensures(parse_pktinfo_destination, (messages,), r),
    ensures
        ({
            let v4 = |m: ControlMessage| m.level == 0 && m.kind == 8 && m.data@.len() >= 12;
            let v6 = |m: ControlMessage| m.level == 41 && m.kind == 50 && m.data@.len() >= 16;
            &&& r is None ==> forall|i: int|
                0 <= i < messages@.len() ==> !v4(#[trigger] messages@[i]) && !v6(messages@[i])
            &&& r matches Some(address) ==> exists|found: int|
                {
                    let data = messages@[found].data@;
                    &&& 0 <= found < messages@.len()
                    &&& address matches IpAddr::V4(ip) ==> v4(messages@[found]) && ip.bits
                        == data[8] * 0x100_0000 + data[9] * 0x1_0000 + data[10] * 0x100 + data[11]
                    &&& address matches IpAddr::V6(ip) ==> v6(messages@[found]) && ip.bits
                        == big_endian_value(data.subrange(0, 16))
                    &&& forall|i: int|
                        0 <= i < found ==> !v4(#[trigger] messages@[i]) && !v6(messages@[i])
                    &&& message_destination(#[trigger] messages@[found]) == r
                }
        }),
{
    lemma_destination_from(messages@, 0);
    if r is Some {
        let found = choose|found: int|
            {
                &&& 0 <= found < messages@.len()
                &&& message_destination(#[trigger] messages@[found]) == destination_from(
                    messages@,
                    0,
                )
                &&& forall|i: int|
                    0 <= i < found ==> message_destination(#[trigger] messages@[i]) is None
            };
        let data = messages@[found].data@;
        if data.len() >= 12 {
            lemma_four_bytes(data.subrange(8, 12));
        }
        if data.len() >= 16 {
            lemma_value_bound(data.subrange(0, 16));
            lemma_byte_ranges();
        }
        assert(message_destination(messages@[found]) == r);
    }
}

/// Asking for packet information fails only with an error that does not merely say that
/// the option is unknown for the family. The one for IPv4 goes first.
pub proof fn law_unknown_options_are_tolerated(v4: Option<i32>, v6: Option<i32>, r: Result<(), i32>)
    requires
        call_ensures(pktinfo_outcome, (v4, v6), r),
    ensures
        v4 matches Some(code) ==> (code != 92 && code != 22 ==> r == Err::<(), i32>(code)),
        v4 is None || v4->0 == 92 || v4->0 == 22 ==> (v6 matches Some(code) ==> (code != 92 && code
            != 22 ==> r == Err::<(), i32>(code))),
        (v4 is None || v4->0 == 92 || v4->0 == 22) && (v6 is None || v6->0 == 92 || v6->0 == 22)
            ==> r is Ok,
{
}

} // verus!

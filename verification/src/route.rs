//! Routing identifiers and link-layer addresses.

use vstd::prelude::*;
use vstd::string::*;

use crate::policy::IpFamily;
use crate::text::{
    hex_char, hex_value, lemma_split_fields_append, lemma_split_fields_single, push_hex_byte,
    split_fields, split_text,
};

verus! {

/// Chooses how packets leave, by their destination.
pub trait EgressResolver<F: IpFamily, E> {
    /// Returns the egress handle for a destination, if there is a way to it.
    fn resolve_egress(&self, destination: F::Addr) -> (r: Option<E>);
}

/// Opaque route identifier.
#[derive(Clone, Copy, Debug, Default, Eq, Hash, Ord, PartialEq, PartialOrd, Structural)]
pub struct RouteId(u64);

impl RouteId {
    /// The raw identifier.
    pub closed spec fn value(self) -> u64 {
        self.0
    }

    /// Creates a route identifier from its raw value.
    #[must_use]
    pub fn new(value: u64) -> (r: Self)
        ensures
            r.value() == value,
    {
        Self(value)
    }

    /// Returns the raw route identifier.
    #[must_use]
    pub fn get(self) -> (r: u64)
        ensures
            r == self.value(),
    {
        self.0
    }
}

/// Opaque neighbor identifier.
#[derive(Clone, Copy, Debug, Default, Eq, Hash, Ord, PartialEq, PartialOrd, Structural)]
pub struct NeighborId(u64);

impl NeighborId {
    /// The raw identifier.
    pub closed spec fn value(self) -> u64 {
        self.0
    }

    /// Creates a neighbor identifier from its raw value.
    #[must_use]
    pub fn new(value: u64) -> (r: Self)
        ensures
            r.value() == value,
    {
        Self(value)
    }

    /// Returns the raw neighbor identifier.
    #[must_use]
    pub fn get(self) -> (r: u64)
        ensures
            r == self.value(),
    {
        self.0
    }
}

/// Link-layer address.
#[derive(Clone, Copy, Debug, Eq, Hash, PartialEq)]
pub struct LinkAddr([u8; 6]);

/// Why a text is not a link-layer address.
#[derive(Clone, Copy, Debug, Eq, PartialEq, Structural)]
pub enum LinkAddrParseError {
    /// The text did not have six `:`-separated octets.
    WrongOctetCount,
    /// One of the octets was not exactly two hex digits.
    InvalidOctet,
}

impl LinkAddrParseError {
    /// The text that describes this error.
    pub open spec fn message_text(self) -> Seq<char> {
        match self {
            LinkAddrParseError::WrongOctetCount => {
                "MAC address must have six colon-separated octets"@
            },
            LinkAddrParseError::InvalidOctet => "MAC address octet is not two hex digits"@,
        }
    }

    /// Renders this error for people.
    pub fn message(&self) -> (r: String)
        ensures
            r@ == self.message_text(),
    {
        match self {
            LinkAddrParseError::WrongOctetCount => {
                "MAC address must have six colon-separated octets".to_owned()
            },
            LinkAddrParseError::InvalidOctet => {
                "MAC address octet is not two hex digits".to_owned()
            },
        }
    }
}

/// The two lower-case hex digits of an octet.
pub open spec fn octet_text(octet: u8) -> Seq<char> {
    seq![hex_char(octet as int / 16), hex_char(octet as int % 16)]
}

/// The value of a field of exactly two hex digits.
pub open spec fn octet_value(field: Seq<char>) -> Option<u8> {
    if field.len() != 2 {
        None
    } else {
        match (hex_value(field[0]), hex_value(field[1])) {
            (Some(high), Some(low)) => Some((16 * high + low) as u8),
            _ => None,
        }
    }
}

/// The octets of the fields from index `at` on, up to the sixth field.
pub open spec fn parse_octets(fields: Seq<Seq<char>>, at: nat) -> Result<
    Seq<u8>,
    LinkAddrParseError,
>
    decreases 6 - at,
{
    if at >= 6 {
        if fields.len() > 6 {
            Err(LinkAddrParseError::WrongOctetCount)
        } else {
            Ok(Seq::<u8>::empty())
        }
    } else if at >= fields.len() {
        Err(LinkAddrParseError::WrongOctetCount)
    } else {
        match octet_value(fields[at as int]) {
            None => Err(LinkAddrParseError::InvalidOctet),
            Some(octet) => match parse_octets(fields, at + 1) {
                Err(error) => Err(error),
                Ok(rest) => Ok(seq![octet] + rest),
            },
        }
    }
}

/// The address text of six octets.
pub open spec fn link_addr_text(octets: Seq<u8>) -> Seq<char> {
    octet_text(octets[0]).push(':') + octet_text(octets[1]).push(':') + octet_text(
        octets[2],
    ).push(':') + octet_text(octets[3]).push(':') + octet_text(octets[4]).push(':') + octet_text(
        octets[5],
    )
}

fn hex_digit(c: char) -> (r: Option<u8>)
    ensures
        match (r, hex_value(c)) {
            (Some(value), Some(expected)) => value == expected && value < 16,
            (None, None) => true,
            _ => false,
        },
{
    if '0' <= c && c <= '9' {
        Some((c as u32 - '0' as u32) as u8)
    } else if 'a' <= c && c <= 'f' {
        Some((c as u32 - 'a' as u32 + 10) as u8)
    } else if 'A' <= c && c <= 'F' {
        Some((c as u32 - 'A' as u32 + 10) as u8)
    } else {
        None
    }
}

fn parse_octet(field: &Vec<char>) -> (r: Option<u8>)
    ensures
        r == octet_value(field@),
{
    if field.len() != 2 {
        return None;
    }
    match (hex_digit(field[0]), hex_digit(field[1])) {
        (Some(high), Some(low)) => Some(16 * high + low),
        _ => None,
    }
}

impl LinkAddr {
    /// The six octets.
    pub closed spec fn view(&self) -> Seq<u8> {
        self.0@
    }

    /// Creates a link-layer address from six octets.
    #[must_use]
    pub fn new(octets: [u8; 6]) -> (r: Self)
        ensures
            r@ == octets@,
    {
        Self(octets)
    }

    /// Returns the address octets.
    #[must_use]
    pub fn octets(self) -> (r: [u8; 6])
        ensures
            r@ == self@,
    {
        self.0
    }

    /// Renders the address as six colon-separated octets.
    pub fn text(&self) -> (r: String)
        ensures
            r@ == link_addr_text(self@),
    {
        let mut out = String::new();
        proof {
            reveal_strlit(":");
        }
        push_hex_byte(&mut out, self.0[0]);
        out.append(":");
        push_hex_byte(&mut out, self.0[1]);
        out.append(":");
        push_hex_byte(&mut out, self.0[2]);
        out.append(":");
        push_hex_byte(&mut out, self.0[3]);
        out.append(":");
        push_hex_byte(&mut out, self.0[4]);
        out.append(":");
        push_hex_byte(&mut out, self.0[5]);
        assert(out@ =~= link_addr_text(self@));
        out
    }

    /// Parses six colon-separated octets of two hex digits each.
    pub fn parse(value: &str) -> (r: Result<Self, LinkAddrParseError>)
        ensures
            match (r, parse_octets(split_fields(value@, ':'), 0)) {
                (Ok(address), Ok(octets)) => address@ == octets,
                (Err(error), Err(expected)) => error == expected,
                _ => false,
            },
    {
        let fields = split_text(value, ':');
        let ghost parts = split_fields(value@, ':');
        let mut octets: [u8; 6] = [0u8; 6];
        let mut at: usize = 0;
        while at < 6
            invariant
                at <= 6,
                octets@.len() == 6,
                fields@.len() == parts.len(),
                parts == split_fields(value@, ':'),
                forall|i: int| 0 <= i < fields@.len() ==> (#[trigger] fields@[i])@ == parts[i],
                match (parse_octets(parts, 0), parse_octets(parts, at as nat)) {
                    (Ok(all), Ok(rest)) => all == octets@.take(at as int) + rest,
                    (Err(all), Err(rest)) => all == rest,
                    _ => false,
                },
            decreases 6 - at,
        {
            if at >= fields.len() {
                return Err(LinkAddrParseError::WrongOctetCount);
            }
            match parse_octet(&fields[at]) {
                None => {
                    return Err(LinkAddrParseError::InvalidOctet);
                },
                Some(octet) => {
                    let ghost before = octets@;
                    octets[at] = octet;
                    proof {
                        assert(octets@.take(at as int + 1) =~= before.take(at as int).push(octet));
                        match parse_octets(parts, (at + 1) as nat) {
                            Ok(rest) => {
                                assert(before.take(at as int) + (seq![octet] + rest)
                                    =~= octets@.take(at as int + 1) + rest);
                            },
                            Err(_) => {},
                        }
                    }
                },
            }
            at = at + 1;
        }
        if fields.len() > 6 {
            return Err(LinkAddrParseError::WrongOctetCount);
        }
        proof {
            assert(octets@.take(6) + Seq::<u8>::empty() =~= octets@);
        }
        Ok(Self(octets))
    }
}

impl core::str::FromStr for LinkAddr {
    type Err = LinkAddrParseError;

    fn from_str(value: &str) -> (r: Result<Self, LinkAddrParseError>)
        ensures
            match (r, parse_octets(split_fields(value@, ':'), 0)) {
                (Ok(address), Ok(octets)) => address@ == octets,
                (Err(error), Err(expected)) => error == expected,
                _ => false,
            },
    {
        LinkAddr::parse(value)
    }
}

proof fn lemma_octet_text_round_trip(octet: u8)
    ensures
        octet_value(octet_text(octet)) == Some(octet),
        forall|i: int| 0 <= i < 2 ==> octet_text(octet)[i] != ':',
{
}

/// Parsing the text of an address gives back its octets.
pub proof fn law_link_addr_text_round_trip(octets: Seq<u8>)
    requires
        octets.len() == 6,
    ensures
        parse_octets(split_fields(link_addr_text(octets), ':'), 0) == Ok::<
            Seq<u8>,
            LinkAddrParseError,
        >(octets),
{
    let f = Seq::new(6, |i: int| octet_text(octets[i]));
    assert forall|i: int| 0 <= i < 6 implies octet_value(#[trigger] f[i]) == Some(octets[i])
        && forall|j: int| 0 <= j < f[i].len() ==> f[i][j] != ':' by {
        lemma_octet_text_round_trip(octets[i]);
    }
    let s0 = f[0];
    let s1 = s0.push(':') + f[1];
    let s2 = s1.push(':') + f[2];
    let s3 = s2.push(':') + f[3];
    let s4 = s3.push(':') + f[4];
    let s5 = s4.push(':') + f[5];
    assert(s5 =~= link_addr_text(octets));
    lemma_split_fields_single(s0, ':');
    lemma_split_fields_append(s0, f[1], ':');
    lemma_split_fields_append(s1, f[2], ':');
    lemma_split_fields_append(s2, f[3], ':');
    lemma_split_fields_append(s3, f[4], ':');
    lemma_split_fields_append(s4, f[5], ':');
    let fields = split_fields(link_addr_text(octets), ':');
    assert(fields =~= f);
    reveal_with_fuel(parse_octets, 7);
    assert(parse_octets(fields, 6) == Ok::<Seq<u8>, LinkAddrParseError>(Seq::empty()));
    match parse_octets(fields, 0) {
        Ok(parsed) => {
            assert(parsed =~= octets);
        },
        Err(_) => {
            assert(false);
        },
    }
}

proof fn lemma_parse_octets(fields: Seq<Seq<char>>, at: nat)
    requires
        at <= 6,
    ensures
        parse_octets(fields, at) matches Ok(octets) ==> {
            &&& fields.len() == 6 || at == 6 && fields.len() <= 6
            &&& octets.len() == 6 - at
            &&& forall|i: int|
                0 <= i < octets.len() ==> octet_value(fields[at + i]) == Some(#[trigger] octets[i])
        },
        parse_octets(fields, at) matches Err(LinkAddrParseError::InvalidOctet) ==> exists|k: int|
            {
                &&& at <= k < 6 && k < fields.len()
                &&& octet_value(#[trigger] fields[k]) is None
                &&& forall|i: int|
                    at <= i < k ==> octet_value(#[trigger] fields[i]) is Some
            },
        parse_octets(fields, at) matches Err(LinkAddrParseError::WrongOctetCount) ==> {
            &&& fields.len() < 6 || fields.len() > 6
            &&& forall|i: int|
                at <= i < 6 && i < fields.len() ==> octet_value(#[trigger] fields[i]) is Some
        },
    decreases 6 - at,
{
    if at < 6 && at < fields.len() {
        lemma_parse_octets(fields, at + 1);
        match octet_value(fields[at as int]) {
            None => {
                assert(octet_value(fields[at as int]) is None);
            },
            Some(octet) => {
                match parse_octets(fields, at + 1) {
                    Ok(rest) => {
                        let octets = seq![octet] + rest;
                        assert forall|i: int| 0 <= i < octets.len() implies octet_value(
                            fields[at + i],
                        ) == Some(#[trigger] octets[i]) by {
                            if i > 0 {
                                let j = i - 1;
                                assert(octet_value(fields[at + 1 + j]) == Some(rest[j]));
                            }
                        }
                    },
                    Err(LinkAddrParseError::InvalidOctet) => {
                        let k = choose|k: int|
                            {
                                &&& at + 1 <= k < 6 && k < fields.len()
                                &&& octet_value(#[trigger] fields[k]) is None
                                &&& forall|i: int|
                                    at + 1 <= i < k ==> octet_value(#[trigger] fields[i]) is Some
                            };
                        assert(octet_value(fields[k]) is None);
                    },
                    _ => {},
                }
            },
        }
    }
}

/// A link address is six fields of two hexadecimal digits, in either case, with colons
/// between them. A field that is anything else is an invalid octet, the first six fields
/// being looked at in order, and otherwise there are too few or too many.
pub proof fn law_link_addresses_are_six_hex_octets(
    value: &str,
    r: Result<LinkAddr, LinkAddrParseError>,
)
    requires
        call_ensures(LinkAddr::parse, (value,), r),
    ensures
        ({
            let fields = split_fields(value@, ':');
            let digit = |c: char|
                if 48 <= c as int <= 57 {
                    c as int - 48
                } else if 65 <= c as int <= 70 {
                    c as int - 55
                } else if 97 <= c as int <= 102 {
                    c as int - 87
                } else {
                    -1
                };
            let good = |field: Seq<char>|
                field.len() == 2 && digit(field[0]) >= 0 && digit(field[1]) >= 0;
            &&& r matches Ok(address) ==> {
                &&& fields.len() == 6
                &&& address@.len() == 6
                &&& forall|i: int|
                    0 <= i < 6 ==> good(#[trigger] fields[i]) && address@[i] == 16 * digit(
                        fields[i][0],
                    ) + digit(fields[i][1])
            }
            &&& r matches Err(LinkAddrParseError::InvalidOctet) ==> exists|k: int|
                {
                    &&& 0 <= k < 6 && k < fields.len()
                    &&& !good(#[trigger] fields[k])
                    &&& forall|i: int| 0 <= i < k ==> good(#[trigger] fields[i])
                }
            &&& r matches Err(LinkAddrParseError::WrongOctetCount) ==> {
                &&& fields.len() != 6
                &&& forall|i: int| 0 <= i < 6 && i < fields.len() ==> good(#[trigger] fields[i])
            }
        }),
{
    let fields = split_fields(value@, ':');
    lemma_parse_octets(fields, 0);
    if let Ok(address) = r {
        assert forall|i: int| 0 <= i < 6 implies octet_value(#[trigger] fields[i]) == Some(
            address@[i],
        ) by {
            assert(octet_value(fields[0 + i]) == Some(address@[i]));
        }
    }
}

/// A link address is written as it is read: parsing its text gives the address back.
pub proof fn law_link_addresses_are_read_back(
    address: &LinkAddr,
    text: String,
    value: &str,
    r: Result<LinkAddr, LinkAddrParseError>,
)
    requires
        call_ensures(LinkAddr::text, (address,), text),
        value@ == text@,
        call_ensures(LinkAddr::parse, (value,), r),
        address@.len() == 6,
    ensures
        r is Ok,
        r->Ok_0@ == address@,
        text@.len() == 17,
        forall|i: int| 0 <= i < 5 ==> text@[#[trigger] (3 * i) + 2] == ':',
{
    law_link_addr_text_round_trip(address@);
}

/// What a link address that cannot be read is told.
pub proof fn law_parse_errors_say_what_is_wrong(error: &LinkAddrParseError, r: String)
    requires
        call_ensures(LinkAddrParseError::message, (error,), r),
    ensures
        *error is WrongOctetCount ==> r@ == "MAC address must have six colon-separated octets"@,
        *error is InvalidOctet ==> r@ == "MAC address octet is not two hex digits"@,
{
}

/// Addresses and identifiers give back what they were made of.
pub proof fn law_link_addresses_keep_their_octets(octets: [u8; 6], address: LinkAddr, value: u64)
    requires
        call_ensures(LinkAddr::new, (octets,), address),
    ensures
        address@ == octets@,
        forall|r: [u8; 6]| #[trigger]
            call_ensures(LinkAddr::octets, (address,), r) ==> r@ == octets@,
        forall|made: RouteId| #[trigger]
            call_ensures(RouteId::new, (value,), made) ==> made.value() == value,
        forall|made: NeighborId| #[trigger]
            call_ensures(NeighborId::new, (value,), made) ==> made.value() == value,
{
}

} // verus!

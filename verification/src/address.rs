//! Internet addresses: their text, and how the kernel writes them in its socket tables.

use vstd::prelude::*;

use crate::formatting::{join, joined};
use crate::numbers::{decimal, numeral, parse_unsigned, push_decimal, push_numeral, unsigned_value};
use crate::text::{slice_of, texts};

verus! {

/// An address of either family: four octets, or eight groups of sixteen bits.
#[derive(Clone, Copy)]
pub enum IpAddress {
    V4([u8; 4]),
    V6([u16; 8]),
}

/// What an [`IpAddress`] says.
pub enum AddressModel {
    V4(Seq<u8>),
    V6(Seq<u16>),
}

impl View for IpAddress {
    type V = AddressModel;

    open spec fn view(&self) -> AddressModel {
        match self {
            IpAddress::V4(octets) => AddressModel::V4(octets@),
            IpAddress::V6(groups) => AddressModel::V6(groups@),
        }
    }
}

impl AddressModel {
    /// The address points to this machine itself: one of 127.0.0.0/8, or ::1.
    pub open spec fn is_loopback(self) -> bool {
        match self {
            AddressModel::V4(octets) => octets[0] == 127,
            AddressModel::V6(groups) => groups == seq![0u16, 0, 0, 0, 0, 0, 0, 1],
        }
    }

    /// The address is the placeholder for none: 0.0.0.0, or ::.
    pub open spec fn is_unspecified(self) -> bool {
        match self {
            AddressModel::V4(octets) => octets == seq![0u8, 0, 0, 0],
            AddressModel::V6(groups) => groups == seq![0u16, 0, 0, 0, 0, 0, 0, 0],
        }
    }

    /// The address points to another machine.
    pub open spec fn is_remote(self) -> bool {
        !self.is_loopback() && !self.is_unspecified()
    }
}

/// The dotted text of four octets.
pub open spec fn dotted(octets: Seq<u8>) -> Seq<char> {
    decimal(octets[0] as nat) + "."@ + decimal(octets[1] as nat) + "."@ + decimal(octets[2] as nat)
        + "."@ + decimal(octets[3] as nat)
}

/// Groups in lower-case hexadecimal, with colons between them.
pub open spec fn colon_groups(groups: Seq<u16>) -> Seq<char> {
    joined(groups.map_values(|g: u16| numeral(g as nat, 16)), ":"@)
}

/// How many zero groups follow one another from position `i` on.
pub open spec fn zero_run(groups: Seq<u16>, i: int) -> nat
    decreases groups.len() - i,
{
    if 0 <= i < groups.len() && groups[i] == 0 {
        1 + zero_run(groups, i + 1)
    } else {
        0
    }
}

/// Where the longest run of zero groups starts among the first `n` positions; of equally long
/// runs the first.
pub open spec fn longest_run_start(groups: Seq<u16>, n: nat) -> int
    decreases n,
{
    if n <= 1 {
        0
    } else {
        let best = longest_run_start(groups, (n - 1) as nat);
        if zero_run(groups, n - 1) > zero_run(groups, best) {
            n - 1
        } else {
            best
        }
    }
}

/// The groups hold an address of the other family behind the prefix ::ffff.
pub open spec fn is_mapped(groups: Seq<u16>) -> bool {
    &&& groups[0] == 0 && groups[1] == 0 && groups[2] == 0 && groups[3] == 0 && groups[4] == 0
    &&& groups[5] == 0xFFFF
}

/// The text of eight groups: the longest run of at least two zero groups is left out, and a mapped
/// address ends in its dotted text.
pub open spec fn compressed(groups: Seq<u16>) -> Seq<char> {
    if is_mapped(groups) {
        "::ffff:"@ + dotted(
            seq![
                (groups[6] / 256) as u8,
                (groups[6] % 256) as u8,
                (groups[7] / 256) as u8,
                (groups[7] % 256) as u8,
            ],
        )
    } else {
        let start = longest_run_start(groups, 8);
        let length = zero_run(groups, start);
        if length > 1 {
            colon_groups(groups.take(start)) + "::"@ + colon_groups(groups.skip(start + length))
        } else {
            colon_groups(groups)
        }
    }
}

/// The text of an address.
pub open spec fn address_text(address: AddressModel) -> Seq<char> {
    match address {
        AddressModel::V4(octets) => dotted(octets),
        AddressModel::V6(groups) => compressed(groups),
    }
}

/// Writes four octets with dots between them.
fn format_dotted(a: u8, b: u8, c: u8, d: u8) -> (text: String)
    ensures
        text@ == dotted(seq![a, b, c, d]),
{
    let mut text = String::new();
    push_decimal(&mut text, a as u64);
    text.append(".");
    push_decimal(&mut text, b as u64);
    text.append(".");
    push_decimal(&mut text, c as u64);
    text.append(".");
    push_decimal(&mut text, d as u64);
    assert(Seq::<char>::empty() + decimal(a as nat) =~= decimal(a as nat));
    text
}

/// Writes the groups from `start` up to but not including `end` with colons between them.
fn format_groups(groups: &[u16; 8], start: usize, end: usize) -> (text: String)
    requires
        start <= end <= 8,
    ensures
        text@ == colon_groups(groups@.subrange(start as int, end as int)),
{
    let mut parts: Vec<String> = Vec::new();
    let ghost part = groups@.subrange(start as int, end as int);
    let ghost all = part.map_values(|g: u16| numeral(g as nat, 16));
    for i in start..end
        invariant
            start <= end <= 8,
            part == groups@.subrange(start as int, end as int),
            all == part.map_values(|g: u16| numeral(g as nat, 16)),
            texts(parts@) =~= all.take(i - start),
    {
        let ghost before = texts(parts@);
        let mut text = String::new();
        push_numeral(&mut text, groups[i] as u64, 16);
        assert(text@ =~= all[i - start]);
        parts.push(text);
        assert(texts(parts@) =~= before.push(all[i - start]));
        assert(all.take(i - start + 1) =~= all.take(i - start).push(all[i - start]));
    }
    assert(all.take(end - start) =~= all);
    join(&parts, ":")
}

/// The length of the run of zero groups from `start` on.
fn zero_run_length(groups: &[u16; 8], start: usize) -> (length: usize)
    requires
        start < 8,
    ensures
        length == zero_run(groups@, start as int),
        start + length <= 8,
    decreases 8 - start,
{
    if groups[start] != 0 {
        0
    } else if start == 7 {
        assert(zero_run(groups@, 8) == 0);
        1
    } else {
        1 + zero_run_length(groups, start + 1)
    }
}

/// Writes eight groups.
fn format_compressed(groups: &[u16; 8]) -> (text: String)
    ensures
        text@ == compressed(groups@),
{
    if groups[0] == 0 && groups[1] == 0 && groups[2] == 0 && groups[3] == 0 && groups[4] == 0
        && groups[5] == 0xFFFF {
        let tail = format_dotted(
            (groups[6] / 256) as u8,
            (groups[6] % 256) as u8,
            (groups[7] / 256) as u8,
            (groups[7] % 256) as u8,
        );
        let mut text = "::ffff:".to_owned();
        text.append(tail.as_str());
        return text;
    }
    let mut best: usize = 0;
    for n in 1..8usize
        invariant
            best < 8,
            best == longest_run_start(groups@, n as nat),
    {
        if zero_run_length(groups, n) > zero_run_length(groups, best) {
            best = n;
        }
    }
    let length = zero_run_length(groups, best);
    if length > 1 {
        let mut text = format_groups(groups, 0, best);
        text.append("::");
        let rest = format_groups(groups, best + length, 8);
        text.append(rest.as_str());
        assert(groups@.subrange(0, best as int) =~= groups@.take(best as int));
        assert(groups@.subrange(best + length, 8) =~= groups@.skip(best + length));
        return text;
    }
    assert(groups@.subrange(0, 8) =~= groups@);
    format_groups(groups, 0, 8)
}

/// Writes an address.
pub fn format_address(address: &IpAddress) -> (text: String)
    ensures
        text@ == address_text(address@),
{
    match address {
        IpAddress::V4(octets) => {
            assert(octets@ =~= seq![octets@[0], octets@[1], octets@[2], octets@[3]]);
            format_dotted(octets[0], octets[1], octets[2], octets[3])
        },
        IpAddress::V6(groups) => format_compressed(groups),
    }
}

/// Whether an address points to another machine.
pub fn is_remote_address(address: &IpAddress) -> (remote: bool)
    ensures
        remote == address@.is_remote(),
        match *address {
            IpAddress::V4(o) => remote <==> o@[0] != 127 && !(o@[0] == 0 && o@[1] == 0 && o@[2] == 0
                && o@[3] == 0),
            IpAddress::V6(g) => remote <==> !(g@[0] == 0 && g@[1] == 0 && g@[2] == 0 && g@[3] == 0
                && g@[4] == 0 && g@[5] == 0 && g@[6] == 0 && g@[7] <= 1),
        },
{
    match address {
        IpAddress::V4(o) => {
            let none = o[0] == 0 && o[1] == 0 && o[2] == 0 && o[3] == 0;
            assert(none ==> o@ =~= seq![0u8, 0, 0, 0]);
            o[0] != 127 && !none
        },
        IpAddress::V6(g) => {
            let zeros = g[0] == 0 && g[1] == 0 && g[2] == 0 && g[3] == 0 && g[4] == 0 && g[5] == 0
                && g[6] == 0;
            assert(zeros && g[7] == 0 ==> g@ =~= seq![0u16, 0, 0, 0, 0, 0, 0, 0]);
            assert(zeros && g[7] == 1 ==> g@ =~= seq![0u16, 0, 0, 0, 0, 0, 0, 1]);
            !(zeros && (g[7] == 0 || g[7] == 1))
        },
    }
}

/// The address that eight hexadecimal digits stand for: one number, whose lowest byte is the first
/// octet.
pub open spec fn ipv4_of(value: Seq<char>) -> Option<Seq<u8>> {
    if value.len() == 8 {
        match unsigned_value(value, 16, 0xFFFF_FFFF) {
            Some(n) => Some(
                seq![
                    (n % 256) as u8,
                    (n / 256 % 256) as u8,
                    (n / 65536 % 256) as u8,
                    (n / 16777216) as u8,
                ],
            ),
            None => None,
        }
    } else {
        None
    }
}

/// Reads an address of four octets.
pub fn decode_ipv4_address(value: &[char]) -> (address: Option<IpAddress>)
    ensures
        match address {
            Some(a) => a@ is V4 && ipv4_of(value@) == Some(a@->V4_0),
            None => ipv4_of(value@) is None,
        },
{
    if value.len() != 8 {
        return None;
    }
    match parse_unsigned(value, 16, 0xFFFF_FFFF) {
        Some(n) => {
            let octets: [u8; 4] = [
                (n % 256) as u8,
                (n / 256 % 256) as u8,
                (n / 65536 % 256) as u8,
                (n / 16777216) as u8,
            ];
            assert(octets@ =~= ipv4_of(value@)->0);
            Some(IpAddress::V4(octets))
        },
        None => None,
    }
}

/// The byte that the pair of characters at position `i` stands for.
pub open spec fn byte_at(value: Seq<char>, i: int) -> Option<nat> {
    unsigned_value(value.subrange(2 * i, 2 * i + 2), 16, 255)
}

/// The groups that thirty-two hexadecimal digits stand for: four words of four bytes, each with
/// its lowest byte first.
pub open spec fn ipv6_of(value: Seq<char>) -> Option<Seq<u16>> {
    if value.len() == 32 && forall|i: int| 0 <= i < 16 ==> (#[trigger] byte_at(value, i)) is Some {
        let b = |i: int| byte_at(value, i)->0;
        Some(
            Seq::new(
                8,
                |g: int|
                    if g % 2 == 0 {
                        (b(2 * g + 3) * 256 + b(2 * g + 2)) as u16
                    } else {
                        (b(2 * g - 1) * 256 + b(2 * g - 2)) as u16
                    },
            ),
        )
    } else {
        None
    }
}

/// Reads an address of eight groups.
pub fn decode_ipv6_address(value: &[char]) -> (address: Option<IpAddress>)
    ensures
        match address {
            Some(a) => a@ is V6 && ipv6_of(value@) == Some(a@->V6_0),
            None => ipv6_of(value@) is None,
        },
{
    if value.len() != 32 {
        return None;
    }
    let mut bytes: Vec<u16> = Vec::new();
    for i in 0..16usize
        invariant
            value@.len() == 32,
            bytes@.len() == i,
            forall|k: int| 0 <= k < i ==> #[trigger] bytes@[k] <= 255,
            forall|k: int| 0 <= k < i ==> #[trigger] byte_at(value@, k) == Some(bytes@[k] as nat),
    {
        let pair = slice_of(value, 2 * i, 2 * i + 2);
        match parse_unsigned(pair.as_slice(), 16, 255) {
            Some(byte) => {
                assert(byte_at(value@, i as int) == Some(byte as nat));
                bytes.push(byte as u16);
            },
            None => {
                assert(byte_at(value@, i as int) is None);
                return None;
            },
        }
    }
    let groups: [u16; 8] = [
        bytes[3] * 256 + bytes[2],
        bytes[1] * 256 + bytes[0],
        bytes[7] * 256 + bytes[6],
        bytes[5] * 256 + bytes[4],
        bytes[11] * 256 + bytes[10],
        bytes[9] * 256 + bytes[8],
        bytes[15] * 256 + bytes[14],
        bytes[13] * 256 + bytes[12],
    ];
    proof {
        assert forall|i: int| 0 <= i < 16 implies (#[trigger] byte_at(value@, i)) is Some by {}
        assert(groups@ =~= ipv6_of(value@)->0);
    }
    Some(IpAddress::V6(groups))
}

} // verus!

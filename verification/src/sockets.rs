//! Sockets as the kernel lists them: the tables of open sockets and the links of descriptors.

use vstd::prelude::*;

use crate::address::{
    address_text, decode_ipv4_address, decode_ipv6_address, format_address, ipv4_of, ipv6_of,
    is_remote_address, AddressModel, IpAddress,
};
use crate::numbers::{decimal, parse_unsigned, push_decimal, unsigned_value};
use crate::order::{
    char_values, compare_chars, lemma_lex_decided, lemma_rank_decided, lex_comparison, rank_before,
    rank_comparison, Comparison,
};
use crate::scanning::{find_last, last_position, lines, split_lines, split_words, words};
use crate::table::{placed, Keyed, Table};
use crate::text::{begins_with, chars_of, holds_char, nested, slice_of};

verus! {

/// The protocol of a socket table.
#[derive(Clone, Copy, PartialEq, Eq, Structural)]
pub enum SocketProtocol {
    Tcp,
    Tcp6,
    Udp,
    Udp6,
}

impl SocketProtocol {
    /// The name of the table.
    pub open spec fn table_name(self) -> Seq<char> {
        match self {
            SocketProtocol::Tcp => "tcp"@,
            SocketProtocol::Tcp6 => "tcp6"@,
            SocketProtocol::Udp => "udp"@,
            SocketProtocol::Udp6 => "udp6"@,
        }
    }

    /// The table holds addresses of eight groups.
    pub open spec fn is_ipv6(self) -> bool {
        self == SocketProtocol::Tcp6 || self == SocketProtocol::Udp6
    }

    /// The table holds streams.
    pub open spec fn is_tcp(self) -> bool {
        self == SocketProtocol::Tcp || self == SocketProtocol::Tcp6
    }

    /// The name of the protocol in a report.
    pub open spec fn label_text(self) -> Seq<char> {
        if self.is_tcp() {
            "TCP"@
        } else {
            "UDP"@
        }
    }

    /// The place of the protocol among the others.
    pub open spec fn order(self) -> int {
        match self {
            SocketProtocol::Tcp => 0,
            SocketProtocol::Tcp6 => 1,
            SocketProtocol::Udp => 2,
            SocketProtocol::Udp6 => 3,
        }
    }

    /// The name of the table, and whether it holds addresses of eight groups.
    pub fn table(self) -> (table: (&'static str, bool))
        ensures
            table.0@ == self.table_name(),
            table.1 == self.is_ipv6(),
    {
        match self {
            SocketProtocol::Tcp => ("tcp", false),
            SocketProtocol::Tcp6 => ("tcp6", true),
            SocketProtocol::Udp => ("udp", false),
            SocketProtocol::Udp6 => ("udp6", true),
        }
    }

    /// The name of the protocol in a report.
    pub fn label(self) -> (label: &'static str)
        ensures
            label@ == self.label_text(),
    {
        match self {
            SocketProtocol::Tcp | SocketProtocol::Tcp6 => "TCP",
            SocketProtocol::Udp | SocketProtocol::Udp6 => "UDP",
        }
    }

    /// The place of the protocol among the others.
    fn place(self) -> (place: u8)
        ensures
            place as int == self.order(),
    {
        match self {
            SocketProtocol::Tcp => 0,
            SocketProtocol::Tcp6 => 1,
            SocketProtocol::Udp => 2,
            SocketProtocol::Udp6 => 3,
        }
    }
}

/// One end of a connection.
#[derive(Clone, Copy)]
pub struct NetworkEndpoint {
    pub address: IpAddress,
    pub port: u16,
}

/// What a [`NetworkEndpoint`] says.
pub struct EndpointModel {
    pub address: AddressModel,
    pub port: u16,
}

impl View for NetworkEndpoint {
    type V = EndpointModel;

    open spec fn view(&self) -> EndpointModel {
        EndpointModel { address: self.address@, port: self.port }
    }
}

/// What tells one connection from another.
#[derive(Clone, Copy)]
pub struct NetworkConnectionKey {
    pub protocol: SocketProtocol,
    pub local: NetworkEndpoint,
    pub remote: NetworkEndpoint,
}

/// What a [`NetworkConnectionKey`] says.
pub struct KeyModel {
    pub protocol: SocketProtocol,
    pub local: EndpointModel,
    pub remote: EndpointModel,
}

impl View for NetworkConnectionKey {
    type V = KeyModel;

    open spec fn view(&self) -> KeyModel {
        KeyModel { protocol: self.protocol, local: self.local@, remote: self.remote@ }
    }
}

/// The place of a connection: by protocol, then by the texts and ports of its two ends.
pub open spec fn key_place(key: KeyModel) -> Seq<Seq<int>> {
    seq![
        seq![key.protocol.order()],
        char_values(address_text(key.local.address)),
        seq![key.local.port as int],
        char_values(address_text(key.remote.address)),
        seq![key.remote.port as int],
    ]
}

/// How one small number stands to another.
fn compare_numbers(a: u16, b: u16) -> (comparison: Comparison)
    ensures
        comparison == lex_comparison(seq![a as int], seq![b as int]),
{
    proof {
        let x = seq![a as int];
        let y = seq![b as int];
        lemma_lex_decided(
            x,
            y,
            if a == b {
                1
            } else {
                0
            },
        );
    }
    if a == b {
        Comparison::Same
    } else if a < b {
        Comparison::Before
    } else {
        Comparison::After
    }
}

/// How one address stands to another, by their texts.
fn compare_addresses(a: &IpAddress, b: &IpAddress) -> (comparison: Comparison)
    ensures
        comparison == lex_comparison(
            char_values(address_text(a@)),
            char_values(address_text(b@)),
        ),
{
    let left = chars_of(format_address(a).as_str());
    let right = chars_of(format_address(b).as_str());
    compare_chars(left.as_slice(), right.as_slice())
}

/// How one connection stands to another.
pub fn compare_keys(a: &NetworkConnectionKey, b: &NetworkConnectionKey) -> (comparison: Comparison)
    ensures
        comparison == rank_comparison(key_place(a@), key_place(b@)),
{
    let ghost x = key_place(a@);
    let ghost y = key_place(b@);
    let first = compare_numbers(a.protocol.place() as u16, b.protocol.place() as u16);
    match first {
        Comparison::Same => {},
        _ => {
            proof {
                lemma_rank_decided(x, y, 0);
            }
            return first;
        },
    }
    let second = compare_addresses(&a.local.address, &b.local.address);
    match second {
        Comparison::Same => {},
        _ => {
            proof {
                lemma_rank_decided(x, y, 1);
            }
            return second;
        },
    }
    let third = compare_numbers(a.local.port, b.local.port);
    match third {
        Comparison::Same => {},
        _ => {
            proof {
                lemma_rank_decided(x, y, 2);
            }
            return third;
        },
    }
    let fourth = compare_addresses(&a.remote.address, &b.remote.address);
    match fourth {
        Comparison::Same => {},
        _ => {
            proof {
                lemma_rank_decided(x, y, 3);
            }
            return fourth;
        },
    }
    let fifth = compare_numbers(a.remote.port, b.remote.port);
    proof {
        match fifth {
            Comparison::Same => {
                lemma_rank_decided(x, y, 5);
            },
            _ => {
                lemma_rank_decided(x, y, 4);
            },
        }
    }
    fifth
}

impl KeyModel {
    /// The far end is on another machine.
    pub open spec fn is_remote(self) -> bool {
        self.remote.address.is_remote()
    }
}

impl NetworkConnectionKey {
    /// Whether the far end is on another machine.
    pub fn is_remote(&self) -> (remote: bool)
        ensures
            remote == self@.is_remote(),
    {
        is_remote_address(&self.remote.address)
    }
}

/// The text of an end of a connection; an address with colons stands in brackets.
pub open spec fn endpoint_text(endpoint: EndpointModel) -> Seq<char> {
    let address = address_text(endpoint.address);
    if address.contains(':') {
        "["@ + address + "]:"@ + decimal(endpoint.port as nat)
    } else {
        address + ":"@ + decimal(endpoint.port as nat)
    }
}

/// Writes an end of a connection.
pub fn format_network_endpoint(endpoint: &NetworkEndpoint) -> (text: String)
    ensures
        text@ == endpoint_text(endpoint@),
{
    let address = format_address(&endpoint.address);
    if holds_char(chars_of(address.as_str()).as_slice(), ':') {
        let mut text = "[".to_owned();
        text.append(address.as_str());
        text.append("]:");
        push_decimal(&mut text, endpoint.port as u64);
        text
    } else {
        let mut text = address;
        text.append(":");
        push_decimal(&mut text, endpoint.port as u64);
        text
    }
}

/// A socket of a table.
pub struct SocketRecord {
    pub key: NetworkConnectionKey,
    pub state: String,
}

/// What a [`SocketRecord`] says.
pub struct RecordModel {
    pub key: KeyModel,
    pub state: Seq<char>,
}

impl View for SocketRecord {
    type V = RecordModel;

    open spec fn view(&self) -> RecordModel {
        RecordModel { key: self.key@, state: self.state@ }
    }
}

/// The address that a text in a socket table stands for.
pub open spec fn address_of(value: Seq<char>, ipv6: bool) -> Option<AddressModel> {
    if ipv6 {
        match ipv6_of(value) {
            Some(groups) => Some(AddressModel::V6(groups)),
            None => None,
        }
    } else {
        match ipv4_of(value) {
            Some(octets) => Some(AddressModel::V4(octets)),
            None => None,
        }
    }
}

/// The end of a connection that a text in a socket table stands for: an address, a colon, and a
/// port in hexadecimal.
pub open spec fn endpoint_of(value: Seq<char>, ipv6: bool) -> Option<EndpointModel> {
    match last_position(value, ':') {
        Some(i) => match (unsigned_value(value.skip(i + 1), 16, 0xFFFF), address_of(
            value.take(i),
            ipv6,
        )) {
            (Some(port), Some(address)) => Some(EndpointModel { address, port: port as u16 }),
            _ => None,
        },
        None => None,
    }
}

/// Reads an end of a connection.
fn parse_endpoint(value: &[char], ipv6: bool) -> (endpoint: Option<NetworkEndpoint>)
    ensures
        match endpoint {
            Some(e) => endpoint_of(value@, ipv6) == Some(e@),
            None => endpoint_of(value@, ipv6) is None,
        },
{
    let length: usize = value.len();
    match find_last(value, ':') {
        Some(i) => {
            let port_text = slice_of(value, i + 1, length);
            let address_text = slice_of(value, 0, i);
            assert(port_text@ =~= value@.skip(i + 1));
            assert(address_text@ =~= value@.take(i as int));
            let port = match parse_unsigned(port_text.as_slice(), 16, 0xFFFF) {
                Some(port) => port as u16,
                None => {
                    return None;
                },
            };
            let decoded = if ipv6 {
                decode_ipv6_address(address_text.as_slice())
            } else {
                decode_ipv4_address(address_text.as_slice())
            };
            match decoded {
                Some(address) => Some(NetworkEndpoint { address, port }),
                None => None,
            }
        },
        None => None,
    }
}

/// Reads an end of a connection.
pub fn parse_network_endpoint(value: &str, ipv6: bool) -> (endpoint: Option<NetworkEndpoint>)
    ensures
        match endpoint {
            Some(e) => endpoint_of(value@, ipv6) == Some(e@),
            None => endpoint_of(value@, ipv6) is None,
        },
{
    let chars = chars_of(value);
    parse_endpoint(chars.as_slice(), ipv6)
}

/// The character for a digit below sixteen; letters are in upper case.
pub open spec fn upper_digit(d: nat) -> char {
    if d < 10 {
        (48 + d) as char
    } else {
        (55 + d) as char
    }
}

/// The name of a socket state; a state without a name is shown in hexadecimal.
pub open spec fn state_name(tcp: bool, state: nat) -> Seq<char> {
    if state == 1 {
        "ESTABLISHED"@
    } else if tcp && state == 2 {
        "SYN_SENT"@
    } else if tcp && state == 3 {
        "SYN_RECV"@
    } else if tcp && state == 4 {
        "FIN_WAIT1"@
    } else if tcp && state == 5 {
        "FIN_WAIT2"@
    } else if tcp && state == 6 {
        "TIME_WAIT"@
    } else if tcp && state == 7 {
        "CLOSE"@
    } else if tcp && state == 8 {
        "CLOSE_WAIT"@
    } else if tcp && state == 9 {
        "LAST_ACK"@
    } else if tcp && state == 10 {
        "LISTEN"@
    } else if tcp && state == 11 {
        "CLOSING"@
    } else if tcp && state == 12 {
        "NEW_SYN_RECV"@
    } else if !tcp && state == 7 {
        "UNCONNECTED"@
    } else {
        "0x"@.push(upper_digit(state / 16)).push(upper_digit(state % 16))
    }
}

/// The state that a text in a socket table stands for.
pub open spec fn state_of(protocol: SocketProtocol, value: Seq<char>) -> Option<Seq<char>> {
    match unsigned_value(value, 16, 255) {
        Some(state) => Some(state_name(protocol.is_tcp(), state)),
        None => None,
    }
}

/// The character for a digit below sixteen.
fn digit_to_upper(d: u8) -> (c: char)
    requires
        d < 16,
    ensures
        c == upper_digit(d as nat),
{
    if d < 10 {
        (48 + d) as char
    } else {
        (55 + d) as char
    }
}

/// Writes a state in hexadecimal.
fn hexadecimal_state(state: u8) -> (text: String)
    ensures
        text@ == "0x"@.push(upper_digit((state / 16) as nat)).push(upper_digit((state % 16) as nat)),
{
    let mut text = "0x".to_owned();
    text.push(digit_to_upper(state / 16));
    text.push(digit_to_upper(state % 16));
    text
}

/// Reads the state of a socket.
fn parse_state(protocol: SocketProtocol, value: &[char]) -> (state: Option<String>)
    ensures
        match state {
            Some(s) => state_of(protocol, value@) == Some(s@),
            None => state_of(protocol, value@) is None,
        },
{
    let state: u8 = match parse_unsigned(value, 16, 255) {
        Some(state) => state as u8,
        None => {
            return None;
        },
    };
    let name = match protocol {
        SocketProtocol::Tcp | SocketProtocol::Tcp6 => match state {
            1 => "ESTABLISHED",
            2 => "SYN_SENT",
            3 => "SYN_RECV",
            4 => "FIN_WAIT1",
            5 => "FIN_WAIT2",
            6 => "TIME_WAIT",
            7 => "CLOSE",
            8 => "CLOSE_WAIT",
            9 => "LAST_ACK",
            10 => "LISTEN",
            11 => "CLOSING",
            12 => "NEW_SYN_RECV",
            _ => {
                return Some(hexadecimal_state(state));
            },
        },
        SocketProtocol::Udp | SocketProtocol::Udp6 => match state {
            1 => "ESTABLISHED",
            7 => "UNCONNECTED",
            _ => {
                return Some(hexadecimal_state(state));
            },
        },
    };
    Some(name.to_owned())
}

/// Reads the state of a socket.
pub fn network_socket_state(protocol: SocketProtocol, value: &str) -> (state: Option<String>)
    ensures
        match state {
            Some(s) => state_of(protocol, value@) == Some(s@),
            None => state_of(protocol, value@) is None,
        },
{
    let chars = chars_of(value);
    parse_state(protocol, chars.as_slice())
}

/// The socket that a line of a socket table stands for, with its inode. Of the words of the line
/// the second and third are its ends, the fourth its state, and the tenth its inode.
pub open spec fn socket_of(line: Seq<char>, protocol: SocketProtocol, ipv6: bool) -> Option<
    (u64, RecordModel),
> {
    let fields = words(line);
    if fields.len() < 10 {
        None
    } else {
        match (
            endpoint_of(fields[1], ipv6),
            endpoint_of(fields[2], ipv6),
            state_of(protocol, fields[3]),
            unsigned_value(fields[9], 10, u64::MAX as nat),
        ) {
            (Some(local), Some(remote), Some(state), Some(inode)) => Some(
                (
                    inode as u64,
                    RecordModel { key: KeyModel { protocol, local, remote }, state },
                ),
            ),
            _ => None,
        }
    }
}

/// Reads a line of a socket table.
fn parse_socket(line: &[char], protocol: SocketProtocol, ipv6: bool) -> (socket: Option<
    (u64, SocketRecord),
>)
    ensures
        match socket {
            Some((inode, record)) => socket_of(line@, protocol, ipv6) == Some((inode, record@)),
            None => socket_of(line@, protocol, ipv6) is None,
        },
{
    let fields = split_words(line);
    assert(nested(fields@).len() == fields@.len());
    if fields.len() < 10 {
        return None;
    }
    assert(words(line@)[1] == fields@[1]@);
    assert(words(line@)[2] == fields@[2]@);
    assert(words(line@)[3] == fields@[3]@);
    assert(words(line@)[9] == fields@[9]@);
    let local = parse_endpoint(fields[1].as_slice(), ipv6);
    let remote = parse_endpoint(fields[2].as_slice(), ipv6);
    let state = parse_state(protocol, fields[3].as_slice());
    let inode = parse_unsigned(fields[9].as_slice(), 10, u64::MAX);
    match (local, remote, state, inode) {
        (Some(local), Some(remote), Some(state), Some(inode)) => {
            let key = NetworkConnectionKey { protocol, local, remote };
            Some((inode, SocketRecord { key, state }))
        },
        _ => None,
    }
}

/// Reads a line of a socket table.
pub fn parse_network_socket(line: &str, protocol: SocketProtocol, ipv6: bool) -> (socket: Option<
    (u64, SocketRecord),
>)
    ensures
        match socket {
            Some((inode, record)) => socket_of(line@, protocol, ipv6) == Some((inode, record@)),
            None => socket_of(line@, protocol, ipv6) is None,
        },
{
    let chars = chars_of(line);
    parse_socket(chars.as_slice(), protocol, ipv6)
}

/// A socket of a table under its inode.
pub struct SocketEntry {
    pub inode: u64,
    pub record: SocketRecord,
}

/// What a [`SocketEntry`] says.
pub struct SocketEntryModel {
    pub inode: u64,
    pub record: RecordModel,
}

impl View for SocketEntry {
    type V = SocketEntryModel;

    open spec fn view(&self) -> SocketEntryModel {
        SocketEntryModel { inode: self.inode, record: self.record@ }
    }
}

/// The place of an inode in a table.
pub open spec fn inode_rank(inode: u64) -> Seq<Seq<int>> {
    seq![seq![inode as int]]
}

/// Inodes are ordered by their value.
pub proof fn lemma_inode_rank(a: u64, b: u64)
    ensures
        rank_before(inode_rank(a), inode_rank(b)) <==> a < b,
        inode_rank(a) == inode_rank(b) <==> a == b,
{
    let x = inode_rank(a);
    let y = inode_rank(b);
    assert(x[0][0] == a as int && y[0][0] == b as int);
    if a == b {
        lemma_rank_decided(x, y, 1);
    } else {
        lemma_lex_decided(x[0], y[0], 0);
        lemma_rank_decided(x, y, 0);
    }
}

/// How one inode stands to another.
fn compare_inodes(a: u64, b: u64) -> (comparison: Comparison)
    ensures
        comparison == rank_comparison(inode_rank(a), inode_rank(b)),
{
    proof {
        lemma_inode_rank(a, b);
    }
    if a == b {
        Comparison::Same
    } else if a < b {
        Comparison::Before
    } else {
        Comparison::After
    }
}

impl Keyed for SocketEntry {
    type Key = u64;

    open spec fn rank(item: SocketEntryModel) -> Seq<Seq<int>> {
        inode_rank(item.inode)
    }

    open spec fn key_rank(key: &u64) -> Seq<Seq<int>> {
        inode_rank(*key)
    }

    fn compare(&self, other: &Self) -> (comparison: Comparison) {
        compare_inodes(self.inode, other.inode)
    }

    fn compare_to_key(&self, key: &u64) -> (comparison: Comparison) {
        compare_inodes(self.inode, *key)
    }
}

/// The socket tables of a process, each if it could be read.
pub struct SocketTables {
    pub tcp: Option<String>,
    pub tcp6: Option<String>,
    pub udp: Option<String>,
    pub udp6: Option<String>,
}

/// What reading socket tables has come to so far.
pub struct SocketReading {
    /// The sockets by inode.
    pub sockets: Seq<SocketEntryModel>,
    /// A table could be read.
    pub read_any: bool,
    /// A table or a line of one could not be read.
    pub limited: bool,
}

/// Reading the first `n` lines of a table, of which the very first is a heading.
pub open spec fn after_lines(
    reading: SocketReading,
    rows: Seq<Seq<char>>,
    protocol: SocketProtocol,
    n: nat,
) -> SocketReading
    decreases n,
{
    if n <= 1 {
        reading
    } else {
        let before = after_lines(reading, rows, protocol, (n - 1) as nat);
        match socket_of(rows[n - 1], protocol, protocol.is_ipv6()) {
            Some((inode, record)) => SocketReading {
                sockets: placed::<SocketEntry>(before.sockets, SocketEntryModel { inode, record }),
                ..before
            },
            None => SocketReading { limited: true, ..before },
        }
    }
}

/// Reading one more table.
pub open spec fn after_table(
    reading: SocketReading,
    protocol: SocketProtocol,
    contents: Option<Seq<char>>,
) -> SocketReading {
    match contents {
        Some(text) => {
            let rows = lines(text);
            after_lines(
                SocketReading { read_any: true, ..reading },
                rows,
                protocol,
                rows.len(),
            )
        },
        None => SocketReading { limited: true, ..reading },
    }
}

/// The text of a file, if it could be read.
pub open spec fn contents_of(file: Option<String>) -> Option<Seq<char>> {
    match file {
        Some(text) => Some(text@),
        None => None,
    }
}

/// Reading all the socket tables of a process.
pub open spec fn sockets_of(tables: SocketTables) -> SocketReading {
    let start = SocketReading { sockets: seq![], read_any: false, limited: false };
    let tcp = after_table(start, SocketProtocol::Tcp, contents_of(tables.tcp));
    let tcp6 = after_table(tcp, SocketProtocol::Tcp6, contents_of(tables.tcp6));
    let udp = after_table(tcp6, SocketProtocol::Udp, contents_of(tables.udp));
    after_table(udp, SocketProtocol::Udp6, contents_of(tables.udp6))
}

/// Reads one table into the sockets known so far. Returns whether the table could be read and
/// whether a part of it could not.
fn read_table(
    sockets: &mut Table<SocketEntry>,
    protocol: SocketProtocol,
    contents: &Option<String>,
    Ghost(reading): Ghost<SocketReading>,
) -> (outcome: (bool, bool))
    requires
        old(sockets).wf(),
        reading.sockets == old(sockets)@,
    ensures
        final(sockets).wf(),
        ({
            let after = after_table(reading, protocol, contents_of(*contents));
            &&& after.sockets == final(sockets)@
            &&& after.read_any == (reading.read_any || outcome.0)
            &&& after.limited == (reading.limited || outcome.1)
        }),
{
    match contents {
        Some(text) => {
            let chars = chars_of(text.as_str());
            let rows = split_lines(chars.as_slice());
            let ghost all = lines(text@);
            let ghost start = SocketReading { read_any: true, ..reading };
            assert(nested(rows@).len() == rows@.len());
            let mut limited = false;
            let mut i: usize = 1;
            while i < rows.len()
                invariant
                    1 <= i,
                    i <= rows@.len() || i == 1,
                    nested(rows@) == all,
                    rows@.len() == all.len(),
                    sockets.wf(),
                    sockets@ == after_lines(start, all, protocol, i as nat).sockets,
                    after_lines(start, all, protocol, i as nat).read_any,
                    after_lines(start, all, protocol, i as nat).limited == (start.limited
                        || limited),
                decreases rows@.len() - i,
            {
                assert(all[i as int] == rows@[i as int]@);
                let (_, ipv6) = protocol.table();
                match parse_socket(rows[i].as_slice(), protocol, ipv6) {
                    Some((inode, record)) => {
                        sockets.place(SocketEntry { inode, record });
                    },
                    None => {
                        limited = true;
                    },
                }
                i += 1;
            }
            assert(after_lines(start, all, protocol, i as nat) == after_lines(
                start,
                all,
                protocol,
                all.len(),
            ));
            (true, limited)
        },
        None => (false, true),
    }
}

/// Reads the socket tables of a process: the sockets by inode, and whether something could not be
/// read. Without any table there is no answer.
pub fn read_network_sockets(tables: &SocketTables) -> (sockets: Option<(Table<SocketEntry>, bool)>)
    ensures
        match sockets {
            Some((table, limited)) => {
                let reading = sockets_of(*tables);
                &&& reading.read_any
                &&& table.wf()
                &&& table@ == reading.sockets
                &&& limited == reading.limited
            },
            None => !sockets_of(*tables).read_any,
        },
{
    let mut sockets: Table<SocketEntry> = Table::new();
    let ghost start = SocketReading { sockets: seq![], read_any: false, limited: false };
    let ghost tcp = after_table(start, SocketProtocol::Tcp, contents_of(tables.tcp));
    let ghost tcp6 = after_table(tcp, SocketProtocol::Tcp6, contents_of(tables.tcp6));
    let ghost udp = after_table(tcp6, SocketProtocol::Udp, contents_of(tables.udp));
    let first = read_table(&mut sockets, SocketProtocol::Tcp, &tables.tcp, Ghost(start));
    let second = read_table(&mut sockets, SocketProtocol::Tcp6, &tables.tcp6, Ghost(tcp));
    let third = read_table(&mut sockets, SocketProtocol::Udp, &tables.udp, Ghost(tcp6));
    let fourth = read_table(&mut sockets, SocketProtocol::Udp6, &tables.udp6, Ghost(udp));
    if first.0 || second.0 || third.0 || fourth.0 {
        Some((sockets, first.1 || second.1 || third.1 || fourth.1))
    } else {
        None
    }
}

/// Bytes as characters with the same value.
pub open spec fn byte_chars(bytes: Seq<u8>) -> Seq<char> {
    bytes.map_values(|b: u8| b as char)
}

/// The inode that the link of a descriptor names, if it is the link of a socket.
pub open spec fn inode_of(target: Seq<u8>) -> Option<u64> {
    let text = byte_chars(target);
    let front = "socket:["@;
    if front.is_prefix_of(text) && text.len() > front.len() && text.last() == ']' {
        match unsigned_value(
            text.subrange(front.len() as int, text.len() - 1),
            10,
            u64::MAX as nat,
        ) {
            Some(inode) => Some(inode as u64),
            None => None,
        }
    } else {
        None
    }
}

/// Reads the link of a descriptor.
pub fn parse_socket_inode(target: &[u8]) -> (inode: Option<u64>)
    ensures
        inode == inode_of(target@),
{
    let mut text: Vec<char> = Vec::new();
    for i in 0..target.len()
        invariant
            text@ =~= byte_chars(target@.take(i as int)),
    {
        text.push(target[i] as char);
        assert(byte_chars(target@.take(i + 1)) =~= byte_chars(target@.take(i as int)).push(
            target@[i as int] as char,
        ));
    }
    assert(target@.take(target@.len() as int) =~= target@);
    let front: usize = chars_of("socket:[").len();
    if begins_with(text.as_slice(), "socket:[") && text.len() > front && text[text.len() - 1]
        == ']' {
        let digits = slice_of(text.as_slice(), front, text.len() - 1);
        parse_unsigned(digits.as_slice(), 10, u64::MAX)
    } else {
        None
    }
}

/// The contents of the links of the descriptors of a process; a link that could not be read has
/// none.
pub open spec fn link_models(links: Seq<Option<Vec<u8>>>) -> Seq<Option<Seq<u8>>> {
    links.map_values(
        |link: Option<Vec<u8>>|
            match link {
                Some(target) => Some(target@),
                None => None,
            },
    )
}

/// The inodes of the sockets among the first `n` links, each once, in the order in which they come.
pub open spec fn inodes_of(links: Seq<Option<Seq<u8>>>, n: nat) -> Seq<u64>
    decreases n,
{
    if n == 0 {
        seq![]
    } else {
        let before = inodes_of(links, (n - 1) as nat);
        match links[n - 1] {
            Some(target) => match inode_of(target) {
                Some(inode) => if before.contains(inode) {
                    before
                } else {
                    before.push(inode)
                },
                None => before,
            },
            None => before,
        }
    }
}

/// A link could not be read.
pub open spec fn misses_link(links: Seq<Option<Seq<u8>>>) -> bool {
    exists|i: int| 0 <= i < links.len() && (#[trigger] links[i]) is None
}

/// Collects the inodes of the sockets among the descriptors of a process, and whether a descriptor
/// could not be read.
pub fn read_socket_inodes(links: &Vec<Option<Vec<u8>>>) -> (inodes: (Vec<u64>, bool))
    ensures
        inodes.0@ == inodes_of(link_models(links@), links@.len()),
        inodes.1 == misses_link(link_models(links@)),
{
    let mut inodes: Vec<u64> = Vec::new();
    let mut limited = false;
    let ghost all = link_models(links@);
    for i in 0..links.len()
        invariant
            all == link_models(links@),
            inodes@ == inodes_of(all, i as nat),
            limited == exists|k: int| 0 <= k < i && (#[trigger] all[k]) is None,
    {
        match &links[i] {
            Some(target) => {
                assert(all[i as int] == Some(target@));
                if let Some(inode) = parse_socket_inode(target.as_slice()) {
                    let mut known = false;
                    for j in 0..inodes.len()
                        invariant
                            known == inodes@.take(j as int).contains(inode),
                    {
                        assert(inodes@.take(j + 1) =~= inodes@.take(j as int).push(
                            inodes@[j as int],
                        ));
                        if inodes[j] == inode {
                            assert(inodes@.take(j + 1)[j as int] == inode);
                            known = true;
                        } else if known {
                            let ghost at = choose|at: int|
                                0 <= at < j && inodes@.take(j as int)[at] == inode;
                            assert(inodes@.take(j + 1)[at] == inode);
                        }
                    }
                    assert(inodes@.take(inodes@.len() as int) =~= inodes@);
                    if !known {
                        inodes.push(inode);
                    }
                }
            },
            None => {
                assert(all[i as int] is None);
                limited = true;
            },
        }
    }
    (inodes, limited)
}

} // verus!

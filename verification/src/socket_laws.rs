//! What addresses, ends of connections and socket tables say.

use vstd::prelude::*;

use crate::address::{
    address_text, byte_at, colon_groups, compressed, dotted, ipv4_of, ipv6_of, longest_run_start,
    zero_run, AddressModel,
};
use crate::formatting::joined;
use crate::numbers::{decimal, digit_value, digits_value, is_digit, numeral, unsigned_value};
use crate::order::char_values;
use crate::scanning::{last_position, lines, words};
use crate::sockets::{
    after_lines, after_table, byte_chars, contents_of, endpoint_of, inode_of, inode_rank, inodes_of,
    key_place, lemma_inode_rank, link_models, misses_link, socket_of, sockets_of, state_of,
    KeyModel, SocketEntry, SocketEntryModel, SocketProtocol, SocketReading, SocketTables,
};
use crate::table::{ascending, lemma_lookup_after_placing, lemma_placed_is_ascending, lookup};

verus! {

/// Of the addresses of four octets, those of this machine are the ones that begin with 127 and the one
/// that is all zeros; every other address belongs to another machine.
pub proof fn only_loopback_and_zero_octets_are_local(octets: Seq<u8>)
    requires
        octets.len() == 4,
    ensures
        AddressModel::V4(octets).is_remote() <==> octets[0] != 127 && (octets[0] != 0 || octets[1]
            != 0 || octets[2] != 0 || octets[3] != 0),
{
    if octets[0] == 0 && octets[1] == 0 && octets[2] == 0 && octets[3] == 0 {
        assert(octets =~= seq![0u8, 0, 0, 0]);
    }
}

/// Of the addresses of eight groups, those of this machine are the ones whose groups are all zeros but
/// for a last group of at most one; every other address belongs to another machine.
pub proof fn only_loopback_and_zero_groups_are_local(groups: Seq<u16>)
    requires
        groups.len() == 8,
    ensures
        AddressModel::V6(groups).is_remote() <==> groups[7] > 1 || exists|i: int|
            0 <= i < 7 && #[trigger] groups[i] != 0,
{
    let one = seq![0u16, 0, 0, 0, 0, 0, 0, 1];
    let none = seq![0u16, 0, 0, 0, 0, 0, 0, 0];
    if forall|i: int| 0 <= i < 7 ==> #[trigger] groups[i] == 0 {
        if groups[7] == 0 {
            assert(groups =~= none);
        }
        if groups[7] == 1 {
            assert(groups =~= one);
        }
        if groups[7] > 1 {
            assert(groups[7] != one[7] && groups[7] != none[7]);
        }
    } else {
        let i = choose|i: int| 0 <= i < 7 && #[trigger] groups[i] != 0;
        assert(one[i] == 0 && none[i] == 0);
    }
}

/// A connection leaves this machine exactly where its far end is on another machine; the near end does
/// not matter.
pub proof fn the_far_end_decides(key: KeyModel)
    ensures
        key.is_remote() <==> key.remote.address.is_remote(),
{
}

/// The four octets that eight hexadecimal digits stand for make up their number, the first octet the
/// lowest; anything else is no address.
pub proof fn octets_make_up_the_number(value: Seq<char>)
    ensures
        ipv4_of(value) is Some <==> value.len() == 8 && unsigned_value(value, 16, 0xFFFF_FFFF)
            is Some,
        ipv4_of(value) matches Some(o) ==> o.len() == 4 && unsigned_value(value, 16, 0xFFFF_FFFF)
            == Some((o[0] + 256 * o[1] + 65536 * o[2] + 16777216 * o[3]) as nat),
{
}

proof fn lemma_last_two_digits(s: Seq<char>)
    requires
        s.len() >= 2,
    ensures
        digits_value(s, 16) == digits_value(s.take(s.len() - 2), 16) * 256 + digits_value(
            s.subrange(s.len() - 2, s.len() as int),
            16,
        ),
{
    reveal_with_fuel(digits_value, 3);
    let pair = s.subrange(s.len() - 2, s.len() as int);
    assert(pair.drop_last().drop_last() =~= Seq::<char>::empty());
    assert(pair.drop_last().last() == s.drop_last().last());
    assert(pair.last() == s.last());
    assert(s.drop_last().drop_last() =~= s.take(s.len() - 2));
}

proof fn lemma_two_digits(s: Seq<char>)
    requires
        s.len() == 2,
        is_digit(s[0], 16),
        is_digit(s[1], 16),
    ensures
        digits_value(s, 16) < 256,
        unsigned_value(s, 16, 255) == Some(digits_value(s, 16)),
{
    reveal_with_fuel(digits_value, 3);
    assert(s.drop_last().drop_last() =~= Seq::<char>::empty());
    assert forall|i: int| 0 <= i < s.len() implies is_digit(#[trigger] s[i], 16) by {}
}

proof fn lemma_eight_digits(s: Seq<char>)
    requires
        s.len() == 8,
        forall|i: int| 0 <= i < 8 ==> is_digit(#[trigger] s[i], 16),
    ensures
        digits_value(s, 16) == ((digits_value(s.subrange(0, 2), 16) * 256 + digits_value(
            s.subrange(2, 4),
            16,
        )) * 256 + digits_value(s.subrange(4, 6), 16)) * 256 + digits_value(s.subrange(6, 8), 16),
        digits_value(s.subrange(0, 2), 16) < 256,
        digits_value(s.subrange(2, 4), 16) < 256,
        digits_value(s.subrange(4, 6), 16) < 256,
        digits_value(s.subrange(6, 8), 16) < 256,
        unsigned_value(s, 16, 0xFFFF_FFFF) == Some(digits_value(s, 16)),
{
    let six = s.take(6);
    let four = s.take(4);
    let two = s.take(2);
    lemma_last_two_digits(s);
    lemma_last_two_digits(six);
    lemma_last_two_digits(four);
    assert(six.take(4) =~= four);
    assert(four.take(2) =~= two);
    assert(two =~= s.subrange(0, 2));
    assert(six.subrange(4, 6) =~= s.subrange(4, 6));
    assert(four.subrange(2, 4) =~= s.subrange(2, 4));
    lemma_two_digits(s.subrange(0, 2));
    lemma_two_digits(s.subrange(2, 4));
    lemma_two_digits(s.subrange(4, 6));
    lemma_two_digits(s.subrange(6, 8));
}

#[verifier::rlimit(40)]
proof fn lemma_octets(word: Seq<char>)
    requires
        word.len() == 8,
        forall|i: int| 0 <= i < 8 ==> is_digit(#[trigger] word[i], 16),
    ensures
        ipv4_of(word) matches Some(o) && o[0] == digits_value(word.subrange(6, 8), 16) && o[1]
            == digits_value(word.subrange(4, 6), 16) && o[2] == digits_value(
            word.subrange(2, 4),
            16,
        ) && o[3] == digits_value(word.subrange(0, 2), 16),
{
    lemma_eight_digits(word);
    let b0 = digits_value(word.subrange(0, 2), 16);
    let b1 = digits_value(word.subrange(2, 4), 16);
    let b2 = digits_value(word.subrange(4, 6), 16);
    let b3 = digits_value(word.subrange(6, 8), 16);
    let n = digits_value(word, 16);
    lemma_bytes_of_number(n, b0, b1, b2, b3);
}

proof fn lemma_bytes_of_number(n: nat, b0: nat, b1: nat, b2: nat, b3: nat)
    requires
        b0 < 256 && b1 < 256 && b2 < 256 && b3 < 256,
        n == ((b0 * 256 + b1) * 256 + b2) * 256 + b3,
    ensures
        n % 256 == b3,
        n / 256 % 256 == b2,
        n / 65536 % 256 == b1,
        n / 16777216 == b0,
        n <= 0xFFFF_FFFF,
{
    assert(n / 256 == 65536 * b0 + 256 * b1 + b2);
    assert(n / 65536 == 256 * b0 + b1);
}

proof fn lemma_bytes_of_word(value: Seq<char>, i: int)
    requires
        value.len() == 32,
        forall|i: int| 0 <= i < 32 ==> is_digit(#[trigger] value[i], 16),
        0 <= i < 16,
    ensures
        byte_at(value, i) == Some(digits_value(value.subrange(2 * i, 2 * i + 2), 16)),
        digits_value(value.subrange(2 * i, 2 * i + 2), 16) < 256,
{
    let pair = value.subrange(2 * i, 2 * i + 2);
    assert(pair[0] == value[2 * i] && pair[1] == value[2 * i + 1]);
    lemma_two_digits(pair);
}

/// Of the four words of an address of eight groups, each reads as an address of four octets does: its
/// octets, two and two, are two groups.
pub proof fn words_of_groups_read_as_octets(value: Seq<char>, w: int)
    requires
        value.len() == 32,
        forall|i: int| 0 <= i < 32 ==> is_digit(#[trigger] value[i], 16),
        0 <= w < 4,
    ensures
        ipv6_of(value) matches Some(groups) && (ipv4_of(value.subrange(8 * w, 8 * w + 8)) matches Some(
            o,
        ) && groups.len() == 8 && groups[2 * w] == o[0] * 256 + o[1] && groups[2 * w + 1] == o[2]
            * 256 + o[3]),
{
    let word = value.subrange(8 * w, 8 * w + 8);
    assert forall|i: int| 0 <= i < 8 implies is_digit(#[trigger] word[i], 16) by {
        assert(word[i] == value[8 * w + i]);
    }
    lemma_octets(word);
    assert forall|i: int| 0 <= i < 16 implies (#[trigger] byte_at(value, i)) is Some by {
        lemma_bytes_of_word(value, i);
    }
    let x = 4 * w;
    lemma_bytes_of_word(value, x);
    lemma_bytes_of_word(value, x + 1);
    lemma_bytes_of_word(value, x + 2);
    lemma_bytes_of_word(value, x + 3);
    assert(word.subrange(0, 2) =~= value.subrange(2 * x, 2 * x + 2));
    assert(word.subrange(2, 4) =~= value.subrange(2 * (x + 1), 2 * (x + 1) + 2));
    assert(word.subrange(4, 6) =~= value.subrange(2 * (x + 2), 2 * (x + 2) + 2));
    assert(word.subrange(6, 8) =~= value.subrange(2 * (x + 3), 2 * (x + 3) + 2));
    let b0 = digits_value(word.subrange(0, 2), 16);
    let b1 = digits_value(word.subrange(2, 4), 16);
    let b2 = digits_value(word.subrange(4, 6), 16);
    let b3 = digits_value(word.subrange(6, 8), 16);
    let groups = ipv6_of(value)->0;
    assert((2 * w) % 2 == 0 && (2 * w + 1) % 2 == 1);
    assert(groups[2 * w] == (b3 * 256 + b2) as u16);
    assert(groups[2 * w + 1] == (b1 * 256 + b0) as u16);
}

/// Anything that is not thirty-two characters long is no address of eight groups.
pub proof fn other_lengths_are_no_groups(value: Seq<char>)
    ensures
        ipv6_of(value) is Some ==> value.len() == 32,
{
}

proof fn lemma_zero_run(groups: Seq<u16>, i: int)
    requires
        0 <= i <= groups.len(),
    ensures
        i + zero_run(groups, i) <= groups.len(),
        forall|k: int| i <= k < i + zero_run(groups, i) ==> #[trigger] groups[k] == 0,
        i + zero_run(groups, i) < groups.len() ==> groups[i + zero_run(groups, i)] != 0,
    decreases groups.len() - i,
{
    if i < groups.len() && groups[i] == 0 {
        lemma_zero_run(groups, i + 1);
    }
}

proof fn lemma_longest_run(groups: Seq<u16>, n: nat, k: int)
    requires
        0 < n <= groups.len(),
        0 <= k < n,
    ensures
        0 <= longest_run_start(groups, n) < n,
        zero_run(groups, k) <= zero_run(groups, longest_run_start(groups, n)),
        zero_run(groups, k) == zero_run(groups, longest_run_start(groups, n)) ==> k
            >= longest_run_start(groups, n),
    decreases n,
{
    if n > 1 {
        let best = longest_run_start(groups, (n - 1) as nat);
        lemma_longest_run(groups, (n - 1) as nat, best_or(k, n));
        lemma_longest_run(groups, (n - 1) as nat, 0);
    }
}

spec fn best_or(k: int, n: nat) -> int {
    if k < n - 1 {
        k
    } else {
        0
    }
}

/// The text of eight groups leaves out a run of zeros where there are two or more in a row: the
/// longest such run, and of several the first. Any other zeros are written.
pub proof fn the_longest_zeros_are_left_out(groups: Seq<u16>, i: int, n: int) -> (run: (int, int))
    requires
        groups.len() == 8,
        !(groups[0] == 0 && groups[1] == 0 && groups[2] == 0 && groups[3] == 0 && groups[4] == 0
            && groups[5] == 0xFFFF),
        0 <= i && 0 < n && i + n <= 8,
        forall|k: int| i <= k < i + n ==> #[trigger] groups[k] == 0,
    ensures
        0 <= run.0 && 0 < run.1 && run.0 + run.1 <= 8,
        forall|k: int| run.0 <= k < run.0 + run.1 ==> #[trigger] groups[k] == 0,
        n <= run.1,
        n == run.1 ==> run.0 <= i,
        run.1 > 1 ==> compressed(groups) == colon_groups(groups.take(run.0)) + "::"@ + colon_groups(
            groups.skip(run.0 + run.1),
        ),
        run.1 == 1 ==> compressed(groups) == colon_groups(groups),
{
    let start = longest_run_start(groups, 8);
    lemma_longest_run(groups, 8, i);
    lemma_longest_run(groups, 8, 0);
    lemma_zero_run(groups, i);
    lemma_zero_run(groups, start);
    assert(zero_run(groups, i) >= n) by {
        if zero_run(groups, i) < n {
            assert(groups[i + zero_run(groups, i)] == 0);
        }
    }
    (start, zero_run(groups, start) as int)
}

/// Eight groups without a zero are all written, in lower-case hexadecimal between colons; a mapped
/// address ends in the dotted text of its last two groups.
pub proof fn groups_are_written_in_order(groups: Seq<u16>)
    requires
        groups.len() == 8,
    ensures
        (forall|k: int| 0 <= k < 8 ==> #[trigger] groups[k] != 0) ==> address_text(
            AddressModel::V6(groups),
        ) == joined(groups.map_values(|g: u16| numeral(g as nat, 16)), ":"@),
        groups[0] == 0 && groups[1] == 0 && groups[2] == 0 && groups[3] == 0 && groups[4] == 0
            && groups[5] == 0xFFFF ==> address_text(AddressModel::V6(groups)) == "::ffff:"@
            + address_text(
            AddressModel::V4(
                seq![
                    (groups[6] / 256) as u8,
                    (groups[6] % 256) as u8,
                    (groups[7] / 256) as u8,
                    (groups[7] % 256) as u8,
                ],
            ),
        ),
{
    if forall|k: int| 0 <= k < 8 ==> #[trigger] groups[k] != 0 {
        let start = longest_run_start(groups, 8);
        lemma_longest_run(groups, 8, 0);
        assert(groups[start] != 0);
        assert(groups[0] != 0);
    }
}

/// Four octets are written in decimal with dots between them, in order.
pub proof fn octets_are_written_in_order(octets: Seq<u8>)
    requires
        octets.len() == 4,
    ensures
        address_text(AddressModel::V4(octets)) == decimal(octets[0] as nat) + "."@ + decimal(
            octets[1] as nat,
        ) + "."@ + decimal(octets[2] as nat) + "."@ + decimal(octets[3] as nat),
{
}

/// Connections are told apart by their protocol, by both of their ports and by the texts of both of
/// their addresses.
pub proof fn connections_are_told_apart(a: KeyModel, b: KeyModel)
    ensures
        key_place(a) == key_place(b) <==> a.protocol == b.protocol && a.local.port == b.local.port
            && a.remote.port == b.remote.port && address_text(a.local.address) == address_text(
            b.local.address,
        ) && address_text(a.remote.address) == address_text(b.remote.address),
{
    let x = key_place(a);
    let y = key_place(b);
    if x == y {
        assert(x[0][0] == y[0][0]);
        assert(x[2][0] == y[2][0]);
        assert(x[4][0] == y[4][0]);
        lemma_char_values(address_text(a.local.address), address_text(b.local.address));
        lemma_char_values(address_text(a.remote.address), address_text(b.remote.address));
        assert(x[1] == y[1] && x[3] == y[3]);
    }
}

proof fn lemma_char_values(a: Seq<char>, b: Seq<char>)
    ensures
        char_values(a) == char_values(b) ==> a == b,
{
    if char_values(a) == char_values(b) {
        assert(char_values(a).len() == a.len() && char_values(b).len() == b.len());
        assert forall|i: int| 0 <= i < a.len() implies a[i] == b[i] by {
            assert(char_values(a)[i] == char_values(b)[i]);
        }
        assert(a =~= b);
    }
}

/// A protocol has its own table and label.
pub proof fn protocols_have_their_tables()
    ensures
        SocketProtocol::Tcp.table_name() == "tcp"@ && !SocketProtocol::Tcp.is_ipv6(),
        SocketProtocol::Tcp6.table_name() == "tcp6"@ && SocketProtocol::Tcp6.is_ipv6(),
        SocketProtocol::Udp.table_name() == "udp"@ && !SocketProtocol::Udp.is_ipv6(),
        SocketProtocol::Udp6.table_name() == "udp6"@ && SocketProtocol::Udp6.is_ipv6(),
        SocketProtocol::Tcp.label_text() == "TCP"@ && SocketProtocol::Tcp6.label_text() == "TCP"@,
        SocketProtocol::Udp.label_text() == "UDP"@ && SocketProtocol::Udp6.label_text() == "UDP"@,
{
}

/// An end of a connection is an address, a colon, and a port: what stands behind the last colon is the
/// port in hexadecimal, what stands before it is the address in the form of its family.
pub proof fn ends_are_an_address_and_a_port(address: Seq<char>, port: Seq<char>, ipv6: bool)
    requires
        !port.contains(':'),
    ensures
        ({
            let known = if ipv6 {
                ipv6_of(address) is Some
            } else {
                ipv4_of(address) is Some
            };
            match endpoint_of(address + ":"@ + port, ipv6) {
                Some(end) => known && unsigned_value(port, 16, 0xFFFF) == Some(end.port as nat)
                    && end.address == if ipv6 {
                    AddressModel::V6(ipv6_of(address)->0)
                } else {
                    AddressModel::V4(ipv4_of(address)->0)
                },
                None => !known || unsigned_value(port, 16, 0xFFFF) is None,
            }
        }),
{
    reveal_strlit(":");
    let value = address + ":"@ + port;
    lemma_last_position(value, ':', address.len() as int);
    assert(value.skip(address.len() as int + 1) =~= port);
    assert(value.take(address.len() as int) =~= address);
}

/// A text without a colon is no end of a connection.
pub proof fn texts_without_a_colon_are_no_ends(value: Seq<char>, ipv6: bool)
    requires
        !value.contains(':'),
    ensures
        endpoint_of(value, ipv6) is None,
{
    lemma_no_position(value, ':');
}

proof fn lemma_last_position(s: Seq<char>, c: char, i: int)
    requires
        0 <= i < s.len(),
        s[i] == c,
        forall|k: int| i < k < s.len() ==> #[trigger] s[k] != c,
    ensures
        last_position(s, c) == Some(i),
    decreases s.len(),
{
    if i < s.len() - 1 {
        assert(s[s.len() - 1] != c);
        lemma_last_position(s.drop_last(), c, i);
    }
}

proof fn lemma_no_position(s: Seq<char>, c: char)
    requires
        !s.contains(c),
    ensures
        last_position(s, c) is None,
    decreases s.len(),
{
    if s.len() > 0 {
        assert(s[s.len() - 1] == s.last());
        assert(!s.drop_last().contains(c)) by {
            if s.drop_last().contains(c) {
                let k = choose|k: int| 0 <= k < s.drop_last().len() && s.drop_last()[k] == c;
                assert(s[k] == c);
            }
        }
        lemma_no_position(s.drop_last(), c);
    }
}

/// A line of a socket table is read by its words: the second is the near end, the third the far end,
/// the fourth the state, the tenth the inode; and the socket is one of the table's own protocol.
pub proof fn socket_lines_are_read_by_their_words(line: Seq<char>, protocol: SocketProtocol, ipv6: bool)
    ensures
        ({
            let w = words(line);
            match socket_of(line, protocol, ipv6) {
                Some((inode, record)) => w.len() >= 10 && record.key.protocol == protocol
                    && endpoint_of(w[1], ipv6) == Some(record.key.local) && endpoint_of(w[2], ipv6)
                    == Some(record.key.remote) && state_of(protocol, w[3]) == Some(record.state)
                    && unsigned_value(w[9], 10, u64::MAX as nat) == Some(inode as nat),
                None => w.len() < 10 || endpoint_of(w[1], ipv6) is None || endpoint_of(w[2], ipv6)
                    is None || state_of(protocol, w[3]) is None || unsigned_value(
                    w[9],
                    10,
                    u64::MAX as nat,
                ) is None,
            }
        }),
{
}

/// The states of sockets have the names that the kernel gives them, by protocol.
pub proof fn states_have_their_names(protocol: SocketProtocol, value: Seq<char>)
    ensures
        ({
            let number = unsigned_value(value, 16, 255);
            let state = state_of(protocol, value);
            let tcp = protocol == SocketProtocol::Tcp || protocol == SocketProtocol::Tcp6;
            &&& state is Some <==> number is Some
            &&& number == Some(1nat) ==> state == Some("ESTABLISHED"@)
            &&& tcp && number == Some(2nat) ==> state == Some("SYN_SENT"@)
            &&& tcp && number == Some(3nat) ==> state == Some("SYN_RECV"@)
            &&& tcp && number == Some(4nat) ==> state == Some("FIN_WAIT1"@)
            &&& tcp && number == Some(5nat) ==> state == Some("FIN_WAIT2"@)
            &&& tcp && number == Some(6nat) ==> state == Some("TIME_WAIT"@)
            &&& tcp && number == Some(7nat) ==> state == Some("CLOSE"@)
            &&& tcp && number == Some(8nat) ==> state == Some("CLOSE_WAIT"@)
            &&& tcp && number == Some(9nat) ==> state == Some("LAST_ACK"@)
            &&& tcp && number == Some(10nat) ==> state == Some("LISTEN"@)
            &&& tcp && number == Some(11nat) ==> state == Some("CLOSING"@)
            &&& tcp && number == Some(12nat) ==> state == Some("NEW_SYN_RECV"@)
            &&& !tcp && number == Some(7nat) ==> state == Some("UNCONNECTED"@)
        }),
{
}

/// A state without a name is shown as two hexadecimal digits in upper case behind the mark `0x`.
pub proof fn nameless_states_are_shown_as_numbers(protocol: SocketProtocol, value: Seq<char>, n: nat)
    requires
        unsigned_value(value, 16, 255) == Some(n),
        n == 0 || n > 12 || (n != 1 && n != 7 && (protocol == SocketProtocol::Udp || protocol
            == SocketProtocol::Udp6)),
    ensures
        state_of(protocol, value) matches Some(s) && s.len() == 4 && s[0] == '0' && s[1] == 'x'
            && digit_value(s[2]) == Some((n / 16) as nat) && digit_value(s[3]) == Some(
            (n % 16) as nat,
        ) && !('a' <= s[2] && s[2] <= 'f') && !('a' <= s[3] && s[3] <= 'f'),
{
    reveal_strlit("0x");
}

/// The text of one of the tables.
pub open spec fn text_of_table(tables: SocketTables, protocol: SocketProtocol) -> Option<Seq<char>> {
    let file = match protocol {
        SocketProtocol::Tcp => tables.tcp,
        SocketProtocol::Tcp6 => tables.tcp6,
        SocketProtocol::Udp => tables.udp,
        SocketProtocol::Udp6 => tables.udp6,
    };
    match file {
        Some(text) => Some(text@),
        None => None,
    }
}

/// The protocol uses the longer addresses.
pub open spec fn has_groups(protocol: SocketProtocol) -> bool {
    protocol == SocketProtocol::Tcp6 || protocol == SocketProtocol::Udp6
}

/// A line below the heading of the table tells about a socket with this inode.
pub open spec fn tells_inode(
    rows: Seq<Seq<char>>,
    k: int,
    protocol: SocketProtocol,
    inode: u64,
) -> bool {
    1 <= k < rows.len() && (socket_of(rows[k], protocol, has_groups(protocol)) matches Some((i, _))
        && i == inode)
}

/// The table tells about no socket with this inode.
pub open spec fn table_is_silent(
    tables: SocketTables,
    protocol: SocketProtocol,
    inode: u64,
) -> bool {
    text_of_table(tables, protocol) matches Some(text) ==> forall|k: int|
        !#[trigger] tells_inode(lines(text), k, protocol, inode)
}

/// The order in which the tables are read.
pub open spec fn turn_of(protocol: SocketProtocol) -> int {
    match protocol {
        SocketProtocol::Tcp => 0,
        SocketProtocol::Tcp6 => 1,
        SocketProtocol::Udp => 2,
        SocketProtocol::Udp6 => 3,
    }
}

/// The table could not be read, or a line of it could not.
pub open spec fn table_is_incomplete(tables: SocketTables, protocol: SocketProtocol) -> bool {
    match text_of_table(tables, protocol) {
        Some(text) => exists|k: int|
            1 <= k < lines(text).len() && socket_of(
                #[trigger] lines(text)[k],
                protocol,
                has_groups(protocol),
            ) is None,
        None => true,
    }
}

proof fn lemma_rows(
    reading: SocketReading,
    rows: Seq<Seq<char>>,
    protocol: SocketProtocol,
    n: nat,
    inode: u64,
    k: int,
)
    requires
        ascending::<SocketEntry>(reading.sockets),
        n <= rows.len(),
    ensures
        ({
            let after = after_lines(reading, rows, protocol, n);
            let found = lookup::<SocketEntry>(after.sockets, inode_rank(inode));
            &&& ascending::<SocketEntry>(after.sockets)
            &&& after.read_any == reading.read_any
            &&& after.limited == (reading.limited || exists|j: int|
                1 <= j < n && socket_of(#[trigger] rows[j], protocol, has_groups(protocol)) is None)
            &&& (forall|j: int| j < n ==> !#[trigger] tells_inode(rows, j, protocol, inode))
                ==> found == lookup::<SocketEntry>(reading.sockets, inode_rank(inode))
            &&& k < n && tells_inode(rows, k, protocol, inode) && (forall|j: int|
                k < j < n ==> !#[trigger] tells_inode(rows, j, protocol, inode)) ==> found == Some(
                SocketEntryModel {
                    inode,
                    record: (socket_of(rows[k], protocol, has_groups(protocol))->0).1,
                },
            )
        }),
    decreases n,
{
    if n > 1 {
        let before = after_lines(reading, rows, protocol, (n - 1) as nat);
        let after = after_lines(reading, rows, protocol, n);
        lemma_rows(reading, rows, protocol, (n - 1) as nat, inode, k);
        let row = socket_of(rows[n - 1], protocol, has_groups(protocol));
        assert(tells_inode(rows, n - 1, protocol, inode) <==> (row matches Some((i, _)) && i
            == inode));
        match row {
            Some((i, record)) => {
                let item = SocketEntryModel { inode: i, record };
                lemma_placed_is_ascending::<SocketEntry>(before.sockets, item);
                lemma_inode_rank(i, inode);
                lemma_lookup_after_placing::<SocketEntry>(
                    before.sockets,
                    item,
                    inode_rank(inode),
                );
            },
            None => {
                assert(socket_of(rows[n - 1], protocol, has_groups(protocol)) is None);
            },
        }
        if exists|j: int|
            1 <= j < n && socket_of(#[trigger] rows[j], protocol, has_groups(protocol)) is None {
            let j = choose|j: int|
                1 <= j < n && socket_of(#[trigger] rows[j], protocol, has_groups(protocol)) is None;
            if j < n - 1 {
                assert(1 <= j < n - 1);
            }
        }
    }
}

proof fn lemma_table(
    reading: SocketReading,
    tables: SocketTables,
    protocol: SocketProtocol,
    inode: u64,
    k: int,
)
    requires
        ascending::<SocketEntry>(reading.sockets),
    ensures
        ({
            let text = text_of_table(tables, protocol);
            let after = after_table(reading, protocol, text);
            let found = lookup::<SocketEntry>(after.sockets, inode_rank(inode));
            &&& ascending::<SocketEntry>(after.sockets)
            &&& after.read_any == (reading.read_any || text is Some)
            &&& after.limited == (reading.limited || table_is_incomplete(tables, protocol))
            &&& table_is_silent(tables, protocol, inode) ==> found == lookup::<SocketEntry>(
                reading.sockets,
                inode_rank(inode),
            )
            &&& text is Some && tells_inode(lines(text->0), k, protocol, inode) && (forall|j: int|
                k < j ==> !#[trigger] tells_inode(lines(text->0), j, protocol, inode)) ==> found
                == Some(
                SocketEntryModel {
                    inode,
                    record: (socket_of(lines(text->0)[k], protocol, has_groups(protocol))->0).1,
                },
            )
        }),
{
    if let Some(text) = text_of_table(tables, protocol) {
        let start = SocketReading { read_any: true, ..reading };
        lemma_rows(start, lines(text), protocol, lines(text).len(), inode, k);
        lemma_rows(start, lines(text), protocol, lines(text).len(), inode, lines(text).len() as int);
    }
}

/// Every socket is known under the protocol of the table that told about it: the last line to tell
/// about an inode, in the order TCP, TCP over IPv6, UDP, UDP over IPv6, decides, and what it says is
/// read as a line of its own table.
pub proof fn sockets_have_the_protocol_of_their_table(
    tables: SocketTables,
    protocol: SocketProtocol,
    inode: u64,
    k: int,
)
    requires
        text_of_table(tables, protocol) matches Some(text) && tells_inode(
            lines(text),
            k,
            protocol,
            inode,
        ) && forall|j: int| k < j ==> !#[trigger] tells_inode(lines(text), j, protocol, inode),
        forall|later: SocketProtocol|
            turn_of(later) > turn_of(protocol) ==> #[trigger] table_is_silent(tables, later, inode),
    ensures
        ({
            let row = lines(text_of_table(tables, protocol)->0)[k];
            let found = lookup::<SocketEntry>(sockets_of(tables).sockets, inode_rank(inode));
            &&& found matches Some(entry) && entry.inode == inode && entry.record.key.protocol
                == protocol && socket_of(row, protocol, has_groups(protocol)) == Some(
                (inode, entry.record),
            ) && state_of(protocol, words(row)[3]) == Some(entry.record.state)
        }),
{
    let start = SocketReading { sockets: seq![], read_any: false, limited: false };
    let tcp = after_table(start, SocketProtocol::Tcp, contents_of(tables.tcp));
    let tcp6 = after_table(tcp, SocketProtocol::Tcp6, contents_of(tables.tcp6));
    let udp = after_table(tcp6, SocketProtocol::Udp, contents_of(tables.udp));
    lemma_table(start, tables, SocketProtocol::Tcp, inode, k);
    lemma_table(tcp, tables, SocketProtocol::Tcp6, inode, k);
    lemma_table(tcp6, tables, SocketProtocol::Udp, inode, k);
    lemma_table(udp, tables, SocketProtocol::Udp6, inode, k);
    assert(turn_of(SocketProtocol::Tcp6) > turn_of(protocol) ==> table_is_silent(
        tables,
        SocketProtocol::Tcp6,
        inode,
    ));
    assert(turn_of(SocketProtocol::Udp) > turn_of(protocol) ==> table_is_silent(
        tables,
        SocketProtocol::Udp,
        inode,
    ));
    assert(turn_of(SocketProtocol::Udp6) > turn_of(protocol) ==> table_is_silent(
        tables,
        SocketProtocol::Udp6,
        inode,
    ));
    socket_lines_are_read_by_their_words(
        lines(text_of_table(tables, protocol)->0)[k],
        protocol,
        has_groups(protocol),
    );
}

/// No socket is known that no table tells about; a reading is complete exactly where all four tables
/// and all of their lines could be read; and there is one where any table could be read.
pub proof fn sockets_come_from_the_tables(tables: SocketTables, inode: u64)
    ensures
        ascending::<SocketEntry>(sockets_of(tables).sockets),
        table_is_silent(tables, SocketProtocol::Tcp, inode) && table_is_silent(
            tables,
            SocketProtocol::Tcp6,
            inode,
        ) && table_is_silent(tables, SocketProtocol::Udp, inode) && table_is_silent(
            tables,
            SocketProtocol::Udp6,
            inode,
        ) ==> lookup::<SocketEntry>(sockets_of(tables).sockets, inode_rank(inode)) is None,
        sockets_of(tables).limited <==> table_is_incomplete(tables, SocketProtocol::Tcp)
            || table_is_incomplete(tables, SocketProtocol::Tcp6) || table_is_incomplete(
            tables,
            SocketProtocol::Udp,
        ) || table_is_incomplete(tables, SocketProtocol::Udp6),
        sockets_of(tables).read_any <==> tables.tcp is Some || tables.tcp6 is Some || tables.udp
            is Some || tables.udp6 is Some,
{
    let start = SocketReading { sockets: seq![], read_any: false, limited: false };
    let tcp = after_table(start, SocketProtocol::Tcp, contents_of(tables.tcp));
    let tcp6 = after_table(tcp, SocketProtocol::Tcp6, contents_of(tables.tcp6));
    let udp = after_table(tcp6, SocketProtocol::Udp, contents_of(tables.udp));
    lemma_table(start, tables, SocketProtocol::Tcp, inode, 0);
    lemma_table(tcp, tables, SocketProtocol::Tcp6, inode, 0);
    lemma_table(tcp6, tables, SocketProtocol::Udp, inode, 0);
    lemma_table(udp, tables, SocketProtocol::Udp6, inode, 0);
}

/// The link of a socket names its inode in decimal between `socket:[` and `]`; no other link names
/// one.
pub proof fn socket_links_name_their_inode(target: Seq<u8>, digits: Seq<char>)
    ensures
        byte_chars(target) == "socket:["@ + digits + "]"@ ==> match inode_of(target) {
            Some(inode) => unsigned_value(digits, 10, u64::MAX as nat) == Some(inode as nat),
            None => unsigned_value(digits, 10, u64::MAX as nat) is None,
        },
        inode_of(target) is Some ==> byte_chars(target) == "socket:["@ + byte_chars(
            target,
        ).subrange(8, target.len() - 1) + "]"@,
{
    reveal_strlit("socket:[");
    reveal_strlit("]");
    let text = byte_chars(target);
    let front = "socket:["@;
    assert(front.len() == 8);
    if text == front + digits + "]"@ {
        assert(text.subrange(0, 8) =~= front);
        assert(text.subrange(8, text.len() - 1) =~= digits);
        assert(text.last() == ']');
    }
    if inode_of(target) is Some {
        let rest = text.subrange(8, target.len() - 1);
        assert forall|i: int| 0 <= i < text.len() implies text[i] == (front + rest + "]"@)[i] by {
            if i < 8 {
                assert(text.subrange(0, 8)[i] == front[i]);
            }
        }
        assert(text =~= front + rest + "]"@);
    }
}

/// The inodes of a process are exactly those that its links name, each once.
pub proof fn inodes_are_those_of_the_links(links: Seq<Option<Seq<u8>>>, n: nat, inode: u64)
    requires
        n <= links.len(),
    ensures
        inodes_of(links, n).contains(inode) <==> exists|k: int|
            0 <= k < n && (#[trigger] links[k]) is Some && inode_of(links[k]->0) == Some(inode),
        inodes_of(links, n).no_duplicates(),
    decreases n,
{
    if n > 0 {
        let before = inodes_of(links, (n - 1) as nat);
        let after = inodes_of(links, n);
        inodes_are_those_of_the_links(links, (n - 1) as nat, inode);
        let last = links[n - 1];
        if last is Some && inode_of(last->0) is Some {
            let found = inode_of(last->0)->0;
            inodes_are_those_of_the_links(links, (n - 1) as nat, found);
            if !before.contains(found) {
                assert(after =~= before.push(found));
                assert(after[after.len() - 1] == found);
                if before.contains(inode) {
                    let k = choose|k: int| 0 <= k < before.len() && before[k] == inode;
                    assert(after[k] == inode);
                }
                if after.contains(inode) && inode != found {
                    let k = choose|k: int| 0 <= k < after.len() && after[k] == inode;
                    assert(before[k] == inode);
                }
                assert(after.no_duplicates());
            }
        }
        if exists|k: int|
            0 <= k < n && (#[trigger] links[k]) is Some && inode_of(links[k]->0) == Some(inode) {
            let k = choose|k: int|
                0 <= k < n && (#[trigger] links[k]) is Some && inode_of(links[k]->0) == Some(inode);
            if k < n - 1 {
                assert(0 <= k < n - 1);
            }
        }
    }
}

/// One more link makes the links incomplete exactly where it could not be read; without links nothing
/// is missing.
pub proof fn unread_links_are_known(links: Seq<Option<Seq<u8>>>, last: Option<Seq<u8>>)
    ensures
        !misses_link(seq![]),
        misses_link(links.push(last)) <==> misses_link(links) || last is None,
{
    let longer = links.push(last);
    assert(longer[links.len() as int] == last);
    if misses_link(links) {
        let i = choose|i: int| 0 <= i < links.len() && (#[trigger] links[i]) is None;
        assert(longer[i] is None);
    }
    if misses_link(longer) && last is Some {
        let i = choose|i: int| 0 <= i < longer.len() && (#[trigger] longer[i]) is None;
        assert(links[i] is None);
    }
}

/// The links that were read are taken as they are, and so are those that could not be.
pub proof fn links_are_taken_as_they_are(links: Seq<Option<Vec<u8>>>, i: int)
    requires
        0 <= i < links.len(),
    ensures
        link_models(links).len() == links.len(),
        links[i] is None ==> link_models(links)[i] is None,
        links[i] matches Some(target) ==> link_models(links)[i] == Some(target@),
{
}

} // verus!

//! Which connections an observation knows, who held them, and what a report says about them.

use vstd::prelude::*;

use crate::address::{address_text, colon_groups, compressed, dotted, AddressModel};
use crate::any_order::{
    among, any, concealers, holder_at, holds_place, inode_holds, lemma_tree_holders, list_holds,
    tellers,
};
use crate::boundary::{BoundaryModel, NetworkModel};
use crate::formatting::{joined, sanitized};
use crate::network::{
    after_pids, are_connections, associated_text, connection_at, connection_line, connection_lines,
    count_lines, detail_lines, held_sockets_become_connections, local_of, network_lines, remote_of,
    seen_connection, with_socket, with_sockets, AssociatedModel, ConnectionModel, NetworkConnection,
    NetworkObservationModel,
};
use crate::numbers::{decimal, numeral};
use crate::observation::is_survivor;
use crate::process::{process_of, ProcessModel};
use crate::sockets::{endpoint_text, inode_rank, key_place, EndpointModel, RecordModel, SocketEntry};
use crate::table::{lemma_lookup_after_placing, lookup};

verus! {

/// A process of the list is alive and has a socket of the connection at the place.
pub open spec fn has_socket_at(
    b: BoundaryModel,
    ps: Seq<ProcessModel>,
    pid: u32,
    j: int,
    place: Seq<Seq<int>>,
) -> bool {
    &&& process_of(ps, pid) matches Some(info) && info.state != 'Z' && info.state != 'X'
    &&& b.network_of(pid) matches Some(s) && 0 <= j < s.inodes.len() && (lookup::<SocketEntry>(
        s.sockets,
        inode_rank(s.inodes[j]),
    ) matches Some(entry) && key_place(entry.record.key) == place)
}

/// After a tree, a process is known to have held a connection exactly where that was known before or
/// it is alive in the tree and has a socket of the connection; its command is then the one it has now.
pub proof fn connections_are_held_by_those_with_their_sockets(
    model: NetworkObservationModel,
    b: BoundaryModel,
    ps: Seq<ProcessModel>,
    pids: Seq<u32>,
    place: Seq<Seq<int>>,
    pid: u32,
)
    requires
        model.wf(),
        pids.no_duplicates(),
    ensures
        ({
            let after = after_pids(model, b, ps, pids, pids.len());
            let seen = pids.contains(pid) && exists|j: int|
                #[trigger] has_socket_at(b, ps, pid, j, place);
            &&& seen ==> holder_at(after.connections, place, pid) == Some(
                AssociatedModel { pid, command: process_of(ps, pid)->0.command },
            )
            &&& !seen ==> holder_at(after.connections, place, pid) == holder_at(
                model.connections,
                place,
                pid,
            )
        }),
{
    lemma_tree_holders(model, b, ps, pids, pids.len(), place, pid);
    if pids.contains(pid) {
        let k = choose|k: int| 0 <= k < pids.len() && pids[k] == pid;
        assert(among(pids, pids.len(), pids[k]));
    }
    if holds_place(b, ps, pid, place) {
        let s = b.network_of(pid)->0;
        let j = choose|j: int| 0 <= j < s.inodes.len() && inode_holds(s, #[trigger] s.inodes[j], place);
        assert(has_socket_at(b, ps, pid, j, place));
    }
    if exists|j: int| #[trigger] has_socket_at(b, ps, pid, j, place) {
        let j = choose|j: int| #[trigger] has_socket_at(b, ps, pid, j, place);
        let s = b.network_of(pid)->0;
        assert(inode_holds(s, s.inodes[j], place));
        assert(list_holds(s, s.inodes.len(), place));
    }
}

/// Sockets are known to be readable exactly where that was known before or those of a living process
/// of the tree were read. They are known to be missing exactly where that was known before or those
/// of a living process of the tree were not read, or not all of them.
pub proof fn missing_sockets_are_known(
    model: NetworkObservationModel,
    b: BoundaryModel,
    ps: Seq<ProcessModel>,
    pids: Seq<u32>,
)
    requires
        model.wf(),
        pids.no_duplicates(),
    ensures
        ({
            let after = after_pids(model, b, ps, pids, pids.len());
            &&& after.backend_available <==> model.backend_available || exists|i: int|
                0 <= i < pids.len() && (process_of(ps, #[trigger] pids[i]) matches Some(info)
                    && info.state != 'Z' && info.state != 'X') && b.network_of(pids[i]) is Some
            &&& after.observation_limited <==> model.observation_limited || exists|i: int|
                0 <= i < pids.len() && (process_of(ps, #[trigger] pids[i]) matches Some(info)
                    && info.state != 'Z' && info.state != 'X') && (b.network_of(pids[i]) is None
                    || b.network_of(pids[i])->0.limited)
            &&& after.is_limited() <==> !after.backend_available || after.observation_limited
        }),
{
    lemma_tree_holders(model, b, ps, pids, pids.len(), seq![], 0);
    let told = tellers(b, ps);
    let hidden = concealers(b, ps);
    if any(pids, pids.len(), told) {
        let i = choose|i: int| 0 <= i < pids.len() && told(#[trigger] pids[i]);
        assert(is_survivor(ps, pids[i]));
    }
    if any(pids, pids.len(), hidden) {
        let i = choose|i: int| 0 <= i < pids.len() && hidden(#[trigger] pids[i]);
        assert(is_survivor(ps, pids[i]));
    }
    if exists|i: int|
        0 <= i < pids.len() && (process_of(ps, #[trigger] pids[i]) matches Some(info) && info.state
            != 'Z' && info.state != 'X') && b.network_of(pids[i]) is Some {
        let i = choose|i: int|
            0 <= i < pids.len() && (process_of(ps, #[trigger] pids[i]) matches Some(info)
                && info.state != 'Z' && info.state != 'X') && b.network_of(pids[i]) is Some;
        assert(told(pids[i]));
    }
    if exists|i: int|
        0 <= i < pids.len() && (process_of(ps, #[trigger] pids[i]) matches Some(info) && info.state
            != 'Z' && info.state != 'X') && (b.network_of(pids[i]) is None || b.network_of(
            pids[i],
        )->0.limited) {
        let i = choose|i: int|
            0 <= i < pids.len() && (process_of(ps, #[trigger] pids[i]) matches Some(info)
                && info.state != 'Z' && info.state != 'X') && (b.network_of(pids[i]) is None
                || b.network_of(pids[i])->0.limited);
        assert(hidden(pids[i]));
    }
}

/// A connection that was not known has the ends and the protocol of the socket it was seen with; a
/// known one keeps its own. Both are in the state that was seen last.
pub proof fn the_last_state_is_kept(
    connections: Seq<ConnectionModel>,
    pid: u32,
    command: Seq<char>,
    record: RecordModel,
)
    requires
        are_connections(connections),
    ensures
        ({
            let place = key_place(record.key);
            let known = connection_at(connections, place);
            let after = connection_at(with_socket(connections, pid, command, record), place);
            &&& after matches Some(c) && c.state == record.state
            &&& known is None ==> after->0.key == record.key
            &&& known is Some ==> after->0.key == known->0.key
        }),
{
    held_sockets_become_connections(connections, pid, command, record, key_place(record.key));
    let place = key_place(record.key);
    let item = seen_connection(connection_at(connections, place), pid, command, record);
    crate::table::lemma_slot_bounds::<NetworkConnection>(connections, place);
    lemma_lookup_after_placing::<NetworkConnection>(connections, item, place);
}

/// The sockets of a process are taken in one after another: each one that stands in the tables, and
/// no other.
pub proof fn sockets_are_taken_in_one_by_one(
    connections: Seq<ConnectionModel>,
    pid: u32,
    command: Seq<char>,
    s: NetworkModel,
    inode: u64,
)
    requires
        are_connections(connections),
    ensures
        ({
            let more = NetworkModel { inodes: s.inodes.push(inode), ..s };
            let before = with_sockets(connections, pid, command, s, s.inodes.len());
            let after = with_sockets(connections, pid, command, more, more.inodes.len());
            &&& s.inodes.len() == 0 ==> before == connections
            &&& lookup::<SocketEntry>(s.sockets, inode_rank(inode)) is None ==> after == before
            &&& lookup::<SocketEntry>(s.sockets, inode_rank(inode)) matches Some(entry) ==> after
                == with_socket(before, pid, command, entry.record)
        }),
{
    let more = NetworkModel { inodes: s.inodes.push(inode), ..s };
    lemma_same_sockets(connections, pid, command, s, more, s.inodes.len());
}

proof fn lemma_same_sockets(
    connections: Seq<ConnectionModel>,
    pid: u32,
    command: Seq<char>,
    s: NetworkModel,
    t: NetworkModel,
    n: nat,
)
    requires
        s.sockets == t.sockets,
        n <= s.inodes.len(),
        n <= t.inodes.len(),
        forall|i: int| 0 <= i < n ==> s.inodes[i] == t.inodes[i],
    ensures
        with_sockets(connections, pid, command, s, n) == with_sockets(
            connections,
            pid,
            command,
            t,
            n,
        ),
    decreases n,
{
    if n > 0 {
        lemma_same_sockets(connections, pid, command, s, t, (n - 1) as nat);
    }
}

/// The connections are parted by their far ends, in order: one more connection is added to those that
/// leave the machine where its far end does, and to those that stay otherwise.
pub proof fn connections_are_parted_by_their_far_ends(
    connections: Seq<ConnectionModel>,
    last: ConnectionModel,
)
    ensures
        remote_of(seq![]).len() == 0 && local_of(seq![]).len() == 0,
        last.key.remote.address.is_remote() ==> remote_of(connections.push(last)) == remote_of(
            connections,
        ).push(last) && local_of(connections.push(last)) == local_of(connections),
        !last.key.remote.address.is_remote() ==> remote_of(connections.push(last)) == remote_of(
            connections,
        ) && local_of(connections.push(last)) == local_of(connections).push(last),
{
    assert(connections.push(last).drop_last() =~= connections);
}

proof fn lemma_numeral_has_no_colon(n: nat, base: nat)
    requires
        2 <= base <= 16,
    ensures
        !numeral(n, base).contains(':'),
    decreases n,
{
    let s = numeral(n, base);
    if n >= base {
        assert(n / base < n) by (nonlinear_arith)
            requires
                n >= base,
                base >= 2,
        ;
        lemma_numeral_has_no_colon(n / base, base);
        let front = numeral(n / base, base);
        assert(n % base < base);
        assert(s =~= front.push(s.last()));
        assert forall|i: int| 0 <= i < s.len() implies s[i] != ':' by {
            if i < front.len() {
                assert(s[i] == front[i]);
            }
        }
    }
}

/// An end with four octets is shown as its address and its port with a colon between them; one with
/// eight groups stands in brackets, for its address has colons itself.
pub proof fn ends_are_shown_with_their_port(octets: Seq<u8>, groups: Seq<u16>, port: u16)
    requires
        octets.len() == 4,
        groups.len() == 8,
    ensures
        ({
            let four = AddressModel::V4(octets);
            let eight = AddressModel::V6(groups);
            &&& endpoint_text(EndpointModel { address: four, port }) == address_text(four) + ":"@
                + decimal(port as nat)
            &&& endpoint_text(EndpointModel { address: eight, port }) == "["@ + address_text(eight)
                + "]:"@ + decimal(port as nat)
        }),
{
    lemma_numeral_has_no_colon(octets[0] as nat, 10);
    lemma_numeral_has_no_colon(octets[1] as nat, 10);
    lemma_numeral_has_no_colon(octets[2] as nat, 10);
    lemma_numeral_has_no_colon(octets[3] as nat, 10);
    reveal_strlit(".");
    let text = dotted(octets);
    assert(!text.contains(':')) by {
        lemma_no_colon(decimal(octets[0] as nat), "."@);
        lemma_no_colon(decimal(octets[0] as nat) + "."@, decimal(octets[1] as nat));
        lemma_no_colon(decimal(octets[0] as nat) + "."@ + decimal(octets[1] as nat), "."@);
        lemma_no_colon(
            decimal(octets[0] as nat) + "."@ + decimal(octets[1] as nat) + "."@,
            decimal(octets[2] as nat),
        );
        lemma_no_colon(
            decimal(octets[0] as nat) + "."@ + decimal(octets[1] as nat) + "."@ + decimal(
                octets[2] as nat,
            ),
            "."@,
        );
        lemma_no_colon(
            decimal(octets[0] as nat) + "."@ + decimal(octets[1] as nat) + "."@ + decimal(
                octets[2] as nat,
            ) + "."@,
            decimal(octets[3] as nat),
        );
    }
    lemma_groups_have_a_colon(groups);
}

proof fn lemma_no_colon(a: Seq<char>, b: Seq<char>)
    requires
        !a.contains(':'),
        !b.contains(':'),
    ensures
        !(a + b).contains(':'),
{
    assert forall|i: int| 0 <= i < (a + b).len() implies (a + b)[i] != ':' by {
        if i < a.len() {
            assert((a + b)[i] == a[i]);
        } else {
            assert((a + b)[i] == b[i - a.len()]);
        }
    }
}

proof fn lemma_groups_have_a_colon(groups: Seq<u16>)
    requires
        groups.len() == 8,
    ensures
        compressed(groups).contains(':'),
{
    reveal_strlit("::ffff:");
    reveal_strlit("::");
    reveal_strlit(":");
    let text = compressed(groups);
    if crate::address::is_mapped(groups) {
        assert(text[0] == ':');
    } else {
        let start = crate::address::longest_run_start(groups, 8);
        let length = crate::address::zero_run(groups, start);
        if length > 1 {
            let front = colon_groups(groups.take(start));
            assert(text[front.len() as int] == ':');
        } else {
            let all = groups.map_values(|g: u16| numeral(g as nat, 16));
            let front = joined(all.drop_last(), ":"@);
            assert(text[front.len() as int] == ':');
        }
    }
}

/// A connection is described by its protocol, both of its ends, its state, and whether it leaves the
/// machine.
pub proof fn connections_are_described(c: ConnectionModel)
    ensures
        c.key.remote.address.is_remote() ==> connection_line(c) == "    - "@
            + c.key.protocol.label_text() + " local "@ + endpoint_text(c.key.local) + " -> remote "@
            + endpoint_text(c.key.remote) + " ("@ + c.state + "; "@ + "remote connection"@ + ")"@,
        !c.key.remote.address.is_remote() ==> connection_line(c) == "    - "@
            + c.key.protocol.label_text() + " local "@ + endpoint_text(c.key.local) + " -> remote "@
            + endpoint_text(c.key.remote) + " ("@ + c.state + "; "@ + "local connection"@ + ")"@,
{
}

/// A process that held a connection is shown with its command, and as surviving exactly where the last
/// snapshot is complete and shows it alive.
pub proof fn holders_are_shown(
    ps: Seq<ProcessModel>,
    available: bool,
    holder: AssociatedModel,
    c: ConnectionModel,
)
    ensures
        ({
            let pid = "PID "@ + decimal(holder.pid as nat);
            let command = ": "@ + sanitized(holder.command);
            let alive = process_of(ps, holder.pid) matches Some(info) && info.state != 'Z'
                && info.state != 'X';
            &&& !available ==> associated_text(ps, available, holder) == pid
                + " (survivor status unavailable)"@ + command
            &&& available && alive ==> associated_text(ps, available, holder) == pid
                + " (surviving)"@ + command
            &&& available && !alive ==> associated_text(ps, available, holder) == pid + command
        }),
        c.processes.len() > 0 ==> connection_lines(c, ps, available) == seq![
            connection_line(c),
            "      Associated processes: "@ + joined(
                c.processes.map_values(|p: AssociatedModel| associated_text(ps, available, p)),
                ", "@,
            ),
        ],
{
    reveal_strlit("");
    let pid = "PID "@ + decimal(holder.pid as nat);
    let shown = associated_text(ps, available, holder);
    let command = ": "@ + sanitized(holder.command);
    if !available {
        assert(shown =~= pid + " (survivor status unavailable)"@ + command);
    } else if is_survivor(ps, holder.pid) {
        assert(shown =~= pid + " (surviving)"@ + command);
    } else {
        assert(shown =~= pid + command);
    }
}

/// The lines about the connections of a list, one after another.
pub open spec fn lines_of_all(
    connections: Seq<ConnectionModel>,
    ps: Seq<ProcessModel>,
    available: bool,
) -> Seq<Seq<char>> {
    connections.fold_left(
        seq![],
        |lines: Seq<Seq<char>>, c: ConnectionModel| lines + connection_lines(c, ps, available),
    )
}

/// The network part of a report counts the connections and describes the first eight of them; it says
/// so where there was none, and where nothing could be read. Its last line says what may have been
/// missed.
pub proof fn connections_are_reported(
    model: NetworkObservationModel,
    ps: Seq<ProcessModel>,
    available: bool,
)
    ensures
        ({
            let lines = network_lines(model, ps, available);
            let all = model.connections;
            let shown = if all.len() <= 8 {
                all
            } else {
                all.take(8)
            };
            let last = if model.observation_limited {
                "  Network observation limits: endpoints are sampled from process socket descriptors and /proc network tables; short-lived sockets or restricted processes may be missed; payloads are not captured."@
            } else {
                "  Network observation limits: endpoints are sampled from process socket descriptors and /proc network tables; short-lived sockets may be missed; payloads are not captured."@
            };
            &&& !model.backend_available ==> lines == seq![
                "  Network connections: unavailable"@,
                "  Network observation limits: Linux /proc network metadata was unavailable; payloads are not captured."@,
            ]
            &&& model.backend_available && all.len() == 0 ==> lines == seq![
                "  Network connections: none observed"@,
                last,
            ]
            &&& model.backend_available && all.len() > 0 ==> lines == seq![
                "  Network connections:"@,
                "    Connection count: "@ + decimal(all.len()),
                "    Local connections: "@ + decimal(local_of(all).len()),
                "    Remote connections: "@ + decimal(remote_of(all).len()),
            ] + lines_of_all(shown, ps, available) + seq![last]
        }),
{
    let lines = network_lines(model, ps, available);
    let all = model.connections;
    let shown = if all.len() <= 8 {
        all
    } else {
        all.take(8)
    };
    if model.backend_available && all.len() > 0 {
        lemma_detail_lines(all, ps, available, shown.len());
        assert(all.take(shown.len() as int) =~= shown);
        let last = lines.last();
        assert(lines =~= count_lines(all) + lines_of_all(shown, ps, available) + seq![last]);
    } else if model.backend_available {
        assert(lines =~= seq!["  Network connections: none observed"@, lines.last()]);
    }
}

proof fn lemma_detail_lines(
    connections: Seq<ConnectionModel>,
    ps: Seq<ProcessModel>,
    available: bool,
    n: nat,
)
    requires
        n <= connections.len(),
    ensures
        detail_lines(connections, ps, available, n) == lines_of_all(
            connections.take(n as int),
            ps,
            available,
        ),
    decreases n,
{
    reveal(Seq::fold_left);
    if n > 0 {
        lemma_detail_lines(connections, ps, available, (n - 1) as nat);
        assert(connections.take(n as int).drop_last() =~= connections.take(n - 1));
    }
}

} // verus!

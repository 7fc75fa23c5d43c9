//! The network connections of the observed processes.

use vstd::prelude::*;

use crate::boundary::{BoundaryModel, NetworkModel, ObservationBoundary};
use crate::formatting::{join, joined, sanitize_process_text, sanitized, MAX_DETAIL_ITEMS};
use crate::numbers::{decimal, push_decimal};
use crate::order::Comparison;
use crate::output::ReportText;
use crate::process::{compare_pids, pid_rank, process_of, ProcessInfo, ProcessModel};
use crate::sockets::{
    compare_keys, endpoint_text, format_network_endpoint, inode_rank, key_place, KeyModel,
    NetworkConnectionKey, RecordModel, SocketEntry, SocketRecord,
};
use crate::table::{
    ascending, lemma_lookup_after_placing, lemma_lookup_finds_items, lemma_placed_holds,
    lemma_placed_is_ascending, lemma_placing_after_removal, lemma_slot_bounds, lookup, placed, slot,
    Keyed, Table,
};
use crate::text::texts;

verus! {

/// A process that held a connection, with its command at that time.
pub struct AssociatedProcess {
    pub pid: u32,
    pub command: String,
}

/// What an [`AssociatedProcess`] says.
pub struct AssociatedModel {
    pub pid: u32,
    pub command: Seq<char>,
}

impl View for AssociatedProcess {
    type V = AssociatedModel;

    open spec fn view(&self) -> AssociatedModel {
        AssociatedModel { pid: self.pid, command: self.command@ }
    }
}

impl Keyed for AssociatedProcess {
    type Key = u32;

    open spec fn rank(item: AssociatedModel) -> Seq<Seq<int>> {
        pid_rank(item.pid)
    }

    open spec fn key_rank(key: &u32) -> Seq<Seq<int>> {
        pid_rank(*key)
    }

    fn compare(&self, other: &Self) -> (comparison: Comparison) {
        compare_pids(self.pid, other.pid)
    }

    fn compare_to_key(&self, key: &u32) -> (comparison: Comparison) {
        compare_pids(self.pid, *key)
    }
}

/// An observed connection.
pub struct NetworkConnection {
    pub key: NetworkConnectionKey,
    pub state: String,
    pub processes: Table<AssociatedProcess>,
}

/// What a [`NetworkConnection`] says.
pub struct ConnectionModel {
    pub key: KeyModel,
    pub state: Seq<char>,
    pub processes: Seq<AssociatedModel>,
}

impl View for NetworkConnection {
    type V = ConnectionModel;

    open spec fn view(&self) -> ConnectionModel {
        ConnectionModel { key: self.key@, state: self.state@, processes: self.processes@ }
    }
}

impl Keyed for NetworkConnection {
    type Key = NetworkConnectionKey;

    open spec fn rank(item: ConnectionModel) -> Seq<Seq<int>> {
        key_place(item.key)
    }

    open spec fn key_rank(key: &NetworkConnectionKey) -> Seq<Seq<int>> {
        key_place(key@)
    }

    fn compare(&self, other: &Self) -> (comparison: Comparison) {
        compare_keys(&self.key, &other.key)
    }

    fn compare_to_key(&self, key: &NetworkConnectionKey) -> (comparison: Comparison) {
        compare_keys(&self.key, key)
    }
}

impl NetworkConnection {
    /// The name of the protocol in a report.
    pub fn protocol_label(&self) -> (label: &'static str)
        ensures
            label@ == self@.key.protocol.label_text(),
    {
        self.key.protocol.label()
    }

    /// The text of the far end.
    pub fn remote_endpoint(&self) -> (text: String)
        ensures
            text@ == endpoint_text(self@.key.remote),
    {
        format_network_endpoint(&self.key.remote)
    }
}

/// All that is known about the network use of the observed processes.
pub struct NetworkObservation {
    connections: Table<NetworkConnection>,
    backend_available: bool,
    observation_limited: bool,
}

/// What a [`NetworkObservation`] says.
pub struct NetworkObservationModel {
    pub connections: Seq<ConnectionModel>,
    pub backend_available: bool,
    pub observation_limited: bool,
}

impl View for NetworkObservation {
    type V = NetworkObservationModel;

    closed spec fn view(&self) -> NetworkObservationModel {
        NetworkObservationModel {
            connections: self.connections@,
            backend_available: self.backend_available,
            observation_limited: self.observation_limited,
        }
    }
}

/// Connections in ascending order, each with its processes in ascending order and with at least one.
pub open spec fn are_connections(connections: Seq<ConnectionModel>) -> bool {
    &&& ascending::<NetworkConnection>(connections)
    &&& forall|i: int|
        0 <= i < connections.len() ==> ascending::<AssociatedProcess>(
            (#[trigger] connections[i]).processes,
        ) && connections[i].processes.len() > 0
}

impl NetworkObservationModel {
    /// Everything stands in ascending order, and where a connection is known, sockets could be read.
    pub open spec fn wf(self) -> bool {
        &&& are_connections(self.connections)
        &&& self.connections.len() > 0 ==> self.backend_available
    }

    /// Something about the network use of the processes is not known.
    pub open spec fn is_limited(self) -> bool {
        !self.backend_available || self.observation_limited
    }
}

/// The connection of a socket after a process was seen to hold it: its state is the one seen, and
/// the process is among those that held it.
pub open spec fn seen_connection(
    known: Option<ConnectionModel>,
    pid: u32,
    command: Seq<char>,
    record: RecordModel,
) -> ConnectionModel {
    let process = AssociatedModel { pid, command };
    match known {
        Some(connection) => ConnectionModel {
            key: connection.key,
            state: record.state,
            processes: placed::<AssociatedProcess>(connection.processes, process),
        },
        None => ConnectionModel { key: record.key, state: record.state, processes: seq![process] },
    }
}

/// The connections after a process was seen to hold a socket.
pub open spec fn with_socket(
    connections: Seq<ConnectionModel>,
    pid: u32,
    command: Seq<char>,
    record: RecordModel,
) -> Seq<ConnectionModel> {
    placed::<NetworkConnection>(
        connections,
        seen_connection(
            lookup::<NetworkConnection>(connections, key_place(record.key)),
            pid,
            command,
            record,
        ),
    )
}

/// The connections after the first `n` sockets of a process were seen.
pub open spec fn with_sockets(
    connections: Seq<ConnectionModel>,
    pid: u32,
    command: Seq<char>,
    snapshot: NetworkModel,
    n: nat,
) -> Seq<ConnectionModel>
    decreases n,
{
    if n == 0 {
        connections
    } else {
        let before = with_sockets(connections, pid, command, snapshot, (n - 1) as nat);
        match lookup::<SocketEntry>(snapshot.sockets, inode_rank(snapshot.inodes[n - 1])) {
            Some(entry) => with_socket(before, pid, command, entry.record),
            None => before,
        }
    }
}

/// The observation after one process.
pub open spec fn after_process(
    model: NetworkObservationModel,
    pid: u32,
    command: Seq<char>,
    snapshot: Option<NetworkModel>,
) -> NetworkObservationModel {
    match snapshot {
        Some(s) => NetworkObservationModel {
            connections: with_sockets(model.connections, pid, command, s, s.inodes.len()),
            backend_available: true,
            observation_limited: model.observation_limited || s.limited,
        },
        None => NetworkObservationModel { observation_limited: true, ..model },
    }
}

/// The observation after the first `n` of the given processes, of which only those count that are
/// alive.
pub open spec fn after_pids(
    model: NetworkObservationModel,
    boundary: BoundaryModel,
    processes: Seq<ProcessModel>,
    pids: Seq<u32>,
    n: nat,
) -> NetworkObservationModel
    decreases n,
{
    if n == 0 {
        model
    } else {
        let before = after_pids(model, boundary, processes, pids, (n - 1) as nat);
        let pid = pids[n - 1];
        match process_of(processes, pid) {
            Some(info) => if info.is_alive() {
                after_process(before, pid, info.command, boundary.network_of(pid))
            } else {
                before
            },
            None => before,
        }
    }
}

/// Connections stay in order when a socket is added.
pub proof fn lemma_with_socket(
    connections: Seq<ConnectionModel>,
    pid: u32,
    command: Seq<char>,
    record: RecordModel,
)
    requires
        are_connections(connections),
    ensures
        are_connections(with_socket(connections, pid, command, record)),
{
    let known = lookup::<NetworkConnection>(connections, key_place(record.key));
    let item = seen_connection(known, pid, command, record);
    let process = AssociatedModel { pid, command };
    match known {
        Some(connection) => {
            lemma_slot_bounds::<NetworkConnection>(
                connections,
                key_place(record.key),
            );
            let at = slot::<NetworkConnection>(connections, key_place(record.key));
            assert(connections[at] == connection);
            assert(ascending::<AssociatedProcess>(connections[at].processes));
            lemma_placed_is_ascending::<AssociatedProcess>(connection.processes, process);
            lemma_placed_holds::<AssociatedProcess>(connection.processes, process);
            assert(item.processes.contains(process));
        },
        None => {},
    }
    lemma_placed_is_ascending::<NetworkConnection>(connections, item);
    lemma_placed_holds::<NetworkConnection>(connections, item);
    let after = with_socket(connections, pid, command, record);
    assert(item.processes.len() > 0);
    assert forall|i: int| 0 <= i < after.len() implies ascending::<AssociatedProcess>(
        (#[trigger] after[i]).processes,
    ) && after[i].processes.len() > 0 by {
        if after[i] != item {
            assert(connections.contains(after[i]));
            let k = choose|k: int| 0 <= k < connections.len() && connections[k] == after[i];
            assert(ascending::<AssociatedProcess>(connections[k].processes));
        }
    }
}

/// The connections to other machines, in order.
pub open spec fn remote_of(connections: Seq<ConnectionModel>) -> Seq<ConnectionModel>
    decreases connections.len(),
{
    if connections.len() == 0 {
        seq![]
    } else {
        let before = remote_of(connections.drop_last());
        if connections.last().key.is_remote() {
            before.push(connections.last())
        } else {
            before
        }
    }
}

/// The contents of a list of connections.
pub open spec fn connection_models(list: Seq<&NetworkConnection>) -> Seq<ConnectionModel> {
    list.map_values(|c: &NetworkConnection| c@)
}

/// What a report says about a process beside its identifier: whether it survived.
pub open spec fn survival_mark(
    processes: Seq<ProcessModel>,
    snapshot_available: bool,
    pid: u32,
) -> Seq<char> {
    if !snapshot_available {
        " (survivor status unavailable)"@
    } else if process_of(processes, pid) matches Some(info) && info.is_alive() {
        " (surviving)"@
    } else {
        ""@
    }
}

/// A process that held a connection as a report shows it.
pub open spec fn associated_text(
    processes: Seq<ProcessModel>,
    snapshot_available: bool,
    process: AssociatedModel,
) -> Seq<char> {
    "PID "@ + decimal(process.pid as nat) + survival_mark(
        processes,
        snapshot_available,
        process.pid,
    ) + ": "@ + sanitized(process.command)
}

/// The line that describes a connection.
pub open spec fn connection_line(connection: ConnectionModel) -> Seq<char> {
    "    - "@ + connection.key.protocol.label_text() + " local "@ + endpoint_text(
        connection.key.local,
    ) + " -> remote "@ + endpoint_text(connection.key.remote) + " ("@ + connection.state + "; "@ + (
    if connection.key.is_remote() {
        "remote connection"@
    } else {
        "local connection"@
    }) + ")"@
}

/// The lines about a connection and the processes that held it.
pub open spec fn connection_lines(
    connection: ConnectionModel,
    processes: Seq<ProcessModel>,
    snapshot_available: bool,
) -> Seq<Seq<char>> {
    let holders = connection.processes.map_values(
        |p: AssociatedModel| associated_text(processes, snapshot_available, p),
    );
    if holders.len() == 0 {
        seq![connection_line(connection)]
    } else {
        seq![
            connection_line(connection),
            "      Associated processes: "@ + joined(holders, ", "@),
        ]
    }
}

/// The lines about the first `n` connections.
pub open spec fn detail_lines(
    connections: Seq<ConnectionModel>,
    processes: Seq<ProcessModel>,
    snapshot_available: bool,
    n: nat,
) -> Seq<Seq<char>>
    decreases n,
{
    if n == 0 {
        seq![]
    } else {
        detail_lines(connections, processes, snapshot_available, (n - 1) as nat)
            + connection_lines(connections[n - 1], processes, snapshot_available)
    }
}

/// The lines that count the connections.
pub open spec fn count_lines(connections: Seq<ConnectionModel>) -> Seq<Seq<char>> {
    seq![
        "  Network connections:"@,
        "    Connection count: "@ + decimal(connections.len()),
        "    Local connections: "@ + decimal(local_of(connections).len()),
        "    Remote connections: "@ + decimal(remote_of(connections).len()),
    ]
}

/// The network part of a report.
pub open spec fn network_lines(
    model: NetworkObservationModel,
    processes: Seq<ProcessModel>,
    snapshot_available: bool,
) -> Seq<Seq<char>> {
    if !model.backend_available {
        seq![
            "  Network connections: unavailable"@,
            "  Network observation limits: Linux /proc network metadata was unavailable; payloads are not captured."@,
        ]
    } else {
        let connections = model.connections;
        let shown: nat = if connections.len() < MAX_DETAIL_ITEMS {
            connections.len()
        } else {
            MAX_DETAIL_ITEMS as nat
        };
        let body = if connections.len() == 0 {
            seq!["  Network connections: none observed"@]
        } else {
            count_lines(connections) + detail_lines(connections, processes, snapshot_available, shown)
        };
        let limits = if model.observation_limited {
            "  Network observation limits: endpoints are sampled from process socket descriptors and /proc network tables; short-lived sockets or restricted processes may be missed; payloads are not captured."@
        } else {
            "  Network observation limits: endpoints are sampled from process socket descriptors and /proc network tables; short-lived sockets may be missed; payloads are not captured."@
        };
        body.push(limits)
    }
}

impl NetworkObservation {
    /// An observation of nothing yet.
    pub fn new() -> (observation: Self)
        ensures
            observation@.wf(),
            observation@ == (NetworkObservationModel {
                connections: seq![],
                backend_available: false,
                observation_limited: false,
            }),
    {
        NetworkObservation {
            connections: Table::new(),
            backend_available: false,
            observation_limited: false,
        }
    }

    /// Takes in the sockets of the processes of a tree.
    pub fn observe(
        &mut self,
        boundary: &ObservationBoundary,
        processes: &Table<ProcessInfo>,
        current_tree: &Vec<u32>,
    )
        requires
            old(self)@.wf(),
            boundary@.wf(),
            processes.wf(),
        ensures
            final(self)@.wf(),
            final(self)@ == after_pids(
                old(self)@,
                boundary@,
                processes@,
                current_tree@,
                current_tree@.len(),
            ),
    {
        self.observe_pids(boundary, processes, current_tree);
    }

    /// Takes in the sockets of those of the given processes that are alive.
    pub fn observe_pids(
        &mut self,
        boundary: &ObservationBoundary,
        processes: &Table<ProcessInfo>,
        pids: &Vec<u32>,
    )
        requires
            old(self)@.wf(),
            boundary@.wf(),
            processes.wf(),
        ensures
            final(self)@.wf(),
            final(self)@ == after_pids(old(self)@, boundary@, processes@, pids@, pids@.len()),
    {
        let ghost start = self@;
        for i in 0..pids.len()
            invariant
                boundary@.wf(),
                processes.wf(),
                self@.wf(),
                self@ == after_pids(start, boundary@, processes@, pids@, i as nat),
        {
            let pid: u32 = pids[i];
            match processes.get(&pid) {
                Some(info) => {
                    if info.is_alive() {
                        self.observe_process(boundary, pid, info);
                    }
                },
                None => {},
            }
        }
    }

    /// Takes in the sockets of one process.
    pub fn observe_process(&mut self, boundary: &ObservationBoundary, pid: u32, info: &ProcessInfo)
        requires
            old(self)@.wf(),
            boundary@.wf(),
        ensures
            final(self)@.wf(),
            final(self)@ == after_process(
                old(self)@,
                pid,
                info@.command,
                boundary@.network_of(pid),
            ),
    {
        match boundary.network_snapshot(pid) {
            Some(snapshot) => {
                let ghost start = self.connections@;
                let ghost command = info@.command;
                self.backend_available = true;
                self.observation_limited = self.observation_limited || snapshot.limited;
                let ghost available = self.backend_available;
                let ghost limited = self.observation_limited;
                for i in 0..snapshot.inodes.len()
                    invariant
                        command == info@.command,
                        snapshot.wf(),
                        self.backend_available == available,
                        self.observation_limited == limited,
                        are_connections(self.connections@),
                        self.connections@ == with_sockets(start, pid, command, snapshot@, i as nat),
                {
                    match snapshot.sockets.get(&snapshot.inodes[i]) {
                        Some(entry) => {
                            self.observe_socket(pid, &info.command, &entry.record);
                        },
                        None => {},
                    }
                }
            },
            None => {
                self.observation_limited = true;
            },
        }
    }

    /// Takes in one socket that a process holds.
    fn observe_socket(&mut self, pid: u32, command: &String, record: &SocketRecord)
        requires
            are_connections(old(self).connections@),
        ensures
            are_connections(final(self).connections@),
            final(self).connections@ == with_socket(
                old(self).connections@,
                pid,
                command@,
                record@,
            ),
            final(self).backend_available == old(self).backend_available,
            final(self).observation_limited == old(self).observation_limited,
    {
        let ghost before = self.connections@;
        proof {
            lemma_with_socket(before, pid, command@, record@);
        }
        match self.connections.find(&record.key) {
            Some(i) => {
                assert(ascending::<AssociatedProcess>(before[i as int].processes));
                let known = self.connections.take_at(i);
                let key = known.key;
                let mut processes = known.processes;
                processes.place(AssociatedProcess { pid, command: command.clone() });
                let connection = NetworkConnection { key, state: record.state.clone(), processes };
                proof {
                    lemma_placing_after_removal::<NetworkConnection>(
                        before,
                        i as int,
                        connection@,
                    );
                }
                self.connections.place(connection);
            },
            None => {
                let mut processes: Table<AssociatedProcess> = Table::new();
                processes.place(AssociatedProcess { pid, command: command.clone() });
                assert(processes@ =~= seq![AssociatedModel { pid, command: command@ }]);
                self.connections.place(
                    NetworkConnection { key: record.key, state: record.state.clone(), processes },
                );
            },
        }
    }

    /// The connections to other machines, in order.
    pub fn remote_connections(&self) -> (remote: Vec<&NetworkConnection>)
        ensures
            connection_models(remote@) == remote_of(self@.connections),
    {
        let mut remote: Vec<&NetworkConnection> = Vec::new();
        let ghost all = self.connections@;
        let count: usize = self.connections.len();
        assert(connection_models(remote@) =~= remote_of(all.take(0)));
        for i in 0..count
            invariant
                all == self.connections@,
                count == all.len(),
                connection_models(remote@) =~= remote_of(all.take(i as int)),
        {
            let ghost before = connection_models(remote@);
            let connection = self.connections.at(i);
            assert(all.take(i + 1).drop_last() =~= all.take(i as int));
            assert(all.take(i + 1).last() == all[i as int]);
            if connection.key.is_remote() {
                remote.push(connection);
                assert(connection_models(remote@) =~= before.push(connection@));
            }
        }
        assert(all.take(count as int) =~= all);
        remote
    }

    /// Whether something about the network use of the processes is not known.
    pub fn is_limited(&self) -> (limited: bool)
        ensures
            limited == self@.is_limited(),
    {
        !self.backend_available || self.observation_limited
    }

    /// Adds the lines about one connection.
    fn print_connection(
        connection: &NetworkConnection,
        processes: &Table<ProcessInfo>,
        snapshot_available: bool,
        report: &mut ReportText,
    )
        requires
            processes.wf(),
        ensures
            final(report)@ == old(report)@ + connection_lines(
                connection@,
                processes@,
                snapshot_available,
            ),
    {
        let ghost before = report@;
        let mut line = "    - ".to_owned();
        line.append(connection.protocol_label());
        line.append(" local ");
        line.append(format_network_endpoint(&connection.key.local).as_str());
        line.append(" -> remote ");
        line.append(connection.remote_endpoint().as_str());
        line.append(" (");
        line.append(connection.state.as_str());
        line.append("; ");
        if connection.key.is_remote() {
            line.append("remote connection");
        } else {
            line.append("local connection");
        }
        line.append(")");
        report.push(line);
        let mut associated: Vec<String> = Vec::new();
        let ghost all = connection@.processes.map_values(
            |p: AssociatedModel| associated_text(processes@, snapshot_available, p),
        );
        let count: usize = connection.processes.len();
        for i in 0..count
            invariant
                processes.wf(),
                count == connection@.processes.len(),
                all == connection@.processes.map_values(
                    |p: AssociatedModel| associated_text(processes@, snapshot_available, p),
                ),
                texts(associated@) =~= all.take(i as int),
        {
            let ghost known = texts(associated@);
            let holder = connection.processes.at(i);
            let mut text = "PID ".to_owned();
            push_decimal(&mut text, holder.pid as u64);
            if !snapshot_available {
                text.append(" (survivor status unavailable)");
            } else {
                match processes.get(&holder.pid) {
                    Some(info) => {
                        if info.is_alive() {
                            text.append(" (surviving)");
                        } else {
                            text.append("");
                        }
                    },
                    None => {
                        text.append("");
                    },
                }
            }
            text.append(": ");
            text.append(sanitize_process_text(holder.command.as_str()).as_str());
            assert(text@ == all[i as int]);
            associated.push(text);
            assert(texts(associated@) =~= known.push(all[i as int]));
            assert(all.take(i + 1) =~= all.take(i as int).push(all[i as int]));
        }
        assert(all.take(count as int) =~= all);
        if count > 0 {
            let mut text = "      Associated processes: ".to_owned();
            text.append(join(&associated, ", ").as_str());
            report.push(text);
        }
        assert(report@ =~= before + connection_lines(connection@, processes@, snapshot_available));
    }

    /// Adds the lines that count the connections.
    fn print_counts(&self, report: &mut ReportText)
        ensures
            final(report)@ == old(report)@ + count_lines(self@.connections),
    {
        let ghost before = report@;
        let ghost connections = self.connections@;
        let total: usize = self.connections.len();
        let remote_count: usize = self.remote_connections().len();
        proof {
            connections_are_local_or_remote(connections);
        }
        report.push_text("  Network connections:");
        let mut line = "    Connection count: ".to_owned();
        push_decimal(&mut line, total as u64);
        report.push(line);
        let mut line = "    Local connections: ".to_owned();
        push_decimal(&mut line, (total - remote_count) as u64);
        report.push(line);
        let mut line = "    Remote connections: ".to_owned();
        push_decimal(&mut line, remote_count as u64);
        report.push(line);
        assert(report@ =~= before + count_lines(connections));
    }

    /// Adds the network part of a report.
    #[verifier::rlimit(40)]
    pub fn print_report(
        &self,
        processes: &Table<ProcessInfo>,
        process_snapshot_available: bool,
        report: &mut ReportText,
    )
        requires
            processes.wf(),
        ensures
            final(report)@ == old(report)@ + network_lines(
                self@,
                processes@,
                process_snapshot_available,
            ),
    {
        let ghost before = report@;
        if !self.backend_available {
            report.push_text("  Network connections: unavailable");
            report.push_text(
                "  Network observation limits: Linux /proc network metadata was unavailable; payloads are not captured.",
            );
            assert(report@ =~= before + network_lines(
                self@,
                processes@,
                process_snapshot_available,
            ));
            return;
        }
        let ghost connections = self.connections@;
        if self.connections.is_empty() {
            report.push_text("  Network connections: none observed");
        } else {
            let total: usize = self.connections.len();
            self.print_counts(report);
            let ghost header = report@;
            let shown: usize = if total < MAX_DETAIL_ITEMS {
                total
            } else {
                MAX_DETAIL_ITEMS
            };
            for i in 0..shown
                invariant
                    processes.wf(),
                    connections == self.connections@,
                    shown <= connections.len(),
                    report@ =~= header + detail_lines(
                        connections,
                        processes@,
                        process_snapshot_available,
                        i as nat,
                    ),
            {
                Self::print_connection(
                    self.connections.at(i),
                    processes,
                    process_snapshot_available,
                    report,
                );
            }
        }
        if self.observation_limited {
            report.push_text(
                "  Network observation limits: endpoints are sampled from process socket descriptors and /proc network tables; short-lived sockets or restricted processes may be missed; payloads are not captured.",
            );
        } else {
            report.push_text(
                "  Network observation limits: endpoints are sampled from process socket descriptors and /proc network tables; short-lived sockets may be missed; payloads are not captured.",
            );
        }
        assert(report@ =~= before + network_lines(self@, processes@, process_snapshot_available));
    }
}

/// A process held the connection.
pub open spec fn is_held_by(connection: ConnectionModel, pid: u32) -> bool {
    lookup::<AssociatedProcess>(connection.processes, pid_rank(pid)) is Some
}

/// The later connection is the earlier one, held by no fewer processes.
pub open spec fn continues(earlier: ConnectionModel, later: ConnectionModel) -> bool {
    &&& later.key == earlier.key
    &&& forall|pid: u32| #[trigger] is_held_by(earlier, pid) ==> is_held_by(later, pid)
}

/// The connection with the given place.
pub open spec fn connection_at(connections: Seq<ConnectionModel>, place: Seq<Seq<int>>) -> Option<
    ConnectionModel,
> {
    lookup::<NetworkConnection>(connections, place)
}

/// A socket that a process holds becomes a connection in the state that was seen and held by that
/// process. The other connections stay as they were.
pub proof fn held_sockets_become_connections(
    connections: Seq<ConnectionModel>,
    pid: u32,
    command: Seq<char>,
    record: RecordModel,
    place: Seq<Seq<int>>,
)
    requires
        are_connections(connections),
    ensures
        ({
            let after = with_socket(connections, pid, command, record);
            if place == key_place(record.key) {
                connection_at(after, place) matches Some(c) && c.state == record.state
                    && is_held_by(c, pid) && key_place(c.key) == place
            } else {
                connection_at(after, place) == connection_at(connections, place)
            }
        }),
{
    let r = key_place(record.key);
    let known = connection_at(connections, r);
    let item = seen_connection(known, pid, command, record);
    let process = AssociatedModel { pid, command };
    match known {
        Some(connection) => {
            lemma_slot_bounds::<NetworkConnection>(connections, r);
            let at = slot::<NetworkConnection>(connections, r);
            assert(connections[at] == connection);
            lemma_lookup_after_placing::<AssociatedProcess>(
                connection.processes,
                process,
                pid_rank(pid),
            );
        },
        None => {
            assert(ascending::<AssociatedProcess>(item.processes));
            lemma_lookup_finds_items::<AssociatedProcess>(item.processes, 0);
        },
    }
    lemma_lookup_after_placing::<NetworkConnection>(connections, item, place);
}

proof fn lemma_socket_keeps_connections(
    connections: Seq<ConnectionModel>,
    pid: u32,
    command: Seq<char>,
    record: RecordModel,
    place: Seq<Seq<int>>,
)
    requires
        are_connections(connections),
    ensures
        connection_at(connections, place) matches Some(c) ==> (connection_at(
            with_socket(connections, pid, command, record),
            place,
        ) matches Some(d) && continues(c, d)),
{
    held_sockets_become_connections(connections, pid, command, record, place);
    let r = key_place(record.key);
    if place == r {
        if let Some(connection) = connection_at(connections, r) {
            lemma_slot_bounds::<NetworkConnection>(connections, r);
            let at = slot::<NetworkConnection>(connections, r);
            assert(connections[at] == connection);
            let process = AssociatedModel { pid, command };
            let item = seen_connection(Some(connection), pid, command, record);
            lemma_lookup_after_placing::<NetworkConnection>(connections, item, place);
            assert forall|p: u32| #[trigger] is_held_by(connection, p) implies is_held_by(
                item,
                p,
            ) by {
                lemma_lookup_after_placing::<AssociatedProcess>(
                    connection.processes,
                    process,
                    pid_rank(p),
                );
            }
            assert(continues(connection, item));
        }
    }
}

proof fn lemma_sockets_keep_connections(
    connections: Seq<ConnectionModel>,
    pid: u32,
    command: Seq<char>,
    snapshot: NetworkModel,
    n: nat,
    place: Seq<Seq<int>>,
)
    requires
        are_connections(connections),
    ensures
        are_connections(with_sockets(connections, pid, command, snapshot, n)),
        connection_at(connections, place) matches Some(c) ==> (connection_at(
            with_sockets(connections, pid, command, snapshot, n),
            place,
        ) matches Some(d) && continues(c, d)),
    decreases n,
{
    if n > 0 {
        let before = with_sockets(connections, pid, command, snapshot, (n - 1) as nat);
        lemma_sockets_keep_connections(
            connections,
            pid,
            command,
            snapshot,
            (n - 1) as nat,
            place,
        );
        match lookup::<SocketEntry>(snapshot.sockets, inode_rank(snapshot.inodes[n - 1])) {
            Some(entry) => {
                lemma_with_socket(before, pid, command, entry.record);
                lemma_socket_keeps_connections(before, pid, command, entry.record, place);
            },
            None => {},
        }
    }
}

/// No observation makes a connection disappear, or a process disappear from those that held it; and
/// what was found missing, or available, stays so.
pub proof fn connections_are_never_forgotten(
    model: NetworkObservationModel,
    boundary: BoundaryModel,
    processes: Seq<ProcessModel>,
    pids: Seq<u32>,
    n: nat,
    place: Seq<Seq<int>>,
)
    requires
        model.wf(),
        n <= pids.len(),
    ensures
        ({
            let after = after_pids(model, boundary, processes, pids, n);
            &&& after.wf()
            &&& model.backend_available ==> after.backend_available
            &&& model.observation_limited ==> after.observation_limited
            &&& connection_at(model.connections, place) matches Some(c) ==> (connection_at(
                after.connections,
                place,
            ) matches Some(d) && continues(c, d))
        }),
    decreases n,
{
    if n > 0 {
        let before = after_pids(model, boundary, processes, pids, (n - 1) as nat);
        connections_are_never_forgotten(
            model,
            boundary,
            processes,
            pids,
            (n - 1) as nat,
            place,
        );
        let pid = pids[n - 1];
        match process_of(processes, pid) {
            Some(info) => if info.is_alive() {
                match boundary.network_of(pid) {
                    Some(s) => {
                        lemma_sockets_keep_connections(
                            before.connections,
                            pid,
                            info.command,
                            s,
                            s.inodes.len(),
                            place,
                        );
                    },
                    None => {},
                }
            },
            None => {},
        }
    }
}

/// The connections that stay on this machine, in order.
pub open spec fn local_of(connections: Seq<ConnectionModel>) -> Seq<ConnectionModel>
    decreases connections.len(),
{
    if connections.len() == 0 {
        seq![]
    } else {
        let before = local_of(connections.drop_last());
        if connections.last().key.is_remote() {
            before
        } else {
            before.push(connections.last())
        }
    }
}

/// Every connection is counted once, as local or as remote.
pub proof fn connections_are_local_or_remote(connections: Seq<ConnectionModel>)
    ensures
        local_of(connections).len() + remote_of(connections).len() == connections.len(),
    decreases connections.len(),
{
    if connections.len() > 0 {
        connections_are_local_or_remote(connections.drop_last());
    }
}

} // verus!

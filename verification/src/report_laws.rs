//! What an observation takes in and finds missing, and what every line of a report says.

use vstd::prelude::*;

use crate::any_order::{among, holder_at, lemma_tree_counters};
use crate::boundary::{BoundaryModel, SnapshotModel};
use crate::file_laws::{is_open_at, known_access_is_what_was_open, said_if};
use crate::filesystem::{area_of, filesystem_lines, FilesystemModel, PathArea, PathModel, ProcessIo};
use crate::formatting::{
    duration_text, examples_text, is_sensitive_file, sanitized, shown_paths, signal_text,
};
use crate::guarantees::entry_at;
use crate::network::{after_pids, network_lines, remote_of, AssociatedModel, ConnectionModel};
use crate::network_laws::{connections_are_held_by_those_with_their_sockets, has_socket_at};
use crate::numbers::{decimal, signed_decimal};
use crate::observation::{
    after_snapshot, concluded, cpu_millis, descendant_pids, destination_texts, finding_texts, fresh,
    heading_lines, is_conclusive, knows_unreadable, limitation_texts, misses_counters,
    process_lines, resource_lines, status_line, survivor_text, survivors, ObservationLimitations,
    ObservationModel,
};
use crate::observed::{process_line, ObservedModel};
use crate::order_laws::tables_find_what_they_hold;
use crate::output::bulleted;
use crate::process::{
    descends, lemma_pid_rank, pid_rank, process_of, tree_holds_root_and_descendants, tree_pids,
    ProcessInfo, ProcessModel,
};
use crate::process_laws::trees_are_listed_in_order;
use crate::report::ExecutionModel;
use crate::session::{
    ending_of, forwarded_signals, step_of, waiting_after, waiting_after_event, Delivery, Ending,
    Step, WaitEvent,
};
use crate::sockets::endpoint_text;
use crate::table::{ascending, lookup};

verus! {

/// An observation begins with nothing known and nothing missing.
pub proof fn observations_begin_empty(root_pid: u32, working_directory: Option<Seq<u8>>)
    ensures
        ({
            let start = fresh(root_pid, working_directory);
            &&& start.root_pid == root_pid
            &&& start.primary is None
            &&& start.descendants.len() == 0
            &&& start.peak_resident_memory_kib is None
            &&& start.filesystem.working_directory == working_directory
            &&& start.filesystem.paths.len() == 0
            &&& start.filesystem.directories.len() == 0
            &&& start.filesystem.io.len() == 0
            &&& !start.filesystem.paths_limited
            &&& start.network.connections.len() == 0
            &&& !start.network.backend_available
            &&& !start.network.observation_limited
            &&& !start.limitations.process
            &&& !start.limitations.resources
            &&& !start.limitations.filesystem
            &&& !start.limitations.network
            &&& !start.limitations.working_directory
        }),
{
}

/// A living process of the tree whose processor time or memory could not be read.
pub open spec fn lacks_counters(ps: Seq<ProcessModel>, pid: u32) -> bool {
    &&& process_of(ps, pid) matches Some(info) && info.state != 'Z' && info.state != 'X' && (
    info.user_cpu_ticks is None || info.system_cpu_ticks is None || info.resident_memory_kib is None)
}

/// What a snapshot adds to the limitations: about the processes where it is unavailable or incomplete
/// or lacks a root that should be there, about the resources where a living process of the tree lacks
/// a counter, and about files and connections where these are incomplete.
pub proof fn snapshots_tell_what_is_missing(
    model: ObservationModel,
    boundary: BoundaryModel,
    root_expected_alive: bool,
)
    ensures
        ({
            let before = model.limitations;
            let snapshot = boundary.snapshot;
            let tree = tree_pids(snapshot.processes, model.root_pid);
            let end = after_snapshot(model, boundary, root_expected_alive);
            let after = end.limitations;
            &&& after.process <==> before.process || !snapshot.available
                || snapshot.unreadable_pids.len() > 0 || (root_expected_alive && process_of(
                snapshot.processes,
                model.root_pid,
            ) is None)
            &&& after.resources <==> before.resources || exists|i: int|
                0 <= i < tree.len() && lacks_counters(snapshot.processes, #[trigger] tree[i])
            &&& after.filesystem <==> before.filesystem || end.filesystem.is_limited()
            &&& after.network <==> before.network || !end.network.backend_available
                || end.network.observation_limited
            &&& after.working_directory == before.working_directory
        }),
{
    let ps = boundary.snapshot.processes;
    let tree = tree_pids(ps, model.root_pid);
    if exists|i: int| 0 <= i < tree.len() && misses_counters(ps, #[trigger] tree[i]) {
        let i = choose|i: int| 0 <= i < tree.len() && misses_counters(ps, #[trigger] tree[i]);
        assert(lacks_counters(ps, tree[i]));
    }
    if exists|i: int| 0 <= i < tree.len() && lacks_counters(ps, #[trigger] tree[i]) {
        let i = choose|i: int| 0 <= i < tree.len() && lacks_counters(ps, #[trigger] tree[i]);
        assert(misses_counters(ps, tree[i]));
    }
}

/// The process is in the snapshot and belongs to the tree: it is the root, or descends from it while
/// the snapshot shows the root.
pub open spec fn belongs(ps: Seq<ProcessModel>, root: u32, pid: u32) -> bool {
    &&& process_of(ps, root) is Some
    &&& process_of(ps, pid) is Some
    &&& pid == root || descends(ps, root, pid)
}

/// The tree holds each process that belongs to it once, and no other.
pub proof fn trees_hold_who_belongs(ps: Seq<ProcessModel>, root: u32, pid: u32)
    requires
        ascending::<ProcessInfo>(ps),
    ensures
        tree_pids(ps, root).contains(pid) <==> belongs(ps, root, pid),
        tree_pids(ps, root).no_duplicates(),
{
    tree_holds_root_and_descendants(ps, root, pid);
    let tree = tree_pids(ps, root);
    assert forall|i: int, j: int| 0 <= i < tree.len() && 0 <= j < tree.len() && i != j implies tree[i]
        != tree[j] by {
        if i < j {
            trees_are_listed_in_order(ps, root, i, j);
        } else {
            trees_are_listed_in_order(ps, root, j, i);
        }
    }
}

/// A snapshot takes in what every process of the tree has: the counters of each, and of those alive
/// every open file and directory and every socket. Of processes outside of the tree it takes in
/// neither counters nor sockets.
pub proof fn snapshots_take_in_the_whole_tree(
    model: ObservationModel,
    boundary: BoundaryModel,
    root_expected_alive: bool,
    pid: u32,
    j: int,
    place: Seq<Seq<int>>,
)
    requires
        model.wf(),
        boundary.wf(),
    ensures
        ({
            let ps = boundary.snapshot.processes;
            let end = after_snapshot(model, boundary, root_expected_alive);
            let before = lookup::<ProcessIo>(model.filesystem.io, pid_rank(pid));
            let after = lookup::<ProcessIo>(end.filesystem.io, pid_rank(pid));
            let mine = belongs(ps, model.root_pid, pid);
            let info = process_of(ps, pid)->0;
            &&& !mine ==> after == before && holder_at(end.network.connections, place, pid)
                == holder_at(model.network.connections, place, pid)
            &&& mine ==> after is Some && after->0.pid == pid && (before is None
                ==> after->0.initial_read == info.read_storage_bytes && after->0.initial_write
                == info.write_storage_bytes)
            &&& mine && is_open_at(boundary, ps, pid, j, false, place, true) ==> (entry_at(
                end.filesystem.paths,
                place,
            ) matches Some(e) && e.read)
            &&& mine && is_open_at(boundary, ps, pid, j, false, place, false) ==> (entry_at(
                end.filesystem.paths,
                place,
            ) matches Some(e) && e.write)
            &&& mine && is_open_at(boundary, ps, pid, j, true, place, true) ==> (entry_at(
                end.filesystem.directories,
                place,
            ) matches Some(e) && e.read)
            &&& mine && is_open_at(boundary, ps, pid, j, true, place, false) ==> (entry_at(
                end.filesystem.directories,
                place,
            ) matches Some(e) && e.write)
            &&& mine && has_socket_at(boundary, ps, pid, j, place) ==> holder_at(
                end.network.connections,
                place,
                pid,
            ) == Some(AssociatedModel { pid, command: info.command })
        }),
{
    let ps = boundary.snapshot.processes;
    let tree = tree_pids(ps, model.root_pid);
    trees_hold_who_belongs(ps, model.root_pid, pid);
    lemma_tree_counters(model.filesystem, boundary, ps, tree, tree.len(), pid);
    connections_are_held_by_those_with_their_sockets(model.network, boundary, ps, tree, place, pid);
    known_access_is_what_was_open(model.filesystem, boundary, ps, tree, false, place, true);
    known_access_is_what_was_open(model.filesystem, boundary, ps, tree, false, place, false);
    known_access_is_what_was_open(model.filesystem, boundary, ps, tree, true, place, true);
    known_access_is_what_was_open(model.filesystem, boundary, ps, tree, true, place, false);
    if tree.contains(pid) {
        let i = choose|i: int| 0 <= i < tree.len() && tree[i] == pid;
        assert(among(tree, tree.len(), tree[i]));
        assert(is_open_at(boundary, ps, tree[i], j, false, place, true) == is_open_at(
            boundary,
            ps,
            pid,
            j,
            false,
            place,
            true,
        ));
        assert(is_open_at(boundary, ps, tree[i], j, false, place, false) == is_open_at(
            boundary,
            ps,
            pid,
            j,
            false,
            place,
            false,
        ));
        assert(is_open_at(boundary, ps, tree[i], j, true, place, true) == is_open_at(
            boundary,
            ps,
            pid,
            j,
            true,
            place,
            true,
        ));
        assert(is_open_at(boundary, ps, tree[i], j, true, place, false) == is_open_at(
            boundary,
            ps,
            pid,
            j,
            true,
            place,
            false,
        ));
        if let Some(known) = lookup::<ProcessIo>(model.filesystem.io, pid_rank(pid)) {
            tables_find_what_they_hold::<ProcessIo>(model.filesystem.io, pid_rank(pid));
            lemma_pid_rank(known.pid, pid);
        }
    } else if among(tree, tree.len(), pid) {
        let i = choose|i: int| 0 <= i < tree.len() && #[trigger] tree[i] == pid;
        assert(tree.contains(tree[i]));
    }
}

/// The last snapshot tells how many processes there were exactly where it is available, the root was
/// seen at least once, and neither the root nor a known descendant could not be read.
pub proof fn readable_processes_are_conclusive(model: ObservationModel, snapshot: SnapshotModel)
    ensures
        is_conclusive(model, snapshot) <==> {
            &&& snapshot.available
            &&& model.primary is Some
            &&& !snapshot.unreadable_pids.contains(model.root_pid)
            &&& forall|i: int|
                0 <= i < model.descendants.len() ==> !snapshot.unreadable_pids.contains(
                    (#[trigger] model.descendants[i]).info.pid,
                )
        },
{
    if !knows_unreadable(model, snapshot) {
        assert forall|i: int| 0 <= i < model.descendants.len() implies
            !snapshot.unreadable_pids.contains((#[trigger] model.descendants[i]).info.pid) by {
            if snapshot.unreadable_pids.contains(model.descendants[i].info.pid) {
                assert(knows_unreadable(model, snapshot));
            }
        }
    }
}

/// The conclusion takes in the connections of the descendants that are still alive, and says what is
/// missing: about processes and resources where the last snapshot is not conclusive, about connections
/// where these are incomplete, and about the working directory where it is not known. All else stays.
pub proof fn conclusions_tell_what_is_missing(model: ObservationModel, boundary: BoundaryModel)
    ensures
        ({
            let end = concluded(model, boundary);
            let before = model.limitations;
            let after = end.limitations;
            let conclusive = is_conclusive(model, boundary.snapshot);
            let pids = Seq::new(model.descendants.len(), |i: int| model.descendants[i].info.pid);
            &&& end.network == after_pids(
                model.network,
                boundary,
                boundary.snapshot.processes,
                pids,
                pids.len(),
            )
            &&& after.process <==> before.process || !conclusive
            &&& after.resources <==> before.resources || !conclusive
            &&& after.filesystem == before.filesystem
            &&& after.network <==> before.network || !end.network.backend_available
                || end.network.observation_limited
            &&& after.working_directory <==> before.working_directory
                || model.filesystem.working_directory is None
            &&& end.root_pid == model.root_pid
            &&& end.primary == model.primary
            &&& end.descendants == model.descendants
            &&& end.peak_resident_memory_kib == model.peak_resident_memory_kib
            &&& end.filesystem == model.filesystem
        }),
{
    let pids = Seq::new(model.descendants.len(), |i: int| model.descendants[i].info.pid);
    assert(descendant_pids(model.descendants) =~= pids);
}

/// The survivors are listed in order: one more descendant is added where the last snapshot shows it
/// alive.
pub proof fn the_living_survive(
    descendants: Seq<ObservedModel>,
    last: ObservedModel,
    ps: Seq<ProcessModel>,
)
    ensures
        survivors(seq![], ps).len() == 0,
        survivors(descendants.push(last), ps) == if process_of(ps, last.info.pid) matches Some(info)
            && info.state != 'Z' && info.state != 'X' {
            survivors(descendants, ps).push(last)
        } else {
            survivors(descendants, ps)
        },
{
    reveal(Seq::filter);
    assert(descendants.push(last).drop_last() =~= descendants);
}

/// The paths outside of the working directory and the sensitive paths are listed in order, files before
/// directories: one more directory is added where it lies outside, or is sensitive; and so is one more
/// file, where there are no directories.
pub proof fn notable_paths_are_listed_in_order(model: FilesystemModel, last: PathModel)
    ensures
        ({
            let below = FilesystemModel { directories: model.directories.push(last), ..model };
            let flat = FilesystemModel { directories: seq![], ..model };
            let file = FilesystemModel { paths: model.paths.push(last), ..flat };
            let outside = area_of(model.working_directory, last.path) == PathArea::Outside;
            let sensitive = is_sensitive_file(last.path);
            &&& outside ==> below.outside_paths() == model.outside_paths().push(last.path)
                && file.outside_paths() == flat.outside_paths().push(last.path)
            &&& !outside ==> below.outside_paths() == model.outside_paths() && file.outside_paths()
                == flat.outside_paths()
            &&& sensitive ==> below.sensitive_paths() == model.sensitive_paths().push(last.path)
                && file.sensitive_paths() == flat.sensitive_paths().push(last.path)
            &&& !sensitive ==> below.sensitive_paths() == model.sensitive_paths()
                && file.sensitive_paths() == flat.sensitive_paths()
        }),
{
    reveal(Seq::filter);
    let below = FilesystemModel { directories: model.directories.push(last), ..model };
    let flat = FilesystemModel { directories: seq![], ..model };
    let file = FilesystemModel { paths: model.paths.push(last), ..flat };
    assert(below.all_paths() =~= model.all_paths().push(last.path));
    assert(file.all_paths() =~= flat.all_paths().push(last.path));
    assert(below.all_paths().drop_last() =~= model.all_paths());
    assert(file.all_paths().drop_last() =~= flat.all_paths());
}

/// A figure as a report shows it: with its unit, or not at all.
pub open spec fn shown_figure(known: bool, figure: Option<u64>, unit: Seq<char>) -> Seq<char> {
    if known && figure is Some {
        decimal(figure->0 as nat) + unit
    } else {
        "unavailable"@
    }
}

/// The resource part of a report gives the processor time of the tree in user and in system mode, and
/// the peak of its memory, each where it is known and nothing about the resources is missing.
pub proof fn resources_are_reported(model: ObservationModel, ticks_per_second: Option<u64>)
    ensures
        ({
            let lines = resource_lines(model, ticks_per_second);
            let known = !model.limitations.resources;
            &&& lines.len() == 4
            &&& lines[0] == "  Resource usage:"@
            &&& lines[1] == "    Aggregate user CPU: "@ + shown_figure(
                known,
                cpu_millis(model, true, ticks_per_second),
                " ms"@,
            )
            &&& lines[2] == "    Aggregate system CPU: "@ + shown_figure(
                known,
                cpu_millis(model, false, ticks_per_second),
                " ms"@,
            )
            &&& lines[3] == "    Peak aggregate resident memory: "@ + shown_figure(
                known,
                model.peak_resident_memory_kib,
                " KiB"@,
            )
        }),
{
    let lines = resource_lines(model, ticks_per_second);
    let known = !model.limitations.resources;
    assert(lines[1] =~= "    Aggregate user CPU: "@ + shown_figure(
        known,
        cpu_millis(model, true, ticks_per_second),
        " ms"@,
    ));
    assert(lines[2] =~= "    Aggregate system CPU: "@ + shown_figure(
        known,
        cpu_millis(model, false, ticks_per_second),
        " ms"@,
    ));
    assert(lines[3] =~= "    Peak aggregate resident memory: "@ + shown_figure(
        known,
        model.peak_resident_memory_kib,
        " KiB"@,
    ));
}

/// A report begins with the command, how long it took, and how it ended: with a code, by a signal with
/// a number, or by a signal that is not known.
pub proof fn endings_are_reported(
    command: Seq<char>,
    duration: Seq<char>,
    exit_code: Option<i32>,
    signal: Option<i32>,
)
    ensures
        ({
            let ended = status_line(exit_code, signal);
            &&& exit_code is Some ==> ended == "  Exit status: "@ + signed_decimal(
                exit_code->0 as int,
            )
            &&& exit_code is None && signal is Some ==> ended
                == "  Exit status: terminated by signal "@ + signal_text(signal->0) + " ("@
                + signed_decimal(signal->0 as int) + ")"@
            &&& exit_code is None && signal is None ==> ended
                == "  Exit status: terminated by signal"@
            &&& heading_lines(command, duration, exit_code, signal) == seq![
                "\nRunLens report"@,
                "Command: "@ + command,
                "Duration and resources:"@,
                "  Duration: "@ + duration,
                ended,
            ]
        }),
{
}

/// The process part of a report counts the descendants, shows the tree with every process two blanks
/// further in than its parent would stand, and lists the survivors. Counts are given only where the
/// last snapshot is conclusive.
pub proof fn processes_are_reported(
    model: ObservationModel,
    ps: Seq<ProcessModel>,
    conclusive: bool,
    i: int,
)
    ensures
        ({
            let lines = process_lines(model, ps, conclusive);
            let n = model.descendants.len();
            let alive = survivors(model.descendants, ps);
            &&& conclusive ==> lines.len() == n + alive.len() + 4
            &&& !conclusive ==> lines.len() == n + 4
            &&& conclusive && n == 1 ==> lines[0] == "  Process count: "@ + (decimal(1) + " "@
                + "descendant"@)
            &&& conclusive && n != 1 ==> lines[0] == "  Process count: "@ + (decimal(n) + " "@
                + "descendants"@)
            &&& !conclusive ==> lines[0] == "  Process count: "@ + "unavailable"@
            &&& lines[1] == "  Process tree:"@
            &&& model.primary is None ==> lines[2] == "    - primary process unavailable"@
            &&& model.primary is Some ==> lines[2] == process_line(model.primary->0, 1)
            &&& 0 <= i < n ==> lines[3 + i] == process_line(
                model.descendants[i],
                (model.descendants[i].depth + 1) as nat,
            )
            &&& conclusive ==> lines[3 + n as int] == "  Surviving descendants: "@ + decimal(
                alive.len(),
            )
            &&& !conclusive ==> lines[3 + n as int] == "  Surviving descendants: unavailable"@
            &&& conclusive && 0 <= i < alive.len() ==> lines[4 + n as int + i] == process_line(
                alive[i],
                2,
            )
        }),
{
}

/// The limitations are named in order, each exactly where it holds.
pub proof fn limitations_are_named(limitations: ObservationLimitations)
    ensures
        limitation_texts(limitations) == said_if(
            limitations.process,
            "process metadata was unavailable or incomplete; process counts and survivor checks may miss activity"@,
        ) + said_if(
            limitations.resources,
            "CPU or memory counters were unavailable for part of the observed process tree"@,
        ) + said_if(
            limitations.filesystem,
            "filesystem descriptors or I/O counters were unavailable; path and byte totals may be incomplete"@,
        ) + said_if(
            limitations.network,
            "network metadata was unavailable or restricted; connection activity may be incomplete"@,
        ) + said_if(
            limitations.working_directory,
            "working-directory boundary was unavailable; inside/outside path classification may be incomplete"@,
        ),
{
}

/// A list in a report has its title and then one line for every item, or says that there is none.
pub proof fn lists_name_every_item(title: Seq<char>, items: Seq<Seq<char>>, i: int)
    ensures
        items.len() == 0 ==> bulleted(title, items) == seq![title + ": none"@],
        items.len() > 0 ==> bulleted(title, items).len() == items.len() + 1 && bulleted(
            title,
            items,
        )[0] == title + ":"@,
        0 <= i < items.len() ==> bulleted(title, items)[i + 1] == "  - "@ + items[i],
{
}

/// The finding about connections names the first eight destinations, each with its protocol and its far
/// end.
pub proof fn destinations_are_named(remote: Seq<ConnectionModel>, i: int)
    ensures
        remote.len() <= 8 ==> destination_texts(remote).len() == remote.len(),
        remote.len() > 8 ==> destination_texts(remote).len() == 8,
        0 <= i < remote.len() && i < 8 ==> destination_texts(remote)[i]
            == remote[i].key.protocol.label_text() + " "@ + endpoint_text(remote[i].key.remote),
{
}

/// What a finding says of a descendant that outlived the command.
pub open spec fn said_of_survivor(d: ObservedModel) -> Seq<char> {
    "surviving descendant PID "@ + decimal(d.info.pid as nat) + " ("@ + sanitized(d.info.command)
        + ") remains alive; inspect or stop it after confirming it is not needed"@
}

/// The findings are named in order, each exactly where there is cause: every survivor, twenty-five
/// paths or more, paths outside of the working directory, sensitive paths, connections that leave the
/// machine, and a code other than zero.
#[verifier::rlimit(40)]
pub proof fn findings_are_named(
    model: ObservationModel,
    ps: Seq<ProcessModel>,
    exit_code: Option<i32>,
)
    ensures
        ({
            let alive = survivors(model.descendants, ps);
            let seen = model.filesystem.paths.len() + model.filesystem.directories.len();
            let outside = model.filesystem.outside_paths();
            let sensitive = model.filesystem.sensitive_paths();
            let remote = remote_of(model.network.connections);
            finding_texts(model, ps, exit_code) == Seq::new(
                alive.len(),
                |i: int| said_of_survivor(alive[i]),
            ) + said_if(
                seen >= 25,
                "excessive file/directory scanning: "@ + decimal(seen)
                    + " distinct paths observed; inspect the command's scan scope"@,
            ) + said_if(
                outside.len() > 0,
                "activity outside working directory: "@ + decimal(outside.len())
                    + " path(s) observed; verify each path is expected ("@ + examples_text(
                    shown_paths(outside),
                    outside.len(),
                ) + ")"@,
            ) + said_if(
                sensitive.len() > 0,
                "sensitive path access: "@ + decimal(sensitive.len())
                    + " path(s) observed; review permissions and data exposure ("@ + examples_text(
                    shown_paths(sensitive),
                    sensitive.len(),
                ) + ")"@,
            ) + said_if(
                remote.len() > 0,
                "remote/unexpected network activity: "@ + decimal(remote.len())
                    + " connection(s) observed; verify destination and port ("@ + examples_text(
                    destination_texts(remote),
                    remote.len(),
                ) + ")"@,
            ) + said_if(
                exit_code is Some && exit_code->0 != 0,
                "command exited with status "@ + signed_decimal(exit_code->0 as int)
                    + "; inspect command output and the findings above"@,
            )
        }),
{
    let alive = survivors(model.descendants, ps);
    let seen = model.filesystem.paths.len() + model.filesystem.directories.len();
    assert(model.filesystem.all_paths().len() == seen);
    assert(alive.map_values(|d: ObservedModel| survivor_text(d)) =~= Seq::new(
        alive.len(),
        |i: int| said_of_survivor(alive[i]),
    ));
}

/// A report is made of its sections, each under its heading, from the observation as it was concluded
/// with the last snapshot.
pub proof fn reports_are_made_of_their_sections(
    report: ExecutionModel,
    boundary: BoundaryModel,
    ticks_per_second: Option<u64>,
)
    ensures
        ({
            let end = concluded(report.observation, boundary);
            let ps = boundary.snapshot.processes;
            let conclusive = is_conclusive(report.observation, boundary.snapshot);
            report.lines(boundary, ticks_per_second) == heading_lines(
                report.command,
                duration_text(report.seconds, report.nanoseconds),
                report.exit_code,
                report.termination_signal,
            ) + resource_lines(end, ticks_per_second) + seq!["Processes:"@] + process_lines(
                end,
                ps,
                conclusive,
            ) + seq!["Filesystem:"@] + filesystem_lines(end.filesystem) + seq!["Network:"@]
                + network_lines(end.network, ps, conclusive) + bulleted(
                "Observation limitations"@,
                limitation_texts(end.limitations),
            ) + bulleted("Notable findings"@, finding_texts(end, ps, report.exit_code))
        }),
{
}

/// Hangup, interrupt, quit and termination are passed on, and nothing else.
pub proof fn four_signals_are_passed_on(signal: i32)
    ensures
        forwarded_signals().contains(signal) <==> signal == 1 || signal == 2 || signal == 3 || signal
            == 15,
        forwarded_signals().len() == 4,
{
    let all = forwarded_signals();
    assert(all[0] == 1 && all[1] == 2 && all[2] == 3 && all[3] == 15);
}

/// Of several signals the first one waits. It is delivered, to the command and unchanged, at the next
/// step in which the command runs, and then waits no longer; no signal is delivered where none waits,
/// where the identifier of the command has no place among the addressable ones, or after the end.
pub proof fn the_first_signal_is_delivered(
    pending: i32,
    received: i32,
    child_pid: u32,
    exit_code: Option<i32>,
    signal: Option<i32>,
)
    ensures
        pending != 0 ==> waiting_after(pending, received) == pending,
        waiting_after(0, received) == received,
        pending != 0 && child_pid <= 0x7fff_ffff ==> step_of(WaitEvent::Running, pending, child_pid)
            == (Step::Sample { delivery: Some(Delivery { pid: child_pid as i32, signal: pending }) }),
        pending == 0 || child_pid > 0x7fff_ffff ==> step_of(WaitEvent::Running, pending, child_pid)
            == (Step::Sample { delivery: None }),
        step_of(WaitEvent::Lost, pending, child_pid) == Step::GiveUp,
        step_of(
            WaitEvent::Ended { exit_code, termination_signal: signal },
            pending,
            child_pid,
        ) == (Step::Report { exit_code, termination_signal: signal }),
        waiting_after_event(WaitEvent::Running, pending) == 0,
        waiting_after_event(WaitEvent::Lost, pending) == pending,
        waiting_after_event(WaitEvent::Ended { exit_code, termination_signal: signal }, pending)
            == pending,
{
}

/// The end is that of the command: its code, one where there is none, or its signal, with 128 more than
/// the number of the signal as the code to fall back on.
pub proof fn endings_are_handed_on(exit_code: Option<i32>, signal: i32)
    requires
        signal <= i32::MAX - 128,
    ensures
        ending_of(exit_code, Some(signal)) matches Ending::Signal { signal: same, fallback } && same
            == signal && fallback == 128 + signal,
        exit_code is Some ==> ending_of(exit_code, None) == (Ending::Exit { code: exit_code->0 }),
        ending_of(None, None) == (Ending::Exit { code: 1 }),
{
}

} // verus!

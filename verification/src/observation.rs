//! The observation of a process tree, and the report on it.

use vstd::prelude::*;

use crate::boundary::{BoundaryModel, ObservationBoundary, ProcessSnapshot, SnapshotModel};
use crate::filesystem::{
    after_tree, filesystem_lines, path_model, FilesystemModel, FilesystemObservation,
};
use crate::formatting::{
    duration_text, examples_text, format_duration, format_examples, format_path_examples, pluralize,
    sanitize_process_text, sanitized, shown_paths, signal_name, signal_text, MAX_DETAIL_ITEMS,
};
use crate::network::{
    after_pids, connection_models, network_lines, remote_of, ConnectionModel, NetworkConnection,
    NetworkObservation, NetworkObservationModel,
};
use crate::numbers::{
    add_counters, decimal, push_decimal, push_signed, signed_decimal, total_of,
};
use crate::observed::{
    are_descendants, descendant_of, merge_descendants, process_line, seen_process,
    snapshot_extends_descendants, with_descendants, ObservedModel, ObservedProcess,
};
use crate::output::{bulleted, print_bulleted, text_if, ReportText};
use crate::process::{
    current_tree, lemma_process_of, process_of, tree_depths, tree_pids, ProcessInfo, ProcessModel,
};
use crate::sockets::endpoint_text;
use crate::table::Table;
use crate::text::{nested, texts};

verus! {

/// From how many paths on a command is said to scan excessively.
pub const EXCESSIVE_SCAN_PATHS: usize = 25;

/// What the observation may have missed.
#[derive(Clone, Copy)]
pub struct ObservationLimitations {
    pub process: bool,
    pub resources: bool,
    pub filesystem: bool,
    pub network: bool,
    pub working_directory: bool,
}

/// All that is known about a process tree.
pub struct ProcessObservation {
    root_pid: u32,
    primary: Option<ObservedProcess>,
    descendants: Table<ObservedProcess>,
    peak_resident_memory_kib: Option<u64>,
    filesystem: FilesystemObservation,
    network: NetworkObservation,
    limitations: ObservationLimitations,
}

/// What a [`ProcessObservation`] says.
pub struct ObservationModel {
    pub root_pid: u32,
    pub primary: Option<ObservedModel>,
    pub descendants: Seq<ObservedModel>,
    pub peak_resident_memory_kib: Option<u64>,
    pub filesystem: FilesystemModel,
    pub network: NetworkObservationModel,
    pub limitations: ObservationLimitations,
}

/// What an optional process says.
pub open spec fn primary_model(primary: Option<ObservedProcess>) -> Option<ObservedModel> {
    match primary {
        Some(process) => Some(process@),
        None => None,
    }
}

impl View for ProcessObservation {
    type V = ObservationModel;

    closed spec fn view(&self) -> ObservationModel {
        ObservationModel {
            root_pid: self.root_pid,
            primary: primary_model(self.primary),
            descendants: self.descendants@,
            peak_resident_memory_kib: self.peak_resident_memory_kib,
            filesystem: self.filesystem@,
            network: self.network@,
            limitations: self.limitations,
        }
    }
}

impl ObservationModel {
    /// Everything stands in ascending order, and the primary process is the root of the tree and no
    /// descendant of itself.
    pub open spec fn wf(self) -> bool {
        &&& self.primary matches Some(process) ==> process.depth == 0 && process.info.pid
            == self.root_pid
        &&& descendant_of(self.descendants, self.root_pid) is None
        &&& are_descendants(self.descendants)
        &&& self.filesystem.wf()
        &&& self.network.wf()
    }
}

/// The observation of a tree before its first snapshot.
pub open spec fn fresh(root_pid: u32, working_directory: Option<Seq<u8>>) -> ObservationModel {
    ObservationModel {
        root_pid,
        primary: None,
        descendants: seq![],
        peak_resident_memory_kib: None,
        filesystem: FilesystemModel {
            working_directory,
            paths: seq![],
            directories: seq![],
            io: seq![],
            paths_limited: false,
        },
        network: NetworkObservationModel {
            connections: seq![],
            backend_available: false,
            observation_limited: false,
        },
        limitations: ObservationLimitations {
            process: false,
            resources: false,
            filesystem: false,
            network: false,
            working_directory: false,
        },
    }
}

/// The process is in the snapshot and alive.
pub open spec fn is_survivor(ps: Seq<ProcessModel>, pid: u32) -> bool {
    process_of(ps, pid) matches Some(info) && info.is_alive()
}

/// The process is alive, but its processor time or its memory could not be read.
pub open spec fn misses_counters(ps: Seq<ProcessModel>, pid: u32) -> bool {
    process_of(ps, pid) matches Some(info) && info.is_alive() && (info.user_cpu_ticks is None
        || info.system_cpu_ticks is None || info.resident_memory_kib is None)
}

/// The snapshot shows the processes incompletely.
pub open spec fn misses_processes(
    snapshot: SnapshotModel,
    root: u32,
    root_expected_alive: bool,
) -> bool {
    ||| !snapshot.available
    ||| snapshot.unreadable_pids.len() > 0
    ||| root_expected_alive && process_of(snapshot.processes, root) is None
}

/// The memory of a process.
pub open spec fn memory_of(ps: Seq<ProcessModel>, pid: u32) -> Option<u64> {
    match process_of(ps, pid) {
        Some(info) => info.resident_memory_kib,
        None => None,
    }
}

/// The memory of all processes of a tree together; none where it is not all known.
pub open spec fn tree_memory(ps: Seq<ProcessModel>, tree: Seq<u32>) -> Option<u64> {
    total_of(tree.map_values(|pid: u32| memory_of(ps, pid)))
}

/// The peak of the memory after one more snapshot.
pub open spec fn peak_after(peak: Option<u64>, ps: Seq<ProcessModel>, tree: Seq<u32>) -> Option<
    u64,
> {
    match tree_memory(ps, tree) {
        Some(total) => if tree.len() == 0 {
            peak
        } else if peak matches Some(known) && known >= total {
            peak
        } else {
            Some(total)
        },
        None => peak,
    }
}

/// The observation after one more snapshot.
pub open spec fn after_snapshot(
    model: ObservationModel,
    boundary: BoundaryModel,
    root_expected_alive: bool,
) -> ObservationModel {
    let snapshot = boundary.snapshot;
    let ps = snapshot.processes;
    let root = model.root_pid;
    let tree = tree_pids(ps, root);
    let filesystem = after_tree(model.filesystem, boundary, ps, tree, tree.len());
    let network = after_pids(model.network, boundary, ps, tree, tree.len());
    ObservationModel {
        root_pid: root,
        primary: match process_of(ps, root) {
            Some(info) => Some(seen_process(model.primary, info, 0)),
            None => model.primary,
        },
        descendants: with_descendants(model.descendants, ps, root, ps.len()),
        peak_resident_memory_kib: peak_after(model.peak_resident_memory_kib, ps, tree),
        filesystem,
        network,
        limitations: ObservationLimitations {
            process: model.limitations.process || misses_processes(
                snapshot,
                root,
                root_expected_alive,
            ),
            resources: model.limitations.resources || exists|i: int|
                0 <= i < tree.len() && misses_counters(ps, #[trigger] tree[i]),
            filesystem: model.limitations.filesystem || filesystem.is_limited(),
            network: model.limitations.network || network.is_limited(),
            working_directory: model.limitations.working_directory,
        },
    }
}

/// The root or a known descendant could not be read.
pub open spec fn knows_unreadable(model: ObservationModel, snapshot: SnapshotModel) -> bool {
    ||| snapshot.unreadable_pids.contains(model.root_pid)
    ||| exists|i: int|
        0 <= i < model.descendants.len() && snapshot.unreadable_pids.contains(
            (#[trigger] model.descendants[i]).info.pid,
        )
}

/// The last snapshot tells how many processes there were and which of them survived.
pub open spec fn is_conclusive(model: ObservationModel, snapshot: SnapshotModel) -> bool {
    snapshot.available && !knows_unreadable(model, snapshot) && model.primary is Some
}

/// The identifiers of the known descendants.
pub open spec fn descendant_pids(descendants: Seq<ObservedModel>) -> Seq<u32> {
    descendants.map_values(|d: ObservedModel| d.info.pid)
}

/// The observation after the snapshot that the report is made from: the connections of surviving
/// descendants are added, and so is what is missing.
pub open spec fn concluded(model: ObservationModel, boundary: BoundaryModel) -> ObservationModel {
    let conclusive = is_conclusive(model, boundary.snapshot);
    let pids = descendant_pids(model.descendants);
    let network = after_pids(
        model.network,
        boundary,
        boundary.snapshot.processes,
        pids,
        pids.len(),
    );
    ObservationModel {
        network,
        limitations: ObservationLimitations {
            process: model.limitations.process || !conclusive,
            resources: model.limitations.resources || !conclusive,
            filesystem: model.limitations.filesystem,
            network: model.limitations.network || network.is_limited(),
            working_directory: model.limitations.working_directory
                || model.filesystem.working_directory is None,
        },
        ..model
    }
}

/// The processor time of a process, in user or in system mode.
pub open spec fn ticks_of(info: ProcessModel, user: bool) -> Option<u64> {
    if user {
        info.user_cpu_ticks
    } else {
        info.system_cpu_ticks
    }
}

/// The processor time of the primary process and of every descendant.
pub open spec fn all_ticks(model: ObservationModel, user: bool) -> Seq<Option<u64>> {
    seq![ticks_of(model.primary->0.info, user)] + model.descendants.map_values(
        |d: ObservedModel| ticks_of(d.info, user),
    )
}

/// Clock ticks as milliseconds, rounded down; none where the clock is not known or the number is too
/// great.
pub open spec fn millis_of(ticks: u64, ticks_per_second: Option<u64>) -> Option<u64> {
    match ticks_per_second {
        Some(rate) => if rate > 0 && (ticks * 1_000) / (rate as int) <= u64::MAX {
            Some(((ticks * 1_000) / (rate as int)) as u64)
        } else {
            None
        },
        None => None,
    }
}

/// The processor time of the whole tree in milliseconds; none where it is not all known.
pub open spec fn cpu_millis(
    model: ObservationModel,
    user: bool,
    ticks_per_second: Option<u64>,
) -> Option<u64> {
    if model.primary is None {
        None
    } else {
        match total_of(all_ticks(model, user)) {
            Some(ticks) => millis_of(ticks, ticks_per_second),
            None => None,
        }
    }
}

/// A number with its unit under a label, or that it is not available.
pub open spec fn figure_line(label: Seq<char>, figure: Option<u64>, unit: Seq<char>) -> Seq<char> {
    match figure {
        Some(n) => label + decimal(n as nat) + unit,
        None => label + "unavailable"@,
    }
}

/// A figure that is shown only where nothing about the resources is missing.
pub open spec fn unless_limited(model: ObservationModel, figure: Option<u64>) -> Option<u64> {
    if model.limitations.resources {
        None
    } else {
        figure
    }
}

/// The resource part of a report.
pub open spec fn resource_lines(model: ObservationModel, ticks_per_second: Option<u64>) -> Seq<
    Seq<char>,
> {
    seq![
        "  Resource usage:"@,
        figure_line(
            "    Aggregate user CPU: "@,
            unless_limited(model, cpu_millis(model, true, ticks_per_second)),
            " ms"@,
        ),
        figure_line(
            "    Aggregate system CPU: "@,
            unless_limited(model, cpu_millis(model, false, ticks_per_second)),
            " ms"@,
        ),
        figure_line(
            "    Peak aggregate resident memory: "@,
            unless_limited(model, model.peak_resident_memory_kib),
            " KiB"@,
        ),
    ]
}

/// How the command ended.
pub open spec fn status_line(exit_code: Option<i32>, termination_signal: Option<i32>) -> Seq<char> {
    match exit_code {
        Some(code) => "  Exit status: "@ + signed_decimal(code as int),
        None => match termination_signal {
            Some(signal) => "  Exit status: terminated by signal "@ + signal_text(signal) + " ("@
                + signed_decimal(signal as int) + ")"@,
            None => "  Exit status: terminated by signal"@,
        },
    }
}

/// The known descendants that are alive in a snapshot.
pub open spec fn survivors(descendants: Seq<ObservedModel>, ps: Seq<ProcessModel>) -> Seq<
    ObservedModel,
> {
    descendants.filter(|d: ObservedModel| is_survivor(ps, d.info.pid))
}

/// The line about the primary process.
pub open spec fn primary_line(primary: Option<ObservedModel>) -> Seq<char> {
    match primary {
        Some(process) => process_line(process, 1),
        None => "    - primary process unavailable"@,
    }
}

/// The process part of a report.
pub open spec fn process_lines(
    model: ObservationModel,
    ps: Seq<ProcessModel>,
    conclusive: bool,
) -> Seq<Seq<char>> {
    let count = model.descendants.len();
    let alive = survivors(model.descendants, ps);
    let noun = if count == 1 {
        "descendant"@
    } else {
        "descendants"@
    };
    let head = seq![
        "  Process count: "@ + if conclusive {
            decimal(count) + " "@ + noun
        } else {
            "unavailable"@
        },
        "  Process tree:"@,
        primary_line(model.primary),
    ];
    let tree = model.descendants.map_values(
        |d: ObservedModel| process_line(d, (d.depth + 1) as nat),
    );
    let tail = if conclusive {
        seq!["  Surviving descendants: "@ + decimal(alive.len())] + alive.map_values(
            |d: ObservedModel| process_line(d, 2),
        )
    } else {
        seq!["  Surviving descendants: unavailable"@]
    };
    head + tree + tail
}

/// What the observation may have missed, as a report says it.
pub open spec fn limitation_texts(limitations: ObservationLimitations) -> Seq<Seq<char>> {
    text_if(
        limitations.process,
        "process metadata was unavailable or incomplete; process counts and survivor checks may miss activity"@,
    ) + text_if(
        limitations.resources,
        "CPU or memory counters were unavailable for part of the observed process tree"@,
    ) + text_if(
        limitations.filesystem,
        "filesystem descriptors or I/O counters were unavailable; path and byte totals may be incomplete"@,
    ) + text_if(
        limitations.network,
        "network metadata was unavailable or restricted; connection activity may be incomplete"@,
    ) + text_if(
        limitations.working_directory,
        "working-directory boundary was unavailable; inside/outside path classification may be incomplete"@,
    )
}

/// The finding that a descendant outlived the command.
pub open spec fn survivor_text(survivor: ObservedModel) -> Seq<char> {
    "surviving descendant PID "@ + decimal(survivor.info.pid as nat) + " ("@ + sanitized(
        survivor.info.command,
    ) + ") remains alive; inspect or stop it after confirming it is not needed"@
}

/// A connection as the findings name it.
pub open spec fn destination_text(connection: ConnectionModel) -> Seq<char> {
    connection.key.protocol.label_text() + " "@ + endpoint_text(connection.key.remote)
}

/// The first destinations of a list of connections.
pub open spec fn destination_texts(remote: Seq<ConnectionModel>) -> Seq<Seq<char>> {
    let shown = if remote.len() < MAX_DETAIL_ITEMS {
        remote
    } else {
        remote.take(MAX_DETAIL_ITEMS as int)
    };
    shown.map_values(|c: ConnectionModel| destination_text(c))
}

/// A finding about some paths.
pub open spec fn paths_text(before: Seq<char>, after: Seq<char>, paths: Seq<Seq<u8>>) -> Seq<char> {
    before + decimal(paths.len()) + after + examples_text(shown_paths(paths), paths.len()) + ")"@
}

/// The finding that a command scanned excessively.
pub open spec fn scan_text(count: nat) -> Seq<char> {
    "excessive file/directory scanning: "@ + decimal(count)
        + " distinct paths observed; inspect the command's scan scope"@
}

/// The finding that there were connections to other machines.
pub open spec fn remote_text(remote: Seq<ConnectionModel>) -> Seq<char> {
    "remote/unexpected network activity: "@ + decimal(remote.len())
        + " connection(s) observed; verify destination and port ("@ + examples_text(
        destination_texts(remote),
        remote.len(),
    ) + ")"@
}

/// The finding that a command failed.
pub open spec fn failure_text(code: i32) -> Seq<char> {
    "command exited with status "@ + signed_decimal(code as int)
        + "; inspect command output and the findings above"@
}

/// What a report says is notable.
pub open spec fn finding_texts(
    model: ObservationModel,
    ps: Seq<ProcessModel>,
    exit_code: Option<i32>,
) -> Seq<Seq<char>> {
    let outside = model.filesystem.outside_paths();
    let sensitive = model.filesystem.sensitive_paths();
    let remote = remote_of(model.network.connections);
    survivors(model.descendants, ps).map_values(|d: ObservedModel| survivor_text(d)) + text_if(
        model.filesystem.all_paths().len() >= EXCESSIVE_SCAN_PATHS,
        scan_text(model.filesystem.all_paths().len()),
    ) + text_if(
        outside.len() > 0,
        paths_text(
            "activity outside working directory: "@,
            " path(s) observed; verify each path is expected ("@,
            outside,
        ),
    ) + text_if(
        sensitive.len() > 0,
        paths_text(
            "sensitive path access: "@,
            " path(s) observed; review permissions and data exposure ("@,
            sensitive,
        ),
    ) + text_if(remote.len() > 0, remote_text(remote)) + match exit_code {
        Some(code) => text_if(code != 0, failure_text(code)),
        None => seq![],
    }
}

/// The first lines of a report.
pub open spec fn heading_lines(
    command: Seq<char>,
    duration: Seq<char>,
    exit_code: Option<i32>,
    termination_signal: Option<i32>,
) -> Seq<Seq<char>> {
    seq![
        "\nRunLens report"@,
        "Command: "@ + command,
        "Duration and resources:"@,
        "  Duration: "@ + duration,
        status_line(exit_code, termination_signal),
    ]
}

/// A report on an observation that has been concluded.
pub open spec fn report_lines(
    model: ObservationModel,
    ps: Seq<ProcessModel>,
    conclusive: bool,
    command: Seq<char>,
    duration: Seq<char>,
    exit_code: Option<i32>,
    termination_signal: Option<i32>,
    ticks_per_second: Option<u64>,
) -> Seq<Seq<char>> {
    heading_lines(command, duration, exit_code, termination_signal) + resource_lines(
        model,
        ticks_per_second,
    ) + seq!["Processes:"@] + process_lines(
        model,
        ps,
        conclusive,
    ) + seq!["Filesystem:"@] + filesystem_lines(model.filesystem) + seq!["Network:"@]
        + network_lines(model.network, ps, conclusive) + bulleted(
        "Observation limitations"@,
        limitation_texts(model.limitations),
    ) + bulleted("Notable findings"@, finding_texts(model, ps, exit_code))
}

/// The contents of a list of processes.
pub open spec fn observed_models(list: Seq<&ObservedProcess>) -> Seq<ObservedModel> {
    list.map_values(|d: &ObservedProcess| d@)
}

/// Adds a number with its unit under a label, or that it is not available.
fn print_figure(label: &str, figure: Option<u64>, unit: &str, report: &mut ReportText)
    ensures
        final(report)@ == old(report)@.push(figure_line(label@, figure, unit@)),
{
    let mut line = label.to_owned();
    match figure {
        Some(n) => {
            push_decimal(&mut line, n);
            line.append(unit);
        },
        None => {
            line.append("unavailable");
        },
    }
    report.push(line);
}

/// Clock ticks as milliseconds, rounded down.
pub fn ticks_to_millis(ticks: u64, ticks_per_second: Option<u64>) -> (millis: Option<u64>)
    ensures
        millis == millis_of(ticks, ticks_per_second),
{
    match ticks_per_second {
        Some(rate) => {
            if rate == 0 {
                return None;
            }
            let scaled: u128 = (ticks as u128) * 1_000;
            let millis: u128 = scaled / (rate as u128);
            if millis <= u64::MAX as u128 {
                Some(millis as u64)
            } else {
                None
            }
        },
        None => None,
    }
}

impl ProcessObservation {
    /// The observation of the tree below a process, before its first snapshot.
    pub fn new(root_pid: u32, working_directory: Option<Vec<u8>>) -> (observation: Self)
        ensures
            observation@.wf(),
            observation@ == fresh(root_pid, path_model(working_directory)),
    {
        ProcessObservation {
            root_pid,
            primary: None,
            descendants: Table::new(),
            peak_resident_memory_kib: None,
            filesystem: FilesystemObservation::new(working_directory),
            network: NetworkObservation::new(),
            limitations: ObservationLimitations {
                process: false,
                resources: false,
                filesystem: false,
                network: false,
                working_directory: false,
            },
        }
    }

    /// Takes in a snapshot of the system.
    pub fn observe(&mut self, boundary: &ObservationBoundary, root_expected_alive: bool)
        requires
            old(self)@.wf(),
            boundary@.wf(),
        ensures
            final(self)@.wf(),
            final(self)@ == after_snapshot(old(self)@, boundary@, root_expected_alive),
    {
        proof {
            let ps = boundary@.snapshot.processes;
            lemma_process_of(ps, self@.root_pid);
            snapshot_extends_descendants(
                self@.descendants,
                ps,
                self@.root_pid,
                self@.root_pid,
            );
        }
        let snapshot = boundary.process_snapshot();
        let processes = &snapshot.processes;
        let root_available = processes.get(&self.root_pid).is_some();
        if !snapshot.available || snapshot.unreadable_pids.len() > 0 || (root_expected_alive
            && !root_available) {
            self.limitations.process = true;
        }
        self.observe_primary(processes);
        let depths = tree_depths(processes, self.root_pid);
        let tree = current_tree(processes, self.root_pid, &depths);
        merge_descendants(&mut self.descendants, processes, self.root_pid, &depths);
        if Self::tree_misses_counters(processes, &tree) {
            self.limitations.resources = true;
        }
        self.update_peak_memory(processes, &tree);
        self.filesystem.observe(boundary, processes, &tree);
        self.network.observe(boundary, processes, &tree);
        self.limitations.filesystem = self.limitations.filesystem || self.filesystem.is_limited();
        self.limitations.network = self.limitations.network || self.network.is_limited();
    }

    /// Takes in what a snapshot shows of the primary process.
    fn observe_primary(&mut self, processes: &Table<ProcessInfo>)
        requires
            processes.wf(),
        ensures
            final(self)@ == (ObservationModel {
                primary: match process_of(processes@, old(self)@.root_pid) {
                    Some(info) => Some(seen_process(old(self)@.primary, info, 0)),
                    None => old(self)@.primary,
                },
                ..old(self)@
            }),
    {
        match processes.get(&self.root_pid) {
            Some(info) => {
                let process = match self.primary.take() {
                    Some(known) => {
                        let mut process = known;
                        process.update(info);
                        process
                    },
                    None => ObservedProcess { info: info.duplicate(), depth: 0 },
                };
                self.primary = Some(process);
            },
            None => {},
        }
    }

    /// Whether the counters of a living process could not be read.
    fn tree_misses_counters(processes: &Table<ProcessInfo>, tree: &Vec<u32>) -> (misses: bool)
        requires
            processes.wf(),
        ensures
            misses == exists|i: int|
                0 <= i < tree@.len() && misses_counters(processes@, #[trigger] tree@[i]),
    {
        for i in 0..tree.len()
            invariant
                processes.wf(),
                forall|k: int| 0 <= k < i ==> !misses_counters(processes@, #[trigger] tree@[k]),
        {
            match processes.get(&tree[i]) {
                Some(info) => {
                    if info.is_alive() && (info.user_cpu_ticks.is_none()
                        || info.system_cpu_ticks.is_none() || info.resident_memory_kib.is_none()) {
                        assert(misses_counters(processes@, tree@[i as int]));
                        return true;
                    }
                },
                None => {},
            }
        }
        false
    }

    /// The living processes of the tree that a snapshot shows: those whose descriptors and sockets
    /// an observation takes in.
    pub fn pids_to_sample(&self, snapshot: &ProcessSnapshot) -> (pids: Vec<u32>)
        requires
            snapshot.wf(),
        ensures
            pids@ == tree_pids(snapshot@.processes, self@.root_pid).filter(
                |pid: u32| is_survivor(snapshot@.processes, pid),
            ),
    {
        let processes = &snapshot.processes;
        let ghost ps = processes@;
        let depths = tree_depths(processes, self.root_pid);
        let tree = current_tree(processes, self.root_pid, &depths);
        let ghost wanted = |pid: u32| is_survivor(ps, pid);
        let mut pids: Vec<u32> = Vec::new();
        proof {
            reveal(Seq::filter);
        }
        assert(pids@ =~= tree@.take(0).filter(wanted));
        for i in 0..tree.len()
            invariant
                processes.wf(),
                ps == processes@,
                wanted == (|pid: u32| is_survivor(ps, pid)),
                pids@ =~= tree@.take(i as int).filter(wanted),
        {
            proof {
                reveal(Seq::filter);
            }
            assert(tree@.take(i + 1).drop_last() =~= tree@.take(i as int));
            assert(tree@.take(i + 1).last() == tree@[i as int]);
            match processes.get(&tree[i]) {
                Some(info) => {
                    if info.is_alive() {
                        pids.push(tree[i]);
                    }
                },
                None => {},
            }
        }
        assert(tree@.take(tree@.len() as int) =~= tree@);
        pids
    }

    /// The known descendants that are alive in a snapshot: those whose sockets a report takes in.
    pub fn surviving_pids(&self, snapshot: &ProcessSnapshot) -> (pids: Vec<u32>)
        requires
            snapshot.wf(),
        ensures
            pids@ == descendant_pids(survivors(self@.descendants, snapshot@.processes)),
    {
        let alive = self.find_survivors(&snapshot.processes);
        let ghost all = survivors(self@.descendants, snapshot@.processes);
        let mut pids: Vec<u32> = Vec::new();
        for i in 0..alive.len()
            invariant
                all == observed_models(alive@),
                pids@ =~= descendant_pids(all).take(i as int),
        {
            assert(all[i as int] == alive@[i as int]@);
            assert(descendant_pids(all)[i as int] == alive@[i as int]@.info.pid);
            assert(descendant_pids(all).take(i + 1) =~= descendant_pids(all).take(i as int).push(
                descendant_pids(all)[i as int],
            ));
            pids.push(alive[i].info.pid);
        }
        assert(descendant_pids(all).take(alive@.len() as int) =~= descendant_pids(all));
        pids
    }

    /// Raises the peak of the memory where the processes of the tree use more together.
    pub fn update_peak_memory(&mut self, processes: &Table<ProcessInfo>, current_tree: &Vec<u32>)
        requires
            processes.wf(),
        ensures
            final(self)@ == (ObservationModel {
                peak_resident_memory_kib: peak_after(
                    old(self)@.peak_resident_memory_kib,
                    processes@,
                    current_tree@,
                ),
                ..old(self)@
            }),
    {
        let mut counters: Vec<Option<u64>> = Vec::new();
        let ghost all = current_tree@.map_values(|pid: u32| memory_of(processes@, pid));
        for i in 0..current_tree.len()
            invariant
                processes.wf(),
                all == current_tree@.map_values(|pid: u32| memory_of(processes@, pid)),
                counters@ == all.take(i as int),
        {
            let memory = match processes.get(&current_tree[i]) {
                Some(info) => info.resident_memory_kib,
                None => None,
            };
            counters.push(memory);
            assert(all.take(i + 1) =~= all.take(i as int).push(all[i as int]));
        }
        assert(all.take(current_tree@.len() as int) =~= all);
        if current_tree.len() == 0 {
            return;
        }
        match add_counters(&counters) {
            Some(total) => {
                let peak = match self.peak_resident_memory_kib {
                    Some(known) => {
                        if known >= total {
                            known
                        } else {
                            total
                        }
                    },
                    None => total,
                };
                self.peak_resident_memory_kib = Some(peak);
            },
            None => {},
        }
    }

    /// The processor time of the whole tree in milliseconds; `None` where it is not all known.
    pub fn aggregate_cpu_millis(&self, user: bool, ticks_per_second: Option<u64>) -> (millis: Option<
        u64,
    >)
        ensures
            millis == cpu_millis(self@, user, ticks_per_second),
    {
        let mut counters: Vec<Option<u64>> = Vec::new();
        match &self.primary {
            Some(primary) => {
                let ticks = if user {
                    primary.info.user_cpu_ticks
                } else {
                    primary.info.system_cpu_ticks
                };
                counters.push(ticks);
            },
            None => {
                return None;
            },
        }
        let ghost all = all_ticks(self@, user);
        let count: usize = self.descendants.len();
        assert(counters@ =~= all.take(1));
        for i in 0..count
            invariant
                count == self.descendants@.len(),
                self@.descendants == self.descendants@,
                all == all_ticks(self@, user),
                counters@ =~= all.take(i + 1),
        {
            let process = self.descendants.at(i);
            let ticks = if user {
                process.info.user_cpu_ticks
            } else {
                process.info.system_cpu_ticks
            };
            assert(all[i + 1] == ticks);
            assert(all.take(i + 2) =~= all.take(i + 1).push(all[i + 1]));
            counters.push(ticks);
        }
        assert(all.take(count + 1) =~= all);
        match add_counters(&counters) {
            Some(ticks) => ticks_to_millis(ticks, ticks_per_second),
            None => None,
        }
    }

    /// The known descendants that are alive in a snapshot.
    fn find_survivors(&self, processes: &Table<ProcessInfo>) -> (alive: Vec<&ObservedProcess>)
        requires
            processes.wf(),
        ensures
            observed_models(alive@) == survivors(self@.descendants, processes@),
    {
        let ghost all = self.descendants@;
        let ghost wanted = |d: ObservedModel| is_survivor(processes@, d.info.pid);
        let mut alive: Vec<&ObservedProcess> = Vec::new();
        proof {
            reveal(Seq::filter);
        }
        assert(observed_models(alive@) =~= all.take(0).filter(wanted));
        let count: usize = self.descendants.len();
        for i in 0..count
            invariant
                processes.wf(),
                all == self.descendants@,
                count == all.len(),
                wanted == (|d: ObservedModel| is_survivor(processes@, d.info.pid)),
                observed_models(alive@) =~= all.take(i as int).filter(wanted),
        {
            proof {
                reveal(Seq::filter);
            }
            let ghost before = observed_models(alive@);
            let descendant = self.descendants.at(i);
            assert(all.take(i + 1).drop_last() =~= all.take(i as int));
            assert(all.take(i + 1).last() == descendant@);
            match processes.get(&descendant.info.pid) {
                Some(info) => {
                    if info.is_alive() {
                        alive.push(descendant);
                        assert(observed_models(alive@) =~= before.push(descendant@));
                    }
                },
                None => {},
            }
        }
        assert(all.take(count as int) =~= all);
        alive
    }

    /// Whether the root or a known descendant could not be read.
    fn knows_unreadable_process(&self, snapshot: &ProcessSnapshot) -> (found: bool)
        ensures
            found == knows_unreadable(self@, snapshot@),
    {
        if snapshot.is_unreadable(self.root_pid) {
            return true;
        }
        let count: usize = self.descendants.len();
        for i in 0..count
            invariant
                count == self.descendants@.len(),
                forall|k: int|
                    0 <= k < i ==> !snapshot@.unreadable_pids.contains(
                        (#[trigger] self.descendants@[k]).info.pid,
                    ),
        {
            if snapshot.is_unreadable(self.descendants.at(i).info.pid) {
                assert(snapshot@.unreadable_pids.contains(self.descendants@[i as int].info.pid));
                return true;
            }
        }
        false
    }

    /// Adds the resource part of a report.
    pub fn print_resource_report(&self, ticks_per_second: Option<u64>, report: &mut ReportText)
        ensures
            final(report)@ == old(report)@ + resource_lines(self@, ticks_per_second),
    {
        let ghost before = report@;
        report.push_text("  Resource usage:");
        let limited = self.limitations.resources;
        let user_cpu = if limited {
            None
        } else {
            self.aggregate_cpu_millis(true, ticks_per_second)
        };
        print_figure("    Aggregate user CPU: ", user_cpu, " ms", report);
        let system_cpu = if limited {
            None
        } else {
            self.aggregate_cpu_millis(false, ticks_per_second)
        };
        print_figure("    Aggregate system CPU: ", system_cpu, " ms", report);
        let peak = if limited {
            None
        } else {
            self.peak_resident_memory_kib
        };
        print_figure("    Peak aggregate resident memory: ", peak, " KiB", report);
        assert(report@ =~= before + resource_lines(self@, ticks_per_second));
    }

    /// Adds the process part of a report.
    #[verifier::rlimit(40)]
    pub fn print_process_report(
        &self,
        processes: &Table<ProcessInfo>,
        process_snapshot_available: bool,
        report: &mut ReportText,
    )
        requires
            self@.wf(),
            processes.wf(),
        ensures
            final(report)@ == old(report)@ + process_lines(
                self@,
                processes@,
                process_snapshot_available,
            ),
    {
        let ghost before = report@;
        let ghost known = self@.descendants;
        let ghost ps = processes@;
        let count: usize = self.descendants.len();
        let mut line = "  Process count: ".to_owned();
        if process_snapshot_available {
            let mut text = String::new();
            push_decimal(&mut text, count as u64);
            text.append(" ");
            text.append(pluralize(count, "descendant", "descendants"));
            assert(text@ =~= decimal(count as nat) + " "@ + if count == 1 {
                "descendant"@
            } else {
                "descendants"@
            });
            line.append(text.as_str());
        } else {
            line.append("unavailable");
        }
        report.push(line);
        report.push_text("  Process tree:");
        match &self.primary {
            Some(primary) => {
                primary.print(1, report);
            },
            None => {
                report.push_text("    - primary process unavailable");
            },
        }
        let ghost head = report@;
        let ghost tree = known.map_values(
            |d: ObservedModel| process_line(d, (d.depth + 1) as nat),
        );
        for i in 0..count
            invariant
                self@.wf(),
                known == self@.descendants,
                self@.descendants == self.descendants@,
                count == known.len(),
                tree == known.map_values(
                    |d: ObservedModel| process_line(d, (d.depth + 1) as nat),
                ),
                report@ =~= head + tree.take(i as int),
        {
            let descendant = self.descendants.at(i);
            assert(known[i as int].depth <= 0x1_0000_0000);
            descendant.print(descendant.depth + 1, report);
            assert(tree.take(i + 1) =~= tree.take(i as int).push(tree[i as int]));
        }
        assert(tree.take(count as int) =~= tree);
        if process_snapshot_available {
            let alive = self.find_survivors(processes);
            let ghost living = survivors(known, ps);
            let mut line = "  Surviving descendants: ".to_owned();
            push_decimal(&mut line, alive.len() as u64);
            report.push(line);
            let ghost middle = report@;
            let ghost shown = living.map_values(|d: ObservedModel| process_line(d, 2));
            for i in 0..alive.len()
                invariant
                    observed_models(alive@) == living,
                    shown == living.map_values(|d: ObservedModel| process_line(d, 2)),
                    report@ =~= middle + shown.take(i as int),
            {
                assert(living[i as int] == observed_models(alive@)[i as int]);
                alive[i].print(2, report);
                assert(shown.take(i + 1) =~= shown.take(i as int).push(shown[i as int]));
            }
            assert(shown.take(alive@.len() as int) =~= shown);
        } else {
            report.push_text("  Surviving descendants: unavailable");
        }
        assert(report@ =~= before + process_lines(self@, ps, process_snapshot_available));
    }

    /// Adds what the observation may have missed.
    pub fn print_observation_limitations(&self, report: &mut ReportText)
        ensures
            final(report)@ == old(report)@ + bulleted(
                "Observation limitations"@,
                limitation_texts(self@.limitations),
            ),
    {
        let mut limitations: Vec<String> = Vec::new();
        if self.limitations.process {
            limitations.push(
                "process metadata was unavailable or incomplete; process counts and survivor checks may miss activity".to_owned(),
            );
        }
        if self.limitations.resources {
            limitations.push(
                "CPU or memory counters were unavailable for part of the observed process tree".to_owned(),
            );
        }
        if self.limitations.filesystem {
            limitations.push(
                "filesystem descriptors or I/O counters were unavailable; path and byte totals may be incomplete".to_owned(),
            );
        }
        if self.limitations.network {
            limitations.push(
                "network metadata was unavailable or restricted; connection activity may be incomplete".to_owned(),
            );
        }
        if self.limitations.working_directory {
            limitations.push(
                "working-directory boundary was unavailable; inside/outside path classification may be incomplete".to_owned(),
            );
        }
        assert(texts(limitations@) =~= limitation_texts(self@.limitations));
        print_bulleted("Observation limitations", &limitations, report);
    }

    /// Adds what is notable.
    #[verifier::rlimit(40)]
    pub fn print_findings(
        &self,
        processes: &Table<ProcessInfo>,
        exit_code: Option<i32>,
        report: &mut ReportText,
    )
        requires
            processes.wf(),
        ensures
            final(report)@ == old(report)@ + bulleted(
                "Notable findings"@,
                finding_texts(self@, processes@, exit_code),
            ),
    {
        let alive = self.find_survivors(processes);
        let mut findings = survivor_findings(&alive);
        let scanned_paths: usize = self.filesystem.scanned_path_count();
        if scanned_paths >= EXCESSIVE_SCAN_PATHS {
            findings.push(scan_finding(scanned_paths));
        }
        let outside_paths = self.filesystem.outside_paths();
        if outside_paths.len() > 0 {
            findings.push(
                paths_finding(
                    "activity outside working directory: ",
                    " path(s) observed; verify each path is expected (",
                    &outside_paths,
                ),
            );
        }
        let sensitive_paths = self.filesystem.sensitive_paths();
        if sensitive_paths.len() > 0 {
            findings.push(
                paths_finding(
                    "sensitive path access: ",
                    " path(s) observed; review permissions and data exposure (",
                    &sensitive_paths,
                ),
            );
        }
        let remote_connections = self.network.remote_connections();
        if remote_connections.len() > 0 {
            findings.push(remote_finding(&remote_connections));
        }
        match exit_code {
            Some(code) => {
                if code != 0 {
                    findings.push(failure_finding(code));
                }
            },
            None => {},
        }
        proof {
            let outside = self@.filesystem.outside_paths();
            let sensitive = self@.filesystem.sensitive_paths();
            let remote = remote_of(self@.network.connections);
            assert(outside.len() == outside_paths@.len());
            assert(sensitive.len() == sensitive_paths@.len());
            assert(remote.len() == remote_connections@.len());
            assert(texts(findings@) =~= finding_texts(self@, processes@, exit_code));
        }
        print_bulleted("Notable findings", &findings, report);
    }

    /// Concludes the observation with a last snapshot and adds the report on it.
    pub fn print_report(
        &mut self,
        boundary: &ObservationBoundary,
        command: &str,
        seconds: u64,
        nanoseconds: u32,
        exit_code: Option<i32>,
        termination_signal: Option<i32>,
        ticks_per_second: Option<u64>,
        report: &mut ReportText,
    )
        requires
            old(self)@.wf(),
            boundary@.wf(),
            nanoseconds < 1_000_000_000,
        ensures
            final(self)@.wf(),
            final(self)@ == concluded(old(self)@, boundary@),
            final(report)@ == old(report)@ + report_lines(
                concluded(old(self)@, boundary@),
                boundary@.snapshot.processes,
                is_conclusive(old(self)@, boundary@.snapshot),
                command@,
                duration_text(seconds, nanoseconds),
                exit_code,
                termination_signal,
                ticks_per_second,
            ),
    {
        let conclusive = self.conclude(boundary);
        let duration = format_duration(seconds, nanoseconds);
        self.print_concluded(
            &boundary.process_snapshot().processes,
            conclusive,
            command,
            duration.as_str(),
            exit_code,
            termination_signal,
            ticks_per_second,
            report,
        );
    }

    /// Takes in the last snapshot, and returns whether it tells how many processes there were and
    /// which of them survived.
    pub fn conclude(&mut self, boundary: &ObservationBoundary) -> (conclusive: bool)
        requires
            old(self)@.wf(),
            boundary@.wf(),
        ensures
            final(self)@.wf(),
            final(self)@ == concluded(old(self)@, boundary@),
            conclusive == is_conclusive(old(self)@, boundary@.snapshot),
    {
        let snapshot = boundary.process_snapshot();
        let conclusive = snapshot.available && !self.knows_unreadable_process(snapshot)
            && self.primary.is_some();
        if !conclusive {
            self.limitations.process = true;
            self.limitations.resources = true;
        }
        let mut pids: Vec<u32> = Vec::new();
        let ghost all = descendant_pids(self.descendants@);
        let count: usize = self.descendants.len();
        for i in 0..count
            invariant
                count == self.descendants@.len(),
                all == descendant_pids(self.descendants@),
                pids@ =~= all.take(i as int),
        {
            assert(all.take(i + 1) =~= all.take(i as int).push(all[i as int]));
            pids.push(self.descendants.at(i).info.pid);
        }
        assert(all.take(count as int) =~= all);
        self.network.observe_pids(boundary, &snapshot.processes, &pids);
        self.limitations.network = self.limitations.network || self.network.is_limited();
        self.limitations.working_directory = self.limitations.working_directory
            || !self.filesystem.has_working_directory();
        conclusive
    }

    /// Adds the report on an observation that has been concluded.
    #[verifier::rlimit(40)]
    pub fn print_concluded(
        &self,
        processes: &Table<ProcessInfo>,
        conclusive: bool,
        command: &str,
        duration: &str,
        exit_code: Option<i32>,
        termination_signal: Option<i32>,
        ticks_per_second: Option<u64>,
        report: &mut ReportText,
    )
        requires
            self@.wf(),
            processes.wf(),
        ensures
            final(report)@ == old(report)@ + report_lines(
                self@,
                processes@,
                conclusive,
                command@,
                duration@,
                exit_code,
                termination_signal,
                ticks_per_second,
            ),
    {
        let ghost before = report@;
        let ghost ps = processes@;
        print_heading(command, duration, exit_code, termination_signal, report);
        let ghost head = heading_lines(command@, duration@, exit_code, termination_signal);
        self.print_resource_report(ticks_per_second, report);
        report.push_text("Processes:");
        let ghost resources = resource_lines(self@, ticks_per_second);
        self.print_process_report(processes, conclusive, report);
        report.push_text("Filesystem:");
        let ghost tree = process_lines(self@, ps, conclusive);
        self.filesystem.print_report(report);
        report.push_text("Network:");
        let ghost files = filesystem_lines(self@.filesystem);
        self.network.print_report(processes, conclusive, report);
        let ghost connections = network_lines(self@.network, ps, conclusive);
        self.print_observation_limitations(report);
        let ghost limits = bulleted(
            "Observation limitations"@,
            limitation_texts(self@.limitations),
        );
        self.print_findings(processes, exit_code, report);
        let ghost findings = bulleted(
            "Notable findings"@,
            finding_texts(self@, ps, exit_code),
        );
        proof {
            lemma_sections(
                before,
                head,
                resources,
                "Processes:"@,
                tree,
                "Filesystem:"@,
                files,
                "Network:"@,
                connections,
                limits,
                findings,
            );
        }
    }
}

/// Lines that are added one section after the other are the sections, joined and added at once.
proof fn lemma_sections(
    before: Seq<Seq<char>>,
    head: Seq<Seq<char>>,
    resources: Seq<Seq<char>>,
    second: Seq<char>,
    tree: Seq<Seq<char>>,
    third: Seq<char>,
    files: Seq<Seq<char>>,
    fourth: Seq<char>,
    connections: Seq<Seq<char>>,
    limits: Seq<Seq<char>>,
    findings: Seq<Seq<char>>,
)
    ensures
        (((((before + head) + resources).push(second) + tree).push(third) + files).push(fourth)
            + connections) + limits + findings == before + (head + resources + seq![second] + tree
            + seq![third] + files + seq![fourth] + connections + limits + findings),
{
    assert((((((before + head) + resources).push(second) + tree).push(third) + files).push(fourth)
        + connections) + limits + findings =~= before + (head + resources + seq![second] + tree
        + seq![third] + files + seq![fourth] + connections + limits + findings));
}

/// Adds the first lines of a report.
fn print_heading(
    command: &str,
    duration: &str,
    exit_code: Option<i32>,
    termination_signal: Option<i32>,
    report: &mut ReportText,
)
    ensures
        final(report)@ == old(report)@ + heading_lines(
            command@,
            duration@,
            exit_code,
            termination_signal,
        ),
{
    let ghost before = report@;
    report.push_text("\nRunLens report");
    let mut line = "Command: ".to_owned();
    line.append(command);
    report.push(line);
    report.push_text("Duration and resources:");
    let mut line = "  Duration: ".to_owned();
    line.append(duration);
    report.push(line);
    report.push(describe_status(exit_code, termination_signal));
    assert(report@ =~= before + heading_lines(
        command@,
        duration@,
        exit_code,
        termination_signal,
    ));
}

/// How the command ended, as a report says it.
pub fn describe_status(exit_code: Option<i32>, termination_signal: Option<i32>) -> (line: String)
    ensures
        line@ == status_line(exit_code, termination_signal),
{
    match exit_code {
        Some(code) => {
            let mut line = "  Exit status: ".to_owned();
            push_signed(&mut line, code);
            line
        },
        None => match termination_signal {
            Some(signal) => {
                let mut line = "  Exit status: terminated by signal ".to_owned();
                line.append(signal_name(signal));
                line.append(" (");
                push_signed(&mut line, signal);
                line.append(")");
                line
            },
            None => "  Exit status: terminated by signal".to_owned(),
        },
    }
}

/// The findings that descendants outlived the command.
fn survivor_findings(alive: &Vec<&ObservedProcess>) -> (findings: Vec<String>)
    ensures
        texts(findings@) == observed_models(alive@).map_values(
            |d: ObservedModel| survivor_text(d),
        ),
{
    let mut findings: Vec<String> = Vec::new();
    let ghost all = observed_models(alive@).map_values(|d: ObservedModel| survivor_text(d));
    for i in 0..alive.len()
        invariant
            all == observed_models(alive@).map_values(|d: ObservedModel| survivor_text(d)),
            texts(findings@) =~= all.take(i as int),
    {
        let ghost before = texts(findings@);
        let survivor = alive[i];
        let mut text = "surviving descendant PID ".to_owned();
        push_decimal(&mut text, survivor.info.pid as u64);
        text.append(" (");
        text.append(sanitize_process_text(survivor.info.command.as_str()).as_str());
        text.append(") remains alive; inspect or stop it after confirming it is not needed");
        assert(observed_models(alive@)[i as int] == survivor@);
        assert(text@ == all[i as int]);
        findings.push(text);
        assert(texts(findings@) =~= before.push(all[i as int]));
        assert(all.take(i + 1) =~= all.take(i as int).push(all[i as int]));
    }
    assert(all.take(alive@.len() as int) =~= all);
    findings
}

/// The finding that a command scanned excessively.
fn scan_finding(count: usize) -> (text: String)
    ensures
        text@ == scan_text(count as nat),
{
    let mut text = "excessive file/directory scanning: ".to_owned();
    push_decimal(&mut text, count as u64);
    text.append(" distinct paths observed; inspect the command's scan scope");
    text
}

/// A finding about some paths.
fn paths_finding(before: &str, after: &str, paths: &Vec<Vec<u8>>) -> (text: String)
    ensures
        text@ == paths_text(before@, after@, nested(paths@)),
{
    let mut text = before.to_owned();
    push_decimal(&mut text, paths.len() as u64);
    text.append(after);
    text.append(format_path_examples(paths).as_str());
    text.append(")");
    text
}

/// The finding that there were connections to other machines.
fn remote_finding(remote: &Vec<&NetworkConnection>) -> (text: String)
    ensures
        text@ == remote_text(connection_models(remote@)),
{
    let mut endpoints: Vec<String> = Vec::new();
    let ghost models = connection_models(remote@);
    let ghost all = destination_texts(models);
    let mut i: usize = 0;
    while i < remote.len() && i < MAX_DETAIL_ITEMS
        invariant
            models == connection_models(remote@),
            all == destination_texts(models),
            i <= remote@.len(),
            i <= MAX_DETAIL_ITEMS,
            texts(endpoints@) =~= all.take(i as int),
        decreases remote@.len() - i,
    {
        let ghost before = texts(endpoints@);
        let connection = remote[i];
        let mut text = connection.protocol_label().to_owned();
        text.append(" ");
        text.append(connection.remote_endpoint().as_str());
        assert(models[i as int] == connection@);
        assert(all[i as int] == text@);
        endpoints.push(text);
        assert(texts(endpoints@) =~= before.push(all[i as int]));
        assert(all.take(i + 1) =~= all.take(i as int).push(all[i as int]));
        i += 1;
    }
    assert(all.take(i as int) =~= all);
    let mut text = "remote/unexpected network activity: ".to_owned();
    push_decimal(&mut text, remote.len() as u64);
    text.append(" connection(s) observed; verify destination and port (");
    text.append(format_examples(&endpoints, remote.len()).as_str());
    text.append(")");
    text
}

/// The finding that a command failed.
fn failure_finding(code: i32) -> (text: String)
    ensures
        text@ == failure_text(code),
{
    let mut text = "command exited with status ".to_owned();
    push_signed(&mut text, code);
    text.append("; inspect command output and the findings above");
    text
}

} // verus!

//! Observations of process trees, and the reports on them.

use runlens::boundary::{
    FileDescriptor, FileDescriptorSnapshot, ObservationBoundary, ProcessSnapshot,
};
use runlens::filesystem::{FilesystemObservation, PathArea};
use runlens::network::NetworkObservation;
use runlens::observation::{describe_status, ticks_to_millis, ProcessObservation};
use runlens::observed::ObservedProcess;
use runlens::output::ReportText;
use runlens::platform::network_snapshot;
use runlens::process::{current_tree, tree_depths, ProcessInfo};
use runlens::quoting::format_command;
use runlens::report::ExecutionReport;
use runlens::session::launch_failure;
use runlens::sockets::SocketTables;
use runlens::table::Table;

const ROOT: u32 = 100;

fn process(pid: u32, parent_pid: u32, command: &str) -> ProcessInfo {
    ProcessInfo {
        pid,
        parent_pid,
        state: 'S',
        command: command.to_string(),
        user_cpu_ticks: Some(10),
        system_cpu_ticks: Some(5),
        resident_memory_kib: Some(1000),
        read_storage_bytes: Some(0),
        write_storage_bytes: Some(0),
    }
}

fn table(list: Vec<ProcessInfo>) -> Table<ProcessInfo> {
    let mut processes = Table::new();
    for info in list {
        processes.place(info);
    }
    processes
}

fn snapshot(list: Vec<ProcessInfo>) -> ProcessSnapshot {
    ProcessSnapshot { processes: table(list), available: true, unreadable_pids: vec![] }
}

fn descriptors(paths: &[(&str, bool, bool, bool)]) -> FileDescriptorSnapshot {
    FileDescriptorSnapshot {
        descriptors: paths
            .iter()
            .map(|(path, directory, read, write)| FileDescriptor {
                path: path.as_bytes().to_vec(),
                directory: *directory,
                read: *read,
                write: *write,
            })
            .collect(),
        limited: false,
    }
}

/// A socket with an inode, from the given port of this machine to an address in table notation.
fn socket(inode: u64, remote: &str) -> (Vec<Option<Vec<u8>>>, SocketTables) {
    let line = format!("0: 0100007F:C000 {remote} 01 0:0 0:0 0 0 0 {inode}");
    (
        vec![Some(format!("socket:[{inode}]").into_bytes())],
        SocketTables {
            tcp: Some(format!("heading\n{line}\n")),
            tcp6: Some(String::new()),
            udp: Some(String::new()),
            udp6: Some(String::new()),
        },
    )
}

fn no_sockets() -> (Vec<Option<Vec<u8>>>, SocketTables) {
    let empty = || Some(String::new());
    (vec![], SocketTables { tcp: empty(), tcp6: empty(), udp: empty(), udp6: empty() })
}

fn add_sockets(
    boundary: &mut ObservationBoundary,
    pid: u32,
    sockets: (Vec<Option<Vec<u8>>>, SocketTables),
) {
    let (links, tables) = sockets;
    boundary.add_network_snapshot(pid, network_snapshot(&Some(links), &tables).unwrap());
}

/// A boundary in which every process can be read and has neither files nor sockets.
fn quiet(list: Vec<ProcessInfo>) -> ObservationBoundary {
    let pids: Vec<u32> = list.iter().map(|p| p.pid).collect();
    let mut boundary = ObservationBoundary::new(snapshot(list));
    for pid in pids {
        boundary.add_file_descriptors(pid, descriptors(&[]));
        add_sockets(&mut boundary, pid, no_sockets());
    }
    boundary
}

fn observation() -> ProcessObservation {
    ProcessObservation::new(ROOT, Some(b"/work".to_vec()))
}

fn render(
    observation: ProcessObservation,
    last: &ObservationBoundary,
    exit_code: Option<i32>,
    signal: Option<i32>,
) -> String {
    let report =
        ExecutionReport::new("sh -c x".to_string(), 0, 250_000_000, exit_code, signal, observation);
    report.render(last, Some(100)).join("\n")
}

/// The report on a command that was observed once and left nothing behind.
fn report_on(boundary: ObservationBoundary) -> String {
    let mut observation = observation();
    observation.observe(&boundary, true);
    render(observation, &quiet(vec![]), Some(0), None)
}

#[test]
fn reports_success_with_command_duration_and_exit_status() {
    let command = ["/bin/sh", "-c", "printf command-output"];
    let command: Vec<Vec<u8>> = command.iter().map(|a| a.as_bytes().to_vec()).collect();
    let mut observation = observation();
    observation.observe(&quiet(vec![process(ROOT, 1, "sh")]), true);
    let report = ExecutionReport::new(format_command(&command), 1, 0, Some(0), None, observation);
    let report = report.render(&quiet(vec![]), Some(100)).join("\n");
    assert!(report.starts_with("\nRunLens report\nCommand: "));
    assert!(report.contains("Command: /bin/sh -c 'printf command-output'"));
    assert!(report.contains("  Duration: 1.0 s"));
    assert!(report.contains("Exit status: 0"));
    assert!(report.ends_with("Observation limitations: none\nNotable findings: none"), "{report}");
}

#[test]
fn quiet_report_is_complete() {
    let report = report_on(quiet(vec![process(ROOT, 1, "sh")]));
    assert_eq!(
        report,
        [
            "",
            "RunLens report",
            "Command: sh -c x",
            "Duration and resources:",
            "  Duration: 250 ms",
            "  Exit status: 0",
            "  Resource usage:",
            "    Aggregate user CPU: 100 ms",
            "    Aggregate system CPU: 50 ms",
            "    Peak aggregate resident memory: 1000 KiB",
            "Processes:",
            "  Process count: 0 descendants",
            "  Process tree:",
            "  - PID 100 (parent PID 1): sh",
            "  Surviving descendants: 0",
            "Filesystem:",
            "  Filesystem activity: none observed",
            "  Filesystem observation limits: paths and counts are sampled from open descriptors; read/write-capable does not prove a completed operation and short-lived activity may be missed; byte totals are kernel-reported storage I/O bytes, may exclude cached activity, and are not path-specific totals.",
            "Network:",
            "  Network connections: none observed",
            "  Network observation limits: endpoints are sampled from process socket descriptors and /proc network tables; short-lived sockets may be missed; payloads are not captured.",
            "Observation limitations: none",
            "Notable findings: none",
        ]
        .join("\n")
    );
}

#[test]
fn preserves_failed_exit_status_and_reports_failure() {
    let mut observation = observation();
    observation.observe(&quiet(vec![process(ROOT, 1, "sh")]), true);
    let report = render(observation, &quiet(vec![]), Some(7), None);
    assert!(report.contains("Exit status: 7"));
    assert!(report.contains("  - command exited with status 7; inspect command output and the findings above"));
}

#[test]
fn distinguishes_launch_failure_from_wrapped_failure() {
    let failure = launch_failure("\"/no/such\"", "No such file or directory (os error 2)");
    assert_eq!(failure.exit_code, 1);
    assert!(failure.message.contains("runlens: failed to launch"));
    assert!(failure.message.contains("report not produced"));
    assert!(!failure.message.contains("RunLens report"));
    assert!(!failure.message.contains("Exit status:"));
}

#[test]
fn endings_are_described() {
    assert_eq!(describe_status(Some(-3), None), "  Exit status: -3");
    assert_eq!(describe_status(Some(1), Some(15)), "  Exit status: 1");
    assert_eq!(describe_status(None, Some(15)), "  Exit status: terminated by signal SIGTERM (15)");
    assert_eq!(describe_status(None, Some(9)), "  Exit status: terminated by signal signal (9)");
    assert_eq!(describe_status(None, None), "  Exit status: terminated by signal");
}

#[test]
fn reports_partial_observation_without_false_zeroes() {
    let mut hidden = process(ROOT, 1, "sh");
    hidden.read_storage_bytes = None;
    hidden.write_storage_bytes = None;
    hidden.user_cpu_ticks = None;
    let boundary = ObservationBoundary::new(snapshot(vec![hidden]));
    let mut observation = observation();
    observation.observe(&boundary, true);
    let report = render(observation, &quiet(vec![]), Some(0), None);
    assert!(report.contains("Observation limitations:\n  - CPU or memory counters were unavailable"), "{report}");
    assert!(report.contains("  - filesystem descriptors or I/O counters were unavailable"), "{report}");
    assert!(report.contains("  - network metadata was unavailable or restricted"), "{report}");
    assert!(report.contains("Aggregate user CPU: unavailable"), "{report}");
    assert!(report.contains("Peak aggregate resident memory: unavailable"), "{report}");
    assert!(report.contains("one or more I/O counters were unavailable"), "{report}");
    assert!(report.contains("Network connections: unavailable"), "{report}");
    assert!(!report.contains("Read bytes: 0 bytes"), "{report}");
}

#[test]
fn open_files_do_not_show_zero_bytes() {
    let mut boundary = ObservationBoundary::new(snapshot(vec![process(ROOT, 1, "sh")]));
    boundary.add_file_descriptors(ROOT, descriptors(&[("/work/a", false, true, false)]));
    add_sockets(&mut boundary, ROOT, no_sockets());
    let report = report_on(boundary);
    assert!(report.contains("    Read bytes: unavailable"), "{report}");
    assert!(report.contains("    Write bytes: 0 bytes"), "{report}");
    assert!(report.contains("read byte totals may miss short-lived process activity"), "{report}");
    assert!(report.contains("Observation limitations:\n  - filesystem descriptors"), "{report}");
}

#[test]
fn never_observed_trees_are_reported_as_unavailable() {
    let boundary = ObservationBoundary::new(ProcessSnapshot {
        processes: table(vec![]),
        available: false,
        unreadable_pids: vec![],
    });
    let mut observation = ProcessObservation::new(ROOT, None);
    observation.observe(&boundary, true);
    let report = render(observation, &boundary, None, None);
    for line in [
        "  Process count: unavailable",
        "    - primary process unavailable",
        "  Surviving descendants: unavailable",
        "  Filesystem activity: unavailable",
        "  Network connections: unavailable",
        "  - process metadata was unavailable or incomplete; process counts and survivor checks may miss activity",
        "  - working-directory boundary was unavailable; inside/outside path classification may be incomplete",
    ] {
        assert!(report.lines().any(|l| l == line), "{line} in {report}");
    }
}

#[test]
fn reports_descendant_count_and_parent_relationships() {
    let report = report_on(quiet(vec![
        process(ROOT, 1, "sh"),
        process(101, ROOT, "sleep 0.2"),
        process(7, 1, "stranger"),
    ]));
    assert!(report.contains("Process count: 1 descendant\n"), "{report}");
    assert!(report.contains("  - PID 100 (parent PID 1): sh\n    - PID 101 (parent PID 100): sleep 0.2"), "{report}");
    assert!(!report.contains("stranger"), "{report}");
}

#[test]
fn depths_are_counted_from_the_root() {
    let processes = table(vec![
        process(ROOT, 1, "a"),
        process(50, 102, "e"),
        process(101, ROOT, "b"),
        process(102, 101, "c"),
        process(103, ROOT, "d"),
        process(8, 9, "x"),
        process(9, 8, "y"),
    ]);
    let depths = tree_depths(&processes, ROOT);
    assert_eq!(depths, vec![None, None, Some(3), None, Some(1), Some(2), Some(1)]);
    assert_eq!(current_tree(&processes, ROOT, &depths), vec![50, 100, 101, 102, 103]);
    assert_eq!(tree_depths(&processes, 8), vec![None, Some(1), None, None, None, None, None]);
}

#[test]
fn trees_without_their_root_are_empty_but_descendants_are_known() {
    let list = || vec![process(101, ROOT, "orphan"), process(102, 101, "below")];
    let processes = table(list());
    let depths = tree_depths(&processes, ROOT);
    assert_eq!(depths, vec![Some(1), Some(2)]);
    assert!(current_tree(&processes, ROOT, &depths).is_empty());
    let mut observation = observation();
    assert!(observation.pids_to_sample(&snapshot(list())).is_empty());
    observation.observe(&quiet(list()), false);
    assert_eq!(observation.surviving_pids(&snapshot(list())), vec![101, 102]);
}

#[test]
fn dead_processes_are_not_sampled() {
    let mut dead = process(101, ROOT, "z");
    dead.state = 'Z';
    let list = vec![process(ROOT, 1, "sh"), dead, process(102, ROOT, "live")];
    let mut observation = observation();
    assert_eq!(observation.pids_to_sample(&snapshot(list)), vec![100, 102]);
    let mut dead = process(101, ROOT, "z");
    dead.state = 'X';
    observation.observe(&quiet(vec![process(ROOT, 1, "sh"), process(101, ROOT, "z")]), true);
    assert!(observation.surviving_pids(&snapshot(vec![dead])).is_empty());
}

#[test]
fn processes_keep_their_identity_and_their_last_counters() {
    let mut known = ObservedProcess { info: process(5, 4, "before"), depth: 2 };
    let mut seen = process(5, 1, "after");
    seen.user_cpu_ticks = None;
    seen.system_cpu_ticks = Some(99);
    seen.state = 'R';
    known.update(&seen);
    assert_eq!(known.info.parent_pid, 4);
    assert_eq!(known.info.command, "after");
    assert_eq!(known.info.state, 'R');
    assert_eq!(known.info.user_cpu_ticks, Some(10));
    assert_eq!(known.info.system_cpu_ticks, Some(99));
    assert_eq!(known.depth, 2);
    let mut report = ReportText::new();
    known.print(3, &mut report);
    assert_eq!(report.into_lines(), vec!["      - PID 5 (parent PID 4): after".to_string()]);
}

#[test]
fn descendants_are_remembered_where_they_were_first_seen() {
    let mut observation = observation();
    let first = vec![process(ROOT, 1, "sh"), process(101, ROOT, "a"), process(102, 101, "b")];
    observation.observe(&quiet(first), true);
    observation.observe(&quiet(vec![process(ROOT, 1, "sh"), process(102, ROOT, "b2")]), true);
    let report = render(observation, &quiet(vec![]), Some(0), None);
    assert!(report.contains("Process count: 2 descendants"), "{report}");
    assert!(report.contains("    - PID 101 (parent PID 100): a"), "{report}");
    assert!(report.contains("      - PID 102 (parent PID 101): b2"), "{report}");
}

#[test]
fn reports_aggregate_cpu_and_peak_resident_memory() {
    let mut observation = observation();
    observation.observe(&quiet(vec![process(ROOT, 1, "sh"), process(101, ROOT, "a")]), true);
    observation.observe(&quiet(vec![process(ROOT, 1, "sh")]), true);
    assert_eq!(observation.aggregate_cpu_millis(true, Some(100)), Some(200));
    assert_eq!(observation.aggregate_cpu_millis(false, Some(100)), Some(100));
    assert_eq!(observation.aggregate_cpu_millis(true, None), None);
    let report = render(observation, &quiet(vec![]), Some(0), None);
    assert!(report.contains("Resource usage:"), "{report}");
    assert!(report.contains("    Aggregate user CPU: 200 ms"), "{report}");
    assert!(report.contains("    Peak aggregate resident memory: 2000 KiB"), "{report}");
}

#[test]
fn ticks_are_turned_into_milliseconds() {
    assert_eq!(ticks_to_millis(7, Some(3)), Some(2333));
    assert_eq!(ticks_to_millis(7, Some(0)), None);
    assert_eq!(ticks_to_millis(7, None), None);
    assert_eq!(ticks_to_millis(u64::MAX, Some(999)), None);
    assert_eq!(ticks_to_millis(u64::MAX, Some(1000)), Some(u64::MAX));
}

#[test]
fn memory_peaks_do_not_fall() {
    let mut observation = observation();
    let mut large = process(ROOT, 1, "sh");
    large.resident_memory_kib = Some(5000);
    observation.update_peak_memory(&table(vec![large]), &vec![ROOT]);
    observation.update_peak_memory(&table(vec![process(ROOT, 1, "sh")]), &vec![ROOT]);
    observation.update_peak_memory(&table(vec![]), &vec![]);
    let mut unknown = process(ROOT, 1, "sh");
    unknown.resident_memory_kib = None;
    observation.update_peak_memory(&table(vec![unknown]), &vec![ROOT]);
    observation.observe(&quiet(vec![process(ROOT, 1, "sh")]), true);
    let report = render(observation, &quiet(vec![]), Some(0), None);
    assert!(report.contains("Peak aggregate resident memory: 5000 KiB"), "{report}");
}

#[test]
fn reports_filesystem_reads_and_separates_outside_paths() {
    let mut boundary = ObservationBoundary::new(snapshot(vec![process(ROOT, 1, "cat")]));
    boundary.add_file_descriptors(
        ROOT,
        descriptors(&[("/work/inside.txt", false, true, false), ("/other/outside.txt", false, true, false)]),
    );
    add_sockets(&mut boundary, ROOT, no_sockets());
    let report = report_on(boundary);
    assert!(report.contains("Filesystem activity:"), "{report}");
    assert!(report.contains("Read-capable files: 1"), "{report}");
    let start = report.find("  Inside working directory:").unwrap();
    let inside = &report[start..report.find("  Outside working directory:").unwrap()];
    assert!(inside.contains("/work/inside.txt") && !inside.contains("/other/outside.txt"), "{report}");
    let start = report.find("  Outside working directory:").unwrap();
    let outside = &report[start..report.find("Filesystem observation").unwrap()];
    assert!(outside.contains("/other/outside.txt") && !outside.contains("/work/inside.txt"), "{report}");
    assert!(!report.contains("Read bytes: 0 bytes"), "{report}");
    assert!(report.contains("  - activity outside working directory: 1 path(s) observed; verify each path is expected (/other/outside.txt)"), "{report}");
}

#[test]
fn reports_filesystem_writes_and_byte_totals() {
    let mut first = process(ROOT, 1, "dd");
    first.write_storage_bytes = Some(100);
    let mut boundary = ObservationBoundary::new(snapshot(vec![first]));
    let inside = "/work/inside-output.txt";
    let outside = "/other/outside-output.txt";
    boundary.add_file_descriptors(
        ROOT,
        descriptors(&[(inside, false, false, true), (outside, false, false, true)]),
    );
    add_sockets(&mut boundary, ROOT, no_sockets());
    let mut observation = observation();
    observation.observe(&boundary, true);
    let mut later = process(ROOT, 1, "dd");
    later.write_storage_bytes = Some(4196);
    observation.observe(&quiet(vec![later]), true);
    let report = render(observation, &quiet(vec![]), Some(0), None);
    assert!(report.contains("    Write bytes: 4096 bytes"), "{report}");
    assert!(report.contains("Inside working directory:"), "{report}");
    assert!(report.contains("Outside working directory:"), "{report}");
    assert_eq!(report.matches("Write-capable files: 1").count(), 2, "{report}");
    let inside_section = report
        .split("Inside working directory:")
        .nth(1)
        .and_then(|section| section.split("Outside working directory:").next())
        .unwrap();
    let outside_section = report.split("Outside working directory:").nth(1).unwrap();
    assert!(inside_section.contains(inside), "{report}");
    assert!(!inside_section.contains(outside), "{report}");
    assert!(outside_section.contains(outside), "{report}");
    assert!(!outside_section.contains(inside), "{report}");
    assert!(inside_section.contains("    Write paths:\n      - /work/inside-output.txt"), "{report}");
    assert!(report.contains("Filesystem observation limits:"), "{report}");
    assert!(!report.contains("Write bytes: 0 bytes"), "{report}");
}

#[test]
fn byte_totals_need_every_counter() {
    let mut files = FilesystemObservation::new(None);
    assert!(files.is_limited());
    assert!(!files.has_working_directory());
    let mut info = process(5, 1, "a");
    info.read_storage_bytes = Some(10);
    files.observe_io(5, &info);
    info.read_storage_bytes = Some(25);
    files.observe_io(5, &info);
    assert_eq!(files.aggregate_bytes(true), Some(15));
    assert!(!files.is_limited());
    info.read_storage_bytes = None;
    files.observe_io(5, &info);
    assert_eq!(files.aggregate_bytes(true), Some(15));
    info.read_storage_bytes = Some(3);
    files.observe_io(5, &info);
    assert_eq!(files.aggregate_bytes(true), None);
    let mut other = process(6, 1, "b");
    other.write_storage_bytes = None;
    files.observe_io(6, &other);
    other.write_storage_bytes = Some(9);
    files.observe_io(6, &other);
    assert_eq!(files.aggregate_bytes(false), None);
    assert!(files.is_limited());
}

#[test]
fn descriptors_of_one_path_add_up() {
    let mut files = FilesystemObservation::new(Some(b"/work".to_vec()));
    let mut boundary = ObservationBoundary::new(snapshot(vec![]));
    boundary.add_file_descriptors(
        5,
        descriptors(&[
            ("/work/a", false, true, false),
            ("/work//a", false, false, true),
            ("/work/ignored", false, false, false),
            ("/dir", true, true, false),
        ]),
    );
    files.observe_paths(&boundary, 5);
    assert_eq!(files.scanned_path_count(), 2);
    assert_eq!(files.all_paths(), vec![b"/work/a".to_vec(), b"/dir".to_vec()]);
    assert_eq!(files.outside_paths(), vec![b"/dir".to_vec()]);
    assert!(files.sensitive_paths().is_empty());
    assert!(files.has_access(true) && files.has_access(false));
    assert!(matches!(files.path_area(b"/work/x"), PathArea::Inside));
    assert!(matches!(files.path_area(b"/workx"), PathArea::Outside));
    files.observe_paths(&boundary, 6);
    assert!(files.is_limited());
    let unknown = FilesystemObservation::new(None);
    assert!(matches!(unknown.path_area(b"/work/x"), PathArea::Unknown));
}

#[test]
fn unclassified_paths_are_listed_without_a_working_directory() {
    let mut boundary = ObservationBoundary::new(snapshot(vec![process(ROOT, 1, "cat")]));
    boundary.add_file_descriptors(ROOT, descriptors(&[("/d", true, true, true)]));
    add_sockets(&mut boundary, ROOT, no_sockets());
    let mut observation = ProcessObservation::new(ROOT, None);
    observation.observe(&boundary, true);
    let report = render(observation, &quiet(vec![]), Some(0), None);
    assert!(report.contains("    Working directory boundary: unavailable\n  Unclassified paths:\n    Read-capable files: 0\n    Read-capable directories: 1\n    Read directories:\n      - /d\n    Write-capable files: 0\n    Write-capable directories: 1\n    Write directories:\n      - /d\n  Filesystem observation limits: "), "{report}");
    assert!(report.contains("  - working-directory boundary was unavailable"), "{report}");
}

#[test]
fn reports_survivor_and_preserves_primary_exit_without_killing_it() {
    let list = vec![process(ROOT, 1, "sh"), process(101, ROOT, "sleep\t9")];
    let mut observation = observation();
    observation.observe(&quiet(list), true);
    let last = quiet(vec![process(101, 1, "sleep 9")]);
    let report = render(observation, &last, Some(7), None);
    assert!(report.contains("Exit status: 7"), "{report}");
    assert!(report.contains("Surviving descendants: 1\n    - PID 101 (parent PID 100): sleep\t9"), "{report}");
    assert!(report.contains("  - surviving descendant PID 101 (sleep 9) remains alive; inspect or stop it after confirming it is not needed"), "{report}");
}

#[test]
fn reports_loopback_network_connection_without_payload_or_public_network() {
    let mut boundary = ObservationBoundary::new(snapshot(vec![process(ROOT, 1, "nc")]));
    boundary.add_file_descriptors(ROOT, descriptors(&[]));
    add_sockets(&mut boundary, ROOT, socket(7, "0100007F:1F90"));
    let report = report_on(boundary);
    assert!(report.contains("Network connections:"), "{report}");
    assert!(report.contains("Local connections: 1"), "{report}");
    assert!(report.contains("Remote connections: 0"), "{report}");
    assert!(report.contains("    - TCP local 127.0.0.1:49152 -> remote 127.0.0.1:8080 (ESTABLISHED; local connection)\n      Associated processes: PID 100: nc"), "{report}");
    assert!(report.contains("Notable findings: none"), "{report}");
}

#[test]
fn reports_remote_network_activity_as_a_notable_finding() {
    let mut boundary = ObservationBoundary::new(snapshot(vec![process(ROOT, 1, "nc")]));
    boundary.add_file_descriptors(ROOT, descriptors(&[]));
    add_sockets(&mut boundary, ROOT, socket(7, "0200000A:01BB"));
    let report = report_on(boundary);
    assert!(report.contains("Remote connections: 1"), "{report}");
    assert!(report.contains("; remote connection)"), "{report}");
    assert!(report.contains("  - remote/unexpected network activity: 1 connection(s) observed; verify destination and port (TCP 10.0.0.2:443)"), "{report}");
}

#[test]
fn reports_network_connection_for_surviving_process() {
    let mut observation = observation();
    observation.observe(&quiet(vec![process(ROOT, 1, "sh"), process(101, ROOT, "nc")]), true);
    let mut last = ObservationBoundary::new(snapshot(vec![process(101, 1, "nc")]));
    add_sockets(&mut last, 101, socket(9, "0100007F:1F90"));
    let report = render(observation, &last, Some(0), None);
    assert!(report.contains("Network connections:"), "{report}");
    assert!(report.contains("127.0.0.1:8080"), "{report}");
    assert!(report.contains("PID 101 (surviving): nc"), "{report}");
}

#[test]
fn unreadable_descendants_leave_the_survivors_open() {
    let mut observation = observation();
    let mut boundary = quiet(vec![process(ROOT, 1, "sh"), process(101, ROOT, "nc")]);
    add_sockets(&mut boundary, 101, socket(9, "0100007F:1F90"));
    observation.observe(&boundary, true);
    let last = ObservationBoundary::new(ProcessSnapshot {
        processes: table(vec![]),
        available: true,
        unreadable_pids: vec![101],
    });
    let report = render(observation, &last, Some(0), None);
    assert!(report.contains("Process count: unavailable"), "{report}");
    assert!(report.contains("Surviving descendants: unavailable"), "{report}");
    assert!(report.contains("PID 101 (survivor status unavailable): nc"), "{report}");
    assert!(report.contains("Aggregate user CPU: unavailable"), "{report}");
    assert!(report.contains("Observation limitations:\n  - process metadata"), "{report}");
}

#[test]
fn connections_are_kept_with_all_their_processes() {
    let mut network = NetworkObservation::new();
    assert!(network.is_limited());
    let processes = table(vec![process(5, 1, "a"), process(6, 1, "b")]);
    let mut boundary = ObservationBoundary::new(snapshot(vec![]));
    add_sockets(&mut boundary, 5, socket(1, "0200000A:01BB"));
    add_sockets(&mut boundary, 6, socket(2, "0200000A:01BB"));
    network.observe(&boundary, &processes, &vec![5]);
    network.observe_pids(&boundary, &processes, &vec![6, 99]);
    assert!(!network.is_limited());
    let remote = network.remote_connections();
    assert_eq!(remote.len(), 1);
    assert_eq!(remote[0].protocol_label(), "TCP");
    assert_eq!(remote[0].remote_endpoint(), "10.0.0.2:443");
    assert_eq!(remote[0].processes.len(), 2);
    network.observe_process(&ObservationBoundary::new(snapshot(vec![])), 5, &process(5, 1, "a"));
    assert!(network.is_limited());
    assert_eq!(network.remote_connections().len(), 1);
}

#[test]
fn limitations_stay_once_they_are_found() {
    let mut observation = observation();
    let blind = ObservationBoundary::new(ProcessSnapshot {
        processes: table(vec![]),
        available: true,
        unreadable_pids: vec![3],
    });
    observation.observe(&blind, false);
    observation.observe(&quiet(vec![process(ROOT, 1, "sh")]), true);
    let report = render(observation, &quiet(vec![]), Some(0), None);
    assert!(report.contains("Observation limitations:\n  - process metadata was unavailable"), "{report}");
}

#[test]
fn reports_stable_sections_and_actionable_findings_for_complete_fixture() {
    let mut open: Vec<(String, bool)> =
        (0..40).map(|i| (format!("/work/scan/input-{i:02}.txt"), false)).collect();
    open.push(("/outside/.ssh/credentials".to_string(), false));
    let list: Vec<(&str, bool, bool, bool)> =
        open.iter().map(|(p, d)| (p.as_str(), *d, true, false)).collect();
    let mut boundary = quiet(vec![process(ROOT, 1, "fixture"), process(101, ROOT, "sleep 60")]);
    boundary.add_file_descriptors(ROOT, descriptors(&list));
    add_sockets(&mut boundary, ROOT, socket(7, "0100007F:1F90"));
    let mut observation = observation();
    observation.observe(&boundary, true);
    let report = render(observation, &quiet(vec![process(101, 1, "sleep 60")]), Some(0), None);
    let mut rest = report.as_str();
    for section in [
        "\nCommand:",
        "\nDuration and resources:",
        "\nProcesses:",
        "\nFilesystem:",
        "\nNetwork:",
        "\nObservation limitations:",
        "\nNotable findings:",
    ] {
        let at = rest.find(section);
        assert!(at.is_some(), "missing {section} in:\n{report}");
        rest = &rest[at.unwrap()..];
    }
    assert!(report.contains("surviving descendant"), "{report}");
    assert!(report.contains("excessive file/directory scanning: 41 distinct paths observed"), "{report}");
    assert!(report.contains("activity outside working directory: 1 path(s)"), "{report}");
    assert!(report.contains("sensitive path access: 1 path(s) observed; review permissions and data exposure (/outside/.ssh/credentials)"), "{report}");
    assert!(report.contains("      - ... 32 more"), "{report}");
    assert!(!report.lines().any(|line| line.contains("Filesystem event")), "{report}");
}

#[test]
fn only_the_living_of_the_tree_are_taken_in() {
    let list = || {
        let mut dead = process(101, ROOT, "dead");
        dead.state = 'Z';
        vec![process(ROOT, 1, "sh"), dead, process(7, 1, "stranger")]
    };
    let mut sparse = ObservationBoundary::new(snapshot(list()));
    sparse.add_file_descriptors(ROOT, descriptors(&[("/work/a", false, true, false)]));
    add_sockets(&mut sparse, ROOT, no_sockets());
    let mut full = ObservationBoundary::new(snapshot(list()));
    full.add_file_descriptors(ROOT, descriptors(&[("/work/a", false, true, false)]));
    add_sockets(&mut full, ROOT, no_sockets());
    for pid in [7, 101] {
        full.add_file_descriptors(pid, descriptors(&[("/elsewhere", false, true, true)]));
        add_sockets(&mut full, pid, socket(3, "0200000A:01BB"));
    }
    assert_eq!(report_on(sparse), report_on(full));
}

#[test]
fn only_the_survivors_are_taken_in_at_the_end() {
    let report = |extra: bool| {
        let mut observation = observation();
        observation.observe(&quiet(vec![process(ROOT, 1, "sh"), process(101, ROOT, "nc")]), true);
        let mut last =
            ObservationBoundary::new(snapshot(vec![process(101, 1, "nc"), process(7, 1, "x")]));
        add_sockets(&mut last, 101, no_sockets());
        if extra {
            add_sockets(&mut last, 7, socket(3, "0200000A:01BB"));
        }
        render(observation, &last, Some(0), None)
    };
    assert_eq!(report(false), report(true));
}

#[test]
fn paths_are_kept_over_all_snapshots() {
    let mut files = FilesystemObservation::new(Some(b"/work".to_vec()));
    let processes = table(vec![process(5, 1, "a")]);
    let mut first = ObservationBoundary::new(snapshot(vec![]));
    first.add_file_descriptors(5, descriptors(&[("/work/a", false, true, false)]));
    let mut second = ObservationBoundary::new(snapshot(vec![]));
    second.add_file_descriptors(5, descriptors(&[("/work/b", false, false, true)]));
    files.observe(&first, &processes, &vec![5]);
    files.observe(&second, &processes, &vec![5]);
    assert_eq!(files.all_paths(), vec![b"/work/a".to_vec(), b"/work/b".to_vec()]);
    assert!(files.has_access(true));
    assert_eq!(files.bytes_for_report(true), None);
}

#[test]
fn unknown_counters_give_no_totals() {
    let mut hidden = process(101, ROOT, "a");
    hidden.system_cpu_ticks = None;
    hidden.state = 'Z';
    let mut observation = observation();
    assert_eq!(observation.aggregate_cpu_millis(true, Some(100)), None);
    observation.observe(&quiet(vec![process(ROOT, 1, "sh"), hidden]), true);
    assert_eq!(observation.aggregate_cpu_millis(true, Some(100)), Some(200));
    assert_eq!(observation.aggregate_cpu_millis(false, Some(100)), None);
    let report = render(observation, &quiet(vec![]), Some(0), None);
    assert!(report.contains("Aggregate user CPU: 200 ms"), "{report}");
    assert!(report.contains("Aggregate system CPU: unavailable"), "{report}");
}

#[test]
fn files_come_out_the_same_in_any_order() {
    let mut first = process(5, 1, "a");
    first.read_storage_bytes = Some(10);
    let processes = table(vec![first, process(6, 1, "b"), process(7, 1, "c")]);
    let mut boundary = ObservationBoundary::new(snapshot(vec![]));
    boundary.add_file_descriptors(
        5,
        descriptors(&[("/work/a", false, true, false), ("/dir", true, true, false)]),
    );
    boundary.add_file_descriptors(
        6,
        descriptors(&[("/work/a", false, false, true), ("/work/b", false, true, false)]),
    );
    let outcome = |order: Vec<u32>| {
        let mut files = FilesystemObservation::new(Some(b"/work".to_vec()));
        files.observe(&boundary, &processes, &order);
        let mut report = ReportText::new();
        files.print_report(&mut report);
        (files.all_paths(), files.is_limited(), report.into_lines())
    };
    let expected = outcome(vec![5, 6, 7]);
    assert_eq!(expected.0.len(), 3);
    assert!(expected.1);
    for order in [vec![7, 6, 5], vec![6, 5, 7], vec![5, 7, 6]] {
        assert_eq!(outcome(order), expected);
    }
}

#[test]
fn connections_come_out_the_same_in_any_order() {
    let processes = table(vec![process(5, 1, "a"), process(6, 1, "b"), process(7, 1, "c")]);
    let mut boundary = ObservationBoundary::new(snapshot(vec![]));
    add_sockets(&mut boundary, 5, socket(1, "0200000A:01BB"));
    add_sockets(&mut boundary, 6, socket(1, "0200000A:01BB"));
    add_sockets(&mut boundary, 7, socket(2, "0100007F:1F90"));
    let outcome = |order: Vec<u32>| {
        let mut network = NetworkObservation::new();
        network.observe(&boundary, &processes, &order);
        let mut report = ReportText::new();
        network.print_report(&processes, true, &mut report);
        report.into_lines()
    };
    let expected = outcome(vec![5, 6, 7]);
    assert_eq!(expected[0], "  Network connections:");
    assert_eq!(expected[1], "    Connection count: 2");
    for order in [vec![7, 6, 5], vec![6, 7, 5]] {
        assert_eq!(outcome(order), expected);
    }
}

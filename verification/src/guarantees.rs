//! What holds of every observation and of every report.

use vstd::prelude::*;

use crate::boundary::{BoundaryModel, DescriptorModel};
use crate::filesystem::{
    activity_lines, after_io, after_tree, area_lines, area_of, body_lines, bytes_line,
    capable_lines, count_line, filesystem_lines, has_activity, lemma_after_io, lemma_with_path, limits_line, optional_samples,
    paths_in_area, with_descriptors, with_path, FilesystemModel, PathArea, PathEntry, PathModel,
    ProcessIo,
};
use crate::formatting::{is_sensitive_file, sample_lines, shown_paths};
use crate::network::{
    after_pids, network_lines, remote_of, ConnectionModel, NetworkObservationModel,
};
use crate::numbers::{decimal, digit_char, numerals_tell_numbers_apart};
use crate::observation::{
    after_snapshot, all_ticks, concluded, cpu_millis, descendant_pids, failure_text, finding_texts, heading_lines, is_conclusive, is_survivor,
    limitation_texts, process_lines, report_lines, resource_lines, scan_text, survivor_text, survivors,
    tree_memory, ObservationLimitations, ObservationModel, EXCESSIVE_SCAN_PATHS,
};
use crate::observed::{descendant_of, snapshot_extends_descendants, ObservedModel};
use crate::output::{bulleted, text_if};
use crate::paths::{components, lies_below, path_rank};
use crate::process::{lemma_pid_rank, pid_rank, process_of, tree_pids, ProcessModel};
use crate::table::{
    ascending, lemma_lookup_after_placing, lemma_placed_is_ascending, lemma_slot_bounds, lookup,
    slot,
};

verus! {

/// A path is below itself.
pub proof fn paths_lie_below_themselves(path: Seq<u8>)
    ensures
        lies_below(path, path),
{
    let parts = components(path);
    assert(parts =~= parts.subrange(0, parts.len() as int));
}

/// What is below a directory is below every directory that this one is below.
pub proof fn lying_below_is_transitive(path: Seq<u8>, middle: Seq<u8>, base: Seq<u8>)
    requires
        lies_below(path, middle),
        lies_below(middle, base),
    ensures
        lies_below(path, base),
{
    let p = components(path);
    let m = components(middle);
    let b = components(base);
    assert(b =~= p.subrange(0, b.len() as int)) by {
        assert(m =~= p.subrange(0, m.len() as int));
        assert(b =~= m.subrange(0, b.len() as int));
        assert forall|i: int| 0 <= i < b.len() implies b[i] == p[i] by {
            assert(b[i] == m.subrange(0, b.len() as int)[i]);
            assert(m[i] == p.subrange(0, m.len() as int)[i]);
        }
    }
}

/// A report lists a path under an area only where the path is on that side of the working directory
/// and was open in that way; and every path that was open in that way is listed under the area that
/// it is in, so that none is listed on both sides or on neither.
pub proof fn paths_are_listed_under_their_area(
    entries: Seq<PathModel>,
    working_directory: Option<Seq<u8>>,
    area: PathArea,
    read: bool,
    entry: PathModel,
)
    requires
        entries.contains(entry),
    ensures
        forall|i: int|
            0 <= i < paths_in_area(entries, working_directory, area, read).len() ==> area_of(
                working_directory,
                #[trigger] paths_in_area(entries, working_directory, area, read)[i],
            ) == area,
        entry.allows(read) ==> paths_in_area(
            entries,
            working_directory,
            area_of(working_directory, entry.path),
            read,
        ).contains(entry.path),
        working_directory is Some ==> area_of(working_directory, entry.path) != PathArea::Unknown,
{
    broadcast use vstd::seq_lib::group_filter_ensures;

    let wanted = |e: PathModel| e.allows(read) && area_of(working_directory, e.path) == area;
    let kept = entries.filter(wanted);
    assert forall|i: int|
        0 <= i < paths_in_area(entries, working_directory, area, read).len() implies area_of(
        working_directory,
        #[trigger] paths_in_area(entries, working_directory, area, read)[i],
    ) == area by {
        assert(wanted(kept[i]));
    }
    if entry.allows(read) {
        let own = area_of(working_directory, entry.path);
        let fits = |e: PathModel| e.allows(read) && area_of(working_directory, e.path) == own;
        let k = choose|k: int| 0 <= k < entries.len() && entries[k] == entry;
        assert(fits(entries[k]));
        assert(entries.filter(fits).contains(entries[k]));
        let j = choose|j: int|
            0 <= j < entries.filter(fits).len() && entries.filter(fits)[j] == entry;
        assert(paths_in_area(entries, working_directory, own, read)[j] == entry.path);
    }
}

/// The later entry is the earlier one, with no less access.
pub open spec fn keeps_access(earlier: PathModel, later: PathModel) -> bool {
    &&& later.path == earlier.path
    &&& earlier.read ==> later.read
    &&& earlier.write ==> later.write
}

/// The entry with the given place.
pub open spec fn entry_at(entries: Seq<PathModel>, place: Seq<Seq<int>>) -> Option<PathModel> {
    lookup::<PathEntry>(entries, place)
}

/// An open descriptor becomes an entry that allows what the descriptor allowed. The other entries
/// stay as they were.
pub proof fn open_descriptors_become_entries(
    entries: Seq<PathModel>,
    d: DescriptorModel,
    place: Seq<Seq<int>>,
)
    requires
        ascending::<PathEntry>(entries),
    ensures
        ascending::<PathEntry>(with_path(entries, d)),
        place == path_rank(d.path) ==> (entry_at(with_path(entries, d), place) matches Some(e) && (
        d.read ==> e.read) && (d.write ==> e.write) && path_rank(e.path) == place),
        place != path_rank(d.path) ==> entry_at(with_path(entries, d), place) == entry_at(
            entries,
            place,
        ),
        entry_at(entries, place) matches Some(e) ==> (entry_at(
            with_path(entries, d),
            place,
        ) matches Some(f) && keeps_access(e, f)),
{
    let r = path_rank(d.path);
    let item = match entry_at(entries, r) {
        Some(entry) => PathModel {
            path: entry.path,
            read: entry.read || d.read,
            write: entry.write || d.write,
        },
        None => PathModel { path: d.path, read: d.read, write: d.write },
    };
    lemma_slot_bounds::<PathEntry>(entries, r);
    assert(path_rank(item.path) == r);
    lemma_placed_is_ascending::<PathEntry>(entries, item);
    lemma_lookup_after_placing::<PathEntry>(entries, item, place);
}

/// The later observation of files knows all that the earlier one knew, at one place and of one
/// process.
pub open spec fn keeps_files(
    earlier: FilesystemModel,
    later: FilesystemModel,
    place: Seq<Seq<int>>,
    pid: u32,
) -> bool {
    &&& later.wf()
    &&& later.working_directory == earlier.working_directory
    &&& earlier.paths_limited ==> later.paths_limited
    &&& entry_at(earlier.paths, place) matches Some(e) ==> (entry_at(later.paths, place) matches Some(
        f,
    ) && keeps_access(e, f))
    &&& entry_at(earlier.directories, place) matches Some(e) ==> (entry_at(
        later.directories,
        place,
    ) matches Some(f) && keeps_access(e, f))
    &&& lookup::<ProcessIo>(earlier.io, pid_rank(pid)) matches Some(a) ==> (lookup::<ProcessIo>(
        later.io,
        pid_rank(pid),
    ) matches Some(b) && b.initial_read == a.initial_read && b.initial_write == a.initial_write && (
    a.latest_read is Some ==> b.latest_read is Some) && (a.latest_write is Some ==> b.latest_write
        is Some))
}

proof fn lemma_descriptors_keep_files(
    model: FilesystemModel,
    list: Seq<DescriptorModel>,
    n: nat,
    place: Seq<Seq<int>>,
    pid: u32,
)
    requires
        model.wf(),
    ensures
        keeps_files(model, with_descriptors(model, list, n), place, pid),
    decreases n,
{
    if n > 0 {
        let before = with_descriptors(model, list, (n - 1) as nat);
        let d = list[n - 1];
        lemma_descriptors_keep_files(model, list, (n - 1) as nat, place, pid);
        open_descriptors_become_entries(before.paths, d, place);
        open_descriptors_become_entries(before.directories, d, place);
        if d.read || d.write {
            lemma_with_path(before.paths, d);
            lemma_with_path(before.directories, d);
        }
    }
}

proof fn lemma_io_keeps_files(
    model: FilesystemModel,
    seen: u32,
    info: ProcessModel,
    place: Seq<Seq<int>>,
    pid: u32,
)
    requires
        model.wf(),
    ensures
        keeps_files(model, after_io(model, seen, info), place, pid),
{
    let known = lookup::<ProcessIo>(model.io, pid_rank(seen));
    let item = crate::filesystem::seen_io(known, seen, info);
    if known is Some {
        lemma_slot_bounds::<ProcessIo>(model.io, pid_rank(seen));
        let k = slot::<ProcessIo>(model.io, pid_rank(seen));
        lemma_pid_rank(model.io[k].pid, seen);
    }
    assert(item.pid == seen);
    lemma_pid_rank(seen, pid);
    lemma_after_io(model, seen, info);
    lemma_lookup_after_placing::<ProcessIo>(model.io, item, pid_rank(pid));
}

/// No observation makes a path disappear, or the knowledge of what it was open for; the counters
/// from which the byte totals are reckoned stay those that were first read; and what was found
/// missing stays missing.
pub proof fn files_are_never_forgotten(
    model: FilesystemModel,
    boundary: BoundaryModel,
    processes: Seq<ProcessModel>,
    pids: Seq<u32>,
    n: nat,
    place: Seq<Seq<int>>,
    pid: u32,
)
    requires
        model.wf(),
        n <= pids.len(),
    ensures
        keeps_files(model, after_tree(model, boundary, processes, pids, n), place, pid),
    decreases n,
{
    if n > 0 {
        let before = after_tree(model, boundary, processes, pids, (n - 1) as nat);
        files_are_never_forgotten(
            model,
            boundary,
            processes,
            pids,
            (n - 1) as nat,
            place,
            pid,
        );
        let seen = pids[n - 1];
        if let Some(info) = process_of(processes, seen) {
            lemma_io_keeps_files(before, seen, info, place, pid);
            let middle = after_io(before, seen, info);
            if info.is_alive() {
                if let Some(s) = boundary.descriptors_of(seen) {
                    let start = FilesystemModel {
                        paths_limited: middle.paths_limited || s.limited,
                        ..middle
                    };
                    lemma_descriptors_keep_files(
                        start,
                        s.descriptors,
                        s.descriptors.len(),
                        place,
                        pid,
                    );
                }
            }
        }
    }
}

/// The label of a byte total.
pub open spec fn bytes_label(read: bool) -> Seq<char> {
    if read {
        "    Read bytes: "@
    } else {
        "    Write bytes: "@
    }
}

/// Where a counter that a byte total needs is not known, the total is not shown as a number.
pub proof fn unknown_counters_make_totals_unavailable(model: FilesystemModel, read: bool, i: int)
    requires
        0 <= i < model.io.len(),
        model.io[i].bytes_since(read) is None,
    ensures
        model.bytes_for_report(read) is None,
        bytes_line(bytes_label(read), model.bytes_for_report(read)) == bytes_label(read)
            + "unavailable"@,
{
    let counters = model.io.map_values(|p: ProcessIo| p.bytes_since(read));
    assert(counters[i] is None);
}

/// The line that says that nothing was read, or written.
pub open spec fn zero_line(read: bool) -> Seq<char> {
    bytes_line(bytes_label(read), Some(0))
}

/// None of the lines says that nothing was read, or written.
spec fn hold_no_zero(lines: Seq<Seq<char>>, read: bool) -> bool {
    forall|i: int| 0 <= i < lines.len() ==> #[trigger] lines[i] != zero_line(read)
}

/// The characters in which a line that says that nothing was read, or written, can be told apart
/// from other lines.
proof fn lemma_zero_line(read: bool)
    ensures
        zero_line(read).len() > 13,
        zero_line(read)[2] == ' ',
        read ==> zero_line(read)[4] == 'R' && zero_line(read)[8] == ' ' && zero_line(read)[9] == 'b',
        !read ==> zero_line(read)[4] == 'W' && zero_line(read)[9] == ' ' && zero_line(read)[10]
            == 'b',
{
    reveal_strlit("    Read bytes: ");
    reveal_strlit("    Write bytes: ");
}

/// A byte total that is shown is not zero where a file was open.
proof fn lemma_totals_are_not_zero(model: FilesystemModel, shown: bool, read: bool)
    requires
        model.has_access(read),
    ensures
        bytes_line(bytes_label(shown), model.bytes_for_report(shown)) != zero_line(read),
{
    reveal_strlit("    Read bytes: ");
    reveal_strlit("    Write bytes: ");
    reveal_strlit("unavailable");
    let label = bytes_label(shown);
    let line = bytes_line(label, model.bytes_for_report(shown));
    let zero = zero_line(read);
    lemma_zero_line(read);
    if shown != read {
        assert(line[4] == label[4]);
    } else {
        match model.bytes_for_report(shown) {
            Some(n) => {
                if line == zero {
                    let unit = " bytes"@;
                    assert(line.len() == label.len() + decimal(n as nat).len() + unit.len());
                    assert(zero.len() == label.len() + decimal(0).len() + unit.len());
                    assert(decimal(n as nat) =~= line.subrange(
                        label.len() as int,
                        line.len() - unit.len(),
                    ));
                    assert(decimal(0) =~= zero.subrange(
                        label.len() as int,
                        zero.len() - unit.len(),
                    ));
                    numerals_tell_numbers_apart(n as nat, 0, 10);
                }
            },
            None => {
                assert(line[label.len() as int] == 'u');
                assert(decimal(0)[0] == digit_char(0));
                assert(zero[label.len() as int] == decimal(0)[0]);
            },
        }
    }
}

/// The samples of a list of paths do not say that nothing was read, or written.
proof fn lemma_samples_hold_no_zero(verb: Seq<char>, rest: Seq<char>, paths: Seq<Seq<u8>>, read: bool)
    requires
        verb == "Read"@ || verb == "Write"@,
        rest == " paths"@ || rest == " directories"@,
    ensures
        hold_no_zero(optional_samples("    "@ + verb + rest, paths), read),
{
    reveal_strlit("    ");
    reveal_strlit("Read");
    reveal_strlit("Write");
    reveal_strlit(" paths");
    reveal_strlit(" directories");
    reveal_strlit("      - ");
    reveal_strlit("      - ... ");
    reveal_strlit(":");
    lemma_zero_line(read);
    let label = "    "@ + verb + rest;
    let lines = optional_samples(label, paths);
    if paths.len() > 0 {
        let shown = shown_paths(paths);
        assert(lines == sample_lines(label, shown, paths.len()));
        assert forall|i: int| 0 <= i < lines.len() implies #[trigger] lines[i] != zero_line(
            read,
        ) by {
            if i == 0 {
                assert(lines[0] == label + ":"@);
                assert(lines[0][4] == verb[0]);
                assert(lines[0][4 + verb.len() as int + 1] == rest[1]);
            } else if i <= shown.len() {
                assert(lines[i] == "      - "@ + shown[i - 1]);
                assert(lines[i][4] == ' ');
            } else {
                assert(lines[i][4] == ' ');
            }
        }
    }
}

/// The lines about what was open for reading, or for writing, do not say that nothing was read, or
/// written.
proof fn lemma_capable_lines_hold_no_zero(
    verb: Seq<char>,
    files: Seq<Seq<u8>>,
    directories: Seq<Seq<u8>>,
    read: bool,
)
    requires
        verb == "Read"@ || verb == "Write"@,
    ensures
        hold_no_zero(capable_lines(verb, files, directories), read),
{
    lemma_samples_hold_no_zero(verb, " paths"@, files, read);
    lemma_samples_hold_no_zero(verb, " directories"@, directories, read);
    lemma_zero_line(read);
    let counts = seq![
        count_line("    "@ + verb + "-capable files: "@, files.len()),
        count_line("    "@ + verb + "-capable directories: "@, directories.len()),
    ];
    assert(hold_no_zero(counts, read)) by {
        reveal_strlit("    ");
        reveal_strlit("Read");
        reveal_strlit("Write");
        reveal_strlit("-capable files: ");
        reveal_strlit("-capable directories: ");
        assert(counts[0][4] == verb[0] && counts[0][4 + verb.len() as int] == '-');
        assert(counts[1][4] == verb[0] && counts[1][4 + verb.len() as int] == '-');
    }
    let first = optional_samples("    "@ + verb + " paths"@, files);
    let second = optional_samples("    "@ + verb + " directories"@, directories);
    lemma_joined_hold_no_zero(counts, first, read);
    lemma_joined_hold_no_zero(counts + first, second, read);
}

proof fn lemma_joined_hold_no_zero(a: Seq<Seq<char>>, b: Seq<Seq<char>>, read: bool)
    requires
        hold_no_zero(a, read),
        hold_no_zero(b, read),
    ensures
        hold_no_zero(a + b, read),
{
    assert forall|i: int| 0 <= i < (a + b).len() implies #[trigger] (a + b)[i] != zero_line(
        read,
    ) by {
        if i < a.len() {
            assert((a + b)[i] == a[i]);
        } else {
            assert((a + b)[i] == b[i - a.len()]);
        }
    }
}

/// The lines about one area do not say that nothing was read, or written.
proof fn lemma_area_lines_hold_no_zero(
    model: FilesystemModel,
    title: Seq<char>,
    area: PathArea,
    read: bool,
)
    requires
        title.len() > 0,
        title[0] != ' ',
    ensures
        hold_no_zero(area_lines(model, title, area), read),
{
    let base = model.working_directory;
    let read_paths = paths_in_area(model.paths, base, area, true);
    let write_paths = paths_in_area(model.paths, base, area, false);
    let read_directories = paths_in_area(model.directories, base, area, true);
    let write_directories = paths_in_area(model.directories, base, area, false);
    let heading = seq!["  "@ + title + ":"@];
    assert(hold_no_zero(heading, read)) by {
        reveal_strlit("  ");
        lemma_zero_line(read);
        assert(heading[0][2] == title[0]);
    }
    lemma_capable_lines_hold_no_zero("Read"@, read_paths, read_directories, read);
    lemma_capable_lines_hold_no_zero("Write"@, write_paths, write_directories, read);
    let first = capable_lines("Read"@, read_paths, read_directories);
    let second = capable_lines("Write"@, write_paths, write_directories);
    lemma_joined_hold_no_zero(heading, first, read);
    lemma_joined_hold_no_zero(heading + first, second, read);
}

/// The lines about activity do not say that nothing was read, or written.
#[verifier::rlimit(40)]
proof fn lemma_activity_holds_no_zero(model: FilesystemModel, read: bool)
    requires
        model.has_access(read),
    ensures
        hold_no_zero(activity_lines(model), read),
{
    lemma_zero_line(read);
    lemma_totals_are_not_zero(model, true, read);
    lemma_totals_are_not_zero(model, false, read);
    let head = seq![
        "  Filesystem activity:"@,
        bytes_line("    Read bytes: "@, model.bytes_for_report(true)),
        bytes_line("    Write bytes: "@, model.bytes_for_report(false)),
    ];
    assert(hold_no_zero(head, read)) by {
        reveal_strlit("  Filesystem activity:");
        assert(head[0][2] == 'F');
    }
    if model.working_directory is Some {
        reveal_strlit("Inside working directory");
        reveal_strlit("Outside working directory");
        let inside = area_lines(model, "Inside working directory"@, PathArea::Inside);
        let outside = area_lines(model, "Outside working directory"@, PathArea::Outside);
        lemma_area_lines_hold_no_zero(
            model,
            "Inside working directory"@,
            PathArea::Inside,
            read,
        );
        lemma_area_lines_hold_no_zero(
            model,
            "Outside working directory"@,
            PathArea::Outside,
            read,
        );
        lemma_joined_hold_no_zero(inside, outside, read);
        lemma_joined_hold_no_zero(head, inside + outside, read);
    } else {
        reveal_strlit("Unclassified paths");
        let notice = seq!["    Working directory boundary: unavailable"@];
        assert(hold_no_zero(notice, read)) by {
            reveal_strlit("    Working directory boundary: unavailable");
            assert(notice[0][5] == 'o');
            reveal_strlit("    Read bytes: ");
            reveal_strlit("    Write bytes: ");
            assert(zero_line(read)[5] == bytes_label(read)[5]);
        }
        let all = area_lines(model, "Unclassified paths"@, PathArea::Unknown);
        lemma_area_lines_hold_no_zero(model, "Unclassified paths"@, PathArea::Unknown, read);
        lemma_joined_hold_no_zero(notice, all, read);
        lemma_joined_hold_no_zero(head, notice + all, read);
    }
}

/// Where a file was open for reading, no line of the filesystem part of a report says that nothing
/// was read; and where one was open for writing, no line says that nothing was written.
#[verifier::rlimit(40)]
pub proof fn open_files_never_show_zero_bytes(model: FilesystemModel, read: bool, i: int)
    requires
        model.has_access(read),
        0 <= i < filesystem_lines(model).len(),
    ensures
        filesystem_lines(model)[i] != zero_line(read),
{
    let body = body_lines(model);
    lemma_zero_line(read);
    let last = seq![limits_line(model)];
    assert(hold_no_zero(last, read)) by {
        reveal_strlit("  Filesystem observation limits: ");
        assert(last[0][2] == 'F');
    }
    assert(hold_no_zero(body, read)) by {
        reveal_strlit("  Filesystem activity: unavailable");
        reveal_strlit("  Filesystem activity: none observed");
        if model.io.len() > 0 && has_activity(model) {
            lemma_activity_holds_no_zero(model, read);
        }
    }
    lemma_joined_hold_no_zero(body, last, read);
    assert(filesystem_lines(model) =~= body + last);
}

/// What was once found to be missing stays said: neither another snapshot nor the conclusion takes a
/// limitation back.
pub proof fn limitations_are_never_cleared(
    model: ObservationModel,
    boundary: BoundaryModel,
    root_expected_alive: bool,
)
    ensures
        ({
            let before = model.limitations;
            let after = after_snapshot(model, boundary, root_expected_alive).limitations;
            let end = concluded(model, boundary).limitations;
            &&& before.process ==> after.process && end.process
            &&& before.resources ==> after.resources && end.resources
            &&& before.filesystem ==> after.filesystem && end.filesystem
            &&& before.network ==> after.network && end.network
            &&& before.working_directory ==> after.working_directory && end.working_directory
        }),
{
}

/// The peak of the memory never falls, and no snapshot whose memory is all known stays above it.
pub proof fn peak_memory_never_falls(
    model: ObservationModel,
    boundary: BoundaryModel,
    root_expected_alive: bool,
)
    ensures
        ({
            let ps = boundary.snapshot.processes;
            let tree = tree_pids(ps, model.root_pid);
            let after = after_snapshot(model, boundary, root_expected_alive);
            let end = concluded(model, boundary);
            &&& model.peak_resident_memory_kib matches Some(peak) ==> (
            after.peak_resident_memory_kib matches Some(later) && later >= peak)
            &&& tree.len() > 0 ==> (tree_memory(ps, tree) matches Some(total) ==> (
            after.peak_resident_memory_kib matches Some(later) && later >= total))
            &&& end.peak_resident_memory_kib == model.peak_resident_memory_kib
        }),
{
}

/// A process that was once seen stays known: the primary process, and every descendant with its
/// identifier, its parent and its distance from the root as they were first seen.
pub proof fn processes_are_never_forgotten(
    model: ObservationModel,
    boundary: BoundaryModel,
    root_expected_alive: bool,
    pid: u32,
)
    requires
        model.wf(),
        boundary.wf(),
    ensures
        ({
            let after = after_snapshot(model, boundary, root_expected_alive);
            &&& model.primary is Some ==> after.primary is Some
            &&& descendant_of(model.descendants, pid) matches Some(d) ==> (descendant_of(
                after.descendants,
                pid,
            ) matches Some(e) && e.info.pid == d.info.pid && e.info.parent_pid == d.info.parent_pid
                && e.depth == d.depth)
            &&& concluded(model, boundary).descendants == model.descendants
            &&& concluded(model, boundary).primary == model.primary
        }),
{
    snapshot_extends_descendants(
        model.descendants,
        boundary.snapshot.processes,
        model.root_pid,
        pid,
    );
}

/// Where the last snapshot does not tell how many processes there were, the report gives neither
/// their number nor that of the survivors, and no processor time and no memory: it says that they are
/// unavailable.
pub proof fn inconclusive_reports_give_no_figures(
    model: ObservationModel,
    boundary: BoundaryModel,
    ticks_per_second: Option<u64>,
)
    requires
        !is_conclusive(model, boundary.snapshot),
    ensures
        ({
            let end = concluded(model, boundary);
            let lines = process_lines(end, boundary.snapshot.processes, false);
            &&& resource_lines(end, ticks_per_second) == seq![
                "  Resource usage:"@,
                "    Aggregate user CPU: "@ + "unavailable"@,
                "    Aggregate system CPU: "@ + "unavailable"@,
                "    Peak aggregate resident memory: "@ + "unavailable"@,
            ]
            &&& lines[0] == "  Process count: "@ + "unavailable"@
            &&& lines.last() == "  Surviving descendants: unavailable"@
        }),
{
}

/// Every limitation is listed in the report, and the report says that there is none only where that
/// is so.
pub proof fn limitations_are_reported(limitations: ObservationLimitations)
    ensures
        ({
            let listed = limitation_texts(limitations);
            let lines = bulleted("Observation limitations"@, listed);
            &&& listed.len() == count_if(limitations.process) + count_if(limitations.resources)
                + count_if(limitations.filesystem) + count_if(limitations.network) + count_if(
                limitations.working_directory,
            )
            &&& listed.len() > 0 ==> lines[0] == "Observation limitations"@ + ":"@ && lines.len()
                == listed.len() + 1
            &&& listed.len() == 0 ==> lines == seq!["Observation limitations"@ + ": none"@]
        }),
{
}

/// One where a condition holds, zero otherwise.
pub open spec fn count_if(condition: bool) -> nat {
    if condition {
        1
    } else {
        0
    }
}

/// The line is a heading, with the word `none` or without.
pub open spec fn is_heading(line: Seq<char>, title: Seq<char>) -> bool {
    line == title + ":"@ || line == title + ": none"@
}

/// The sections of a report stand at these positions.
pub open spec fn has_sections(
    lines: Seq<Seq<char>>,
    command: Seq<char>,
    files: int,
    network: int,
    limitations: int,
    findings: int,
) -> bool {
    &&& 9 < files < network < limitations < findings < lines.len()
    &&& lines[0] == "\nRunLens report"@
    &&& lines[1] == "Command: "@ + command
    &&& lines[2] == "Duration and resources:"@
    &&& lines[9] == "Processes:"@
    &&& lines[files] == "Filesystem:"@
    &&& lines[network] == "Network:"@
    &&& is_heading(lines[limitations], "Observation limitations"@)
    &&& is_heading(lines[findings], "Notable findings"@)
}

/// Every report has the same sections in the same order, whatever was observed.
#[verifier::rlimit(40)]
pub proof fn sections_stand_in_order(
    model: ObservationModel,
    ps: Seq<ProcessModel>,
    conclusive: bool,
    command: Seq<char>,
    duration: Seq<char>,
    exit_code: Option<i32>,
    termination_signal: Option<i32>,
    ticks_per_second: Option<u64>,
) -> (at: (int, int, int, int))
    ensures
        has_sections(
            report_lines(
                model,
                ps,
                conclusive,
                command,
                duration,
                exit_code,
                termination_signal,
                ticks_per_second,
            ),
            command,
            at.0,
            at.1,
            at.2,
            at.3,
        ),
{
    let head = heading_lines(command, duration, exit_code, termination_signal);
    let resources = resource_lines(model, ticks_per_second);
    let tree = process_lines(model, ps, conclusive);
    let files = filesystem_lines(model.filesystem);
    let connections = network_lines(model.network, ps, conclusive);
    let limits = bulleted("Observation limitations"@, limitation_texts(model.limitations));
    let findings = bulleted("Notable findings"@, finding_texts(model, ps, exit_code));
    let lines = report_lines(
        model,
        ps,
        conclusive,
        command,
        duration,
        exit_code,
        termination_signal,
        ticks_per_second,
    );
    assert(head.len() == 5 && resources.len() == 4);
    assert(limits.len() > 0 && findings.len() > 0);
    lemma_section_positions(
        head,
        resources,
        "Processes:"@,
        tree,
        "Filesystem:"@,
        files,
        "Network:"@,
        connections,
        limits,
        findings,
    );
    let a = 10 + tree.len() as int;
    let b = a + 1 + files.len() as int;
    let c = b + 1 + connections.len() as int;
    let d = c + limits.len() as int;
    (a, b, c, d)
}

proof fn lemma_section_positions(
    head: Seq<Seq<char>>,
    resources: Seq<Seq<char>>,
    second: Seq<char>,
    tree: Seq<Seq<char>>,
    third: Seq<char>,
    files: Seq<Seq<char>>,
    fourth: Seq<char>,
    connections: Seq<Seq<char>>,
    limits: Seq<Seq<char>>,
    findings: Seq<Seq<char>>,
)
    requires
        head.len() == 5,
        resources.len() == 4,
        limits.len() > 0,
        findings.len() > 0,
    ensures
        ({
            let lines = head + resources + seq![second] + tree + seq![third] + files + seq![fourth]
                + connections + limits + findings;
            let a = 10 + tree.len();
            let b = a + 1 + files.len();
            let c = b + 1 + connections.len();
            let d = c + limits.len();
            &&& lines.len() > d
            &&& lines[0] == head[0]
            &&& lines[1] == head[1]
            &&& lines[2] == head[2]
            &&& lines[9] == second
            &&& lines[a as int] == third
            &&& lines[b as int] == fourth
            &&& lines[c as int] == limits[0]
            &&& lines[d as int] == findings[0]
        }),
{
}

/// Every descendant that outlived the command is a finding.
#[verifier::rlimit(40)]
pub proof fn every_survivor_is_a_finding(
    model: ObservationModel,
    ps: Seq<ProcessModel>,
    exit_code: Option<i32>,
    i: int,
)
    requires
        0 <= i < model.descendants.len(),
        is_survivor(ps, model.descendants[i].info.pid),
    ensures
        finding_texts(model, ps, exit_code).contains(survivor_text(model.descendants[i])),
{
    broadcast use vstd::seq_lib::group_filter_ensures;

    let wanted = |d: ObservedModel| is_survivor(ps, d.info.pid);
    let alive = survivors(model.descendants, ps);
    assert(wanted(model.descendants[i]));
    assert(alive.contains(model.descendants[i]));
    let k = choose|k: int| 0 <= k < alive.len() && alive[k] == model.descendants[i];
    let listed = finding_texts(model, ps, exit_code);
    assert(listed[k] == survivor_text(alive[k]));
}

/// A report has no findings exactly where nothing outlived the command, fewer paths were seen than
/// make a scan, none of them outside of the working directory or sensitive, no connection left the
/// machine, and the command did not fail.
#[verifier::rlimit(40)]
pub proof fn findings_are_exactly_what_is_notable(
    model: ObservationModel,
    ps: Seq<ProcessModel>,
    exit_code: Option<i32>,
)
    ensures
        finding_texts(model, ps, exit_code).len() == 0 <==> {
            &&& survivors(model.descendants, ps).len() == 0
            &&& model.filesystem.all_paths().len() < EXCESSIVE_SCAN_PATHS
            &&& model.filesystem.outside_paths().len() == 0
            &&& model.filesystem.sensitive_paths().len() == 0
            &&& remote_of(model.network.connections).len() == 0
            &&& exit_code is None || exit_code == Some(0i32)
        },
{
    let files = model.filesystem;
    let outside = files.outside_paths();
    let sensitive = files.sensitive_paths();
    let remote = remote_of(model.network.connections);
    let alive = survivors(model.descendants, ps);
    let first = alive.map_values(|d: ObservedModel| survivor_text(d));
    let scan = text_if(
        files.all_paths().len() >= EXCESSIVE_SCAN_PATHS,
        scan_text(files.all_paths().len()),
    );
    let failure = match exit_code {
        Some(code) => text_if(code != 0, failure_text(code)),
        None => seq![],
    };
    let listed = finding_texts(model, ps, exit_code);
    assert(first.len() == alive.len());
    assert(listed.len() == first.len() + scan.len() + count_if(outside.len() > 0) + count_if(
        sensitive.len() > 0,
    ) + count_if(remote.len() > 0) + failure.len());
}

/// A filter keeps exactly the items that it wants.
proof fn lemma_filter_keeps<A>(s: Seq<A>, wanted: spec_fn(A) -> bool, item: A)
    ensures
        s.filter(wanted).contains(item) <==> s.contains(item) && wanted(item),
    decreases s.len(),
{
    reveal(Seq::filter);
    if s.len() > 0 {
        let front = s.drop_last();
        lemma_filter_keeps(front, wanted, item);
        let kept = front.filter(wanted);
        assert(s =~= front.push(s.last()));
        if front.contains(item) {
            let k = choose|k: int| 0 <= k < front.len() && front[k] == item;
            assert(s[k] == item);
        }
        if s.contains(item) && item != s.last() {
            let k = choose|k: int| 0 <= k < s.len() && s[k] == item;
            assert(front[k] == item);
        }
        if wanted(s.last()) {
            let after = kept.push(s.last());
            assert(after[after.len() - 1] == s.last());
            assert(s[s.len() - 1] == s.last());
            if kept.contains(item) {
                let k = choose|k: int| 0 <= k < kept.len() && kept[k] == item;
                assert(after[k] == item);
            }
            if after.contains(item) && item != s.last() {
                let k = choose|k: int| 0 <= k < after.len() && after[k] == item;
                assert(kept[k] == item);
            }
        }
    }
}

/// The paths that are reported as outside are exactly the paths that were seen and that are not below
/// the working directory; those reported as sensitive are exactly the sensitive ones.
pub proof fn reported_paths_are_exact(model: FilesystemModel, path: Seq<u8>)
    ensures
        model.outside_paths().contains(path) <==> model.all_paths().contains(path) && (
        model.working_directory matches Some(base) && !lies_below(path, base)),
        model.sensitive_paths().contains(path) <==> model.all_paths().contains(path)
            && is_sensitive_file(path),
{
    lemma_filter_keeps(
        model.all_paths(),
        |p: Seq<u8>| area_of(model.working_directory, p) == PathArea::Outside,
        path,
    );
    lemma_filter_keeps(model.all_paths(), |p: Seq<u8>| is_sensitive_file(p), path);
}

/// The connections that are reported as remote are exactly those whose far end is another machine.
pub proof fn remote_connections_are_exact(connections: Seq<ConnectionModel>, c: ConnectionModel)
    ensures
        remote_of(connections).contains(c) <==> connections.contains(c) && c.key.is_remote(),
    decreases connections.len(),
{
    if connections.len() > 0 {
        let front = connections.drop_last();
        let last = connections.last();
        let before = remote_of(front);
        remote_connections_are_exact(front, c);
        assert(connections[connections.len() - 1] == last);
        if front.contains(c) {
            let k = choose|k: int| 0 <= k < front.len() && front[k] == c;
            assert(connections[k] == c);
        }
        if connections.contains(c) && c != last {
            let k = choose|k: int| 0 <= k < connections.len() && connections[k] == c;
            assert(front[k] == c);
        }
        if last.key.is_remote() {
            let after = before.push(last);
            assert(after[after.len() - 1] == last);
            if before.contains(c) {
                let k = choose|k: int| 0 <= k < before.len() && before[k] == c;
                assert(after[k] == c);
            }
            if after.contains(c) && c != last {
                let k = choose|k: int| 0 <= k < after.len() && after[k] == c;
                assert(before[k] == c);
            }
        }
    }
}

/// Two boundaries show the same of a process.
pub open spec fn show_the_same(a: BoundaryModel, b: BoundaryModel, pid: u32) -> bool {
    a.descriptors_of(pid) == b.descriptors_of(pid) && a.network_of(pid) == b.network_of(pid)
}

/// An observation takes in the descriptors and sockets of the living processes of the tree and of no
/// others: boundaries that show the same processes, and the same of those, make the same observation.
pub proof fn sampling_the_living_suffices(
    model: ObservationModel,
    a: BoundaryModel,
    b: BoundaryModel,
    root_expected_alive: bool,
)
    requires
        a.snapshot == b.snapshot,
        forall|pid: u32|
            tree_pids(a.snapshot.processes, model.root_pid).contains(pid) && is_survivor(
                a.snapshot.processes,
                pid,
            ) ==> #[trigger] show_the_same(a, b, pid),
    ensures
        after_snapshot(model, a, root_expected_alive) == after_snapshot(
            model,
            b,
            root_expected_alive,
        ),
{
    let ps = a.snapshot.processes;
    let tree = tree_pids(ps, model.root_pid);
    assert forall|pid: u32| tree.contains(pid) && is_survivor(ps, pid) implies #[trigger]
        a.descriptors_of(pid) == b.descriptors_of(pid) by {
        assert(show_the_same(a, b, pid));
    }
    assert forall|pid: u32| tree.contains(pid) && is_survivor(ps, pid) implies #[trigger]
        a.network_of(pid) == b.network_of(pid) by {
        assert(show_the_same(a, b, pid));
    }
    lemma_same_files(model.filesystem, a, b, ps, tree, tree.len());
    lemma_same_connections(model.network, a, b, ps, tree, tree.len());
}

/// The conclusion takes in the sockets of the descendants that outlived the command and of no other
/// process: boundaries that show the same processes, and the same of those, conclude alike.
pub proof fn sampling_the_survivors_suffices(
    model: ObservationModel,
    a: BoundaryModel,
    b: BoundaryModel,
)
    requires
        a.snapshot == b.snapshot,
        forall|pid: u32|
            descendant_pids(model.descendants).contains(pid) && is_survivor(
                a.snapshot.processes,
                pid,
            ) ==> #[trigger] a.network_of(pid) == b.network_of(pid),
    ensures
        concluded(model, a) == concluded(model, b),
{
    let pids = descendant_pids(model.descendants);
    lemma_same_connections(model.network, a, b, a.snapshot.processes, pids, pids.len());
}

proof fn lemma_same_files(
    model: FilesystemModel,
    a: BoundaryModel,
    b: BoundaryModel,
    ps: Seq<ProcessModel>,
    pids: Seq<u32>,
    n: nat,
)
    requires
        n <= pids.len(),
        forall|pid: u32|
            pids.contains(pid) && is_survivor(ps, pid) ==> #[trigger] a.descriptors_of(pid)
                == b.descriptors_of(pid),
    ensures
        after_tree(model, a, ps, pids, n) == after_tree(model, b, ps, pids, n),
    decreases n,
{
    if n > 0 {
        lemma_same_files(model, a, b, ps, pids, (n - 1) as nat);
        assert(pids.contains(pids[n - 1]));
        assert(is_survivor(ps, pids[n - 1]) ==> a.descriptors_of(pids[n - 1]) == b.descriptors_of(
            pids[n - 1],
        ));
    }
}

proof fn lemma_same_connections(
    model: NetworkObservationModel,
    a: BoundaryModel,
    b: BoundaryModel,
    ps: Seq<ProcessModel>,
    pids: Seq<u32>,
    n: nat,
)
    requires
        n <= pids.len(),
        forall|pid: u32|
            pids.contains(pid) && is_survivor(ps, pid) ==> #[trigger] a.network_of(pid)
                == b.network_of(pid),
    ensures
        after_pids(model, a, ps, pids, n) == after_pids(model, b, ps, pids, n),
    decreases n,
{
    if n > 0 {
        lemma_same_connections(model, a, b, ps, pids, (n - 1) as nat);
        assert(pids.contains(pids[n - 1]));
        assert(is_survivor(ps, pids[n - 1]) ==> a.network_of(pids[n - 1]) == b.network_of(
            pids[n - 1],
        ));
    }
}

/// Where the processor time of one process is not known, or that of the clock, the report gives no
/// total but says that it is unavailable; and so for a memory that was never known.
pub proof fn unknown_counters_make_figures_unavailable(
    model: ObservationModel,
    user: bool,
    ticks_per_second: Option<u64>,
)
    ensures
        (model.primary is None || ticks_per_second is None || exists|i: int|
            0 <= i < all_ticks(model, user).len() && (#[trigger] all_ticks(model, user)[i])
                is None) ==> {
            &&& cpu_millis(model, user, ticks_per_second) is None
            &&& resource_lines(model, ticks_per_second)[if user {
                1
            } else {
                2
            }] == (if user {
                "    Aggregate user CPU: "@
            } else {
                "    Aggregate system CPU: "@
            }) + "unavailable"@
        },
        model.peak_resident_memory_kib is None ==> resource_lines(model, ticks_per_second)[3]
            == "    Peak aggregate resident memory: "@ + "unavailable"@,
{
}

/// What could not be observed at all is called unavailable, never empty: files where no process was
/// ever seen, and connections where no socket table could be read.
#[verifier::rlimit(40)]
pub proof fn unavailable_sources_are_not_called_empty(
    files: FilesystemModel,
    network: NetworkObservationModel,
    ps: Seq<ProcessModel>,
    conclusive: bool,
    i: int,
)
    ensures
        files.io.len() == 0 ==> filesystem_lines(files)[0]
            == "  Filesystem activity: unavailable"@ && (0 <= i < filesystem_lines(files).len()
            ==> filesystem_lines(files)[i] != "  Filesystem activity: none observed"@),
        !network.backend_available ==> network_lines(network, ps, conclusive)[0]
            == "  Network connections: unavailable"@ && (0 <= i < network_lines(
            network,
            ps,
            conclusive,
        ).len() ==> network_lines(network, ps, conclusive)[i]
            != "  Network connections: none observed"@),
{
    reveal_strlit("  Filesystem activity: unavailable");
    reveal_strlit("  Filesystem activity: none observed");
    reveal_strlit("  Filesystem observation limits: ");
    reveal_strlit("  Network connections: unavailable");
    reveal_strlit("  Network connections: none observed");
    reveal_strlit(
        "  Network observation limits: Linux /proc network metadata was unavailable; payloads are not captured.",
    );
    assert("  Filesystem activity: unavailable"@.len() != "  Filesystem activity: none observed"@.len());
    assert(limits_line(files)[13] == 'o');
    assert("  Network connections: unavailable"@.len() != "  Network connections: none observed"@.len());
    assert("  Network observation limits: Linux /proc network metadata was unavailable; payloads are not captured."@[10]
        == 'o');
}

/// Connections that were recorded are counted and shown, never called unavailable or missing.
pub proof fn recorded_connections_are_reported(
    network: NetworkObservationModel,
    ps: Seq<ProcessModel>,
    conclusive: bool,
)
    requires
        network.wf(),
        network.connections.len() > 0,
    ensures
        network_lines(network, ps, conclusive)[0] == "  Network connections:"@,
        network_lines(network, ps, conclusive)[1] == "    Connection count: "@ + decimal(
            network.connections.len(),
        ),
{
}

} // verus!

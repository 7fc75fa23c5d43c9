//! The files, directories and storage bytes of the observed processes.

use vstd::prelude::*;

use crate::boundary::{
    descriptor_models, BoundaryModel, DescriptorModel, DescriptorsModel, FileDescriptor,
    ObservationBoundary,
};
use crate::formatting::{
    is_sensitive_file, is_sensitive_path, join, joined, print_path_samples, sample_lines,
    shown_paths,
};
use crate::numbers::{add_counters, decimal, push_decimal, total_of};
use crate::observed::newest;
use crate::order::Comparison;
use crate::output::{text_if, ReportText};
use crate::paths::{compare_paths, lies_below, path_rank, starts_with};
use crate::process::{compare_pids, pid_rank, process_of, ProcessInfo, ProcessModel};
use crate::table::{
    ascending, lemma_placed_holds, lemma_placed_is_ascending, lemma_placing_after_removal,
    lemma_slot_bounds, lookup, placed, Keyed, Table,
};
use crate::text::{nested, slice_of, texts};

verus! {

/// A path that was open, and what it was open for.
pub struct PathEntry {
    pub path: Vec<u8>,
    pub read: bool,
    pub write: bool,
}

/// What a [`PathEntry`] says.
pub struct PathModel {
    pub path: Seq<u8>,
    pub read: bool,
    pub write: bool,
}

impl View for PathEntry {
    type V = PathModel;

    open spec fn view(&self) -> PathModel {
        PathModel { path: self.path@, read: self.read, write: self.write }
    }
}

impl PathModel {
    /// The path was open for reading, or for writing.
    pub open spec fn allows(self, read: bool) -> bool {
        if read {
            self.read
        } else {
            self.write
        }
    }
}

impl PathEntry {
    /// Whether the path was open for reading, or for writing.
    pub fn allows(&self, read: bool) -> (allowed: bool)
        ensures
            allowed == self@.allows(read),
    {
        if read {
            self.read
        } else {
            self.write
        }
    }
}

impl Keyed for PathEntry {
    type Key = Vec<u8>;

    open spec fn rank(item: PathModel) -> Seq<Seq<int>> {
        path_rank(item.path)
    }

    open spec fn key_rank(key: &Vec<u8>) -> Seq<Seq<int>> {
        path_rank(key@)
    }

    fn compare(&self, other: &Self) -> (comparison: Comparison) {
        compare_paths(self.path.as_slice(), other.path.as_slice())
    }

    fn compare_to_key(&self, key: &Vec<u8>) -> (comparison: Comparison) {
        compare_paths(self.path.as_slice(), key.as_slice())
    }
}

/// The storage counters of a process when it was first seen, and the latest that are known.
#[derive(Clone, Copy)]
pub struct ProcessIo {
    pub pid: u32,
    pub initial_read: Option<u64>,
    pub initial_write: Option<u64>,
    pub latest_read: Option<u64>,
    pub latest_write: Option<u64>,
}

impl View for ProcessIo {
    type V = ProcessIo;

    open spec fn view(&self) -> ProcessIo {
        *self
    }
}

impl Keyed for ProcessIo {
    type Key = u32;

    open spec fn rank(item: ProcessIo) -> Seq<Seq<int>> {
        pid_rank(item.pid)
    }

    open spec fn key_rank(key: &u32) -> Seq<Seq<int>> {
        pid_rank(*key)
    }

    fn compare(&self, other: &Self) -> (comparison: Comparison) {
        compare_pids(self.pid, other.pid)
    }

    fn compare_to_key(&self, key: &u32) -> (comparison: Comparison) {
        compare_pids(self.pid, *key)
    }
}

impl ProcessIo {
    /// The bytes that were read, or written, since the process was first seen; none where a counter
    /// is not known or has gone back.
    pub open spec fn bytes_since(self, read: bool) -> Option<u64> {
        let (initial, latest) = if read {
            (self.initial_read, self.latest_read)
        } else {
            (self.initial_write, self.latest_write)
        };
        if initial is Some && latest is Some && initial->0 <= latest->0 {
            Some((latest->0 - initial->0) as u64)
        } else {
            None
        }
    }

    /// A counter could not be read when the process was first seen.
    pub open spec fn misses_initial(self) -> bool {
        self.initial_read is None || self.initial_write is None
    }

    /// The bytes that were read, or written, since the process was first seen.
    pub fn bytes(&self, read: bool) -> (bytes: Option<u64>)
        ensures
            bytes == self.bytes_since(read),
    {
        let initial = if read {
            self.initial_read
        } else {
            self.initial_write
        };
        let latest = if read {
            self.latest_read
        } else {
            self.latest_write
        };
        match (initial, latest) {
            (Some(from), Some(to)) => {
                if from <= to {
                    Some(to - from)
                } else {
                    None
                }
            },
            _ => None,
        }
    }
}

/// The counters of a process after it was seen.
pub open spec fn seen_io(known: Option<ProcessIo>, pid: u32, info: ProcessModel) -> ProcessIo {
    match known {
        Some(io) => ProcessIo {
            latest_read: newest(io.latest_read, info.read_storage_bytes),
            latest_write: newest(io.latest_write, info.write_storage_bytes),
            ..io
        },
        None => ProcessIo {
            pid,
            initial_read: info.read_storage_bytes,
            initial_write: info.write_storage_bytes,
            latest_read: info.read_storage_bytes,
            latest_write: info.write_storage_bytes,
        },
    }
}

/// Which side of the working directory a path is on.
#[derive(Clone, Copy, PartialEq, Eq, Structural)]
pub enum PathArea {
    Inside,
    Outside,
    Unknown,
}

/// Which side of a working directory a path is on.
pub open spec fn area_of(working_directory: Option<Seq<u8>>, path: Seq<u8>) -> PathArea {
    match working_directory {
        Some(base) => if lies_below(path, base) {
            PathArea::Inside
        } else {
            PathArea::Outside
        },
        None => PathArea::Unknown,
    }
}

/// All that is known about the file use of the observed processes.
pub struct FilesystemObservation {
    working_directory: Option<Vec<u8>>,
    paths: Table<PathEntry>,
    directories: Table<PathEntry>,
    io: Table<ProcessIo>,
    paths_limited: bool,
}

/// What a [`FilesystemObservation`] says.
pub struct FilesystemModel {
    pub working_directory: Option<Seq<u8>>,
    pub paths: Seq<PathModel>,
    pub directories: Seq<PathModel>,
    pub io: Seq<ProcessIo>,
    pub paths_limited: bool,
}

/// The contents of an optional path.
pub open spec fn path_model(path: Option<Vec<u8>>) -> Option<Seq<u8>> {
    match path {
        Some(bytes) => Some(bytes@),
        None => None,
    }
}

impl View for FilesystemObservation {
    type V = FilesystemModel;

    closed spec fn view(&self) -> FilesystemModel {
        FilesystemModel {
            working_directory: path_model(self.working_directory),
            paths: self.paths@,
            directories: self.directories@,
            io: self.io@,
            paths_limited: self.paths_limited,
        }
    }
}

/// The paths of a list of entries.
pub open spec fn paths_of(entries: Seq<PathModel>) -> Seq<Seq<u8>> {
    entries.map_values(|e: PathModel| e.path)
}

/// Entries in ascending order, each of a path that was open for reading or for writing.
pub open spec fn are_entries(entries: Seq<PathModel>) -> bool {
    &&& ascending::<PathEntry>(entries)
    &&& forall|i: int|
        0 <= i < entries.len() ==> (#[trigger] entries[i]).read || entries[i].write
}

/// Counters in ascending order of their processes; where the first value is known, so is the latest.
pub open spec fn are_counters(io: Seq<ProcessIo>) -> bool {
    &&& ascending::<ProcessIo>(io)
    &&& forall|i: int|
        0 <= i < io.len() ==> ((#[trigger] io[i]).initial_read is Some ==> io[i].latest_read is Some)
            && (io[i].initial_write is Some ==> io[i].latest_write is Some)
}

/// Some path was open for reading, or for writing.
pub open spec fn some_allows(entries: Seq<PathModel>, read: bool) -> bool {
    exists|i: int| 0 <= i < entries.len() && (#[trigger] entries[i]).allows(read)
}

/// Some counter could not be read when its process was first seen.
pub open spec fn some_misses_initial(io: Seq<ProcessIo>) -> bool {
    exists|i: int| 0 <= i < io.len() && (#[trigger] io[i]).misses_initial()
}

impl FilesystemModel {
    /// Everything stands in ascending order, and every path was open for something.
    pub open spec fn wf(self) -> bool {
        &&& are_entries(self.paths)
        &&& are_entries(self.directories)
        &&& are_counters(self.io)
    }

    /// The bytes that all processes read, or wrote, together; none where they are not all known.
    pub open spec fn aggregate_bytes(self, read: bool) -> Option<u64> {
        total_of(self.io.map_values(|p: ProcessIo| p.bytes_since(read)))
    }

    /// Some file was open for reading, or for writing.
    pub open spec fn has_access(self, read: bool) -> bool {
        some_allows(self.paths, read)
    }

    /// The bytes that a report may show: a zero beside an open file may only mean that the counters
    /// missed what happened, so it is not shown.
    pub open spec fn bytes_for_report(self, read: bool) -> Option<u64> {
        match self.aggregate_bytes(read) {
            Some(bytes) => if !self.has_access(read) || bytes > 0 {
                Some(bytes)
            } else {
                None
            },
            None => None,
        }
    }

    /// The byte total is not known though a file was open.
    pub open spec fn misses_bytes(self, read: bool) -> bool {
        self.bytes_for_report(read) is None && self.has_access(read)
    }

    /// Something about the file use of the processes is not known.
    pub open spec fn is_limited(self) -> bool {
        ||| self.io.len() == 0
        ||| self.paths_limited
        ||| some_misses_initial(self.io)
        ||| self.misses_bytes(true)
        ||| self.misses_bytes(false)
    }

    /// All paths, the files before the directories.
    pub open spec fn all_paths(self) -> Seq<Seq<u8>> {
        paths_of(self.paths) + paths_of(self.directories)
    }

    /// The paths outside of the working directory.
    pub open spec fn outside_paths(self) -> Seq<Seq<u8>> {
        self.all_paths().filter(
            |path: Seq<u8>| area_of(self.working_directory, path) == PathArea::Outside,
        )
    }

    /// The paths that point at credentials, keys or configuration.
    pub open spec fn sensitive_paths(self) -> Seq<Seq<u8>> {
        self.all_paths().filter(|path: Seq<u8>| is_sensitive_file(path))
    }
}

/// The entries after a descriptor was seen to be open.
pub open spec fn with_path(entries: Seq<PathModel>, d: DescriptorModel) -> Seq<PathModel> {
    placed::<PathEntry>(
        entries,
        match lookup::<PathEntry>(entries, path_rank(d.path)) {
            Some(entry) => PathModel {
                path: entry.path,
                read: entry.read || d.read,
                write: entry.write || d.write,
            },
            None => PathModel { path: d.path, read: d.read, write: d.write },
        },
    )
}

/// The observation after a descriptor was seen. One that allows neither reading nor writing does not
/// count.
pub open spec fn with_descriptor(model: FilesystemModel, d: DescriptorModel) -> FilesystemModel {
    if !d.read && !d.write {
        model
    } else if d.directory {
        FilesystemModel { directories: with_path(model.directories, d), ..model }
    } else {
        FilesystemModel { paths: with_path(model.paths, d), ..model }
    }
}

/// The observation after the first `n` descriptors.
pub open spec fn with_descriptors(
    model: FilesystemModel,
    list: Seq<DescriptorModel>,
    n: nat,
) -> FilesystemModel
    decreases n,
{
    if n == 0 {
        model
    } else {
        with_descriptor(with_descriptors(model, list, (n - 1) as nat), list[n - 1])
    }
}

/// The observation after the descriptors of a process.
pub open spec fn after_paths(
    model: FilesystemModel,
    snapshot: Option<DescriptorsModel>,
) -> FilesystemModel {
    match snapshot {
        Some(s) => with_descriptors(
            FilesystemModel { paths_limited: model.paths_limited || s.limited, ..model },
            s.descriptors,
            s.descriptors.len(),
        ),
        None => FilesystemModel { paths_limited: true, ..model },
    }
}

/// The observation after the counters of a process.
pub open spec fn after_io(model: FilesystemModel, pid: u32, info: ProcessModel) -> FilesystemModel {
    FilesystemModel {
        io: placed::<ProcessIo>(
            model.io,
            seen_io(lookup::<ProcessIo>(model.io, pid_rank(pid)), pid, info),
        ),
        ..model
    }
}

/// The observation after the first `n` of the given processes: the counters of each, and the
/// descriptors of those that are alive.
pub open spec fn after_tree(
    model: FilesystemModel,
    boundary: BoundaryModel,
    processes: Seq<ProcessModel>,
    pids: Seq<u32>,
    n: nat,
) -> FilesystemModel
    decreases n,
{
    if n == 0 {
        model
    } else {
        let before = after_tree(model, boundary, processes, pids, (n - 1) as nat);
        let pid = pids[n - 1];
        match process_of(processes, pid) {
            Some(info) => if info.is_alive() {
                after_paths(after_io(before, pid, info), boundary.descriptors_of(pid))
            } else {
                after_io(before, pid, info)
            },
            None => before,
        }
    }
}

/// The paths of one area that were open for reading, or for writing.
pub open spec fn paths_in_area(
    entries: Seq<PathModel>,
    working_directory: Option<Seq<u8>>,
    area: PathArea,
    read: bool,
) -> Seq<Seq<u8>> {
    paths_of(
        entries.filter(
            |e: PathModel| e.allows(read) && area_of(working_directory, e.path) == area,
        ),
    )
}

/// A count under a label.
pub open spec fn count_line(label: Seq<char>, count: nat) -> Seq<char> {
    label + decimal(count)
}

/// Samples under a label where there are any.
pub open spec fn optional_samples(label: Seq<char>, paths: Seq<Seq<u8>>) -> Seq<Seq<char>> {
    if paths.len() == 0 {
        seq![]
    } else {
        sample_lines(label, shown_paths(paths), paths.len())
    }
}

/// The lines about the files and directories that were open for reading, or for writing.
pub open spec fn capable_lines(
    verb: Seq<char>,
    files: Seq<Seq<u8>>,
    directories: Seq<Seq<u8>>,
) -> Seq<Seq<char>> {
    seq![
        count_line("    "@ + verb + "-capable files: "@, files.len()),
        count_line("    "@ + verb + "-capable directories: "@, directories.len()),
    ] + optional_samples("    "@ + verb + " paths"@, files) + optional_samples(
        "    "@ + verb + " directories"@,
        directories,
    )
}

/// The lines about the paths of one area.
pub open spec fn area_lines(model: FilesystemModel, title: Seq<char>, area: PathArea) -> Seq<
    Seq<char>,
> {
    let base = model.working_directory;
    let read_paths = paths_in_area(model.paths, base, area, true);
    let write_paths = paths_in_area(model.paths, base, area, false);
    let read_directories = paths_in_area(model.directories, base, area, true);
    let write_directories = paths_in_area(model.directories, base, area, false);
    if read_paths.len() == 0 && read_directories.len() == 0 && write_paths.len() == 0
        && write_directories.len() == 0 {
        seq![]
    } else {
        seq!["  "@ + title + ":"@] + capable_lines("Read"@, read_paths, read_directories)
            + capable_lines("Write"@, write_paths, write_directories)
    }
}

/// What a report says about the limits of the observation.
pub open spec fn limit_texts(model: FilesystemModel) -> Seq<Seq<char>> {
    seq![
        "paths and counts are sampled from open descriptors; read/write-capable does not prove a completed operation and short-lived activity may be missed"@,
    ] + text_if(model.paths_limited, "some process file descriptors were not readable"@) + text_if(
        some_misses_initial(model.io),
        "one or more I/O counters were unavailable"@,
    ) + text_if(
        model.misses_bytes(true),
        "read byte totals may miss short-lived process activity"@,
    ) + text_if(
        model.misses_bytes(false),
        "write byte totals may miss short-lived process activity"@,
    ) + seq![
        "byte totals are kernel-reported storage I/O bytes, may exclude cached activity, and are not path-specific totals"@,
    ]
}

/// The line about the limits of the observation.
pub open spec fn limits_line(model: FilesystemModel) -> Seq<char> {
    "  Filesystem observation limits: "@ + joined(limit_texts(model), "; "@) + "."@
}

/// A byte total under a label.
pub open spec fn bytes_line(label: Seq<char>, bytes: Option<u64>) -> Seq<char> {
    match bytes {
        Some(n) => label + decimal(n as nat) + " bytes"@,
        None => label + "unavailable"@,
    }
}

/// There is something to report: a path, or bytes that were moved.
pub open spec fn has_activity(model: FilesystemModel) -> bool {
    ||| model.paths.len() > 0
    ||| model.directories.len() > 0
    ||| (model.bytes_for_report(true) matches Some(bytes) && bytes > 0)
    ||| (model.bytes_for_report(false) matches Some(bytes) && bytes > 0)
}

/// The lines about activity.
pub open spec fn activity_lines(model: FilesystemModel) -> Seq<Seq<char>> {
    seq![
        "  Filesystem activity:"@,
        bytes_line("    Read bytes: "@, model.bytes_for_report(true)),
        bytes_line("    Write bytes: "@, model.bytes_for_report(false)),
    ] + if model.working_directory is Some {
        area_lines(model, "Inside working directory"@, PathArea::Inside) + area_lines(
            model,
            "Outside working directory"@,
            PathArea::Outside,
        )
    } else {
        seq!["    Working directory boundary: unavailable"@] + area_lines(
            model,
            "Unclassified paths"@,
            PathArea::Unknown,
        )
    }
}

/// The filesystem part of a report but for its last line.
pub open spec fn body_lines(model: FilesystemModel) -> Seq<Seq<char>> {
    if model.io.len() == 0 {
        seq!["  Filesystem activity: unavailable"@]
    } else if !has_activity(model) {
        seq!["  Filesystem activity: none observed"@]
    } else {
        activity_lines(model)
    }
}

/// The filesystem part of a report.
pub open spec fn filesystem_lines(model: FilesystemModel) -> Seq<Seq<char>> {
    body_lines(model).push(limits_line(model))
}

/// Entries stay in order when a descriptor is added that allows something.
pub proof fn lemma_with_path(entries: Seq<PathModel>, d: DescriptorModel)
    requires
        are_entries(entries),
        d.read || d.write,
    ensures
        are_entries(with_path(entries, d)),
{
    let item = match lookup::<PathEntry>(entries, path_rank(d.path)) {
        Some(entry) => PathModel {
            path: entry.path,
            read: entry.read || d.read,
            write: entry.write || d.write,
        },
        None => PathModel { path: d.path, read: d.read, write: d.write },
    };
    let after = with_path(entries, d);
    lemma_placed_is_ascending::<PathEntry>(entries, item);
    lemma_placed_holds::<PathEntry>(entries, item);
    assert forall|i: int| 0 <= i < after.len() implies (#[trigger] after[i]).read
        || after[i].write by {
        if after[i] != item {
            assert(entries.contains(after[i]));
            let k = choose|k: int| 0 <= k < entries.len() && entries[k] == after[i];
            assert(entries[k].read || entries[k].write);
        }
    }
}

/// Counters stay in order when a process is seen.
pub proof fn lemma_after_io(model: FilesystemModel, pid: u32, info: ProcessModel)
    requires
        are_counters(model.io),
    ensures
        are_counters(after_io(model, pid, info).io),
{
    let item = seen_io(lookup::<ProcessIo>(model.io, pid_rank(pid)), pid, info);
    let after = after_io(model, pid, info).io;
    lemma_placed_is_ascending::<ProcessIo>(model.io, item);
    lemma_placed_holds::<ProcessIo>(model.io, item);
    lemma_slot_bounds::<ProcessIo>(model.io, pid_rank(pid));
    assert(item.initial_read is Some ==> item.latest_read is Some);
    assert(item.initial_write is Some ==> item.latest_write is Some);
    assert forall|i: int| 0 <= i < after.len() implies ((#[trigger] after[i]).initial_read is Some
        ==> after[i].latest_read is Some) && (after[i].initial_write is Some
        ==> after[i].latest_write is Some) by {
        if after[i] != item {
            assert(model.io.contains(after[i]));
            let k = choose|k: int| 0 <= k < model.io.len() && model.io[k] == after[i];
            assert(model.io[k] == after[i]);
        }
    }
}

/// A second copy of a path.
fn copy_path(path: &Vec<u8>) -> (copy: Vec<u8>)
    ensures
        copy@ == path@,
{
    let copy = slice_of(path.as_slice(), 0, path.len());
    assert(path@.subrange(0, path@.len() as int) =~= path@);
    copy
}

/// Takes in a path that was seen to be open.
fn add_path(entries: &mut Table<PathEntry>, d: &FileDescriptor)
    requires
        are_entries(old(entries)@),
        d.read || d.write,
    ensures
        are_entries(final(entries)@),
        final(entries)@ == with_path(old(entries)@, d@),
{
    let ghost before = entries@;
    proof {
        lemma_with_path(before, d@);
    }
    match entries.find(&d.path) {
        Some(i) => {
            let known = entries.take_at(i);
            let entry = PathEntry {
                path: known.path,
                read: known.read || d.read,
                write: known.write || d.write,
            };
            proof {
                lemma_placing_after_removal::<PathEntry>(before, i as int, entry@);
            }
            entries.place(entry);
        },
        None => {
            entries.place(PathEntry { path: copy_path(&d.path), read: d.read, write: d.write });
        },
    }
}

/// Adds the samples of a list of paths where there are any.
fn print_optional_samples(label: &str, paths: &Vec<Vec<u8>>, report: &mut ReportText)
    ensures
        final(report)@ == old(report)@ + optional_samples(label@, nested(paths@)),
{
    if paths.len() > 0 {
        print_path_samples(label, paths, report);
    } else {
        assert(report@ =~= report@ + optional_samples(label@, nested(paths@)));
    }
}

/// Adds the lines about the files and directories that were open for reading, or for writing.
fn print_capable(
    verb: &str,
    files: &Vec<Vec<u8>>,
    directories: &Vec<Vec<u8>>,
    report: &mut ReportText,
)
    ensures
        final(report)@ == old(report)@ + capable_lines(
            verb@,
            nested(files@),
            nested(directories@),
        ),
{
    let ghost before = report@;
    print_count(label_of(verb, "-capable files: "), files.len(), report);
    print_count(label_of(verb, "-capable directories: "), directories.len(), report);
    let heading = label_of(verb, " paths");
    print_optional_samples(heading.as_str(), files, report);
    let heading = label_of(verb, " directories");
    print_optional_samples(heading.as_str(), directories, report);
    assert(report@ =~= before + capable_lines(verb@, nested(files@), nested(directories@)));
}

/// An indented label that begins with a verb.
fn label_of(verb: &str, rest: &str) -> (label: String)
    ensures
        label@ == "    "@ + verb@ + rest@,
{
    let mut label = "    ".to_owned();
    label.append(verb);
    label.append(rest);
    label
}

/// Adds a count under a label.
fn print_count(label: String, count: usize, report: &mut ReportText)
    ensures
        final(report)@ == old(report)@.push(count_line(label@, count as nat)),
{
    let mut line = label;
    push_decimal(&mut line, count as u64);
    report.push(line);
}

/// Adds a byte total under a label.
fn print_bytes(label: &str, bytes: Option<u64>, report: &mut ReportText)
    ensures
        final(report)@ == old(report)@.push(bytes_line(label@, bytes)),
{
    let mut line = label.to_owned();
    match bytes {
        Some(n) => {
            push_decimal(&mut line, n);
            line.append(" bytes");
        },
        None => {
            line.append("unavailable");
        },
    }
    report.push(line);
}

impl FilesystemObservation {
    /// An observation of nothing yet.
    pub fn new(working_directory: Option<Vec<u8>>) -> (observation: Self)
        ensures
            observation@.wf(),
            observation@ == (FilesystemModel {
                working_directory: path_model(working_directory),
                paths: seq![],
                directories: seq![],
                io: seq![],
                paths_limited: false,
            }),
    {
        FilesystemObservation {
            working_directory,
            paths: Table::new(),
            directories: Table::new(),
            io: Table::new(),
            paths_limited: false,
        }
    }

    /// Takes in the counters and descriptors of the processes of a tree.
    pub fn observe(
        &mut self,
        boundary: &ObservationBoundary,
        processes: &Table<ProcessInfo>,
        current_tree: &Vec<u32>,
    )
        requires
            old(self)@.wf(),
            boundary@.wf(),
            processes.wf(),
        ensures
            final(self)@.wf(),
            final(self)@ == after_tree(
                old(self)@,
                boundary@,
                processes@,
                current_tree@,
                current_tree@.len(),
            ),
    {
        let ghost start = self@;
        for i in 0..current_tree.len()
            invariant
                boundary@.wf(),
                processes.wf(),
                self@.wf(),
                self@ == after_tree(start, boundary@, processes@, current_tree@, i as nat),
        {
            let pid: u32 = current_tree[i];
            match processes.get(&pid) {
                Some(info) => {
                    self.observe_io(pid, info);
                    if info.is_alive() {
                        self.observe_paths(boundary, pid);
                    }
                },
                None => {},
            }
        }
    }

    /// Takes in the counters of a process.
    pub fn observe_io(&mut self, pid: u32, info: &ProcessInfo)
        requires
            old(self)@.wf(),
        ensures
            final(self)@.wf(),
            final(self)@ == after_io(old(self)@, pid, info@),
    {
        proof {
            lemma_after_io(self@, pid, info@);
        }
        let io = match self.io.get(&pid) {
            Some(known) => {
                let mut io: ProcessIo = *known;
                if info.read_storage_bytes.is_some() {
                    io.latest_read = info.read_storage_bytes;
                }
                if info.write_storage_bytes.is_some() {
                    io.latest_write = info.write_storage_bytes;
                }
                io
            },
            None => ProcessIo {
                pid,
                initial_read: info.read_storage_bytes,
                initial_write: info.write_storage_bytes,
                latest_read: info.read_storage_bytes,
                latest_write: info.write_storage_bytes,
            },
        };
        self.io.place(io);
    }

    /// Takes in the descriptors of a process.
    pub fn observe_paths(&mut self, boundary: &ObservationBoundary, pid: u32)
        requires
            old(self)@.wf(),
            boundary@.wf(),
        ensures
            final(self)@.wf(),
            final(self)@ == after_paths(old(self)@, boundary@.descriptors_of(pid)),
    {
        match boundary.file_descriptors(pid) {
            Some(snapshot) => {
                self.paths_limited = self.paths_limited || snapshot.limited;
                let ghost start = self@;
                let ghost list = snapshot@.descriptors;
                for i in 0..snapshot.descriptors.len()
                    invariant
                        list == descriptor_models(snapshot.descriptors@),
                        self@.wf(),
                        self@ == with_descriptors(start, list, i as nat),
                {
                    let descriptor = &snapshot.descriptors[i];
                    assert(list[i as int] == descriptor@);
                    if descriptor.read || descriptor.write {
                        if descriptor.directory {
                            add_path(&mut self.directories, descriptor);
                        } else {
                            add_path(&mut self.paths, descriptor);
                        }
                    }
                }
            },
            None => {
                self.paths_limited = true;
            },
        }
    }

    /// The number of distinct paths.
    pub fn scanned_path_count(&self) -> (count: usize)
        ensures
            count == self@.all_paths().len(),
    {
        self.all_paths().len()
    }

    /// All paths, the files before the directories.
    pub fn all_paths(&self) -> (all: Vec<Vec<u8>>)
        ensures
            nested(all@) == self@.all_paths(),
    {
        let mut all: Vec<Vec<u8>> = Vec::new();
        let ghost files = paths_of(self.paths@);
        let ghost directories = paths_of(self.directories@);
        let count: usize = self.paths.len();
        for i in 0..count
            invariant
                count == self.paths@.len(),
                files == paths_of(self.paths@),
                nested(all@) =~= files.take(i as int),
        {
            let ghost before = nested(all@);
            let path = copy_path(&self.paths.at(i).path);
            assert(files[i as int] == path@);
            all.push(path);
            assert(nested(all@) =~= before.push(files[i as int]));
            assert(files.take(i + 1) =~= files.take(i as int).push(files[i as int]));
        }
        assert(files.take(count as int) =~= files);
        let total: usize = self.directories.len();
        for i in 0..total
            invariant
                total == self.directories@.len(),
                directories == paths_of(self.directories@),
                nested(all@) =~= files + directories.take(i as int),
        {
            let ghost before = nested(all@);
            let path = copy_path(&self.directories.at(i).path);
            assert(directories[i as int] == path@);
            all.push(path);
            assert(nested(all@) =~= before.push(directories[i as int]));
            assert(directories.take(i + 1) =~= directories.take(i as int).push(
                directories[i as int],
            ));
        }
        assert(directories.take(total as int) =~= directories);
        all
    }

    /// The paths outside of the working directory.
    pub fn outside_paths(&self) -> (outside: Vec<Vec<u8>>)
        ensures
            nested(outside@) == self@.outside_paths(),
    {
        let all = self.all_paths();
        let ghost paths = nested(all@);
        let ghost base = self@.working_directory;
        let ghost wanted = |path: Seq<u8>| area_of(base, path) == PathArea::Outside;
        let mut outside: Vec<Vec<u8>> = Vec::new();
        proof {
            reveal(Seq::filter);
        }
        assert(nested(outside@) =~= paths.take(0).filter(wanted));
        for i in 0..all.len()
            invariant
                paths == nested(all@),
                base == self@.working_directory,
                wanted == (|path: Seq<u8>| area_of(base, path) == PathArea::Outside),
                nested(outside@) =~= paths.take(i as int).filter(wanted),
        {
            proof {
                reveal(Seq::filter);
            }
            let ghost before = nested(outside@);
            assert(paths.take(i + 1).drop_last() =~= paths.take(i as int));
            assert(paths.take(i + 1).last() == all@[i as int]@);
            if self.path_area(all[i].as_slice()) == PathArea::Outside {
                let path = copy_path(&all[i]);
                outside.push(path);
                assert(nested(outside@) =~= before.push(path@));
            }
        }
        assert(paths.take(all@.len() as int) =~= paths);
        outside
    }

    /// The paths that point at credentials, keys or configuration.
    pub fn sensitive_paths(&self) -> (sensitive: Vec<Vec<u8>>)
        ensures
            nested(sensitive@) == self@.sensitive_paths(),
    {
        let all = self.all_paths();
        let ghost paths = nested(all@);
        let ghost wanted = |path: Seq<u8>| is_sensitive_file(path);
        let mut sensitive: Vec<Vec<u8>> = Vec::new();
        proof {
            reveal(Seq::filter);
        }
        assert(nested(sensitive@) =~= paths.take(0).filter(wanted));
        for i in 0..all.len()
            invariant
                paths == nested(all@),
                wanted == (|path: Seq<u8>| is_sensitive_file(path)),
                nested(sensitive@) =~= paths.take(i as int).filter(wanted),
        {
            proof {
                reveal(Seq::filter);
            }
            let ghost before = nested(sensitive@);
            assert(paths.take(i + 1).drop_last() =~= paths.take(i as int));
            assert(paths.take(i + 1).last() == all@[i as int]@);
            if is_sensitive_path(all[i].as_slice()) {
                let path = copy_path(&all[i]);
                sensitive.push(path);
                assert(nested(sensitive@) =~= before.push(path@));
            }
        }
        assert(paths.take(all@.len() as int) =~= paths);
        sensitive
    }

    /// The bytes that all processes read, or wrote, together; `None` where they are not all known.
    pub fn aggregate_bytes(&self, read: bool) -> (bytes: Option<u64>)
        ensures
            bytes == self@.aggregate_bytes(read),
    {
        let mut counters: Vec<Option<u64>> = Vec::new();
        let ghost all = self.io@.map_values(|p: ProcessIo| p.bytes_since(read));
        let count: usize = self.io.len();
        for i in 0..count
            invariant
                count == self.io@.len(),
                all == self.io@.map_values(|p: ProcessIo| p.bytes_since(read)),
                counters@ == all.take(i as int),
        {
            counters.push(self.io.at(i).bytes(read));
            assert(all.take(i + 1) =~= all.take(i as int).push(all[i as int]));
        }
        assert(all.take(count as int) =~= all);
        add_counters(&counters)
    }

    /// Whether something about the file use of the processes is not known.
    pub fn is_limited(&self) -> (limited: bool)
        ensures
            limited == self@.is_limited(),
    {
        self.io.is_empty() || self.paths_limited || self.misses_initial_counter()
            || self.misses_bytes(true) || self.misses_bytes(false)
    }

    /// Whether the working directory is known.
    pub fn has_working_directory(&self) -> (known: bool)
        ensures
            known == (self@.working_directory is Some),
    {
        self.working_directory.is_some()
    }

    /// The bytes that a report may show.
    pub fn bytes_for_report(&self, read: bool) -> (bytes: Option<u64>)
        ensures
            bytes == self@.bytes_for_report(read),
    {
        match self.aggregate_bytes(read) {
            Some(bytes) => {
                if !self.has_access(read) || bytes > 0 {
                    Some(bytes)
                } else {
                    None
                }
            },
            None => None,
        }
    }

    /// Whether some file was open for reading, or for writing.
    pub fn has_access(&self, read: bool) -> (found: bool)
        ensures
            found == self@.has_access(read),
    {
        let count: usize = self.paths.len();
        for i in 0..count
            invariant
                count == self.paths@.len(),
                forall|k: int| 0 <= k < i ==> !(#[trigger] self.paths@[k]).allows(read),
        {
            if self.paths.at(i).allows(read) {
                assert(self.paths@[i as int].allows(read));
                return true;
            }
        }
        false
    }

    /// Whether a counter could not be read when its process was first seen.
    fn misses_initial_counter(&self) -> (misses: bool)
        ensures
            misses == some_misses_initial(self@.io),
    {
        let count: usize = self.io.len();
        for i in 0..count
            invariant
                count == self.io@.len(),
                forall|k: int| 0 <= k < i ==> !(#[trigger] self.io@[k]).misses_initial(),
        {
            let io = self.io.at(i);
            if io.initial_read.is_none() || io.initial_write.is_none() {
                assert(self.io@[i as int].misses_initial());
                return true;
            }
        }
        false
    }

    /// Whether the byte total is not known though a file was open.
    fn misses_bytes(&self, read: bool) -> (misses: bool)
        ensures
            misses == self@.misses_bytes(read),
    {
        self.bytes_for_report(read).is_none() && self.has_access(read)
    }

    /// Which side of the working directory a path is on.
    pub fn path_area(&self, path: &[u8]) -> (area: PathArea)
        ensures
            area == area_of(self@.working_directory, path@),
    {
        match &self.working_directory {
            Some(base) => {
                if starts_with(path, base.as_slice()) {
                    PathArea::Inside
                } else {
                    PathArea::Outside
                }
            },
            None => PathArea::Unknown,
        }
    }

    /// The paths of one area that were open for reading, or for writing.
    fn select_paths(&self, entries: &Table<PathEntry>, area: PathArea, read: bool) -> (selected: Vec<
        Vec<u8>,
    >)
        ensures
            nested(selected@) == paths_in_area(entries@, self@.working_directory, area, read),
    {
        let ghost all = entries@;
        let ghost base = self@.working_directory;
        let ghost wanted = |e: PathModel| e.allows(read) && area_of(base, e.path) == area;
        let mut selected: Vec<Vec<u8>> = Vec::new();
        proof {
            reveal(Seq::filter);
        }
        assert(nested(selected@) =~= paths_of(all.take(0).filter(wanted)));
        let count: usize = entries.len();
        for i in 0..count
            invariant
                all == entries@,
                count == all.len(),
                base == self@.working_directory,
                wanted == (|e: PathModel| e.allows(read) && area_of(base, e.path) == area),
                nested(selected@) =~= paths_of(all.take(i as int).filter(wanted)),
        {
            proof {
                reveal(Seq::filter);
            }
            let ghost before = nested(selected@);
            let ghost kept = all.take(i as int).filter(wanted);
            let entry = entries.at(i);
            assert(all.take(i + 1).drop_last() =~= all.take(i as int));
            assert(all.take(i + 1).last() == entry@);
            if entry.allows(read) && self.path_area(entry.path.as_slice()) == area {
                let path = copy_path(&entry.path);
                selected.push(path);
                assert(nested(selected@) =~= before.push(path@));
                assert(paths_of(kept.push(entry@)) =~= paths_of(kept).push(entry@.path));
            }
        }
        assert(all.take(count as int) =~= all);
        selected
    }

    /// Adds the lines about the paths of one area.
    #[verifier::rlimit(40)]
    pub fn print_area(&self, title: &str, area: PathArea, report: &mut ReportText)
        ensures
            final(report)@ == old(report)@ + area_lines(self@, title@, area),
    {
        let ghost before = report@;
        let read_paths = self.select_paths(&self.paths, area, true);
        let write_paths = self.select_paths(&self.paths, area, false);
        let read_directories = self.select_paths(&self.directories, area, true);
        let write_directories = self.select_paths(&self.directories, area, false);
        if read_paths.len() == 0 && read_directories.len() == 0 && write_paths.len() == 0
            && write_directories.len() == 0 {
            assert(report@ =~= before + area_lines(self@, title@, area));
            return;
        }
        let mut heading = "  ".to_owned();
        heading.append(title);
        heading.append(":");
        report.push(heading);
        print_capable("Read", &read_paths, &read_directories, report);
        print_capable("Write", &write_paths, &write_directories, report);
        assert(report@ =~= before + area_lines(self@, title@, area));
    }

    /// Adds the line about the limits of the observation.
    pub fn print_limits(&self, report: &mut ReportText)
        ensures
            final(report)@ == old(report)@.push(limits_line(self@)),
    {
        let mut limits: Vec<String> = Vec::new();
        limits.push(
            "paths and counts are sampled from open descriptors; read/write-capable does not prove a completed operation and short-lived activity may be missed".to_owned(),
        );
        if self.paths_limited {
            limits.push("some process file descriptors were not readable".to_owned());
        }
        if self.misses_initial_counter() {
            limits.push("one or more I/O counters were unavailable".to_owned());
        }
        if self.misses_bytes(true) {
            limits.push("read byte totals may miss short-lived process activity".to_owned());
        }
        if self.misses_bytes(false) {
            limits.push("write byte totals may miss short-lived process activity".to_owned());
        }
        limits.push(
            "byte totals are kernel-reported storage I/O bytes, may exclude cached activity, and are not path-specific totals".to_owned(),
        );
        assert(texts(limits@) =~= limit_texts(self@));
        let mut line = "  Filesystem observation limits: ".to_owned();
        line.append(join(&limits, "; ").as_str());
        line.append(".");
        report.push(line);
    }

    /// Adds the filesystem part of a report.
    #[verifier::rlimit(40)]
    pub fn print_report(&self, report: &mut ReportText)
        ensures
            final(report)@ == old(report)@ + filesystem_lines(self@),
    {
        let ghost before = report@;
        if self.io.is_empty() {
            report.push_text("  Filesystem activity: unavailable");
            self.print_limits(report);
            assert(report@ =~= before + filesystem_lines(self@));
            return;
        }
        let read_bytes = self.bytes_for_report(true);
        let write_bytes = self.bytes_for_report(false);
        let read_some = match read_bytes {
            Some(bytes) => bytes > 0,
            None => false,
        };
        let wrote_some = match write_bytes {
            Some(bytes) => bytes > 0,
            None => false,
        };
        if self.paths.is_empty() && self.directories.is_empty() && !read_some && !wrote_some {
            report.push_text("  Filesystem activity: none observed");
            self.print_limits(report);
            assert(report@ =~= before + filesystem_lines(self@));
            return;
        }
        report.push_text("  Filesystem activity:");
        print_bytes("    Read bytes: ", read_bytes, report);
        print_bytes("    Write bytes: ", write_bytes, report);
        if self.working_directory.is_some() {
            self.print_area("Inside working directory", PathArea::Inside, report);
            self.print_area("Outside working directory", PathArea::Outside, report);
        } else {
            report.push_text("    Working directory boundary: unavailable");
            self.print_area("Unclassified paths", PathArea::Unknown, report);
        }
        self.print_limits(report);
        assert(report@ =~= before + filesystem_lines(self@));
    }
}

} // verus!

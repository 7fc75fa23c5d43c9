//! Which files and directories an observation knows, on which side of the working directory they are,
//! and what a report says about them.

use vstd::prelude::*;
use vstd::utf8::encode_utf8;

use crate::any_order::{any, hiders, lemma_tree_opens, list_opens, openers, opens};
use crate::boundary::{
    BoundaryModel, DescriptorsModel, NetworkModel, ProcessDescriptors, ProcessDescriptorsModel,
    ProcessNetwork, ProcessNetworkModel,
};
use crate::filesystem::{
    after_tree, area_lines, area_of, bytes_line, capable_lines, filesystem_lines, has_activity,
    limits_line, paths_in_area, paths_of, FilesystemModel, PathArea, PathModel, ProcessIo,
};
use crate::formatting::{
    component_texts, is_sensitive, is_sensitive_file, joined, path_text, sample_lines, sanitized,
    shown_paths,
};
use crate::guarantees::entry_at;
use crate::numbers::decimal;
use crate::observation::is_survivor;
use crate::paths::{components, lies_below, path_rank, ComponentModel};
use crate::platform::{undeleted, undeleted_path};
use crate::process::{lemma_pid_rank, pid_rank, process_of, ProcessModel};
use crate::process_files::{processes_of, snapshot_of, ProcessFilesModel};
use crate::table::{lemma_lookup_after_placing, placed};
use crate::text::utf8_lossy;

verus! {

/// A living process of the list has an open descriptor at the place: to a file or to a directory, for
/// reading or for writing.
pub open spec fn is_open_at(
    b: BoundaryModel,
    ps: Seq<ProcessModel>,
    pid: u32,
    j: int,
    directory: bool,
    place: Seq<Seq<int>>,
    read: bool,
) -> bool {
    &&& process_of(ps, pid) matches Some(info) && info.state != 'Z' && info.state != 'X'
    &&& b.descriptors_of(pid) matches Some(s) && 0 <= j < s.descriptors.len()
        && s.descriptors[j].directory == directory && path_rank(s.descriptors[j].path) == place && (
    if read {
        s.descriptors[j].read
    } else {
        s.descriptors[j].write
    })
}

/// After a tree, a file or a directory is known to have been open for reading, or for writing, exactly
/// where it was known before or a living process of the tree has it open so.
pub proof fn known_access_is_what_was_open(
    model: FilesystemModel,
    b: BoundaryModel,
    ps: Seq<ProcessModel>,
    pids: Seq<u32>,
    directory: bool,
    place: Seq<Seq<int>>,
    read: bool,
)
    requires
        model.wf(),
    ensures
        ({
            let end = after_tree(model, b, ps, pids, pids.len());
            let before = entry_at(
                if directory {
                    model.directories
                } else {
                    model.paths
                },
                place,
            );
            let after = entry_at(
                if directory {
                    end.directories
                } else {
                    end.paths
                },
                place,
            );
            let opened = exists|i: int, j: int|
                0 <= i < pids.len() && #[trigger] is_open_at(
                    b,
                    ps,
                    pids[i],
                    j,
                    directory,
                    place,
                    read,
                );
            (after is Some && (if read {
                after->0.read
            } else {
                after->0.write
            })) <==> (before is Some && (if read {
                before->0.read
            } else {
                before->0.write
            })) || opened
        }),
{
    lemma_tree_opens(model, b, ps, pids, pids.len(), directory, place, read);
    let wanted = openers(b, ps, directory, place, read);
    if any(pids, pids.len(), wanted) {
        let i = choose|i: int| 0 <= i < pids.len() && wanted(#[trigger] pids[i]);
        let s = b.descriptors_of(pids[i])->0;
        let j = choose|j: int|
            0 <= j < s.descriptors.len() && opens(
                #[trigger] s.descriptors[j],
                directory,
                place,
                read,
            );
        assert(is_open_at(b, ps, pids[i], j, directory, place, read));
    }
    if exists|i: int, j: int|
        0 <= i < pids.len() && #[trigger] is_open_at(b, ps, pids[i], j, directory, place, read) {
        let (i, j) = choose|i: int, j: int|
            0 <= i < pids.len() && #[trigger] is_open_at(b, ps, pids[i], j, directory, place, read);
        let s = b.descriptors_of(pids[i])->0;
        assert(opens(s.descriptors[j], directory, place, read));
        assert(list_opens(s.descriptors, s.descriptors.len(), directory, place, read));
        assert(wanted(pids[i]));
    }
}

/// Descriptors are known to be missing exactly where that was known before, or those of a living
/// process of the tree could not be read, or not all of them.
pub proof fn missing_descriptors_are_known(
    model: FilesystemModel,
    b: BoundaryModel,
    ps: Seq<ProcessModel>,
    pids: Seq<u32>,
)
    requires
        model.wf(),
    ensures
        ({
            let end = after_tree(model, b, ps, pids, pids.len());
            &&& end.working_directory == model.working_directory
            &&& end.paths_limited <==> model.paths_limited || exists|i: int|
                0 <= i < pids.len() && (process_of(ps, #[trigger] pids[i]) matches Some(info)
                    && info.state != 'Z' && info.state != 'X') && (b.descriptors_of(pids[i]) is None
                    || b.descriptors_of(pids[i])->0.limited)
        }),
{
    lemma_tree_opens(model, b, ps, pids, pids.len(), false, seq![], false);
    let wanted = hiders(b, ps);
    if any(pids, pids.len(), wanted) {
        let i = choose|i: int| 0 <= i < pids.len() && wanted(#[trigger] pids[i]);
        assert(is_survivor(ps, pids[i]));
    }
    if exists|i: int|
        0 <= i < pids.len() && (process_of(ps, #[trigger] pids[i]) matches Some(info) && info.state
            != 'Z' && info.state != 'X') && (b.descriptors_of(pids[i]) is None || b.descriptors_of(
            pids[i],
        )->0.limited) {
        let i = choose|i: int|
            0 <= i < pids.len() && (process_of(ps, #[trigger] pids[i]) matches Some(info)
                && info.state != 'Z' && info.state != 'X') && (b.descriptors_of(pids[i]) is None
                || b.descriptors_of(pids[i])->0.limited);
        assert(wanted(pids[i]));
    }
}

/// What is added of a process is what the boundary shows of it, and of no other process.
pub proof fn boundaries_show_what_was_added(
    b: BoundaryModel,
    pid: u32,
    files: DescriptorsModel,
    sockets: NetworkModel,
    other: u32,
)
    requires
        b.wf(),
    ensures
        ({
            let after = BoundaryModel {
                descriptors: placed::<ProcessDescriptors>(
                    b.descriptors,
                    ProcessDescriptorsModel { pid, snapshot: files },
                ),
                networks: placed::<ProcessNetwork>(
                    b.networks,
                    ProcessNetworkModel { pid, snapshot: sockets },
                ),
                ..b
            };
            &&& after.descriptors_of(pid) == Some(files)
            &&& after.network_of(pid) == Some(sockets)
            &&& other != pid ==> after.descriptors_of(other) == b.descriptors_of(other)
            &&& other != pid ==> after.network_of(other) == b.network_of(other)
            &&& b.descriptors.len() == 0 ==> b.descriptors_of(other) is None
            &&& b.networks.len() == 0 ==> b.network_of(other) is None
        }),
{
    let d = ProcessDescriptorsModel { pid, snapshot: files };
    let n = ProcessNetworkModel { pid, snapshot: sockets };
    lemma_pid_rank(pid, other);
    lemma_lookup_after_placing::<ProcessDescriptors>(b.descriptors, d, pid_rank(pid));
    lemma_lookup_after_placing::<ProcessDescriptors>(b.descriptors, d, pid_rank(other));
    lemma_lookup_after_placing::<ProcessNetwork>(b.networks, n, pid_rank(pid));
    lemma_lookup_after_placing::<ProcessNetwork>(b.networks, n, pid_rank(other));
}

/// Without a process directory there is an empty snapshot that says so; with one, the snapshot is that
/// of all its entries.
pub proof fn missing_directories_show_nothing(list: Seq<ProcessFilesModel>)
    ensures
        processes_of(None).processes.len() == 0,
        !processes_of(None).available,
        processes_of(None).unreadable_pids.len() == 0,
        processes_of(Some(list)) == snapshot_of(list, list.len()),
{
}

/// A path is inside where it lies below the working directory, outside where it does not, and neither
/// is known without a working directory.
pub proof fn the_working_directory_parts_paths(base: Seq<u8>, path: Seq<u8>)
    ensures
        area_of(Some(base), path) == PathArea::Inside <==> lies_below(path, base),
        area_of(Some(base), path) == PathArea::Outside <==> !lies_below(path, base),
        area_of(None, path) == PathArea::Unknown,
{
}

/// The paths of an area are listed one by one, in order: one more entry adds its path exactly where it
/// was open so and is in the area.
pub proof fn areas_list_their_paths(
    entries: Seq<PathModel>,
    last: PathModel,
    working_directory: Option<Seq<u8>>,
    area: PathArea,
    read: bool,
)
    ensures
        paths_in_area(seq![], working_directory, area, read).len() == 0,
        paths_in_area(entries.push(last), working_directory, area, read) == if (if read {
            last.read
        } else {
            last.write
        }) && area_of(working_directory, last.path) == area {
            paths_in_area(entries, working_directory, area, read).push(last.path)
        } else {
            paths_in_area(entries, working_directory, area, read)
        },
{
    reveal(Seq::filter);
    let wanted = |e: PathModel| e.allows(read) && area_of(working_directory, e.path) == area;
    assert(entries.push(last).drop_last() =~= entries);
    let kept = entries.filter(wanted);
    assert(paths_of(kept.push(last)) =~= paths_of(kept).push(last.path));
    assert(Seq::<PathModel>::empty().filter(wanted) =~= Seq::<PathModel>::empty());
}

/// All paths are those of the files, in order, and then those of the directories, in order.
pub proof fn all_paths_are_files_and_directories(model: FilesystemModel, i: int)
    ensures
        model.all_paths().len() == model.paths.len() + model.directories.len(),
        0 <= i < model.paths.len() ==> model.all_paths()[i] == model.paths[i].path,
        0 <= i < model.directories.len() ==> model.all_paths()[model.paths.len() + i]
            == model.directories[i].path,
{
}

/// A path is judged by its own text and by the texts of its components.
pub proof fn paths_are_judged_by_their_texts(path: Seq<u8>, i: int)
    ensures
        is_sensitive_file(path) == is_sensitive(utf8_lossy(path), component_texts(path)),
        component_texts(path).len() == components(path).len(),
        0 <= i < components(path).len() ==> (components(path)[i] matches ComponentModel::Normal(
            name,
        ) ==> component_texts(path)[i] == utf8_lossy(name)),
        path_text(path) == sanitized(utf8_lossy(path)),
        undeleted(utf8_lossy(path)) is None ==> undeleted_path(path) == path,
        undeleted(utf8_lossy(path)) matches Some(text) ==> undeleted_path(path) == encode_utf8(text),
{
}

/// A byte total is shown where it is known, unless it is zero although a file was open so: directories
/// do not count, and neither does a file that was open in the other way only.
pub proof fn byte_totals_are_shown_unless_doubtful(model: FilesystemModel, read: bool)
    ensures
        ({
            let open = exists|i: int|
                0 <= i < model.paths.len() && (if read {
                    (#[trigger] model.paths[i]).read
                } else {
                    model.paths[i].write
                });
            &&& model.has_access(read) <==> open
            &&& model.aggregate_bytes(read) is None ==> model.bytes_for_report(read) is None
            &&& model.aggregate_bytes(read) == Some(0u64) && open ==> model.bytes_for_report(read)
                is None
            &&& model.aggregate_bytes(read) == Some(0u64) && !open ==> model.bytes_for_report(read)
                == Some(0u64)
            &&& model.aggregate_bytes(read) is Some && model.aggregate_bytes(read)->0 > 0
                ==> model.bytes_for_report(read) == model.aggregate_bytes(read)
        }),
{
    if model.has_access(read) {
        let i = choose|i: int|
            0 <= i < model.paths.len() && (#[trigger] model.paths[i]).allows(read);
        assert(if read {
            model.paths[i].read
        } else {
            model.paths[i].write
        });
    }
    if exists|i: int|
        0 <= i < model.paths.len() && (if read {
            (#[trigger] model.paths[i]).read
        } else {
            model.paths[i].write
        }) {
        let i = choose|i: int|
            0 <= i < model.paths.len() && (if read {
                (#[trigger] model.paths[i]).read
            } else {
                model.paths[i].write
            });
        assert(model.paths[i].allows(read));
    }
}

/// A first counter was missing for some process.
pub open spec fn misses_first_counter(io: Seq<ProcessIo>) -> bool {
    exists|i: int|
        0 <= i < io.len() && ((#[trigger] io[i]).initial_read is None || io[i].initial_write
            is None)
}

/// An observation of files is incomplete exactly where no process was seen, descriptors were missing,
/// a first counter was missing, or a byte total is not shown although a file was open so.
pub proof fn incomplete_files_are_known(model: FilesystemModel)
    ensures
        model.is_limited() <==> {
            ||| model.io.len() == 0
            ||| model.paths_limited
            ||| misses_first_counter(model.io)
            ||| model.has_access(true) && model.bytes_for_report(true) is None
            ||| model.has_access(false) && model.bytes_for_report(false) is None
        },
{
    if crate::filesystem::some_misses_initial(model.io) {
        let i = choose|i: int| 0 <= i < model.io.len() && (#[trigger] model.io[i]).misses_initial();
        assert(model.io[i].initial_read is None || model.io[i].initial_write is None);
    }
    if misses_first_counter(model.io) {
        let i = choose|i: int|
            0 <= i < model.io.len() && ((#[trigger] model.io[i]).initial_read is None
                || model.io[i].initial_write is None);
        assert(model.io[i].misses_initial());
    }
}

/// The filesystem part of a report says first whether there was activity and how many bytes were moved,
/// and last what the observation may have missed.
pub proof fn files_are_reported(model: FilesystemModel)
    ensures
        ({
            let lines = filesystem_lines(model);
            let r = model.bytes_for_report(true);
            let w = model.bytes_for_report(false);
            let active = model.paths.len() > 0 || model.directories.len() > 0 || (r is Some && r->0
                > 0) || (w is Some && w->0 > 0);
            &&& model.io.len() == 0 ==> lines == seq![
                "  Filesystem activity: unavailable"@,
                limits_line(model),
            ]
            &&& model.io.len() > 0 && !active ==> lines == seq![
                "  Filesystem activity: none observed"@,
                limits_line(model),
            ]
            &&& model.io.len() > 0 && active ==> lines.len() >= 4 && lines[0]
                == "  Filesystem activity:"@ && lines[1] == "    Read bytes: "@ + (match r {
                Some(n) => decimal(n as nat) + " bytes"@,
                None => "unavailable"@,
            }) && lines[2] == "    Write bytes: "@ + (match w {
                Some(n) => decimal(n as nat) + " bytes"@,
                None => "unavailable"@,
            }) && lines[lines.len() - 1] == limits_line(model) && lines.subrange(
                3,
                lines.len() - 1,
            ) == (if model.working_directory is Some {
                area_lines(model, "Inside working directory"@, PathArea::Inside) + area_lines(
                    model,
                    "Outside working directory"@,
                    PathArea::Outside,
                )
            } else {
                seq!["    Working directory boundary: unavailable"@] + area_lines(
                    model,
                    "Unclassified paths"@,
                    PathArea::Unknown,
                )
            })
        }),
{
    let lines = filesystem_lines(model);
    if model.io.len() == 0 {
        assert(lines =~= seq!["  Filesystem activity: unavailable"@, limits_line(model)]);
    } else if !has_activity(model) {
        assert(lines =~= seq!["  Filesystem activity: none observed"@, limits_line(model)]);
    } else {
        let r = model.bytes_for_report(true);
        let w = model.bytes_for_report(false);
        assert(lines[1] == bytes_line("    Read bytes: "@, r));
        assert(lines[2] == bytes_line("    Write bytes: "@, w));
        assert(bytes_line("    Read bytes: "@, r) =~= "    Read bytes: "@ + (match r {
            Some(n) => decimal(n as nat) + " bytes"@,
            None => "unavailable"@,
        }));
        assert(bytes_line("    Write bytes: "@, w) =~= "    Write bytes: "@ + (match w {
            Some(n) => decimal(n as nat) + " bytes"@,
            None => "unavailable"@,
        }));
        let areas = if model.working_directory is Some {
            area_lines(model, "Inside working directory"@, PathArea::Inside) + area_lines(
                model,
                "Outside working directory"@,
                PathArea::Outside,
            )
        } else {
            seq!["    Working directory boundary: unavailable"@] + area_lines(
                model,
                "Unclassified paths"@,
                PathArea::Unknown,
            )
        };
        assert(lines.subrange(3, lines.len() - 1) =~= areas);
    }
}

/// One text where a condition holds.
pub open spec fn said_if(condition: bool, text: Seq<char>) -> Seq<Seq<char>> {
    if condition {
        seq![text]
    } else {
        seq![]
    }
}

/// The last line of the filesystem part names what may have been missed, and no more than was.
pub proof fn file_limits_are_named(model: FilesystemModel)
    ensures
        limits_line(model) == "  Filesystem observation limits: "@ + joined(
            seq![
                "paths and counts are sampled from open descriptors; read/write-capable does not prove a completed operation and short-lived activity may be missed"@,
            ] + said_if(model.paths_limited, "some process file descriptors were not readable"@)
                + said_if(
                misses_first_counter(model.io),
                "one or more I/O counters were unavailable"@,
            ) + said_if(
                model.has_access(true) && model.bytes_for_report(true) is None,
                "read byte totals may miss short-lived process activity"@,
            ) + said_if(
                model.has_access(false) && model.bytes_for_report(false) is None,
                "write byte totals may miss short-lived process activity"@,
            ) + seq![
                "byte totals are kernel-reported storage I/O bytes, may exclude cached activity, and are not path-specific totals"@,
            ],
            "; "@,
        ) + "."@,
{
    incomplete_files_are_known(model);
    assert(crate::filesystem::some_misses_initial(model.io) == misses_first_counter(model.io)) by {
        if crate::filesystem::some_misses_initial(model.io) {
            let i = choose|i: int|
                0 <= i < model.io.len() && (#[trigger] model.io[i]).misses_initial();
            assert(model.io[i].initial_read is None || model.io[i].initial_write is None);
        }
        if misses_first_counter(model.io) {
            let i = choose|i: int|
                0 <= i < model.io.len() && ((#[trigger] model.io[i]).initial_read is None
                    || model.io[i].initial_write is None);
            assert(model.io[i].misses_initial());
        }
    }
}

/// What a report says about an area that holds any path: how many files and directories were open for
/// reading, with samples of both, and then the same for writing. An area without a path is left out.
pub proof fn areas_are_reported(model: FilesystemModel, title: Seq<char>, area: PathArea)
    ensures
        ({
            let base = model.working_directory;
            let rf = paths_in_area(model.paths, base, area, true);
            let rd = paths_in_area(model.directories, base, area, true);
            let wf = paths_in_area(model.paths, base, area, false);
            let wd = paths_in_area(model.directories, base, area, false);
            area_lines(model, title, area) == if rf.len() + rd.len() + wf.len() + wd.len() == 0 {
                seq![]
            } else {
                seq![
                    "  "@ + title + ":"@,
                    "    Read-capable files: "@ + decimal(rf.len()),
                    "    Read-capable directories: "@ + decimal(rd.len()),
                ] + samples_under("    Read paths"@, rf) + samples_under(
                    "    Read directories"@,
                    rd,
                ) + seq![
                    "    Write-capable files: "@ + decimal(wf.len()),
                    "    Write-capable directories: "@ + decimal(wd.len()),
                ] + samples_under("    Write paths"@, wf) + samples_under(
                    "    Write directories"@,
                    wd,
                )
            }
        }),
{
    let base = model.working_directory;
    let rf = paths_in_area(model.paths, base, area, true);
    let rd = paths_in_area(model.directories, base, area, true);
    let wf = paths_in_area(model.paths, base, area, false);
    let wd = paths_in_area(model.directories, base, area, false);
    lemma_capable("Read"@, rf, rd);
    lemma_capable("Write"@, wf, wd);
    reveal_strlit("    ");
    reveal_strlit("Read");
    reveal_strlit("Write");
    reveal_strlit("-capable files: ");
    reveal_strlit("-capable directories: ");
    reveal_strlit(" paths");
    reveal_strlit(" directories");
    reveal_strlit("    Read-capable files: ");
    reveal_strlit("    Read-capable directories: ");
    reveal_strlit("    Read paths");
    reveal_strlit("    Read directories");
    reveal_strlit("    Write-capable files: ");
    reveal_strlit("    Write-capable directories: ");
    reveal_strlit("    Write paths");
    reveal_strlit("    Write directories");
    assert("    "@ + "Read"@ + "-capable files: "@ =~= "    Read-capable files: "@);
    assert("    "@ + "Read"@ + "-capable directories: "@ =~= "    Read-capable directories: "@);
    assert("    "@ + "Read"@ + " paths"@ =~= "    Read paths"@);
    assert("    "@ + "Read"@ + " directories"@ =~= "    Read directories"@);
    assert("    "@ + "Write"@ + "-capable files: "@ =~= "    Write-capable files: "@);
    assert("    "@ + "Write"@ + "-capable directories: "@ =~= "    Write-capable directories: "@);
    assert("    "@ + "Write"@ + " paths"@ =~= "    Write paths"@);
    assert("    "@ + "Write"@ + " directories"@ =~= "    Write directories"@);
    if rf.len() + rd.len() + wf.len() + wd.len() > 0 {
        lemma_area_parts(
            "  "@ + title + ":"@,
            "    Read-capable files: "@ + decimal(rf.len()),
            "    Read-capable directories: "@ + decimal(rd.len()),
            samples_under("    Read paths"@, rf),
            samples_under("    Read directories"@, rd),
            seq![
                "    Write-capable files: "@ + decimal(wf.len()),
                "    Write-capable directories: "@ + decimal(wd.len()),
            ],
            samples_under("    Write paths"@, wf),
            samples_under("    Write directories"@, wd),
        );
    }
}

/// Samples of a list of paths under a label: nothing where the list is empty.
pub open spec fn samples_under(label: Seq<char>, paths: Seq<Seq<u8>>) -> Seq<Seq<char>> {
    if paths.len() == 0 {
        seq![]
    } else {
        sample_lines(label, shown_paths(paths), paths.len())
    }
}

proof fn lemma_capable(verb: Seq<char>, files: Seq<Seq<u8>>, directories: Seq<Seq<u8>>)
    ensures
        capable_lines(verb, files, directories) == seq![
            "    "@ + verb + "-capable files: "@ + decimal(files.len()),
            "    "@ + verb + "-capable directories: "@ + decimal(directories.len()),
        ] + samples_under("    "@ + verb + " paths"@, files) + samples_under(
            "    "@ + verb + " directories"@,
            directories,
        ),
{
}

proof fn lemma_area_parts(
    a: Seq<char>,
    b: Seq<char>,
    c: Seq<char>,
    d: Seq<Seq<char>>,
    e: Seq<Seq<char>>,
    f: Seq<Seq<char>>,
    g: Seq<Seq<char>>,
    h: Seq<Seq<char>>,
)
    ensures
        seq![a] + (seq![b, c] + d + e) + (f + g + h) == seq![a, b, c] + d + e + f + g + h,
{
    assert(seq![a] + (seq![b, c] + d + e) + (f + g + h) =~= seq![a, b, c] + d + e + f + g + h);
}

} // verus!

//! What does not depend on the order in which the processes of a tree are taken in.

use vstd::prelude::*;

use crate::boundary::{BoundaryModel, DescriptorModel, NetworkModel};
use crate::filesystem::{
    after_io, after_tree, are_entries, lemma_after_io, seen_io, with_descriptors, with_path,
    FilesystemModel, PathEntry, PathModel, ProcessIo,
};
use crate::guarantees::{entry_at, files_are_never_forgotten, open_descriptors_become_entries};
use crate::network::{
    after_pids, are_connections, connection_at, connections_are_never_forgotten, lemma_with_socket,
    seen_connection, with_socket, with_sockets, AssociatedModel, AssociatedProcess, ConnectionModel,
    NetworkConnection, NetworkObservationModel,
};
use crate::observation::is_survivor;
use crate::paths::path_rank;
use crate::process::{lemma_pid_rank, pid_rank, process_of, ProcessModel};
use crate::sockets::{inode_rank, key_place, RecordModel, SocketEntry};
use crate::table::{
    ascending, lemma_lookup_after_placing, lemma_lookup_finds_items, lemma_slot_bounds,
    lemma_tables_with_equal_lookups, lookup, placed, slot,
};

verus! {

/// The lists hold the same process identifiers, each of them once.
pub open spec fn is_reordering(p: Seq<u32>, q: Seq<u32>) -> bool {
    &&& p.no_duplicates()
    &&& q.no_duplicates()
    &&& forall|pid: u32|
        #![trigger p.contains(pid)]
        #![trigger q.contains(pid)]
        p.contains(pid) <==> q.contains(pid)
}

/// One of the first `n` identifiers is wanted.
pub open spec fn any(pids: Seq<u32>, n: nat, wanted: spec_fn(u32) -> bool) -> bool {
    exists|i: int| 0 <= i < n && wanted(#[trigger] pids[i])
}

/// The identifier is among the first `n`.
pub open spec fn among(pids: Seq<u32>, n: nat, pid: u32) -> bool {
    exists|i: int| 0 <= i < n && #[trigger] pids[i] == pid
}

proof fn lemma_any_step(pids: Seq<u32>, n: nat, wanted: spec_fn(u32) -> bool)
    requires
        0 < n <= pids.len(),
    ensures
        any(pids, n, wanted) == (any(pids, (n - 1) as nat, wanted) || wanted(pids[n - 1])),
{
    if any(pids, n, wanted) && !wanted(pids[n - 1]) {
        let i = choose|i: int| 0 <= i < n && wanted(#[trigger] pids[i]);
        assert(0 <= i < n - 1 && wanted(pids[i]));
    }
}

proof fn lemma_any_reordered(p: Seq<u32>, q: Seq<u32>, wanted: spec_fn(u32) -> bool)
    requires
        is_reordering(p, q),
    ensures
        any(p, p.len(), wanted) == any(q, q.len(), wanted),
{
    if any(p, p.len(), wanted) {
        let i = choose|i: int| 0 <= i < p.len() && wanted(#[trigger] p[i]);
        assert(p.contains(p[i]));
        let j = choose|j: int| 0 <= j < q.len() && q[j] == p[i];
        assert(wanted(q[j]));
    }
    if any(q, q.len(), wanted) {
        let i = choose|i: int| 0 <= i < q.len() && wanted(#[trigger] q[i]);
        assert(q.contains(q[i]));
        let j = choose|j: int| 0 <= j < p.len() && p[j] == q[i];
        assert(wanted(p[j]));
    }
}

proof fn lemma_among_reordered(p: Seq<u32>, q: Seq<u32>, pid: u32)
    requires
        is_reordering(p, q),
    ensures
        among(p, p.len(), pid) == among(q, q.len(), pid),
{
    assert(among(p, p.len(), pid) == p.contains(pid));
    assert(among(q, q.len(), pid) == q.contains(pid));
}

proof fn lemma_among_step(pids: Seq<u32>, n: nat, pid: u32)
    requires
        0 < n <= pids.len(),
        pids.no_duplicates(),
    ensures
        among(pids, n, pid) == (among(pids, (n - 1) as nat, pid) || pids[n - 1] == pid),
        pids[n - 1] == pid ==> !among(pids, (n - 1) as nat, pid),
{
    if among(pids, n, pid) && pids[n - 1] != pid {
        let i = choose|i: int| 0 <= i < n && #[trigger] pids[i] == pid;
        assert(0 <= i < n - 1 && pids[i] == pid);
    }
}

/// The files, or the directories, of an observation.
pub open spec fn table_of(model: FilesystemModel, directory: bool) -> Seq<PathModel> {
    if directory {
        model.directories
    } else {
        model.paths
    }
}

/// The entry at a place allows reading, or writing.
pub open spec fn allows_at(entries: Seq<PathModel>, place: Seq<Seq<int>>, read: bool) -> bool {
    entry_at(entries, place) matches Some(e) && e.allows(read)
}

/// A descriptor opens a file, or a directory, at a place for reading, or for writing.
pub open spec fn opens(d: DescriptorModel, directory: bool, place: Seq<Seq<int>>, read: bool) -> bool {
    d.directory == directory && path_rank(d.path) == place && if read {
        d.read
    } else {
        d.write
    }
}

/// One of the first `n` descriptors does so.
pub open spec fn list_opens(
    list: Seq<DescriptorModel>,
    n: nat,
    directory: bool,
    place: Seq<Seq<int>>,
    read: bool,
) -> bool {
    exists|j: int| 0 <= j < n && opens(#[trigger] list[j], directory, place, read)
}

/// The living processes that have such a descriptor.
pub open spec fn openers(
    b: BoundaryModel,
    ps: Seq<ProcessModel>,
    directory: bool,
    place: Seq<Seq<int>>,
    read: bool,
) -> spec_fn(u32) -> bool {
    |pid: u32|
        is_survivor(ps, pid) && (b.descriptors_of(pid) matches Some(s) && list_opens(
            s.descriptors,
            s.descriptors.len(),
            directory,
            place,
            read,
        ))
}

/// The living processes whose descriptors could not all be read.
pub open spec fn hiders(b: BoundaryModel, ps: Seq<ProcessModel>) -> spec_fn(u32) -> bool {
    |pid: u32|
        is_survivor(ps, pid) && match b.descriptors_of(pid) {
            Some(s) => s.limited,
            None => true,
        }
}

proof fn lemma_descriptors_open(
    model: FilesystemModel,
    list: Seq<DescriptorModel>,
    n: nat,
    directory: bool,
    place: Seq<Seq<int>>,
    read: bool,
)
    requires
        model.wf(),
        n <= list.len(),
    ensures
        ({
            let after = with_descriptors(model, list, n);
            &&& ascending::<PathEntry>(after.paths)
            &&& ascending::<PathEntry>(after.directories)
            &&& after.io == model.io
            &&& after.paths_limited == model.paths_limited
            &&& after.working_directory == model.working_directory
            &&& allows_at(table_of(after, directory), place, read) == (allows_at(
                table_of(model, directory),
                place,
                read,
            ) || list_opens(list, n, directory, place, read))
        }),
    decreases n,
{
    if n > 0 {
        let before = with_descriptors(model, list, (n - 1) as nat);
        let d = list[n - 1];
        lemma_descriptors_open(model, list, (n - 1) as nat, directory, place, read);
        open_descriptors_become_entries(before.paths, d, place);
        open_descriptors_become_entries(before.directories, d, place);
        let entries = table_of(before, directory);
        lemma_access_after_descriptor(entries, d, place, read);
        if list_opens(list, n, directory, place, read) && !opens(d, directory, place, read) {
            let j = choose|j: int|
                0 <= j < n && opens(#[trigger] list[j], directory, place, read);
            assert(0 <= j < n - 1 && opens(list[j], directory, place, read));
        }
        if opens(d, directory, place, read) {
            assert(list_opens(list, n, directory, place, read));
        }
    }
}

/// A descriptor adds what it allows to the entry at its place.
proof fn lemma_access_after_descriptor(
    entries: Seq<PathModel>,
    d: DescriptorModel,
    place: Seq<Seq<int>>,
    read: bool,
)
    requires
        ascending::<PathEntry>(entries),
    ensures
        allows_at(with_path(entries, d), place, read) == (allows_at(entries, place, read) || (
        path_rank(d.path) == place && if read {
            d.read
        } else {
            d.write
        })),
{
    let r = path_rank(d.path);
    let item = match entry_at(entries, r) {
        Some(entry) => PathModel {
            path: entry.path,
            read: entry.read || d.read,
            write: entry.write || d.write,
        },
        None => PathModel { path: d.path, read: d.read, write: d.write },
    };
    lemma_slot_bounds::<PathEntry>(entries, r);
    assert(path_rank(item.path) == r);
    lemma_lookup_after_placing::<PathEntry>(entries, item, place);
}

/// What is open at a place after a tree, and whether descriptors are missing.
pub proof fn lemma_tree_opens(
    model: FilesystemModel,
    b: BoundaryModel,
    ps: Seq<ProcessModel>,
    pids: Seq<u32>,
    n: nat,
    directory: bool,
    place: Seq<Seq<int>>,
    read: bool,
)
    requires
        model.wf(),
        n <= pids.len(),
    ensures
        ({
            let after = after_tree(model, b, ps, pids, n);
            &&& after.wf()
            &&& after.working_directory == model.working_directory
            &&& after.paths_limited == (model.paths_limited || any(pids, n, hiders(b, ps)))
            &&& allows_at(table_of(after, directory), place, read) == (allows_at(
                table_of(model, directory),
                place,
                read,
            ) || any(pids, n, openers(b, ps, directory, place, read)))
        }),
    decreases n,
{
    files_are_never_forgotten(model, b, ps, pids, n, place, 0);
    if n > 0 {
        let before = after_tree(model, b, ps, pids, (n - 1) as nat);
        let pid = pids[n - 1];
        lemma_tree_opens(model, b, ps, pids, (n - 1) as nat, directory, place, read);
        lemma_any_step(pids, n, hiders(b, ps));
        lemma_any_step(pids, n, openers(b, ps, directory, place, read));
        if let Some(info) = process_of(ps, pid) {
            let middle = after_io(before, pid, info);
            lemma_after_io(before, pid, info);
            if info.is_alive() {
                if let Some(s) = b.descriptors_of(pid) {
                    let start = FilesystemModel {
                        paths_limited: middle.paths_limited || s.limited,
                        ..middle
                    };
                    lemma_descriptors_open(
                        start,
                        s.descriptors,
                        s.descriptors.len(),
                        directory,
                        place,
                        read,
                    );
                }
            }
        }
    }
}

/// The counters of a process after a tree: those of the process where it was in the tree.
pub proof fn lemma_tree_counters(
    model: FilesystemModel,
    b: BoundaryModel,
    ps: Seq<ProcessModel>,
    pids: Seq<u32>,
    n: nat,
    pid: u32,
)
    requires
        model.wf(),
        pids.no_duplicates(),
        n <= pids.len(),
    ensures
        ascending::<ProcessIo>(after_tree(model, b, ps, pids, n).io),
        ({
            let known = lookup::<ProcessIo>(model.io, pid_rank(pid));
            lookup::<ProcessIo>(after_tree(model, b, ps, pids, n).io, pid_rank(pid)) == if among(
                pids,
                n,
                pid,
            ) && process_of(ps, pid) is Some {
                Some(seen_io(known, pid, process_of(ps, pid)->0))
            } else {
                known
            }
        }),
    decreases n,
{
    files_are_never_forgotten(model, b, ps, pids, n, seq![], 0);
    if n > 0 {
        let before = after_tree(model, b, ps, pids, (n - 1) as nat);
        let seen = pids[n - 1];
        lemma_tree_counters(model, b, ps, pids, (n - 1) as nat, pid);
        files_are_never_forgotten(model, b, ps, pids, (n - 1) as nat, seq![], 0);
        lemma_among_step(pids, n, pid);
        if let Some(info) = process_of(ps, seen) {
            let middle = after_io(before, seen, info);
            let known = lookup::<ProcessIo>(before.io, pid_rank(seen));
            let item = seen_io(known, seen, info);
            if known is Some {
                lemma_slot_bounds::<ProcessIo>(before.io, pid_rank(seen));
                let k = slot::<ProcessIo>(before.io, pid_rank(seen));
                lemma_pid_rank(before.io[k].pid, seen);
            }
            assert(item.pid == seen);
            lemma_pid_rank(seen, pid);
            lemma_lookup_after_placing::<ProcessIo>(before.io, item, pid_rank(pid));
            lemma_after_io(before, seen, info);
            if info.is_alive() {
                if let Some(s) = b.descriptors_of(seen) {
                    let start = FilesystemModel {
                        paths_limited: middle.paths_limited || s.limited,
                        ..middle
                    };
                    lemma_descriptors_open(
                        start,
                        s.descriptors,
                        s.descriptors.len(),
                        false,
                        seq![],
                        false,
                    );
                }
            }
        }
    }
}

/// Both entries are missing, or both allow the same.
pub open spec fn allow_the_same(x: Option<PathModel>, y: Option<PathModel>) -> bool {
    match (x, y) {
        (Some(e), Some(f)) => e.read == f.read && e.write == f.write,
        (None, None) => true,
        _ => false,
    }
}

proof fn lemma_entries_allow_something(entries: Seq<PathModel>, place: Seq<Seq<int>>)
    requires
        are_entries(entries),
    ensures
        entry_at(entries, place) is Some <==> allows_at(entries, place, true) || allows_at(
            entries,
            place,
            false,
        ),
        entry_at(entries, place) matches Some(e) ==> path_rank(e.path) == place,
{
    lemma_slot_bounds::<PathEntry>(entries, place);
    if entry_at(entries, place) is Some {
        let k = slot::<PathEntry>(entries, place);
        assert(entries[k].read || entries[k].write);
    }
}

proof fn lemma_same_counters(
    model: FilesystemModel,
    b: BoundaryModel,
    ps: Seq<ProcessModel>,
    p: Seq<u32>,
    q: Seq<u32>,
)
    requires
        model.wf(),
        is_reordering(p, q),
    ensures
        after_tree(model, b, ps, p, p.len()).io == after_tree(model, b, ps, q, q.len()).io,
{
    let x = after_tree(model, b, ps, p, p.len()).io;
    let y = after_tree(model, b, ps, q, q.len()).io;
    lemma_tree_counters(model, b, ps, p, p.len(), 0);
    lemma_tree_counters(model, b, ps, q, q.len(), 0);
    assert forall|r: Seq<Seq<int>>| #[trigger]
        lookup::<ProcessIo>(x, r) == lookup::<ProcessIo>(y, r) by {
        lemma_slot_bounds::<ProcessIo>(x, r);
        lemma_slot_bounds::<ProcessIo>(y, r);
        if let Some(io) = lookup::<ProcessIo>(x, r) {
            lemma_tree_counters(model, b, ps, p, p.len(), io.pid);
            lemma_tree_counters(model, b, ps, q, q.len(), io.pid);
            lemma_among_reordered(p, q, io.pid);
        }
        if let Some(io) = lookup::<ProcessIo>(y, r) {
            lemma_tree_counters(model, b, ps, p, p.len(), io.pid);
            lemma_tree_counters(model, b, ps, q, q.len(), io.pid);
            lemma_among_reordered(p, q, io.pid);
        }
    }
    lemma_tables_with_equal_lookups::<ProcessIo>(x, y);
}

proof fn lemma_same_access(
    model: FilesystemModel,
    b: BoundaryModel,
    ps: Seq<ProcessModel>,
    p: Seq<u32>,
    q: Seq<u32>,
    directory: bool,
    place: Seq<Seq<int>>,
)
    requires
        model.wf(),
        is_reordering(p, q),
    ensures
        ({
            let x = after_tree(model, b, ps, p, p.len());
            let y = after_tree(model, b, ps, q, q.len());
            &&& x.wf()
            &&& y.wf()
            &&& x.working_directory == y.working_directory
            &&& x.paths_limited == y.paths_limited
            &&& allow_the_same(
                entry_at(table_of(x, directory), place),
                entry_at(table_of(y, directory), place),
            )
            &&& entry_at(table_of(x, directory), place) matches Some(e) ==> path_rank(e.path)
                == place
            &&& entry_at(table_of(y, directory), place) matches Some(e) ==> path_rank(e.path)
                == place
        }),
{
    lemma_tree_opens(model, b, ps, p, p.len(), directory, place, true);
    lemma_tree_opens(model, b, ps, p, p.len(), directory, place, false);
    lemma_tree_opens(model, b, ps, q, q.len(), directory, place, true);
    lemma_tree_opens(model, b, ps, q, q.len(), directory, place, false);
    lemma_any_reordered(p, q, openers(b, ps, directory, place, true));
    lemma_any_reordered(p, q, openers(b, ps, directory, place, false));
    lemma_any_reordered(p, q, hiders(b, ps));
    let x = after_tree(model, b, ps, p, p.len());
    let y = after_tree(model, b, ps, q, q.len());
    lemma_entries_allow_something(table_of(x, directory), place);
    lemma_entries_allow_something(table_of(y, directory), place);
}

/// In whatever order the processes of a tree are taken in, the counters come out the same, the same
/// paths are known and allow the same, and the same is found missing. Only which spelling of a path
/// is kept can differ.
pub proof fn files_do_not_depend_on_the_order(
    model: FilesystemModel,
    b: BoundaryModel,
    ps: Seq<ProcessModel>,
    p: Seq<u32>,
    q: Seq<u32>,
    place: Seq<Seq<int>>,
)
    requires
        model.wf(),
        is_reordering(p, q),
    ensures
        ({
            let x = after_tree(model, b, ps, p, p.len());
            let y = after_tree(model, b, ps, q, q.len());
            &&& x.io == y.io
            &&& x.working_directory == y.working_directory
            &&& x.paths_limited == y.paths_limited
            &&& allow_the_same(entry_at(x.paths, place), entry_at(y.paths, place))
            &&& allow_the_same(entry_at(x.directories, place), entry_at(y.directories, place))
        }),
{
    lemma_same_counters(model, b, ps, p, q);
    lemma_same_access(model, b, ps, p, q, false, place);
    lemma_same_access(model, b, ps, p, q, true, place);
}

/// A descriptor of the process has this path.
pub open spec fn names_path(b: BoundaryModel, pid: u32, path: Seq<u8>) -> bool {
    b.descriptors_of(pid) matches Some(s) && exists|j: int|
        0 <= j < s.descriptors.len() && (#[trigger] s.descriptors[j]).path == path
}

/// The path is known already, or a descriptor of one of the processes has it.
pub open spec fn is_named(
    model: FilesystemModel,
    b: BoundaryModel,
    pids: Seq<u32>,
    path: Seq<u8>,
) -> bool {
    ||| exists|i: int| 0 <= i < model.paths.len() && (#[trigger] model.paths[i]).path == path
    ||| exists|i: int|
        0 <= i < model.directories.len() && (#[trigger] model.directories[i]).path == path
    ||| exists|i: int| 0 <= i < pids.len() && names_path(b, #[trigger] pids[i], path)
}

/// No two of the paths are spellings of one.
pub open spec fn has_one_spelling(
    model: FilesystemModel,
    b: BoundaryModel,
    pids: Seq<u32>,
) -> bool {
    forall|x: Seq<u8>, y: Seq<u8>|
        #[trigger] is_named(model, b, pids, x) && #[trigger] is_named(model, b, pids, y)
            && path_rank(x) == path_rank(y) ==> x == y
}

proof fn lemma_descriptors_name(
    model: FilesystemModel,
    list: Seq<DescriptorModel>,
    n: nat,
    directory: bool,
    place: Seq<Seq<int>>,
)
    requires
        model.wf(),
        n <= list.len(),
    ensures
        entry_at(table_of(with_descriptors(model, list, n), directory), place) matches Some(e) ==> (
        entry_at(table_of(model, directory), place) matches Some(f) && f.path == e.path)
            || exists|j: int| 0 <= j < list.len() && (#[trigger] list[j]).path == e.path,
    decreases n,
{
    if n > 0 {
        let before = with_descriptors(model, list, (n - 1) as nat);
        let d = list[n - 1];
        lemma_descriptors_name(model, list, (n - 1) as nat, directory, place);
        lemma_descriptors_open(model, list, (n - 1) as nat, directory, place, true);
        open_descriptors_become_entries(table_of(before, directory), d, place);
        let entries = table_of(before, directory);
        let r = path_rank(d.path);
        let item = match entry_at(entries, r) {
            Some(entry) => PathModel {
                path: entry.path,
                read: entry.read || d.read,
                write: entry.write || d.write,
            },
            None => PathModel { path: d.path, read: d.read, write: d.write },
        };
        lemma_slot_bounds::<PathEntry>(entries, r);
        assert(path_rank(item.path) == r);
        lemma_lookup_after_placing::<PathEntry>(entries, item, place);
        assert(list[n - 1].path == d.path);
    }
}

proof fn lemma_tree_names(
    model: FilesystemModel,
    b: BoundaryModel,
    ps: Seq<ProcessModel>,
    pids: Seq<u32>,
    n: nat,
    directory: bool,
    place: Seq<Seq<int>>,
)
    requires
        model.wf(),
        n <= pids.len(),
    ensures
        entry_at(
            table_of(after_tree(model, b, ps, pids, n), directory),
            place,
        ) matches Some(e) ==> is_named(model, b, pids, e.path),
    decreases n,
{
    if n == 0 {
        let entries = table_of(model, directory);
        lemma_slot_bounds::<PathEntry>(entries, place);
        if let Some(e) = entry_at(entries, place) {
            let k = slot::<PathEntry>(entries, place);
            assert(entries[k] == e);
            if directory {
                assert(model.directories[k].path == e.path);
            } else {
                assert(model.paths[k].path == e.path);
            }
        }
    } else {
        let before = after_tree(model, b, ps, pids, (n - 1) as nat);
        let pid = pids[n - 1];
        lemma_tree_names(model, b, ps, pids, (n - 1) as nat, directory, place);
        files_are_never_forgotten(model, b, ps, pids, (n - 1) as nat, place, 0);
        if let Some(info) = process_of(ps, pid) {
            let middle = after_io(before, pid, info);
            lemma_after_io(before, pid, info);
            if info.is_alive() {
                if let Some(s) = b.descriptors_of(pid) {
                    let start = FilesystemModel {
                        paths_limited: middle.paths_limited || s.limited,
                        ..middle
                    };
                    lemma_descriptors_name(
                        start,
                        s.descriptors,
                        s.descriptors.len(),
                        directory,
                        place,
                    );
                    let entries = table_of(after_tree(model, b, ps, pids, n), directory);
                    if let Some(e) = entry_at(entries, place) {
                        if exists|j: int|
                            0 <= j < s.descriptors.len() && (#[trigger] s.descriptors[j]).path
                                == e.path {
                            assert(names_path(b, pids[n - 1], e.path));
                        }
                    }
                }
            }
        }
    }
}

proof fn lemma_same_table(
    model: FilesystemModel,
    b: BoundaryModel,
    ps: Seq<ProcessModel>,
    p: Seq<u32>,
    q: Seq<u32>,
    directory: bool,
)
    requires
        model.wf(),
        is_reordering(p, q),
        has_one_spelling(model, b, p),
    ensures
        table_of(after_tree(model, b, ps, p, p.len()), directory) == table_of(
            after_tree(model, b, ps, q, q.len()),
            directory,
        ),
{
    let x = table_of(after_tree(model, b, ps, p, p.len()), directory);
    let y = table_of(after_tree(model, b, ps, q, q.len()), directory);
    lemma_same_access(model, b, ps, p, q, directory, seq![]);
    assert forall|r: Seq<Seq<int>>| #[trigger]
        lookup::<PathEntry>(x, r) == lookup::<PathEntry>(y, r) by {
        lemma_same_access(model, b, ps, p, q, directory, r);
        lemma_tree_names(model, b, ps, p, p.len(), directory, r);
        lemma_tree_names(model, b, ps, q, q.len(), directory, r);
        if let (Some(e), Some(f)) = (entry_at(x, r), entry_at(y, r)) {
            assert(is_named(model, b, p, f.path)) by {
                if exists|i: int| 0 <= i < q.len() && names_path(b, #[trigger] q[i], f.path) {
                    let i = choose|i: int|
                        0 <= i < q.len() && names_path(b, #[trigger] q[i], f.path);
                    assert(q.contains(q[i]));
                    let k = choose|k: int| 0 <= k < p.len() && p[k] == q[i];
                    assert(names_path(b, p[k], f.path));
                }
            }
            assert(is_named(model, b, p, e.path));
        }
    }
    lemma_tables_with_equal_lookups::<PathEntry>(x, y);
}

/// Where every path has one spelling, the whole observation of files comes out the same in whatever
/// order the processes of a tree are taken in.
pub proof fn files_with_one_spelling_do_not_depend_on_the_order(
    model: FilesystemModel,
    b: BoundaryModel,
    ps: Seq<ProcessModel>,
    p: Seq<u32>,
    q: Seq<u32>,
)
    requires
        model.wf(),
        is_reordering(p, q),
        has_one_spelling(model, b, p),
    ensures
        after_tree(model, b, ps, p, p.len()) == after_tree(model, b, ps, q, q.len()),
{
    files_do_not_depend_on_the_order(model, b, ps, p, q, seq![]);
    lemma_same_table(model, b, ps, p, q, false);
    lemma_same_table(model, b, ps, p, q, true);
}

/// What is known about a process that held the connection at a place.
pub open spec fn holder_at(
    connections: Seq<ConnectionModel>,
    place: Seq<Seq<int>>,
    pid: u32,
) -> Option<AssociatedModel> {
    match connection_at(connections, place) {
        Some(c) => lookup::<AssociatedProcess>(c.processes, pid_rank(pid)),
        None => None,
    }
}

proof fn lemma_socket_holder(
    connections: Seq<ConnectionModel>,
    seen: u32,
    command: Seq<char>,
    record: RecordModel,
    place: Seq<Seq<int>>,
    pid: u32,
)
    requires
        are_connections(connections),
    ensures
        holder_at(with_socket(connections, seen, command, record), place, pid) == if place
            == key_place(record.key) && pid == seen {
            Some(AssociatedModel { pid: seen, command })
        } else {
            holder_at(connections, place, pid)
        },
{
    let r = key_place(record.key);
    let known = connection_at(connections, r);
    let item = seen_connection(known, seen, command, record);
    let process = AssociatedModel { pid: seen, command };
    lemma_slot_bounds::<NetworkConnection>(connections, r);
    lemma_pid_rank(seen, pid);
    match known {
        Some(connection) => {
            let at = slot::<NetworkConnection>(connections, r);
            assert(connections[at] == connection);
            lemma_lookup_after_placing::<AssociatedProcess>(
                connection.processes,
                process,
                pid_rank(pid),
            );
        },
        None => {
            let none = Seq::<AssociatedModel>::empty();
            lemma_slot_bounds::<AssociatedProcess>(none, pid_rank(seen));
            assert(placed::<AssociatedProcess>(none, process) =~= item.processes);
            lemma_lookup_after_placing::<AssociatedProcess>(none, process, pid_rank(pid));
        },
    }
    lemma_lookup_after_placing::<NetworkConnection>(connections, item, place);
}

/// One of the first `n` sockets of a process belongs to the connection at a place.
pub open spec fn list_holds(s: NetworkModel, n: nat, place: Seq<Seq<int>>) -> bool {
    exists|j: int| 0 <= j < n && inode_holds(s, #[trigger] s.inodes[j], place)
}

/// The socket with this inode belongs to the connection at a place.
pub open spec fn inode_holds(s: NetworkModel, inode: u64, place: Seq<Seq<int>>) -> bool {
    lookup::<SocketEntry>(s.sockets, inode_rank(inode)) matches Some(entry) && key_place(
        entry.record.key,
    ) == place
}

proof fn lemma_sockets_holder(
    connections: Seq<ConnectionModel>,
    seen: u32,
    command: Seq<char>,
    s: NetworkModel,
    n: nat,
    place: Seq<Seq<int>>,
    pid: u32,
)
    requires
        are_connections(connections),
        n <= s.inodes.len(),
    ensures
        are_connections(with_sockets(connections, seen, command, s, n)),
        holder_at(with_sockets(connections, seen, command, s, n), place, pid) == if pid == seen
            && list_holds(s, n, place) {
            Some(AssociatedModel { pid: seen, command })
        } else {
            holder_at(connections, place, pid)
        },
    decreases n,
{
    if n > 0 {
        let before = with_sockets(connections, seen, command, s, (n - 1) as nat);
        lemma_sockets_holder(connections, seen, command, s, (n - 1) as nat, place, pid);
        let inode = s.inodes[n - 1];
        if let Some(entry) = lookup::<SocketEntry>(s.sockets, inode_rank(inode)) {
            lemma_with_socket(before, seen, command, entry.record);
            lemma_socket_holder(before, seen, command, entry.record, place, pid);
        }
        if list_holds(s, n, place) && !inode_holds(s, inode, place) {
            let j = choose|j: int| 0 <= j < n && inode_holds(s, #[trigger] s.inodes[j], place);
            assert(0 <= j < n - 1 && inode_holds(s, s.inodes[j], place));
        }
        if inode_holds(s, inode, place) {
            assert(inode_holds(s, s.inodes[n - 1], place));
        }
    }
}

/// The process is alive and has a socket of the connection at a place.
pub open spec fn holds_place(
    b: BoundaryModel,
    ps: Seq<ProcessModel>,
    pid: u32,
    place: Seq<Seq<int>>,
) -> bool {
    is_survivor(ps, pid) && (b.network_of(pid) matches Some(s) && list_holds(
        s,
        s.inodes.len(),
        place,
    ))
}

/// The living processes whose sockets could be read.
pub open spec fn tellers(b: BoundaryModel, ps: Seq<ProcessModel>) -> spec_fn(u32) -> bool {
    |pid: u32| is_survivor(ps, pid) && b.network_of(pid) is Some
}

/// The living processes whose sockets could not all be read.
pub open spec fn concealers(b: BoundaryModel, ps: Seq<ProcessModel>) -> spec_fn(u32) -> bool {
    |pid: u32|
        is_survivor(ps, pid) && match b.network_of(pid) {
            Some(s) => s.limited,
            None => true,
        }
}

/// Who holds the connection at a place after a tree, and whether sockets are missing.
pub proof fn lemma_tree_holders(
    model: NetworkObservationModel,
    b: BoundaryModel,
    ps: Seq<ProcessModel>,
    pids: Seq<u32>,
    n: nat,
    place: Seq<Seq<int>>,
    pid: u32,
)
    requires
        model.wf(),
        pids.no_duplicates(),
        n <= pids.len(),
    ensures
        ({
            let after = after_pids(model, b, ps, pids, n);
            &&& after.wf()
            &&& after.backend_available == (model.backend_available || any(
                pids,
                n,
                tellers(b, ps),
            ))
            &&& after.observation_limited == (model.observation_limited || any(
                pids,
                n,
                concealers(b, ps),
            ))
            &&& holder_at(after.connections, place, pid) == if among(pids, n, pid) && holds_place(
                b,
                ps,
                pid,
                place,
            ) {
                Some(AssociatedModel { pid, command: process_of(ps, pid)->0.command })
            } else {
                holder_at(model.connections, place, pid)
            }
        }),
    decreases n,
{
    connections_are_never_forgotten(model, b, ps, pids, n, place);
    if n > 0 {
        let before = after_pids(model, b, ps, pids, (n - 1) as nat);
        let seen = pids[n - 1];
        lemma_tree_holders(model, b, ps, pids, (n - 1) as nat, place, pid);
        lemma_any_step(pids, n, tellers(b, ps));
        lemma_any_step(pids, n, concealers(b, ps));
        lemma_among_step(pids, n, pid);
        if let Some(info) = process_of(ps, seen) {
            if info.is_alive() {
                if let Some(s) = b.network_of(seen) {
                    lemma_sockets_holder(
                        before.connections,
                        seen,
                        info.command,
                        s,
                        s.inodes.len(),
                        place,
                        pid,
                    );
                }
            }
        }
    }
}

/// Both connections are missing, or both were held by the same processes with the same commands.
pub open spec fn are_held_alike(x: Option<ConnectionModel>, y: Option<ConnectionModel>) -> bool {
    match (x, y) {
        (Some(c), Some(d)) => c.processes == d.processes,
        (None, None) => true,
        _ => false,
    }
}

proof fn lemma_connections_are_held(connections: Seq<ConnectionModel>, place: Seq<Seq<int>>)
    requires
        are_connections(connections),
    ensures
        connection_at(connections, place) matches Some(c) ==> ascending::<AssociatedProcess>(
            c.processes,
        ) && c.processes.len() > 0 && holder_at(connections, place, c.processes[0].pid) is Some,
{
    lemma_slot_bounds::<NetworkConnection>(connections, place);
    if let Some(c) = connection_at(connections, place) {
        let k = slot::<NetworkConnection>(connections, place);
        assert(connections[k] == c);
        lemma_lookup_finds_items::<AssociatedProcess>(c.processes, 0);
    }
}

/// In whatever order the processes of a tree are taken in, the same connections are known, each held
/// by the same processes with the same commands, and the same is found missing. Only which of several
/// states of one connection is kept can differ.
pub proof fn connections_do_not_depend_on_the_order(
    model: NetworkObservationModel,
    b: BoundaryModel,
    ps: Seq<ProcessModel>,
    p: Seq<u32>,
    q: Seq<u32>,
    place: Seq<Seq<int>>,
)
    requires
        model.wf(),
        is_reordering(p, q),
    ensures
        ({
            let x = after_pids(model, b, ps, p, p.len());
            let y = after_pids(model, b, ps, q, q.len());
            &&& x.backend_available == y.backend_available
            &&& x.observation_limited == y.observation_limited
            &&& are_held_alike(
                connection_at(x.connections, place),
                connection_at(y.connections, place),
            )
        }),
{
    let x = after_pids(model, b, ps, p, p.len());
    let y = after_pids(model, b, ps, q, q.len());
    lemma_tree_holders(model, b, ps, p, p.len(), place, 0);
    lemma_tree_holders(model, b, ps, q, q.len(), place, 0);
    lemma_any_reordered(p, q, tellers(b, ps));
    lemma_any_reordered(p, q, concealers(b, ps));
    assert forall|pid: u32| #[trigger]
        holder_at(x.connections, place, pid) == holder_at(y.connections, place, pid) by {
        lemma_tree_holders(model, b, ps, p, p.len(), place, pid);
        lemma_tree_holders(model, b, ps, q, q.len(), place, pid);
        lemma_among_reordered(p, q, pid);
    }
    lemma_connections_are_held(x.connections, place);
    lemma_connections_are_held(y.connections, place);
    let first = connection_at(x.connections, place);
    let second = connection_at(y.connections, place);
    if let Some(c) = first {
        let pid = c.processes[0].pid;
        assert(holder_at(x.connections, place, pid) == holder_at(y.connections, place, pid));
    }
    if let Some(d) = second {
        let pid = d.processes[0].pid;
        assert(holder_at(x.connections, place, pid) == holder_at(y.connections, place, pid));
    }
    if first is Some && second is Some {
        let c = first->0.processes;
        let d = second->0.processes;
        assert forall|r: Seq<Seq<int>>| #[trigger]
            lookup::<AssociatedProcess>(c, r) == lookup::<AssociatedProcess>(d, r) by {
            lemma_slot_bounds::<AssociatedProcess>(c, r);
            lemma_slot_bounds::<AssociatedProcess>(d, r);
            if let Some(h) = lookup::<AssociatedProcess>(c, r) {
                assert(holder_at(x.connections, place, h.pid) == holder_at(
                    y.connections,
                    place,
                    h.pid,
                ));
            }
            if let Some(h) = lookup::<AssociatedProcess>(d, r) {
                assert(holder_at(x.connections, place, h.pid) == holder_at(
                    y.connections,
                    place,
                    h.pid,
                ));
            }
        }
        lemma_tables_with_equal_lookups::<AssociatedProcess>(c, d);
    }
}

} // verus!

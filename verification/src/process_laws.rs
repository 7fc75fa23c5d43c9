//! What the files about a process say, who belongs to a tree, and what is kept of a process.

use vstd::prelude::*;

use crate::boundary::{BoundaryModel, DescriptorModel};
use crate::filesystem::path_model;
use crate::formatting::{joined, sanitized};
use crate::numbers::{decimal, numbers_read_back, unsigned_value};
use crate::observation::{after_snapshot, ObservationModel};
use crate::observed::{
    descendant_of, indent, process_line, snapshot_extends_descendants, ObservedModel,
};
use crate::platform::{
    access_of, descriptors_of, flags_of, flags_of_line, pid_of, reading_models, undeleted,
    undeleted_path, DescriptorFiles, DescriptorFilesModel, FileKind,
};
use crate::process::{
    at_depth, depth_of, descends, lemma_depth_is_unique, lemma_pid_rank, pid_rank, process_of,
    tree_members, tree_pids, ProcessInfo, ProcessModel,
};
use crate::process_files::{
    argument_length, arguments_of, command_line_of, directory_model, io_of, memory_of,
    name_is_in_order, process_from, snapshot_of, stat_fields, stat_name, ProcessFiles,
    ProcessFilesModel,
};
use crate::scanning::{last_pair, lemma_length_until, lines, trim_end, trim_start, words};
use crate::table::{ascending, lemma_lookup_after_placing, lemma_placed_is_ascending};
use crate::text::utf8_lossy;
use crate::text_laws::last_pairs_are_last;

verus! {

/// A status line is an identifier, the name in brackets, and words: whatever the name holds, the first
/// word behind it is the state, the second the parent, and the twelfth and thirteenth are the
/// processor times.
pub proof fn status_lines_are_read_behind_the_name(
    front: Seq<char>,
    name: Seq<char>,
    rest: Seq<char>,
)
    requires
        !front.contains('('),
        forall|k: int| 0 <= k < rest.len() - 1 ==> !(#[trigger] rest[k] == ')' && rest[k + 1] == ' '),
    ensures
        ({
            let stat = front + "("@ + name + ") "@ + rest;
            let w = words(rest);
            &&& stat_name(stat) == name
            &&& name_is_in_order(stat)
            &&& match stat_fields(stat) {
                Some(fields) => w.len() >= 2 && w[0].len() > 0 && fields.state == w[0][0]
                    && unsigned_value(w[1], 10, u32::MAX as nat) == Some(fields.parent_pid as nat)
                    && number_at(w, 11, fields.user_cpu_ticks) && number_at(
                    w,
                    12,
                    fields.system_cpu_ticks,
                ),
                None => w.len() < 2 || w[0].len() == 0 || unsigned_value(w[1], 10, u32::MAX as nat)
                    is None,
            }
        }),
{
    reveal_strlit("(");
    reveal_strlit(") ");
    let stat = front + "("@ + name + ") "@ + rest;
    let open = front.len() as int;
    let end = open + 1 + name.len() as int;
    assert forall|k: int| 0 <= k < open implies #[trigger] stat[k] != '(' by {
        assert(stat[k] == front[k]);
        assert(front.contains(front[k]));
    }
    assert(stat[open] == '(');
    lemma_length_until(stat, '(', open);
    assert(stat[end] == ')' && stat[end + 1] == ' ');
    assert forall|k: int| end < k < stat.len() - 1 implies !(#[trigger] stat[k] == ')' && stat[k + 1]
        == ' ') by {
        if k > end + 1 {
            assert(stat[k] == rest[k - end - 2]);
            assert(stat[k + 1] == rest[k - end - 2 + 1]);
        }
    }
    last_pairs_are_last(stat, ')', ' ', end);
    assert(stat.skip(end + 2) =~= rest);
    assert(stat.subrange(open + 1, end) =~= name);
}

/// A text without an opening bracket, or without a closing one before a blank, is no status line.
pub proof fn other_texts_are_no_status_lines(stat: Seq<char>)
    ensures
        (forall|k: int| 0 <= k < stat.len() ==> #[trigger] stat[k] != '(') ==> stat_fields(stat) is None,
        (forall|k: int|
            0 <= k < stat.len() - 1 ==> !(#[trigger] stat[k] == ')' && stat[k + 1] == ' '))
            ==> stat_fields(stat) is None,
{
    if forall|k: int| 0 <= k < stat.len() ==> #[trigger] stat[k] != '(' {
        lemma_length_until(stat, '(', stat.len() as int);
    }
    if forall|k: int| 0 <= k < stat.len() - 1 ==> !(#[trigger] stat[k] == ')' && stat[k + 1] == ' ') {
        lemma_no_pair(stat, ')', ' ');
    }
}

proof fn lemma_no_pair(s: Seq<char>, a: char, b: char)
    requires
        forall|k: int| 0 <= k < s.len() - 1 ==> !(#[trigger] s[k] == a && s[k + 1] == b),
    ensures
        last_pair(s, a, b) is None,
    decreases s.len(),
{
    if s.len() > 0 {
        let front = s.drop_last();
        assert forall|k: int| 0 <= k < front.len() - 1 implies !(#[trigger] front[k] == a && front[k
            + 1] == b) by {
            assert(front[k] == s[k] && front[k + 1] == s[k + 1]);
        }
        lemma_no_pair(front, a, b);
        if s.len() > 1 {
            assert(!(s[s.len() - 2] == a && s[s.len() - 2 + 1] == b));
        }
    }
}

/// A name in the process directory stands for a process exactly where it is a number of up to
/// thirty-two bits; and every process has such a name.
pub proof fn names_of_processes_are_numbers(name: Seq<char>, pid: u32)
    ensures
        pid_of(name) == Some(pid) <==> unsigned_value(name, 10, 0xffff_ffff) == Some(pid as nat),
        pid_of(name) is None <==> unsigned_value(name, 10, 0xffff_ffff) is None,
        pid_of(decimal(pid as nat)) == Some(pid),
{
    numbers_read_back(pid as nat, 10, 0xffff_ffff);
}

/// The number in a word, or none where there is no such word or it is no number.
pub open spec fn number_at(w: Seq<Seq<char>>, i: int, number: Option<u64>) -> bool {
    match number {
        Some(n) => i < w.len() && unsigned_value(w[i], 10, u64::MAX as nat) == Some(n as nat),
        None => i >= w.len() || unsigned_value(w[i], 10, u64::MAX as nat) is None,
    }
}

proof fn lemma_argument_end(a: Seq<u8>, b: Seq<u8>)
    requires
        a.len() > 0,
        forall|k: int| 0 <= k < a.len() ==> #[trigger] a[k] != 0,
        b.len() > 0 ==> b[0] == 0,
    ensures
        argument_length(a + b) == a.len(),
    decreases a.len(),
{
    let s = a + b;
    assert(s[0] == a[0]);
    if a.len() == 1 {
        assert(s.drop_first() =~= b);
        assert(argument_length(b) == 0);
    } else {
        let rest = a.drop_first();
        assert forall|k: int| 0 <= k < rest.len() implies #[trigger] rest[k] != 0 by {
            assert(rest[k] == a[k + 1]);
        }
        lemma_argument_end(rest, b);
        assert(s.drop_first() =~= rest + b);
    }
}

/// Arguments are the stretches between zero bytes: one without a zero is one argument, a zero ends it,
/// and empty ones do not count.
pub proof fn zero_bytes_part_arguments(a: Seq<u8>, b: Seq<u8>)
    requires
        forall|k: int| 0 <= k < a.len() ==> #[trigger] a[k] != 0,
    ensures
        arguments_of(a) == if a.len() == 0 {
            seq![]
        } else {
            seq![a]
        },
        arguments_of(a.push(0u8) + b) == arguments_of(a) + arguments_of(b),
{
    let zero = seq![0u8] + b;
    let s = a.push(0u8) + b;
    assert(zero.drop_first() =~= b);
    assert(arguments_of(zero) == arguments_of(b));
    if a.len() == 0 {
        assert(s =~= zero);
        assert(arguments_of(a) + arguments_of(b) =~= arguments_of(b));
    } else {
        let n = a.len() as int;
        assert(s =~= a + zero);
        lemma_argument_end(a, zero);
        assert(s[0] == a[0] && s[0] != 0);
        assert(s.take(n) =~= a);
        assert(s.skip(n) =~= zero);
        let none = Seq::<u8>::empty();
        assert(a + none =~= a);
        lemma_argument_end(a, none);
        assert(a.take(n) =~= a);
        assert(a.skip(n) =~= none);
        assert(a[0] != 0);
        assert(arguments_of(none) =~= Seq::<Seq<u8>>::empty());
        assert(arguments_of(a) =~= seq![a]);
    }
}

/// A command is its arguments, each on one line, with a blank between any two; without a character
/// there is none.
pub proof fn commands_are_their_arguments(bytes: Seq<u8>)
    ensures
        ({
            let shown = arguments_of(bytes).map_values(|a: Seq<u8>| sanitized(utf8_lossy(a)));
            let text = joined(shown, " "@);
            match command_line_of(bytes) {
                Some(command) => command == text && text.len() > 0,
                None => text.len() == 0,
            }
        }),
{
    let decoded = arguments_of(bytes).map_values(|a: Seq<u8>| utf8_lossy(a));
    let shown = arguments_of(bytes).map_values(|a: Seq<u8>| sanitized(utf8_lossy(a)));
    assert(decoded.map_values(|a: Seq<char>| sanitized(a)) =~= shown);
}

/// The last line to tell about bytes that were read, or written, decides; lines about anything else do
/// not matter.
pub proof fn the_last_storage_lines_decide(rows: Seq<Seq<char>>, row: Seq<char>)
    ensures
        ({
            let before = io_of(rows, rows.len());
            let after = io_of(rows.push(row), rows.len() + 1);
            let w = words(row);
            if w.len() > 0 && w[0] == "read_bytes:"@ {
                number_at(w, 1, after.0) && after.1 == before.1
            } else if w.len() > 0 && w[0] == "write_bytes:"@ {
                number_at(w, 1, after.1) && after.0 == before.0
            } else {
                after == before
            }
        }),
        io_of(seq![], 0) == (None::<u64>, None::<u64>),
{
    let longer = rows.push(row);
    lemma_io_prefix(rows, longer, rows.len());
    assert(longer[rows.len() as int] == row);
    reveal_strlit("read_bytes:");
    reveal_strlit("write_bytes:");
    assert("read_bytes:"@.len() != "write_bytes:"@.len());
}

proof fn lemma_io_prefix(a: Seq<Seq<char>>, b: Seq<Seq<char>>, n: nat)
    requires
        n <= a.len() <= b.len(),
        forall|k: int| 0 <= k < n ==> #[trigger] a[k] == b[k],
    ensures
        io_of(a, n) == io_of(b, n),
    decreases n,
{
    if n > 0 {
        lemma_io_prefix(a, b, (n - 1) as nat);
        assert(a[n - 1] == b[n - 1]);
    }
}

/// Of the lines that tell the resident memory in kilobytes the first decides.
pub proof fn the_first_memory_line_decides(row: Seq<char>, rows: Seq<Seq<char>>)
    ensures
        ({
            let w = words(row);
            let after = memory_of(seq![row] + rows);
            if w.len() >= 3 && w[0] == "VmRSS:"@ && w[2] == "kB"@ && unsigned_value(
                w[1],
                10,
                u64::MAX as nat,
            ) is Some {
                number_at(w, 1, after) && after is Some
            } else {
                after == memory_of(rows)
            }
        }),
        memory_of(seq![]) is None,
{
    let all = seq![row] + rows;
    assert(all[0] == row);
    assert(all.drop_first() =~= rows);
}

/// What is known of a process comes from its files: identity, state and processor times from the
/// status line, the command from the arguments or else from the name in brackets, memory and bytes
/// each from its own file. Without a readable status line nothing is known.
pub proof fn processes_are_what_their_files_say(files: ProcessFilesModel)
    ensures
        process_from(files) is Some <==> files.stat is Some && stat_fields(files.stat->0) is Some,
        process_from(files) matches Some(p) ==> {
            let fields = stat_fields(files.stat->0)->0;
            &&& p.pid == files.pid
            &&& p.parent_pid == fields.parent_pid
            &&& p.state == fields.state
            &&& p.user_cpu_ticks == fields.user_cpu_ticks
            &&& p.system_cpu_ticks == fields.system_cpu_ticks
            &&& p.resident_memory_kib == (match files.status {
                Some(text) => memory_of(lines(text)),
                None => None,
            })
            &&& p.read_storage_bytes == (match files.io {
                Some(text) => io_of(lines(text), lines(text).len()).0,
                None => None,
            })
            &&& p.write_storage_bytes == (match files.io {
                Some(text) => io_of(lines(text), lines(text).len()).1,
                None => None,
            })
            &&& files.cmdline is Some && command_line_of(files.cmdline->0) is Some ==> p.command
                == command_line_of(files.cmdline->0)->0
            &&& files.cmdline is None || command_line_of(files.cmdline->0) is None ==> p.command
                == "["@ + sanitized(stat_name(files.stat->0)) + "]"@
        },
{
}

/// A process is alive unless its state says that it is a zombie or dead.
pub proof fn only_zombies_and_the_dead_are_not_alive(p: ProcessModel)
    ensures
        p.is_alive() <==> p.state != 'Z' && p.state != 'X',
{
}

/// Of the entries of the process directory, the last one for an identifier decides what is known of
/// the process; and exactly those that could not be read are known as unreadable.
pub proof fn snapshots_hold_every_process(
    entries: Seq<ProcessFilesModel>,
    n: nat,
    k: int,
    pid: u32,
)
    requires
        n <= entries.len(),
    ensures
        ({
            let after = snapshot_of(entries, n);
            &&& after.available
            &&& ascending::<ProcessInfo>(after.processes)
            &&& after.unreadable_pids.contains(pid) <==> exists|j: int|
                0 <= j < n && (#[trigger] entries[j]).pid == pid && process_from(entries[j]) is None
            &&& (forall|j: int|
                0 <= j < n && (#[trigger] entries[j]).pid == pid ==> process_from(entries[j])
                    is None) ==> process_of(after.processes, pid) is None
            &&& 0 <= k < n && entries[k].pid == pid && process_from(entries[k]) is Some && (forall|
                j: int,
            |
                k < j < n && (#[trigger] entries[j]).pid == pid ==> process_from(entries[j])
                    is None) ==> process_of(after.processes, pid) == process_from(entries[k])
        }),
    decreases n,
{
    if n == 0 {
        assert(process_of(seq![], pid) is None);
    } else {
        let before = snapshot_of(entries, (n - 1) as nat);
        let after = snapshot_of(entries, n);
        let last = entries[n - 1];
        snapshots_hold_every_process(entries, (n - 1) as nat, k, pid);
        match process_from(last) {
            Some(process) => {
                lemma_placed_is_ascending::<ProcessInfo>(before.processes, process);
                lemma_pid_rank(process.pid, pid);
                lemma_lookup_after_placing::<ProcessInfo>(before.processes, process, pid_rank(pid));
                assert(entries[n - 1].pid == process.pid);
            },
            None => {
                assert(after.unreadable_pids =~= before.unreadable_pids.push(last.pid));
                assert(after.unreadable_pids[after.unreadable_pids.len() - 1] == last.pid);
                if before.unreadable_pids.contains(pid) {
                    let i = choose|i: int|
                        0 <= i < before.unreadable_pids.len() && before.unreadable_pids[i] == pid;
                    assert(after.unreadable_pids[i] == pid);
                }
                if after.unreadable_pids.contains(pid) && pid != last.pid {
                    let i = choose|i: int|
                        0 <= i < after.unreadable_pids.len() && after.unreadable_pids[i] == pid;
                    assert(before.unreadable_pids[i] == pid);
                }
            },
        }
        if exists|j: int|
            0 <= j < n && (#[trigger] entries[j]).pid == pid && process_from(entries[j]) is None {
            let j = choose|j: int|
                0 <= j < n && (#[trigger] entries[j]).pid == pid && process_from(entries[j])
                    is None;
            if j < n - 1 {
                assert(0 <= j < n - 1);
            }
        }
    }
}

/// The access of a descriptor is told by the two lowest bits of the first flags that can be read:
/// nothing set is reading, one is writing, two is both, three is neither.
pub proof fn flags_tell_the_access(row: Seq<char>, rows: Seq<Seq<char>>, fdinfo: Seq<char>, flags: nat)
    ensures
        flags_of(seq![]) is None,
        flags_of(seq![row] + rows) == if flags_of_line(row) is Some {
            flags_of_line(row)
        } else {
            flags_of(rows)
        },
        flags_of(lines(fdinfo)) is None ==> access_of(fdinfo) is None,
        flags_of(lines(fdinfo)) == Some(4 * flags) ==> access_of(fdinfo) == Some((true, false)),
        flags_of(lines(fdinfo)) == Some(4 * flags + 1) ==> access_of(fdinfo) == Some((false, true)),
        flags_of(lines(fdinfo)) == Some(4 * flags + 2) ==> access_of(fdinfo) == Some((true, true)),
        flags_of(lines(fdinfo)) == Some(4 * flags + 3) ==> access_of(fdinfo) is None,
{
    let all = seq![row] + rows;
    assert(all[0] == row);
    assert(all.drop_first() =~= rows);
}

/// Flags stand behind `flags:`, in octal, with blanks around them or without.
pub proof fn flags_are_octal(rest: Seq<char>, other: Seq<char>)
    ensures
        flags_of_line("flags:"@ + rest) == unsigned_value(
            trim_end(trim_start(rest)),
            8,
            u32::MAX as nat,
        ),
        flags_of_line(other) is Some ==> other.len() >= 6 && other.take(6) == "flags:"@,
{
    reveal_strlit("flags:");
    let line = "flags:"@ + rest;
    assert(line.subrange(0, 6) =~= "flags:"@);
    assert(line.skip(6) =~= rest);
    if flags_of_line(other) is Some {
        assert(other.take(6) =~= other.subrange(0, 6));
    }
}

/// The mark of a deleted file is taken off the end of a path, and nothing else is.
pub proof fn only_the_mark_is_taken_off(text: Seq<char>, other: Seq<char>)
    ensures
        undeleted(text + " (deleted)"@) == Some(text),
        undeleted(other) matches Some(front) ==> other == front + " (deleted)"@,
{
    reveal_strlit(" (deleted)");
    let mark = " (deleted)"@;
    let marked = text + mark;
    assert(marked.subrange(marked.len() - mark.len(), marked.len() as int) =~= mark);
    assert(marked.take(marked.len() - mark.len()) =~= text);
    if let Some(front) = undeleted(other) {
        assert(other =~= front + mark) by {
            let tail = other.subrange(other.len() - mark.len(), other.len() as int);
            assert(tail == mark);
            assert forall|i: int| 0 <= i < other.len() implies other[i] == (front + mark)[i] by {
                if i >= front.len() {
                    assert(tail[i - front.len()] == mark[i - front.len()]);
                }
            }
        }
    }
}

/// One more descriptor adds itself where it leads to a file or a directory and its access is known;
/// it makes the list incomplete where it could not be read; and otherwise changes nothing.
pub proof fn descriptors_are_listed_one_by_one(
    readings: Seq<Option<DescriptorFilesModel>>,
    last: Option<DescriptorFilesModel>,
)
    ensures
        descriptors_of(seq![], 0).descriptors.len() == 0 && !descriptors_of(seq![], 0).limited,
        ({
            let before = descriptors_of(readings, readings.len());
            let after = descriptors_of(readings.push(last), readings.len() + 1);
            match last {
                None => after.limited && after.descriptors == before.descriptors,
                Some(files) => if files.kind == FileKind::Other {
                    after == before
                } else if files.fdinfo is None || access_of(files.fdinfo->0) is None {
                    after.limited && after.descriptors == before.descriptors
                } else {
                    after.limited == before.limited && after.descriptors == before.descriptors.push(
                        DescriptorModel {
                            path: undeleted_path(files.target),
                            directory: files.kind == FileKind::Directory,
                            read: (access_of(files.fdinfo->0)->0).0,
                            write: (access_of(files.fdinfo->0)->0).1,
                        },
                    )
                },
            }
        }),
{
    let longer = readings.push(last);
    lemma_descriptors_prefix(readings, longer, readings.len());
    assert(longer[readings.len() as int] == last);
}

proof fn lemma_descriptors_prefix(
    a: Seq<Option<DescriptorFilesModel>>,
    b: Seq<Option<DescriptorFilesModel>>,
    n: nat,
)
    requires
        n <= a.len() <= b.len(),
        forall|k: int| 0 <= k < n ==> #[trigger] a[k] == b[k],
    ensures
        descriptors_of(a, n) == descriptors_of(b, n),
    decreases n,
{
    if n > 0 {
        lemma_descriptors_prefix(a, b, (n - 1) as nat);
        assert(a[n - 1] == b[n - 1]);
    }
}

/// Descent goes by parents, through any number of generations: a process of the snapshot other than
/// the root descends from the root exactly where its parent is the root or descends from it, and it
/// is one generation further away than its parent.
pub proof fn descent_goes_by_parents(ps: Seq<ProcessModel>, root: u32, pid: u32)
    ensures
        !descends(ps, root, root),
        process_of(ps, pid) is None ==> !descends(ps, root, pid),
        pid != root && process_of(ps, pid) is Some ==> {
            let parent = process_of(ps, pid)->0.parent_pid;
            &&& descends(ps, root, pid) <==> parent == root || descends(ps, root, parent)
            &&& parent == root ==> depth_of(ps, root, pid) == 1
            &&& descends(ps, root, parent) ==> depth_of(ps, root, pid) == depth_of(ps, root, parent)
                + 1
        },
        descends(ps, root, pid) ==> depth_of(ps, root, pid) >= 1,
{
    if pid != root && process_of(ps, pid) is Some {
        let parent = process_of(ps, pid)->0.parent_pid;
        if parent == root {
            assert(at_depth(ps, root, parent, 0));
            assert(at_depth(ps, root, pid, 1)) by {
                reveal_with_fuel(at_depth, 2);
            }
            lemma_depth_is_unique(ps, root, pid, 1, depth_of(ps, root, pid));
        }
        if descends(ps, root, parent) {
            let d = depth_of(ps, root, parent);
            assert(at_depth(ps, root, pid, d + 1));
            lemma_depth_is_unique(ps, root, pid, d + 1, depth_of(ps, root, pid));
        }
        if descends(ps, root, pid) {
            let d = depth_of(ps, root, pid);
            assert(at_depth(ps, root, parent, (d - 1) as nat));
            if d == 1 {
                assert(parent == root);
            }
        }
    }
}

/// The members of a tree are listed once each, in ascending order.
pub proof fn trees_are_listed_in_order(ps: Seq<ProcessModel>, root: u32, i: int, j: int)
    requires
        ascending::<ProcessInfo>(ps),
        0 <= i < j < tree_pids(ps, root).len(),
    ensures
        tree_pids(ps, root)[i] < tree_pids(ps, root)[j],
{
    lemma_members_in_order(ps, root, ps.len(), i, j);
}

proof fn lemma_members_in_order(ps: Seq<ProcessModel>, root: u32, n: nat, i: int, j: int)
    requires
        ascending::<ProcessInfo>(ps),
        n <= ps.len(),
        0 <= i < j < tree_members(ps, root, n).len(),
    ensures
        tree_members(ps, root, n)[i] < tree_members(ps, root, n)[j],
    decreases n,
{
    let before = tree_members(ps, root, (n - 1) as nat);
    if j < before.len() {
        lemma_members_in_order(ps, root, (n - 1) as nat, i, j);
    } else {
        lemma_member_is_earlier(ps, root, (n - 1) as nat, i);
        let k = choose|k: int| 0 <= k < n - 1 && (#[trigger] ps[k]).pid == before[i];
        assert(crate::order::rank_before(
            <ProcessInfo as crate::table::Keyed>::rank(ps[k]),
            <ProcessInfo as crate::table::Keyed>::rank(ps[n - 1]),
        ));
        lemma_pid_rank(ps[k].pid, ps[n - 1].pid);
    }
}

proof fn lemma_member_is_earlier(ps: Seq<ProcessModel>, root: u32, n: nat, i: int)
    requires
        n <= ps.len(),
        0 <= i < tree_members(ps, root, n).len(),
    ensures
        exists|k: int| 0 <= k < n && (#[trigger] ps[k]).pid == tree_members(ps, root, n)[i],
    decreases n,
{
    let before = tree_members(ps, root, (n - 1) as nat);
    if i < before.len() {
        lemma_member_is_earlier(ps, root, (n - 1) as nat, i);
        let k = choose|k: int| 0 <= k < n - 1 && (#[trigger] ps[k]).pid == before[i];
        assert(0 <= k < n && ps[k].pid == before[i]);
    } else {
        assert(ps[n - 1].pid == tree_members(ps, root, n)[i]);
    }
}

/// What is kept of a process after it was seen again: who it is and where it stands from before, its
/// state and command from now, and every counter from now where it could be read.
pub open spec fn is_brought_up_to_date(
    before: ObservedModel,
    seen: ProcessModel,
    after: ObservedModel,
) -> bool {
    let a = before.info;
    let b = after.info;
    &&& after.depth == before.depth
    &&& b.pid == a.pid
    &&& b.parent_pid == a.parent_pid
    &&& b.state == seen.state
    &&& b.command == seen.command
    &&& b.user_cpu_ticks == (if seen.user_cpu_ticks is Some {
        seen.user_cpu_ticks
    } else {
        a.user_cpu_ticks
    })
    &&& b.system_cpu_ticks == (if seen.system_cpu_ticks is Some {
        seen.system_cpu_ticks
    } else {
        a.system_cpu_ticks
    })
    &&& b.resident_memory_kib == (if seen.resident_memory_kib is Some {
        seen.resident_memory_kib
    } else {
        a.resident_memory_kib
    })
    &&& b.read_storage_bytes == (if seen.read_storage_bytes is Some {
        seen.read_storage_bytes
    } else {
        a.read_storage_bytes
    })
    &&& b.write_storage_bytes == (if seen.write_storage_bytes is Some {
        seen.write_storage_bytes
    } else {
        a.write_storage_bytes
    })
}

/// After a snapshot, every descendant that it shows is known as it was seen: with its depth where it is
/// new, brought up to date where it was known. The root is kept in the same way, and apart from the
/// descendants. Of every process that the snapshot does not show as one of the tree, what was known
/// stays.
pub proof fn snapshots_bring_processes_up_to_date(
    model: ObservationModel,
    boundary: BoundaryModel,
    root_expected_alive: bool,
    pid: u32,
)
    requires
        model.wf(),
        boundary.wf(),
    ensures
        ({
            let ps = boundary.snapshot.processes;
            let root = model.root_pid;
            let end = after_snapshot(model, boundary, root_expected_alive);
            let before = descendant_of(model.descendants, pid);
            let after = descendant_of(end.descendants, pid);
            &&& end.root_pid == root
            &&& !descends(ps, root, pid) ==> after == before
            &&& descends(ps, root, pid) && before is None ==> after == Some(
                ObservedModel {
                    info: process_of(ps, pid)->0,
                    depth: depth_of(ps, root, pid) as u64,
                },
            )
            &&& descends(ps, root, pid) && before is Some ==> after is Some
                && is_brought_up_to_date(before->0, process_of(ps, pid)->0, after->0)
            &&& process_of(ps, root) is None ==> end.primary == model.primary
            &&& process_of(ps, root) is Some && model.primary is None ==> end.primary == Some(
                ObservedModel { info: process_of(ps, root)->0, depth: 0 },
            )
            &&& process_of(ps, root) is Some && model.primary is Some ==> end.primary is Some
                && is_brought_up_to_date(model.primary->0, process_of(ps, root)->0, end.primary->0)
        }),
{
    snapshot_extends_descendants(
        model.descendants,
        boundary.snapshot.processes,
        model.root_pid,
        pid,
    );
}

/// A process is shown with its identifier, that of its parent, and its command, two blanks further in
/// for every level.
pub proof fn processes_are_shown_by_level(process: ObservedModel, depth: nat)
    ensures
        indent(depth).len() == 2 * depth,
        forall|i: int| 0 <= i < 2 * depth ==> #[trigger] indent(depth)[i] == ' ',
        process_line(process, depth) == indent(depth) + "- PID "@ + decimal(process.info.pid as nat)
            + " (parent PID "@ + decimal(process.info.parent_pid as nat) + "): "@
            + process.info.command,
    decreases depth,
{
    reveal_strlit("  ");
    if depth > 0 {
        processes_are_shown_by_level(process, (depth - 1) as nat);
    }
}

/// What was read is taken as it is: the path of the working directory, the entries of the process
/// directory, and the descriptors of a process; and what could not be read is missing.
pub proof fn readings_are_taken_as_they_are(
    path: Option<Vec<u8>>,
    directory: Option<Vec<ProcessFiles>>,
    readings: Seq<Option<DescriptorFiles>>,
    i: int,
)
    ensures
        path_model(path) is None <==> path is None,
        path matches Some(bytes) ==> path_model(path) == Some(bytes@),
        directory_model(directory) is None <==> directory is None,
        directory matches Some(list) ==> directory_model(directory)->0.len() == list@.len() && (0 <= i
            < list@.len() ==> directory_model(directory)->0[i] == list@[i]@),
        reading_models(readings).len() == readings.len(),
        0 <= i < readings.len() && readings[i] is None ==> reading_models(readings)[i] is None,
        0 <= i < readings.len() ==> (readings[i] matches Some(files) ==> reading_models(readings)[i]
            == Some(files@)),
{
}

} // verus!

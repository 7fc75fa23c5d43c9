//! What is kept of a process over several snapshots.

use vstd::prelude::*;

use crate::numbers::{decimal, push_decimal};
use crate::order::Comparison;
use crate::output::ReportText;
use crate::process::{
    are_depths, compare_pids, depth_of, descends, lemma_pid_rank, lemma_process_of, pid_rank,
    process_of, ProcessInfo, ProcessModel,
};
use crate::table::{
    ascending, lemma_lookup_after_placing, lemma_lookup_finds_items, lemma_placed_holds,
    lemma_placed_is_ascending, lemma_placing_after_removal, lookup, placed, Keyed, Table,
};

verus! {

/// A process that was seen in the tree, with its distance from the root when it was first seen.
pub struct ObservedProcess {
    pub info: ProcessInfo,
    pub depth: u64,
}

/// What an [`ObservedProcess`] says.
pub struct ObservedModel {
    pub info: ProcessModel,
    pub depth: u64,
}

impl View for ObservedProcess {
    type V = ObservedModel;

    open spec fn view(&self) -> ObservedModel {
        ObservedModel { info: self.info@, depth: self.depth }
    }
}

impl Keyed for ObservedProcess {
    type Key = u32;

    open spec fn rank(item: ObservedModel) -> Seq<Seq<int>> {
        pid_rank(item.info.pid)
    }

    open spec fn key_rank(key: &u32) -> Seq<Seq<int>> {
        pid_rank(*key)
    }

    fn compare(&self, other: &Self) -> (comparison: Comparison) {
        compare_pids(self.info.pid, other.info.pid)
    }

    fn compare_to_key(&self, key: &u32) -> (comparison: Comparison) {
        compare_pids(self.info.pid, *key)
    }
}

/// The newest known value of a counter.
pub open spec fn newest(known: Option<u64>, seen: Option<u64>) -> Option<u64> {
    if seen is Some {
        seen
    } else {
        known
    }
}

/// What is known of a process after it was seen again: its identity stays, its state and command are
/// those seen, and a counter that could not be read keeps its last value.
pub open spec fn updated(known: ProcessModel, seen: ProcessModel) -> ProcessModel {
    ProcessModel {
        pid: known.pid,
        parent_pid: known.parent_pid,
        state: seen.state,
        command: seen.command,
        user_cpu_ticks: newest(known.user_cpu_ticks, seen.user_cpu_ticks),
        system_cpu_ticks: newest(known.system_cpu_ticks, seen.system_cpu_ticks),
        resident_memory_kib: newest(known.resident_memory_kib, seen.resident_memory_kib),
        read_storage_bytes: newest(known.read_storage_bytes, seen.read_storage_bytes),
        write_storage_bytes: newest(known.write_storage_bytes, seen.write_storage_bytes),
    }
}

/// What is known of a process after it was seen, for the first time or again.
pub open spec fn seen_process(
    known: Option<ObservedModel>,
    seen: ProcessModel,
    depth: u64,
) -> ObservedModel {
    match known {
        Some(process) => ObservedModel {
            info: updated(process.info, seen),
            depth: process.depth,
        },
        None => ObservedModel { info: seen, depth },
    }
}

/// Two spaces for every level.
pub open spec fn indent(depth: nat) -> Seq<char>
    decreases depth,
{
    if depth == 0 {
        seq![]
    } else {
        indent((depth - 1) as nat) + "  "@
    }
}

/// The line of a report that shows a process.
pub open spec fn process_line(process: ObservedModel, depth: nat) -> Seq<char> {
    indent(depth) + "- PID "@ + decimal(process.info.pid as nat) + " (parent PID "@ + decimal(
        process.info.parent_pid as nat,
    ) + "): "@ + process.info.command
}

impl ObservedProcess {
    /// Takes in that the process was seen again.
    pub fn update(&mut self, info: &ProcessInfo)
        ensures
            final(self)@.info == updated(old(self)@.info, info@),
            final(self)@.depth == old(self)@.depth,
    {
        self.info.state = info.state;
        self.info.command = info.command.clone();
        if info.user_cpu_ticks.is_some() {
            self.info.user_cpu_ticks = info.user_cpu_ticks;
        }
        if info.system_cpu_ticks.is_some() {
            self.info.system_cpu_ticks = info.system_cpu_ticks;
        }
        if info.resident_memory_kib.is_some() {
            self.info.resident_memory_kib = info.resident_memory_kib;
        }
        if info.read_storage_bytes.is_some() {
            self.info.read_storage_bytes = info.read_storage_bytes;
        }
        if info.write_storage_bytes.is_some() {
            self.info.write_storage_bytes = info.write_storage_bytes;
        }
    }

    /// Adds the line that shows the process.
    pub fn print(&self, depth: u64, report: &mut ReportText)
        ensures
            final(report)@ == old(report)@.push(process_line(self@, depth as nat)),
    {
        let mut line = String::new();
        assert(line@ =~= indent(0));
        for i in 0..depth
            invariant
                line@ == indent(i as nat),
        {
            line.append("  ");
        }
        line.append("- PID ");
        push_decimal(&mut line, self.info.pid as u64);
        line.append(" (parent PID ");
        push_decimal(&mut line, self.info.parent_pid as u64);
        line.append("): ");
        line.append(self.info.command.as_str());
        report.push(line);
    }
}

/// Known descendants, in ascending order, none of them further from the root than there are process
/// identifiers.
pub open spec fn are_descendants(known: Seq<ObservedModel>) -> bool {
    &&& ascending::<ObservedProcess>(known)
    &&& forall|i: int| 0 <= i < known.len() ==> (#[trigger] known[i]).depth <= 0x1_0000_0000
}

/// The descendant with the given identifier.
pub open spec fn descendant_of(known: Seq<ObservedModel>, pid: u32) -> Option<ObservedModel> {
    lookup::<ObservedProcess>(known, pid_rank(pid))
}

/// The known descendants after the first `n` processes of a snapshot.
pub open spec fn with_descendants(
    known: Seq<ObservedModel>,
    ps: Seq<ProcessModel>,
    root: u32,
    n: nat,
) -> Seq<ObservedModel>
    decreases n,
{
    if n == 0 {
        known
    } else {
        let before = with_descendants(known, ps, root, (n - 1) as nat);
        let info = ps[n - 1];
        if descends(ps, root, info.pid) {
            placed::<ObservedProcess>(
                before,
                seen_process(
                    descendant_of(before, info.pid),
                    info,
                    depth_of(ps, root, info.pid) as u64,
                ),
            )
        } else {
            before
        }
    }
}

/// One more descendant keeps the order and the bound on the depths.
proof fn lemma_one_more(known: Seq<ObservedModel>, info: ProcessModel, depth: u64)
    requires
        are_descendants(known),
        depth <= 0x1_0000_0000,
    ensures
        are_descendants(
            placed::<ObservedProcess>(
                known,
                seen_process(descendant_of(known, info.pid), info, depth),
            ),
        ),
{
    let item = seen_process(descendant_of(known, info.pid), info, depth);
    let after = placed::<ObservedProcess>(known, item);
    lemma_placed_is_ascending::<ObservedProcess>(known, item);
    lemma_placed_holds::<ObservedProcess>(known, item);
    crate::table::lemma_slot_bounds::<ObservedProcess>(known, pid_rank(info.pid));
    assert(item.depth <= 0x1_0000_0000);
    assert forall|i: int| 0 <= i < after.len() implies (#[trigger] after[i]).depth
        <= 0x1_0000_0000 by {
        if after[i] != item {
            assert(known.contains(after[i]));
            let k = choose|k: int| 0 <= k < known.len() && known[k] == after[i];
            assert(known[k].depth <= 0x1_0000_0000);
        }
    }
}

/// Takes in the descendants that a snapshot shows, with their depths.
pub fn merge_descendants(
    known: &mut Table<ObservedProcess>,
    processes: &Table<ProcessInfo>,
    root_pid: u32,
    depths: &Vec<Option<u64>>,
)
    requires
        are_descendants(old(known)@),
        processes.wf(),
        are_depths(processes@, root_pid, depths@),
    ensures
        are_descendants(final(known)@),
        final(known)@ == with_descendants(
            old(known)@,
            processes@,
            root_pid,
            processes@.len(),
        ),
{
    let ghost start = known@;
    let ghost ps = processes@;
    let count: usize = processes.len();
    for i in 0..count
        invariant
            ps == processes@,
            count == ps.len(),
            are_depths(ps, root_pid, depths@),
            are_descendants(known@),
            known@ == with_descendants(start, ps, root_pid, i as nat),
    {
        match depths[i] {
            Some(depth) => {
                let info = processes.at(i);
                let ghost before = known@;
                proof {
                    lemma_one_more(before, info@, depth);
                }
                match known.find(&info.pid) {
                    Some(k) => {
                        let mut process = known.take_at(k);
                        process.update(info);
                        proof {
                            lemma_placing_after_removal::<ObservedProcess>(
                                before,
                                k as int,
                                process@,
                            );
                        }
                        known.place(process);
                    },
                    None => {
                        known.place(ObservedProcess { info: info.duplicate(), depth });
                    },
                }
            },
            None => {},
        }
    }
}

/// After a snapshot, a process that descends from the root is known as it was seen: with its new
/// state, at the distance from the root at which it was first seen. Everything known about any other
/// process stays as it was, so no descendant is ever forgotten.
pub proof fn snapshot_extends_descendants(
    known: Seq<ObservedModel>,
    ps: Seq<ProcessModel>,
    root: u32,
    pid: u32,
)
    requires
        are_descendants(known),
        ascending::<ProcessInfo>(ps),
    ensures
        descendant_of(with_descendants(known, ps, root, ps.len()), pid) == if descends(
            ps,
            root,
            pid,
        ) {
            Some(
                seen_process(
                    descendant_of(known, pid),
                    process_of(ps, pid)->0,
                    depth_of(ps, root, pid) as u64,
                ),
            )
        } else {
            descendant_of(known, pid)
        },
{
    lemma_merged(known, ps, root, pid, ps.len());
    if descends(ps, root, pid) {
        lemma_process_of(ps, pid);
        let p = process_of(ps, pid)->0;
        let i = choose|i: int| 0 <= i < ps.len() && #[trigger] ps[i] == p;
        assert(ps[i].pid == pid);
    }
}

proof fn lemma_merged(
    known: Seq<ObservedModel>,
    ps: Seq<ProcessModel>,
    root: u32,
    pid: u32,
    n: nat,
)
    requires
        ascending::<ObservedProcess>(known),
        ascending::<ProcessInfo>(ps),
        n <= ps.len(),
    ensures
        ascending::<ObservedProcess>(with_descendants(known, ps, root, n)),
        descendant_of(with_descendants(known, ps, root, n), pid) == if descends(ps, root, pid) && (
        exists|i: int| 0 <= i < n && (#[trigger] ps[i]).pid == pid) {
            Some(
                seen_process(
                    descendant_of(known, pid),
                    process_of(ps, pid)->0,
                    depth_of(ps, root, pid) as u64,
                ),
            )
        } else {
            descendant_of(known, pid)
        },
    decreases n,
{
    if n > 0 {
        let before = with_descendants(known, ps, root, (n - 1) as nat);
        let info = ps[n - 1];
        lemma_merged(known, ps, root, pid, (n - 1) as nat);
        lemma_lookup_finds_items::<ProcessInfo>(ps, n - 1);
        lemma_pid_rank(info.pid, pid);
        if descends(ps, root, info.pid) {
            let item = seen_process(
                descendant_of(before, info.pid),
                info,
                depth_of(ps, root, info.pid) as u64,
            );
            if descendant_of(before, info.pid) is Some {
                crate::table::lemma_slot_bounds::<ObservedProcess>(before, pid_rank(info.pid));
                let k = crate::table::slot::<ObservedProcess>(before, pid_rank(info.pid));
                lemma_pid_rank(before[k].info.pid, info.pid);
            }
            assert(item.info.pid == info.pid);
            lemma_placed_is_ascending::<ObservedProcess>(before, item);
            lemma_lookup_after_placing::<ObservedProcess>(before, item, pid_rank(pid));
            if info.pid == pid {
                // An identifier stands only once in a snapshot.
                assert forall|i: int| 0 <= i < n - 1 implies (#[trigger] ps[i]).pid != pid by {
                    crate::order::rank_before_is_total(
                        ProcessInfo::rank(ps[i]),
                        ProcessInfo::rank(ps[n - 1]),
                    );
                    lemma_pid_rank(ps[i].pid, pid);
                }
            }
        }
    }
}

} // verus!

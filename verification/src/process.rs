//! Processes as one snapshot shows them, and the tree below a process.

use vstd::prelude::*;

use crate::order::{lex_before, rank_before, rank_comparison, Comparison};
use crate::table::{
    ascending, lemma_lookup_finds_items, lemma_slot_bounds, lookup, slot, Keyed, Table,
};

verus! {

/// The place of a process identifier in a table.
pub open spec fn pid_rank(pid: u32) -> Seq<Seq<int>> {
    seq![seq![pid as int]]
}

/// Process identifiers are ordered by their value.
pub proof fn lemma_pid_rank(a: u32, b: u32)
    ensures
        rank_before(pid_rank(a), pid_rank(b)) <==> a < b,
        pid_rank(a) == pid_rank(b) <==> a == b,
{
    reveal_with_fuel(rank_before, 2);
    reveal_with_fuel(lex_before, 2);
    let x = pid_rank(a);
    let y = pid_rank(b);
    assert(x[0][0] == a as int && y[0][0] == b as int);
    if a != b {
        assert(x[0] != y[0]);
    }
    assert(x.drop_first() =~= Seq::<Seq<int>>::empty());
    assert(y.drop_first() =~= Seq::<Seq<int>>::empty());
}

/// How one process identifier stands to another.
pub fn compare_pids(a: u32, b: u32) -> (comparison: Comparison)
    ensures
        comparison == rank_comparison(pid_rank(a), pid_rank(b)),
{
    proof {
        lemma_pid_rank(a, b);
    }
    if a == b {
        Comparison::Same
    } else if a < b {
        Comparison::Before
    } else {
        Comparison::After
    }
}

/// One process of a snapshot.
pub struct ProcessInfo {
    pub pid: u32,
    pub parent_pid: u32,
    pub state: char,
    pub command: String,
    pub user_cpu_ticks: Option<u64>,
    pub system_cpu_ticks: Option<u64>,
    pub resident_memory_kib: Option<u64>,
    pub read_storage_bytes: Option<u64>,
    pub write_storage_bytes: Option<u64>,
}

/// What a [`ProcessInfo`] says.
pub struct ProcessModel {
    pub pid: u32,
    pub parent_pid: u32,
    pub state: char,
    pub command: Seq<char>,
    pub user_cpu_ticks: Option<u64>,
    pub system_cpu_ticks: Option<u64>,
    pub resident_memory_kib: Option<u64>,
    pub read_storage_bytes: Option<u64>,
    pub write_storage_bytes: Option<u64>,
}

impl View for ProcessInfo {
    type V = ProcessModel;

    open spec fn view(&self) -> ProcessModel {
        ProcessModel {
            pid: self.pid,
            parent_pid: self.parent_pid,
            state: self.state,
            command: self.command@,
            user_cpu_ticks: self.user_cpu_ticks,
            system_cpu_ticks: self.system_cpu_ticks,
            resident_memory_kib: self.resident_memory_kib,
            read_storage_bytes: self.read_storage_bytes,
            write_storage_bytes: self.write_storage_bytes,
        }
    }
}

impl ProcessModel {
    /// The process is neither a zombie nor dead.
    pub open spec fn is_alive(self) -> bool {
        self.state != 'Z' && self.state != 'X'
    }
}

impl ProcessInfo {
    /// Whether the process is neither a zombie nor dead.
    pub fn is_alive(&self) -> (alive: bool)
        ensures
            alive == self@.is_alive(),
    {
        self.state != 'Z' && self.state != 'X'
    }

    /// A second copy.
    pub fn duplicate(&self) -> (copy: ProcessInfo)
        ensures
            copy@ == self@,
    {
        ProcessInfo {
            pid: self.pid,
            parent_pid: self.parent_pid,
            state: self.state,
            command: self.command.clone(),
            user_cpu_ticks: self.user_cpu_ticks,
            system_cpu_ticks: self.system_cpu_ticks,
            resident_memory_kib: self.resident_memory_kib,
            read_storage_bytes: self.read_storage_bytes,
            write_storage_bytes: self.write_storage_bytes,
        }
    }
}

impl Keyed for ProcessInfo {
    type Key = u32;

    open spec fn rank(item: ProcessModel) -> Seq<Seq<int>> {
        pid_rank(item.pid)
    }

    open spec fn key_rank(key: &u32) -> Seq<Seq<int>> {
        pid_rank(*key)
    }

    fn compare(&self, other: &Self) -> (comparison: Comparison) {
        compare_pids(self.pid, other.pid)
    }

    fn compare_to_key(&self, key: &u32) -> (comparison: Comparison) {
        compare_pids(self.pid, *key)
    }
}

/// The process with the given identifier in a snapshot.
pub open spec fn process_of(ps: Seq<ProcessModel>, pid: u32) -> Option<ProcessModel> {
    lookup::<ProcessInfo>(ps, pid_rank(pid))
}

/// What `process_of` finds carries the identifier and is in the snapshot.
pub proof fn lemma_process_of(ps: Seq<ProcessModel>, pid: u32)
    ensures
        process_of(ps, pid) matches Some(p) ==> p.pid == pid && exists|i: int|
            0 <= i < ps.len() && #[trigger] ps[i] == p,
{
    lemma_slot_bounds::<ProcessInfo>(ps, pid_rank(pid));
    let i = slot::<ProcessInfo>(ps, pid_rank(pid));
    if process_of(ps, pid) is Some {
        lemma_pid_rank(ps[i].pid, pid);
        assert(ps[i] == process_of(ps, pid)->0);
    }
}

/// Following the parents of `pid` leads to `root` after exactly `d` steps.
pub open spec fn at_depth(ps: Seq<ProcessModel>, root: u32, pid: u32, d: nat) -> bool
    decreases d,
{
    if d == 0 {
        pid == root
    } else {
        pid != root && (process_of(ps, pid) matches Some(p) && at_depth(
            ps,
            root,
            p.parent_pid,
            (d - 1) as nat,
        ))
    }
}

/// The process is a proper descendant of `root`.
pub open spec fn descends(ps: Seq<ProcessModel>, root: u32, pid: u32) -> bool {
    exists|d: nat| d > 0 && #[trigger] at_depth(ps, root, pid, d)
}

/// How many generations a descendant is away from `root`.
pub open spec fn depth_of(ps: Seq<ProcessModel>, root: u32, pid: u32) -> nat {
    choose|d: nat| d > 0 && #[trigger] at_depth(ps, root, pid, d)
}

/// A process has one depth at most.
pub proof fn lemma_depth_is_unique(ps: Seq<ProcessModel>, root: u32, pid: u32, d: nat, e: nat)
    requires
        at_depth(ps, root, pid, d),
        at_depth(ps, root, pid, e),
    ensures
        d == e,
    decreases d,
{
    if d > 0 && e > 0 {
        let p = process_of(ps, pid)->0;
        lemma_depth_is_unique(ps, root, p.parent_pid, (d - 1) as nat, (e - 1) as nat);
    }
}

/// A table of processes holds no more of them than there are identifiers.
pub proof fn lemma_process_count(ps: Seq<ProcessModel>, i: int)
    requires
        ascending::<ProcessInfo>(ps),
        0 <= i < ps.len(),
    ensures
        i <= ps[i].pid,
    decreases i,
{
    if i > 0 {
        lemma_process_count(ps, i - 1);
        assert(rank_before(ProcessInfo::rank(ps[i - 1]), ProcessInfo::rank(ps[i])));
        lemma_pid_rank(ps[i - 1].pid, ps[i].pid);
    }
}

/// How many of the depths are unknown.
spec fn unknown(depths: Seq<Option<u64>>) -> nat
    decreases depths.len(),
{
    if depths.len() == 0 {
        0
    } else {
        unknown(depths.drop_last()) + if depths.last() is None {
            1nat
        } else {
            0nat
        }
    }
}

/// Learning one depth leaves one unknown less.
proof fn lemma_unknown_after(depths: Seq<Option<u64>>, i: int, d: u64)
    requires
        0 <= i < depths.len(),
        depths[i] is None,
    ensures
        unknown(depths.update(i, Some(d))) + 1 == unknown(depths),
        unknown(depths) <= depths.len(),
    decreases depths.len(),
{
    let changed = depths.update(i, Some(d));
    if i == depths.len() - 1 {
        assert(changed.drop_last() =~= depths.drop_last());
        lemma_unknown_at_most(depths.drop_last());
    } else {
        assert(changed.drop_last() =~= depths.drop_last().update(i, Some(d)));
        lemma_unknown_after(depths.drop_last(), i, d);
    }
}

proof fn lemma_unknown_at_most(depths: Seq<Option<u64>>)
    ensures
        unknown(depths) <= depths.len(),
    decreases depths.len(),
{
    if depths.len() > 0 {
        lemma_unknown_at_most(depths.drop_last());
    }
}

/// A known depth is the depth of the process.
spec fn depths_are_right(ps: Seq<ProcessModel>, root: u32, depths: Seq<Option<u64>>) -> bool {
    forall|i: int|
        0 <= i < ps.len() ==> (#[trigger] depths[i] matches Some(d) ==> 0 < d <= ps.len() && at_depth(
            ps,
            root,
            ps[i].pid,
            d as nat,
        ))
}

/// The process's parent is the root or has a known depth.
spec fn parent_is_known(ps: Seq<ProcessModel>, root: u32, depths: Seq<Option<u64>>, i: int) -> bool {
    ps[i].parent_pid == root || exists|j: int|
        0 <= j < ps.len() && (#[trigger] depths[j]) is Some && ps[j].pid == ps[i].parent_pid
}

/// The process is the root or its depth is known.
spec fn is_settled(ps: Seq<ProcessModel>, root: u32, depths: Seq<Option<u64>>, i: int) -> bool {
    ps[i].pid == root || depths[i] is Some
}

/// The identifier waits among the parents whose children are still to be visited.
spec fn is_pending(pending: Seq<(u32, u64)>, pid: u32) -> bool {
    exists|k: int| 0 <= k < pending.len() && #[trigger] pending[k].0 == pid
}

/// Where every child of a known parent is settled, every descendant is.
proof fn lemma_all_descendants_are_known(
    ps: Seq<ProcessModel>,
    root: u32,
    depths: Seq<Option<u64>>,
    i: int,
    d: nat,
)
    requires
        ascending::<ProcessInfo>(ps),
        depths.len() == ps.len(),
        0 <= i < ps.len(),
        d > 0,
        at_depth(ps, root, ps[i].pid, d),
        forall|k: int|
            0 <= k < ps.len() && parent_is_known(ps, root, depths, k) ==> #[trigger] is_settled(
                ps,
                root,
                depths,
                k,
            ),
    ensures
        depths[i] is Some,
    decreases d,
{
    lemma_lookup_finds_items::<ProcessInfo>(ps, i);
    assert(process_of(ps, ps[i].pid) == Some(ps[i]));
    let parent = ps[i].parent_pid;
    assert(at_depth(ps, root, parent, (d - 1) as nat));
    if d > 1 {
        lemma_process_of(ps, parent);
        let p = process_of(ps, parent)->0;
        let j = choose|j: int| 0 <= j < ps.len() && #[trigger] ps[j] == p;
        lemma_all_descendants_are_known(ps, root, depths, j, (d - 1) as nat);
        assert(depths[j] is Some);
    }
    assert(parent_is_known(ps, root, depths, i));
    assert(is_settled(ps, root, depths, i));
}

/// The list tells the depth of every descendant of `root`, in the order of the snapshot, and none for
/// the other processes. No depth is greater than the number of process identifiers.
pub open spec fn are_depths(ps: Seq<ProcessModel>, root: u32, depths: Seq<Option<u64>>) -> bool {
    &&& depths.len() == ps.len()
    &&& forall|i: int|
        #![trigger depths[i]]
        0 <= i < depths.len() ==> match depths[i] {
            Some(d) => descends(ps, root, ps[i].pid) && d == depth_of(ps, root, ps[i].pid) && d
                <= 0x1_0000_0000,
            None => !descends(ps, root, ps[i].pid),
        }
}

/// The depth of every descendant of `root_pid`, in the order of the snapshot; `None` for the other
/// processes.
pub fn tree_depths(processes: &Table<ProcessInfo>, root_pid: u32) -> (depths: Vec<Option<u64>>)
    requires
        processes.wf(),
    ensures
        are_depths(processes@, root_pid, depths@),
{
    let ghost ps = processes@;
    let count: usize = processes.len();
    let mut depths: Vec<Option<u64>> = Vec::new();
    for i in 0..count
        invariant
            depths@.len() == i,
            forall|k: int| 0 <= k < i ==> depths@[k] is None,
    {
        depths.push(None);
    }
    let mut pending: Vec<(u32, u64)> = Vec::new();
    pending.push((root_pid, 0));
    proof {
        lemma_unknown_at_most(depths@);
        assert(pending@[0].0 == root_pid);
    }
    while pending.len() > 0
        invariant
            processes.wf(),
            ps == processes@,
            count == ps.len(),
            depths@.len() == ps.len(),
            unknown(depths@) <= ps.len(),
            depths_are_right(ps, root_pid, depths@),
            forall|k: int|
                0 <= k < pending@.len() ==> at_depth(
                    ps,
                    root_pid,
                    (#[trigger] pending@[k]).0,
                    pending@[k].1 as nat,
                ) && pending@[k].1 <= ps.len() - unknown(depths@),
            forall|k: int|
                0 <= k < ps.len() && parent_is_known(ps, root_pid, depths@, k) && !is_pending(
                    pending@,
                    ps[k].parent_pid,
                ) ==> #[trigger] is_settled(ps, root_pid, depths@, k),
        decreases unknown(depths@), pending@.len(),
    {
        let ghost pending_before = pending@;
        let ghost depths_before = depths@;
        let (parent, parent_depth) = pending.pop().unwrap();
        assert(pending_before[pending_before.len() - 1] == (parent, parent_depth));
        assert(forall|k: int| 0 <= k < pending@.len() ==> pending@[k] == pending_before[k]);
        proof {
            assert forall|k: int|
                0 <= k < ps.len() && parent_is_known(ps, root_pid, depths@, k) && !is_pending(
                    pending@,
                    ps[k].parent_pid,
                ) && ps[k].parent_pid != parent implies #[trigger] is_settled(
                ps,
                root_pid,
                depths@,
                k,
            ) by {
                if is_pending(pending_before, ps[k].parent_pid) {
                    let q = choose|q: int|
                        0 <= q < pending_before.len() && #[trigger] pending_before[q].0
                            == ps[k].parent_pid;
                    assert(pending@[q].0 == ps[k].parent_pid);
                }
            }
        }
        for i in 0..count
            invariant
                processes.wf(),
                ps == processes@,
                count == ps.len(),
                depths@.len() == ps.len(),
                unknown(depths@) <= unknown(depths_before) <= ps.len(),
                unknown(depths@) == unknown(depths_before) ==> pending@.len()
                    < pending_before.len(),
                depths_are_right(ps, root_pid, depths@),
                at_depth(ps, root_pid, parent, parent_depth as nat),
                parent_depth <= ps.len() - unknown(depths@),
                forall|k: int|
                    0 <= k < pending@.len() ==> at_depth(
                        ps,
                        root_pid,
                        (#[trigger] pending@[k]).0,
                        pending@[k].1 as nat,
                    ) && pending@[k].1 <= ps.len() - unknown(depths@),
                forall|k: int|
                    0 <= k < ps.len() && parent_is_known(ps, root_pid, depths@, k) && !is_pending(
                        pending@,
                        ps[k].parent_pid,
                    ) && (ps[k].parent_pid != parent || k < i) ==> #[trigger] is_settled(
                        ps,
                        root_pid,
                        depths@,
                        k,
                    ),
        {
            let info = processes.at(i);
            let settled = info.pid == root_pid || depths[i].is_some();
            if info.parent_pid == parent && !settled {
                let ghost depths_then = depths@;
                let ghost pending_then = pending@;
                let pid = info.pid;
                proof {
                    lemma_unknown_after(depths@, i as int, 0);
                    lemma_lookup_finds_items::<ProcessInfo>(ps, i as int);
                }
                let depth: u64 = parent_depth + 1;
                proof {
                    lemma_unknown_after(depths@, i as int, depth);
                    assert(at_depth(ps, root_pid, ps[i as int].pid, depth as nat));
                }
                depths.set(i, Some(depth));
                pending.push((pid, depth));
                proof {
                    assert forall|k: int|
                        0 <= k < ps.len() && parent_is_known(ps, root_pid, depths@, k)
                            && !is_pending(pending@, ps[k].parent_pid) && (ps[k].parent_pid
                            != parent || k < i + 1) implies #[trigger] is_settled(
                        ps,
                        root_pid,
                        depths@,
                        k,
                    ) by {
                        assert(pending@[pending@.len() - 1].0 == pid);
                        assert(ps[k].parent_pid != pid);
                        if is_pending(pending_then, ps[k].parent_pid) {
                            let q = choose|q: int|
                                0 <= q < pending_then.len() && #[trigger] pending_then[q].0
                                    == ps[k].parent_pid;
                            assert(pending@[q].0 == ps[k].parent_pid);
                        }
                        if ps[k].parent_pid != root_pid {
                            let j = choose|j: int|
                                0 <= j < ps.len() && (#[trigger] depths@[j]) is Some && ps[j].pid
                                    == ps[k].parent_pid;
                            assert(j != i);
                            assert(depths_then[j] is Some);
                        }
                        assert(parent_is_known(ps, root_pid, depths_then, k));
                        if k != i {
                            assert(is_settled(ps, root_pid, depths_then, k));
                        }
                    }
                }
            } else {
                assert(ps[i as int].parent_pid == parent ==> is_settled(
                    ps,
                    root_pid,
                    depths@,
                    i as int,
                ));
            }
        }
    }
    proof {
        assert forall|i: int| 0 <= i < depths@.len() implies match #[trigger] depths@[i] {
            Some(d) => descends(ps, root_pid, ps[i].pid) && d == depth_of(ps, root_pid, ps[i].pid)
                && d <= 0x1_0000_0000,
            None => !descends(ps, root_pid, ps[i].pid),
        } by {
            assert forall|k: int|
                0 <= k < ps.len() && parent_is_known(
                    ps,
                    root_pid,
                    depths@,
                    k,
                ) implies #[trigger] is_settled(ps, root_pid, depths@, k) by {
                assert(!is_pending(pending@, ps[k].parent_pid));
            }
            if descends(ps, root_pid, ps[i].pid) {
                let d = depth_of(ps, root_pid, ps[i].pid);
                lemma_all_descendants_are_known(ps, root_pid, depths@, i, d);
                lemma_depth_is_unique(
                    ps,
                    root_pid,
                    ps[i].pid,
                    d,
                    (depths@[i]->0) as nat,
                );
            }
            if depths@[i] is Some {
                assert(at_depth(ps, root_pid, ps[i].pid, (depths@[i]->0) as nat));
                lemma_process_count(ps, ps.len() - 1);
            }
        }
    }
    depths
}

/// The process belongs to the tree of `root`.
pub open spec fn in_tree(ps: Seq<ProcessModel>, root: u32, pid: u32) -> bool {
    pid == root || descends(ps, root, pid)
}

/// The identifiers of those of the first `n` processes that belong to the tree of `root`.
pub open spec fn tree_members(ps: Seq<ProcessModel>, root: u32, n: nat) -> Seq<u32>
    decreases n,
{
    if n == 0 {
        seq![]
    } else {
        let before = tree_members(ps, root, (n - 1) as nat);
        let pid = ps[n - 1].pid;
        if in_tree(ps, root, pid) {
            before.push(pid)
        } else {
            before
        }
    }
}

/// The tree of `root`, in ascending order; empty where the snapshot does not show the root.
pub open spec fn tree_pids(ps: Seq<ProcessModel>, root: u32) -> Seq<u32> {
    if process_of(ps, root) is Some {
        tree_members(ps, root, ps.len())
    } else {
        seq![]
    }
}

/// The tree of `root_pid`, in ascending order, from the depths of its processes.
pub fn current_tree(
    processes: &Table<ProcessInfo>,
    root_pid: u32,
    depths: &Vec<Option<u64>>,
) -> (tree: Vec<u32>)
    requires
        processes.wf(),
        are_depths(processes@, root_pid, depths@),
    ensures
        tree@ == tree_pids(processes@, root_pid),
{
    let mut tree: Vec<u32> = Vec::new();
    if processes.get(&root_pid).is_none() {
        return tree;
    }
    let count: usize = processes.len();
    for i in 0..count
        invariant
            count == processes@.len(),
            are_depths(processes@, root_pid, depths@),
            tree@ == tree_members(processes@, root_pid, i as nat),
    {
        let pid: u32 = processes.at(i).pid;
        if pid == root_pid || depths[i].is_some() {
            tree.push(pid);
        }
    }
    tree
}

/// The tree holds exactly the processes of the snapshot that are the root or descend from it, and
/// none where the snapshot does not show the root.
pub proof fn tree_holds_root_and_descendants(ps: Seq<ProcessModel>, root: u32, pid: u32)
    requires
        ascending::<ProcessInfo>(ps),
    ensures
        tree_pids(ps, root).contains(pid) <==> process_of(ps, root) is Some && process_of(ps, pid)
            is Some && in_tree(ps, root, pid),
{
    lemma_tree_members(ps, root, ps.len(), pid);
    lemma_process_of(ps, pid);
    if exists|i: int| 0 <= i < ps.len() && (#[trigger] ps[i]).pid == pid {
        let i = choose|i: int| 0 <= i < ps.len() && (#[trigger] ps[i]).pid == pid;
        lemma_lookup_finds_items::<ProcessInfo>(ps, i);
    }
}

proof fn lemma_tree_members(ps: Seq<ProcessModel>, root: u32, n: nat, pid: u32)
    requires
        n <= ps.len(),
    ensures
        tree_members(ps, root, n).contains(pid) <==> in_tree(ps, root, pid) && exists|i: int|
            0 <= i < n && (#[trigger] ps[i]).pid == pid,
    decreases n,
{
    if n > 0 {
        let before = tree_members(ps, root, (n - 1) as nat);
        let last = ps[n - 1].pid;
        lemma_tree_members(ps, root, (n - 1) as nat, pid);
        if in_tree(ps, root, last) {
            let after = before.push(last);
            assert(after[after.len() - 1] == last);
            if before.contains(pid) {
                let k = choose|k: int| 0 <= k < before.len() && before[k] == pid;
                assert(after[k] == pid);
            }
            if after.contains(pid) && pid != last {
                let k = choose|k: int| 0 <= k < after.len() && after[k] == pid;
                assert(before[k] == pid);
            }
        }
    }
}

} // verus!

//! What the totals of a report are: sums over every process, and the greatest of them.

use vstd::prelude::*;

use crate::boundary::BoundaryModel;
use crate::filesystem::{after_io, are_counters, FilesystemModel, ProcessIo};
use crate::numbers::{sum_of, total_of};
use crate::observation::{
    after_snapshot, all_ticks, cpu_millis, memory_of, tree_memory, ObservationModel,
};
use crate::observed::ObservedModel;
use crate::process::{lemma_pid_rank, pid_rank, process_of, tree_pids, ProcessModel};
use crate::table::{lemma_lookup_after_placing, lemma_slot_bounds, lookup, slot};

verus! {

/// The sum of known counters is what one gets by adding them one after the other.
proof fn lemma_sum_is_fold(counters: Seq<Option<u64>>, start: int)
    ensures
        start + sum_of(counters) == counters.fold_left(
            start,
            |sum: int, c: Option<u64>| sum + (if c is Some { c->0 as int } else { 0 }),
        ),
    decreases counters.len(),
{
    reveal(Seq::fold_left);
    if counters.len() > 0 {
        lemma_sum_is_fold(counters.drop_last(), start);
    }
}

/// A total of counters is there exactly where every counter is known and their sum fits, and it is
/// that sum.
pub proof fn totals_add_every_counter(counters: Seq<Option<u64>>)
    ensures
        ({
            let sum = counters.fold_left(
                0int,
                |sum: int, c: Option<u64>| sum + (if c is Some { c->0 as int } else { 0 }),
            );
            let known = forall|i: int| 0 <= i < counters.len() ==> (#[trigger] counters[i]) is Some;
            &&& total_of(counters) is Some <==> known && sum <= u64::MAX
            &&& total_of(counters) matches Some(total) ==> total == sum
        }),
{
    lemma_sum_is_fold(counters, 0);
}

/// Raising one counter raises the sum by as much.
proof fn lemma_sum_after_raise(counters: Seq<Option<u64>>, i: int, n: u64)
    requires
        0 <= i < counters.len(),
        counters[i] is Some,
    ensures
        sum_of(counters.update(i, Some(n))) == sum_of(counters) - counters[i]->0 + n,
    decreases counters.len(),
{
    let changed = counters.update(i, Some(n));
    if i == counters.len() - 1 {
        assert(changed.drop_last() =~= counters.drop_last());
    } else {
        assert(changed.drop_last() =~= counters.drop_last().update(i, Some(n)));
        lemma_sum_after_raise(counters.drop_last(), i, n);
    }
}

/// A single counter is no greater than the sum.
proof fn lemma_counter_within_sum(counters: Seq<Option<u64>>, i: int)
    requires
        0 <= i < counters.len(),
        counters[i] is Some,
    ensures
        counters[i]->0 <= sum_of(counters),
    decreases counters.len(),
{
    if i < counters.len() - 1 {
        lemma_counter_within_sum(counters.drop_last(), i);
    }
}

/// The user or the system counter of a process.
pub open spec fn own_ticks(info: ProcessModel, user: bool) -> Option<u64> {
    if user {
        info.user_cpu_ticks
    } else {
        info.system_cpu_ticks
    }
}

/// The counters of the primary process and of every descendant, at whatever depth, added up.
pub open spec fn ticks_of_all(primary: ObservedModel, descendants: Seq<ObservedModel>, user: bool) -> int {
    descendants.fold_left(
        own_ticks(primary.info, user)->0 as int,
        |sum: int, d: ObservedModel| sum + own_ticks(d.info, user)->0,
    )
}

proof fn lemma_ticks_sum(primary: ObservedModel, descendants: Seq<ObservedModel>, user: bool)
    requires
        own_ticks(primary.info, user) is Some,
        forall|i: int|
            0 <= i < descendants.len() ==> own_ticks((#[trigger] descendants[i]).info, user)
                is Some,
    ensures
        sum_of(
            seq![own_ticks(primary.info, user)] + descendants.map_values(
                |d: ObservedModel| own_ticks(d.info, user),
            ),
        ) == ticks_of_all(primary, descendants, user),
    decreases descendants.len(),
{
    reveal(Seq::fold_left);
    let first = seq![own_ticks(primary.info, user)];
    let rest = descendants.map_values(|d: ObservedModel| own_ticks(d.info, user));
    let all = first + rest;
    if descendants.len() == 0 {
        assert(all =~= first);
        assert(first.drop_last() =~= Seq::<Option<u64>>::empty());
        assert(sum_of(first.drop_last()) == 0);
    } else {
        let front = descendants.drop_last();
        lemma_ticks_sum(primary, front, user);
        assert(all.drop_last() =~= first + front.map_values(
            |d: ObservedModel| own_ticks(d.info, user),
        ));
        assert(own_ticks(descendants[descendants.len() - 1].info, user) is Some);
    }
}

/// The processor time of a tree counts the primary process and every descendant, each with its own
/// counter: it is their sum, turned into whole milliseconds. It is missing exactly where a counter of
/// one of them is missing, the clock is not known, or a number does not fit.
pub proof fn processor_time_counts_every_process(
    model: ObservationModel,
    user: bool,
    ticks_per_second: Option<u64>,
)
    ensures
        ({
            let primary = model.primary->0;
            let known = model.primary is Some && own_ticks(primary.info, user) is Some && forall|
                i: int,
            |
                0 <= i < model.descendants.len() ==> own_ticks(
                    (#[trigger] model.descendants[i]).info,
                    user,
                ) is Some;
            let sum = ticks_of_all(primary, model.descendants, user);
            match cpu_millis(model, user, ticks_per_second) {
                Some(millis) => known && ticks_per_second is Some && sum <= u64::MAX && millis
                    * ticks_per_second->0 <= sum * 1_000 && sum * 1_000 < (millis + 1)
                    * ticks_per_second->0,
                None => !known || ticks_per_second is None || ticks_per_second->0 == 0 || sum
                    > u64::MAX || sum * 1_000 >= (u64::MAX + 1) * ticks_per_second->0,
            }
        }),
{
    let all = all_ticks(model, user);
    let known = model.primary is Some && own_ticks(model.primary->0.info, user) is Some && forall|
        i: int,
    |
        0 <= i < model.descendants.len() ==> own_ticks((#[trigger] model.descendants[i]).info, user)
            is Some;
    if model.primary is Some {
        let primary = model.primary->0;
        assert(all =~= seq![own_ticks(primary.info, user)] + model.descendants.map_values(
            |d: ObservedModel| own_ticks(d.info, user),
        ));
        if known {
            lemma_ticks_sum(primary, model.descendants, user);
            assert forall|i: int| 0 <= i < all.len() implies (#[trigger] all[i]) is Some by {
                if i > 0 {
                    assert(own_ticks(model.descendants[i - 1].info, user) is Some);
                }
            }
        } else {
            assert(total_of(all) is None) by {
                if own_ticks(primary.info, user) is None {
                    assert(all[0] is None);
                } else {
                    let i = choose|i: int|
                        0 <= i < model.descendants.len() && own_ticks(
                            (#[trigger] model.descendants[i]).info,
                            user,
                        ) is None;
                    assert(all[i + 1] is None);
                }
            }
        }
        if known && ticks_per_second is Some && ticks_per_second->0 > 0 {
            let sum = sum_of(all) as int;
            let rate = ticks_per_second->0 as int;
            let q = (sum * 1_000) / rate;
            assert(q * rate <= sum * 1_000 < (q + 1) * rate) by (nonlinear_arith)
                requires
                    rate > 0,
                    sum >= 0,
                    q == (sum * 1_000) / rate,
            ;
            if q > u64::MAX {
                assert(sum * 1_000 >= (u64::MAX + 1) * rate) by (nonlinear_arith)
                    requires
                        q * rate <= sum * 1_000,
                        q >= u64::MAX + 1,
                        rate > 0,
                ;
            }
        }
    }
}

/// Where one descendant used more processor time, by `more` ticks, the time of the whole tree is
/// longer by just as much, however deep the descendant stands in the tree.
pub proof fn every_descendant_adds_its_own_time(
    model: ObservationModel,
    user: bool,
    i: int,
    busier: ObservedModel,
    more: u64,
)
    requires
        0 <= i < model.descendants.len(),
        own_ticks(model.descendants[i].info, user) is Some,
        own_ticks(busier.info, user) is Some,
        own_ticks(busier.info, user)->0 == own_ticks(model.descendants[i].info, user)->0 + more,
    ensures
        ({
            let after = ObservationModel {
                descendants: model.descendants.update(i, busier),
                ..model
            };
            match (cpu_millis(model, user, Some(1_000)), cpu_millis(after, user, Some(1_000))) {
                (Some(before), Some(later)) => later == before + more,
                (Some(before), None) => before + more > u64::MAX,
                (None, later) => later is None,
            }
        }),
{
    let after = ObservationModel { descendants: model.descendants.update(i, busier), ..model };
    let x = all_ticks(model, user);
    let y = all_ticks(after, user);
    if model.primary is Some {
        assert(y =~= x.update(i + 1, own_ticks(busier.info, user)));
        lemma_sum_after_raise(x, i + 1, own_ticks(busier.info, user)->0);
        if total_of(x) is None {
            if exists|k: int| 0 <= k < x.len() && (#[trigger] x[k]) is None {
                let k = choose|k: int| 0 <= k < x.len() && (#[trigger] x[k]) is None;
                assert(y[k] is None);
            }
        } else {
            assert forall|k: int| 0 <= k < y.len() implies (#[trigger] y[k]) is Some by {
                assert(x[k] is Some);
            }
        }
    }
}

/// The bytes of every process, from its first known counter to its latest, added up.
pub open spec fn bytes_of_all(io: Seq<ProcessIo>, read: bool) -> int {
    io.fold_left(
        0int,
        |sum: int, p: ProcessIo|
            sum + if read {
                p.latest_read->0 - p.initial_read->0
            } else {
                p.latest_write->0 - p.initial_write->0
            },
    )
}

/// Both counters of a process are known and have not gone back.
pub open spec fn is_counted(p: ProcessIo, read: bool) -> bool {
    if read {
        p.initial_read is Some && p.latest_read is Some && p.initial_read->0 <= p.latest_read->0
    } else {
        p.initial_write is Some && p.latest_write is Some && p.initial_write->0
            <= p.latest_write->0
    }
}

proof fn lemma_bytes_sum(io: Seq<ProcessIo>, read: bool)
    requires
        forall|i: int| 0 <= i < io.len() ==> is_counted(#[trigger] io[i], read),
    ensures
        sum_of(io.map_values(|p: ProcessIo| p.bytes_since(read))) == bytes_of_all(io, read),
    decreases io.len(),
{
    reveal(Seq::fold_left);
    let all = io.map_values(|p: ProcessIo| p.bytes_since(read));
    if io.len() > 0 {
        let front = io.drop_last();
        assert forall|i: int| 0 <= i < front.len() implies is_counted(#[trigger] front[i], read) by {
            assert(front[i] == io[i]);
        }
        lemma_bytes_sum(front, read);
        assert(all.drop_last() =~= front.map_values(|p: ProcessIo| p.bytes_since(read)));
        assert(is_counted(io[io.len() - 1], read));
    }
}

/// A byte total counts every process, each from its first known counter to its latest. It is missing
/// exactly where a counter of one of them is missing or has gone back, or the sum does not fit.
pub proof fn byte_totals_count_every_process(model: FilesystemModel, read: bool)
    ensures
        ({
            let known = forall|i: int|
                0 <= i < model.io.len() ==> is_counted(#[trigger] model.io[i], read);
            let sum = bytes_of_all(model.io, read);
            match model.aggregate_bytes(read) {
                Some(total) => known && total == sum,
                None => !known || sum > u64::MAX,
            }
        }),
{
    let all = model.io.map_values(|p: ProcessIo| p.bytes_since(read));
    if forall|i: int| 0 <= i < model.io.len() ==> is_counted(#[trigger] model.io[i], read) {
        lemma_bytes_sum(model.io, read);
        assert forall|i: int| 0 <= i < all.len() implies (#[trigger] all[i]) is Some by {
            assert(is_counted(model.io[i], read));
        }
    } else {
        let i = choose|i: int| 0 <= i < model.io.len() && !is_counted(#[trigger] model.io[i], read);
        assert(all[i] is None);
    }
}

/// A byte total is no smaller than the bytes of a single process, and one more process that moved
/// some bytes raises it by just these.
pub proof fn every_process_adds_its_own_bytes(
    model: FilesystemModel,
    read: bool,
    i: int,
    another: ProcessIo,
)
    requires
        0 <= i < model.io.len(),
    ensures
        model.aggregate_bytes(read) matches Some(total) ==> is_counted(model.io[i], read) && total
            >= (if read {
            model.io[i].latest_read->0 - model.io[i].initial_read->0
        } else {
            model.io[i].latest_write->0 - model.io[i].initial_write->0
        }),
        ({
            let after = FilesystemModel { io: model.io.push(another), ..model };
            let bytes = if read {
                another.latest_read->0 - another.initial_read->0
            } else {
                another.latest_write->0 - another.initial_write->0
            };
            match (model.aggregate_bytes(read), after.aggregate_bytes(read)) {
                (Some(before), Some(later)) => is_counted(another, read) && later == before + bytes,
                (Some(before), None) => !is_counted(another, read) || before + bytes > u64::MAX,
                (None, later) => later is None,
            }
        }),
{
    let all = model.io.map_values(|p: ProcessIo| p.bytes_since(read));
    let after = FilesystemModel { io: model.io.push(another), ..model };
    let more = after.io.map_values(|p: ProcessIo| p.bytes_since(read));
    assert(more.drop_last() =~= all);
    assert(more.last() == another.bytes_since(read));
    if model.aggregate_bytes(read) is Some {
        assert(all[i] is Some);
        lemma_counter_within_sum(all, i);
        if is_counted(another, read) {
            assert forall|k: int| 0 <= k < more.len() implies (#[trigger] more[k]) is Some by {
                if k < all.len() {
                    assert(all[k] is Some);
                }
            }
        } else {
            assert(more[all.len() as int] is None);
        }
    } else if exists|k: int| 0 <= k < all.len() && (#[trigger] all[k]) is None {
        let k = choose|k: int| 0 <= k < all.len() && (#[trigger] all[k]) is None;
        assert(more[k] is None);
    }
}

/// Of a process, the counters with which it was first seen are kept as the first ones; the latest are
/// those of the last sighting that could read them. Other processes are not touched.
pub proof fn counters_run_from_first_to_last(
    model: FilesystemModel,
    pid: u32,
    info: ProcessModel,
    other: u32,
)
    requires
        are_counters(model.io),
    ensures
        ({
            let before = lookup::<ProcessIo>(model.io, pid_rank(pid));
            let after = lookup::<ProcessIo>(after_io(model, pid, info).io, pid_rank(pid));
            &&& after matches Some(io) && io.pid == pid && (before is None ==> io.initial_read
                == info.read_storage_bytes && io.initial_write == info.write_storage_bytes
                && io.latest_read == info.read_storage_bytes && io.latest_write
                == info.write_storage_bytes) && (before is Some ==> io.initial_read
                == before->0.initial_read && io.initial_write == before->0.initial_write
                && io.latest_read == (if info.read_storage_bytes is Some {
                info.read_storage_bytes
            } else {
                before->0.latest_read
            }) && io.latest_write == (if info.write_storage_bytes is Some {
                info.write_storage_bytes
            } else {
                before->0.latest_write
            }))
        }),
        other != pid ==> lookup::<ProcessIo>(after_io(model, pid, info).io, pid_rank(other))
            == lookup::<ProcessIo>(model.io, pid_rank(other)),
        after_io(model, pid, info).paths == model.paths,
        after_io(model, pid, info).directories == model.directories,
{
    let known = lookup::<ProcessIo>(model.io, pid_rank(pid));
    let item = crate::filesystem::seen_io(known, pid, info);
    if known is Some {
        lemma_slot_bounds::<ProcessIo>(model.io, pid_rank(pid));
        let k = slot::<ProcessIo>(model.io, pid_rank(pid));
        lemma_pid_rank(model.io[k].pid, pid);
    }
    lemma_pid_rank(pid, other);
    lemma_lookup_after_placing::<ProcessIo>(model.io, item, pid_rank(pid));
    lemma_lookup_after_placing::<ProcessIo>(model.io, item, pid_rank(other));
}

/// The memory of the processes of a tree, as a snapshot shows it, added up.
pub open spec fn memory_of_all(ps: Seq<ProcessModel>, pids: Seq<u32>) -> int {
    pids.fold_left(0int, |sum: int, pid: u32| sum + process_of(ps, pid)->0.resident_memory_kib->0)
}

/// The snapshot shows the memory of every one of the processes.
pub open spec fn memory_is_known(ps: Seq<ProcessModel>, pids: Seq<u32>) -> bool {
    forall|i: int|
        0 <= i < pids.len() ==> (process_of(ps, #[trigger] pids[i]) matches Some(info)
            && info.resident_memory_kib is Some)
}

proof fn lemma_memory_sum(ps: Seq<ProcessModel>, pids: Seq<u32>)
    requires
        memory_is_known(ps, pids),
    ensures
        sum_of(pids.map_values(|pid: u32| memory_of(ps, pid))) == memory_of_all(ps, pids),
    decreases pids.len(),
{
    reveal(Seq::fold_left);
    let all = pids.map_values(|pid: u32| memory_of(ps, pid));
    if pids.len() > 0 {
        let front = pids.drop_last();
        assert(memory_is_known(ps, front)) by {
            assert forall|i: int| 0 <= i < front.len() implies (process_of(
                ps,
                #[trigger] front[i],
            ) matches Some(info) && info.resident_memory_kib is Some) by {
                assert(front[i] == pids[i]);
            }
        }
        lemma_memory_sum(ps, front);
        assert(all.drop_last() =~= front.map_values(|pid: u32| memory_of(ps, pid)));
        assert(process_of(ps, pids[pids.len() - 1]) is Some);
    }
}

/// The memory of a tree counts every one of its processes; it is missing exactly where that of one of
/// them is missing or the sum does not fit.
pub proof fn tree_memory_counts_every_process(ps: Seq<ProcessModel>, pids: Seq<u32>)
    ensures
        match tree_memory(ps, pids) {
            Some(total) => memory_is_known(ps, pids) && total == memory_of_all(ps, pids),
            None => !memory_is_known(ps, pids) || memory_of_all(ps, pids) > u64::MAX,
        },
{
    let all = pids.map_values(|pid: u32| memory_of(ps, pid));
    if memory_is_known(ps, pids) {
        lemma_memory_sum(ps, pids);
        assert forall|i: int| 0 <= i < all.len() implies (#[trigger] all[i]) is Some by {
            assert(process_of(ps, pids[i]) is Some);
        }
    } else {
        let i = choose|i: int|
            0 <= i < pids.len() && !(process_of(ps, #[trigger] pids[i]) matches Some(info)
                && info.resident_memory_kib is Some);
        assert(all[i] is None);
    }
}

/// The tree of a snapshot was shown with all of its memory, and with this much.
pub open spec fn shows_memory(root: u32, boundary: BoundaryModel, total: u64) -> bool {
    let ps = boundary.snapshot.processes;
    let pids = tree_pids(ps, root);
    pids.len() > 0 && memory_is_known(ps, pids) && memory_of_all(ps, pids) == total
}

/// After a snapshot the peak of the memory is the greater of the peak before and of the memory that
/// the snapshot shows of the tree, and nothing else: never more than was seen.
pub proof fn peak_memory_is_one_that_was_seen(
    model: ObservationModel,
    boundary: BoundaryModel,
    root_expected_alive: bool,
    total: u64,
)
    ensures
        ({
            let before = model.peak_resident_memory_kib;
            let after = after_snapshot(
                model,
                boundary,
                root_expected_alive,
            ).peak_resident_memory_kib;
            &&& after == before || (after is Some && shows_memory(
                model.root_pid,
                boundary,
                after->0,
            ))
            &&& shows_memory(model.root_pid, boundary, total) ==> after is Some && after->0
                >= total && (before is None ==> after == Some(total)) && (before is Some
                && before->0 >= total ==> after == before) && (before is Some && before->0 < total
                ==> after == Some(total))
        }),
{
    let ps = boundary.snapshot.processes;
    tree_memory_counts_every_process(ps, tree_pids(ps, model.root_pid));
}

/// The observation after a history of snapshots.
pub open spec fn after_history(
    model: ObservationModel,
    history: Seq<(BoundaryModel, bool)>,
) -> ObservationModel
    decreases history.len(),
{
    if history.len() == 0 {
        model
    } else {
        after_snapshot(
            after_history(model, history.drop_last()),
            history.last().0,
            history.last().1,
        )
    }
}

/// Over any history, the peak of the memory is the memory of one of the snapshots, and no snapshot
/// showed more.
pub proof fn peak_memory_is_the_greatest_of_all(
    model: ObservationModel,
    history: Seq<(BoundaryModel, bool)>,
    i: int,
    total: u64,
)
    requires
        model.peak_resident_memory_kib is None,
    ensures
        ({
            let end = after_history(model, history);
            &&& end.root_pid == model.root_pid
            &&& end.peak_resident_memory_kib matches Some(peak) ==> exists|k: int|
                0 <= k < history.len() && shows_memory(
                    model.root_pid,
                    (#[trigger] history[k]).0,
                    peak,
                )
            &&& 0 <= i < history.len() && shows_memory(model.root_pid, history[i].0, total)
                ==> end.peak_resident_memory_kib is Some && end.peak_resident_memory_kib->0 >= total
        }),
    decreases history.len(),
{
    if history.len() > 0 {
        let front = history.drop_last();
        let middle = after_history(model, front);
        peak_memory_is_the_greatest_of_all(model, front, i, total);
        peak_memory_is_one_that_was_seen(middle, history.last().0, history.last().1, total);
        let end = after_history(model, history);
        if i < history.len() - 1 && i >= 0 {
            assert(front[i] == history[i]);
        }
        if let Some(peak) = end.peak_resident_memory_kib {
            if end.peak_resident_memory_kib == middle.peak_resident_memory_kib {
                let k = choose|k: int|
                    0 <= k < front.len() && shows_memory(
                        model.root_pid,
                        (#[trigger] front[k]).0,
                        peak,
                    );
                assert(history[k] == front[k]);
                assert(shows_memory(model.root_pid, history[k].0, peak));
            } else {
                assert(history[history.len() - 1] == history.last());
                assert(shows_memory(model.root_pid, history[history.len() - 1].0, peak));
            }
        }
        if 0 <= i < history.len() && shows_memory(model.root_pid, history[i].0, total) {
            if i < history.len() - 1 {
                if middle.peak_resident_memory_kib != end.peak_resident_memory_kib {
                    let peak = end.peak_resident_memory_kib->0;
                    peak_memory_is_one_that_was_seen(
                        middle,
                        history.last().0,
                        history.last().1,
                        peak,
                    );
                }
            }
        }
    }
}

} // verus!

//! What the system shows of its processes at one moment.

use vstd::prelude::*;

use crate::order::Comparison;
use crate::process::{compare_pids, pid_rank, ProcessInfo, ProcessModel};
use crate::sockets::{SocketEntry, SocketEntryModel};
use crate::table::{ascending, lookup, placed, Keyed, Table};

verus! {

/// The processes of the system at one moment.
pub struct ProcessSnapshot {
    pub processes: Table<ProcessInfo>,
    pub available: bool,
    pub unreadable_pids: Vec<u32>,
}

/// What a [`ProcessSnapshot`] says.
pub struct SnapshotModel {
    pub processes: Seq<ProcessModel>,
    pub available: bool,
    pub unreadable_pids: Seq<u32>,
}

impl View for ProcessSnapshot {
    type V = SnapshotModel;

    open spec fn view(&self) -> SnapshotModel {
        SnapshotModel {
            processes: self.processes@,
            available: self.available,
            unreadable_pids: self.unreadable_pids@,
        }
    }
}

impl ProcessSnapshot {
    /// The processes stand in ascending order of their identifiers.
    pub open spec fn wf(&self) -> bool {
        self.processes.wf()
    }

    /// Whether a process could not be read.
    pub fn is_unreadable(&self, pid: u32) -> (unreadable: bool)
        ensures
            unreadable == self@.unreadable_pids.contains(pid),
    {
        for i in 0..self.unreadable_pids.len()
            invariant
                forall|k: int| 0 <= k < i ==> self.unreadable_pids@[k] != pid,
        {
            if self.unreadable_pids[i] == pid {
                assert(self.unreadable_pids@[i as int] == pid);
                return true;
            }
        }
        false
    }
}

/// An open file or directory of a process.
pub struct FileDescriptor {
    pub path: Vec<u8>,
    pub directory: bool,
    pub read: bool,
    pub write: bool,
}

/// What a [`FileDescriptor`] says.
pub struct DescriptorModel {
    pub path: Seq<u8>,
    pub directory: bool,
    pub read: bool,
    pub write: bool,
}

impl View for FileDescriptor {
    type V = DescriptorModel;

    open spec fn view(&self) -> DescriptorModel {
        DescriptorModel {
            path: self.path@,
            directory: self.directory,
            read: self.read,
            write: self.write,
        }
    }
}

/// The contents of a list of descriptors.
pub open spec fn descriptor_models(list: Seq<FileDescriptor>) -> Seq<DescriptorModel> {
    list.map_values(|d: FileDescriptor| d@)
}

/// The open files and directories of a process.
pub struct FileDescriptorSnapshot {
    pub descriptors: Vec<FileDescriptor>,
    pub limited: bool,
}

/// What a [`FileDescriptorSnapshot`] says.
pub struct DescriptorsModel {
    pub descriptors: Seq<DescriptorModel>,
    pub limited: bool,
}

impl View for FileDescriptorSnapshot {
    type V = DescriptorsModel;

    open spec fn view(&self) -> DescriptorsModel {
        DescriptorsModel {
            descriptors: descriptor_models(self.descriptors@),
            limited: self.limited,
        }
    }
}

/// The sockets of a process, and those that its system knows.
pub struct NetworkSnapshot {
    pub inodes: Vec<u64>,
    pub sockets: Table<SocketEntry>,
    pub limited: bool,
}

/// What a [`NetworkSnapshot`] says.
pub struct NetworkModel {
    pub inodes: Seq<u64>,
    pub sockets: Seq<SocketEntryModel>,
    pub limited: bool,
}

impl View for NetworkSnapshot {
    type V = NetworkModel;

    open spec fn view(&self) -> NetworkModel {
        NetworkModel { inodes: self.inodes@, sockets: self.sockets@, limited: self.limited }
    }
}

impl NetworkSnapshot {
    /// The sockets stand in ascending order of their inodes.
    pub open spec fn wf(&self) -> bool {
        self.sockets.wf()
    }
}

/// The descriptors that were read of a process.
pub struct ProcessDescriptors {
    pub pid: u32,
    pub snapshot: FileDescriptorSnapshot,
}

/// What a [`ProcessDescriptors`] says.
pub struct ProcessDescriptorsModel {
    pub pid: u32,
    pub snapshot: DescriptorsModel,
}

impl View for ProcessDescriptors {
    type V = ProcessDescriptorsModel;

    open spec fn view(&self) -> ProcessDescriptorsModel {
        ProcessDescriptorsModel { pid: self.pid, snapshot: self.snapshot@ }
    }
}

impl Keyed for ProcessDescriptors {
    type Key = u32;

    open spec fn rank(item: ProcessDescriptorsModel) -> Seq<Seq<int>> {
        pid_rank(item.pid)
    }

    open spec fn key_rank(key: &u32) -> Seq<Seq<int>> {
        pid_rank(*key)
    }

    fn compare(&self, other: &Self) -> (comparison: Comparison) {
        compare_pids(self.pid, other.pid)
    }

    fn compare_to_key(&self, key: &u32) -> (comparison: Comparison) {
        compare_pids(self.pid, *key)
    }
}

/// The sockets that were read of a process.
pub struct ProcessNetwork {
    pub pid: u32,
    pub snapshot: NetworkSnapshot,
}

/// What a [`ProcessNetwork`] says.
pub struct ProcessNetworkModel {
    pub pid: u32,
    pub snapshot: NetworkModel,
}

impl View for ProcessNetwork {
    type V = ProcessNetworkModel;

    open spec fn view(&self) -> ProcessNetworkModel {
        ProcessNetworkModel { pid: self.pid, snapshot: self.snapshot@ }
    }
}

impl Keyed for ProcessNetwork {
    type Key = u32;

    open spec fn rank(item: ProcessNetworkModel) -> Seq<Seq<int>> {
        pid_rank(item.pid)
    }

    open spec fn key_rank(key: &u32) -> Seq<Seq<int>> {
        pid_rank(*key)
    }

    fn compare(&self, other: &Self) -> (comparison: Comparison) {
        compare_pids(self.pid, other.pid)
    }

    fn compare_to_key(&self, key: &u32) -> (comparison: Comparison) {
        compare_pids(self.pid, *key)
    }
}

/// Everything that was read of the system for one observation.
pub struct ObservationBoundary {
    snapshot: ProcessSnapshot,
    descriptors: Table<ProcessDescriptors>,
    networks: Table<ProcessNetwork>,
}

/// What an [`ObservationBoundary`] says.
pub struct BoundaryModel {
    pub snapshot: SnapshotModel,
    pub descriptors: Seq<ProcessDescriptorsModel>,
    pub networks: Seq<ProcessNetworkModel>,
}

impl View for ObservationBoundary {
    type V = BoundaryModel;

    closed spec fn view(&self) -> BoundaryModel {
        BoundaryModel {
            snapshot: self.snapshot@,
            descriptors: self.descriptors@,
            networks: self.networks@,
        }
    }
}

impl BoundaryModel {
    /// The descriptors of a process; none where they could not be read.
    pub open spec fn descriptors_of(self, pid: u32) -> Option<DescriptorsModel> {
        match lookup::<ProcessDescriptors>(self.descriptors, pid_rank(pid)) {
            Some(entry) => Some(entry.snapshot),
            None => None,
        }
    }

    /// The sockets of a process; none where they could not be read.
    pub open spec fn network_of(self, pid: u32) -> Option<NetworkModel> {
        match lookup::<ProcessNetwork>(self.networks, pid_rank(pid)) {
            Some(entry) => Some(entry.snapshot),
            None => None,
        }
    }

    /// Everything stands in ascending order.
    pub open spec fn wf(self) -> bool {
        &&& ascending::<ProcessInfo>(self.snapshot.processes)
        &&& ascending::<ProcessDescriptors>(self.descriptors)
        &&& ascending::<ProcessNetwork>(self.networks)
        &&& forall|i: int|
            0 <= i < self.networks.len() ==> ascending::<SocketEntry>(
                (#[trigger] self.networks[i]).snapshot.sockets,
            )
    }
}

/// A list of networks stays in order when one is placed in it.
proof fn lemma_networks_stay_sorted(s: Seq<ProcessNetworkModel>, item: ProcessNetworkModel)
    requires
        ascending::<ProcessNetwork>(s),
        forall|i: int| 0 <= i < s.len() ==> ascending::<SocketEntry>((#[trigger] s[i]).snapshot.sockets),
        ascending::<SocketEntry>(item.snapshot.sockets),
    ensures
        ({
            let t = placed::<ProcessNetwork>(s, item);
            forall|i: int|
                0 <= i < t.len() ==> ascending::<SocketEntry>(
                    (#[trigger] t[i]).snapshot.sockets,
                )
        }),
{
    let t = placed::<ProcessNetwork>(s, item);
    crate::table::lemma_placed_holds::<ProcessNetwork>(s, item);
    assert forall|i: int| 0 <= i < t.len() implies ascending::<SocketEntry>(
        (#[trigger] t[i]).snapshot.sockets,
    ) by {
        if t[i] != item {
            assert(s.contains(t[i]));
            let k = choose|k: int| 0 <= k < s.len() && s[k] == t[i];
            assert(ascending::<SocketEntry>(s[k].snapshot.sockets));
        }
    }
}

impl ObservationBoundary {
    /// A boundary that shows processes, and nothing of any of them yet.
    pub fn new(snapshot: ProcessSnapshot) -> (boundary: Self)
        requires
            snapshot.wf(),
        ensures
            boundary@.wf(),
            boundary@ == (BoundaryModel {
                snapshot: snapshot@,
                descriptors: seq![],
                networks: seq![],
            }),
    {
        ObservationBoundary { snapshot, descriptors: Table::new(), networks: Table::new() }
    }

    /// Adds the descriptors of a process.
    pub fn add_file_descriptors(&mut self, pid: u32, snapshot: FileDescriptorSnapshot)
        requires
            old(self)@.wf(),
        ensures
            final(self)@.wf(),
            final(self)@ == (BoundaryModel {
                descriptors: placed::<ProcessDescriptors>(
                    old(self)@.descriptors,
                    ProcessDescriptorsModel { pid, snapshot: snapshot@ },
                ),
                ..old(self)@
            }),
    {
        self.descriptors.place(ProcessDescriptors { pid, snapshot });
    }

    /// Adds the sockets of a process.
    pub fn add_network_snapshot(&mut self, pid: u32, snapshot: NetworkSnapshot)
        requires
            old(self)@.wf(),
            snapshot.wf(),
        ensures
            final(self)@.wf(),
            final(self)@ == (BoundaryModel {
                networks: placed::<ProcessNetwork>(
                    old(self)@.networks,
                    ProcessNetworkModel { pid, snapshot: snapshot@ },
                ),
                ..old(self)@
            }),
    {
        proof {
            lemma_networks_stay_sorted(
                self.networks@,
                ProcessNetworkModel { pid, snapshot: snapshot@ },
            );
        }
        self.networks.place(ProcessNetwork { pid, snapshot });
    }

    /// The processes.
    pub fn process_snapshot(&self) -> (snapshot: &ProcessSnapshot)
        ensures
            snapshot@ == self@.snapshot,
    {
        &self.snapshot
    }

    /// The descriptors of a process; none where they could not be read.
    pub fn file_descriptors(&self, pid: u32) -> (snapshot: Option<&FileDescriptorSnapshot>)
        requires
            self@.wf(),
        ensures
            match snapshot {
                Some(found) => self@.descriptors_of(pid) == Some(found@),
                None => self@.descriptors_of(pid) is None,
            },
    {
        match self.descriptors.get(&pid) {
            Some(entry) => Some(&entry.snapshot),
            None => None,
        }
    }

    /// The sockets of a process; none where they could not be read.
    pub fn network_snapshot(&self, pid: u32) -> (snapshot: Option<&NetworkSnapshot>)
        requires
            self@.wf(),
        ensures
            match snapshot {
                Some(found) => self@.network_of(pid) == Some(found@) && found.wf(),
                None => self@.network_of(pid) is None,
            },
    {
        match self.networks.find(&pid) {
            Some(i) => {
                let ghost at = self@.networks[i as int];
                assert(ascending::<SocketEntry>(at.snapshot.sockets));
                Some(&self.networks.at(i).snapshot)
            },
            None => None,
        }
    }
}

} // verus!

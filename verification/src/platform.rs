//! Reading what the kernel tells about the descriptors and the sockets of a process.

use vstd::prelude::*;
use vstd::utf8::encode_utf8;

use crate::boundary::{
    descriptor_models, DescriptorModel, DescriptorsModel, FileDescriptor, FileDescriptorSnapshot,
    NetworkSnapshot,
};
use crate::numbers::{parse_unsigned, unsigned_value};
use crate::scanning::{lines, split_lines, trim_end, trim_start, trimmed};
use crate::sockets::{
    contents_of, inodes_of, link_models, misses_link, read_network_sockets, read_socket_inodes,
    sockets_of, SocketTables,
};
use crate::text::{
    begins_with, chars_of, decode_lossy, ends_in, nested, slice_of, string_of, utf8_lossy,
};

verus! {

/// A number of up to sixty-four bits in decimal.
pub open spec fn number_of(s: Seq<char>) -> Option<u64> {
    match unsigned_value(s, 10, u64::MAX as nat) {
        Some(n) => Some(n as u64),
        None => None,
    }
}

/// Reads a number of up to sixty-four bits in decimal.
pub fn parse_number(s: &[char]) -> (n: Option<u64>)
    ensures
        n == number_of(s@),
{
    parse_unsigned(s, 10, u64::MAX)
}

/// The process identifier that a name in the process directory stands for.
pub open spec fn pid_of(name: Seq<char>) -> Option<u32> {
    match unsigned_value(name, 10, u32::MAX as nat) {
        Some(n) => Some(n as u32),
        None => None,
    }
}

/// Reads a name in the process directory.
pub fn parse_pid(name: &str) -> (pid: Option<u32>)
    ensures
        pid == pid_of(name@),
{
    match parse_unsigned(chars_of(name).as_slice(), 10, u32::MAX as u64) {
        Some(n) => Some(n as u32),
        None => None,
    }
}

/// The open flags that a line of a descriptor's information file tells.
pub open spec fn flags_of_line(line: Seq<char>) -> Option<nat> {
    let front = "flags:"@;
    if front.is_prefix_of(line) {
        unsigned_value(trim_end(trim_start(line.skip(front.len() as int))), 8, u32::MAX as nat)
    } else {
        None
    }
}

/// The open flags that the first line to tell any tells.
pub open spec fn flags_of(rows: Seq<Seq<char>>) -> Option<nat>
    decreases rows.len(),
{
    if rows.len() == 0 {
        None
    } else {
        match flags_of_line(rows[0]) {
            Some(flags) => Some(flags),
            None => flags_of(rows.drop_first()),
        }
    }
}

/// Whether a descriptor can be read and whether it can be written, as its open flags tell.
pub open spec fn access_of(fdinfo: Seq<char>) -> Option<(bool, bool)> {
    match flags_of(lines(fdinfo)) {
        Some(flags) => if flags % 4 == 0 {
            Some((true, false))
        } else if flags % 4 == 1 {
            Some((false, true))
        } else if flags % 4 == 2 {
            Some((true, true))
        } else {
            None
        },
        None => None,
    }
}

/// Reads the open flags in a line.
fn parse_flags_line(line: &[char]) -> (flags: Option<u64>)
    ensures
        flags matches Some(f) ==> flags_of_line(line@) == Some(f as nat),
        flags is None ==> flags_of_line(line@) is None,
{
    if begins_with(line, "flags:") {
        let front: usize = chars_of("flags:").len();
        let rest = slice_of(line, front, line.len());
        assert(rest@ =~= line@.skip(front as int));
        let value = trimmed(rest.as_slice());
        parse_unsigned(value.as_slice(), 8, u32::MAX as u64)
    } else {
        None
    }
}

/// Reads from the information file of a descriptor whether it can be read and whether it can be
/// written.
pub fn read_fd_access(fdinfo: &str) -> (access: Option<(bool, bool)>)
    ensures
        access == access_of(fdinfo@),
{
    let chars = chars_of(fdinfo);
    let rows = split_lines(chars.as_slice());
    let ghost all = lines(fdinfo@);
    assert(all.skip(0) =~= all);
    for i in 0..rows.len()
        invariant
            all == lines(fdinfo@),
            nested(rows@) == all,
            rows@.len() == all.len(),
            flags_of(all) == flags_of(all.skip(i as int)),
    {
        assert(all[i as int] == rows@[i as int]@);
        assert(all.skip(i as int).drop_first() =~= all.skip(i + 1));
        if let Some(flags) = parse_flags_line(rows[i].as_slice()) {
            let mode: u64 = flags % 4;
            return if mode == 0 {
                Some((true, false))
            } else if mode == 1 {
                Some((false, true))
            } else if mode == 2 {
                Some((true, true))
            } else {
                None
            };
        }
    }
    assert(all.skip(rows@.len() as int).len() == 0);
    None
}

/// The text before the mark of a deleted file.
pub open spec fn undeleted(text: Seq<char>) -> Option<Seq<char>> {
    let mark = " (deleted)"@;
    if mark.is_suffix_of(text) {
        Some(text.take(text.len() - mark.len()))
    } else {
        None
    }
}

/// Takes the mark of a deleted file off a text.
pub fn strip_deleted(text: &str) -> (stripped: Option<String>)
    ensures
        match stripped {
            Some(s) => undeleted(text@) == Some(s@),
            None => undeleted(text@) is None,
        },
{
    let chars = chars_of(text);
    if ends_in(chars.as_slice(), " (deleted)") {
        let mark: usize = chars_of(" (deleted)").len();
        let front = slice_of(chars.as_slice(), 0, chars.len() - mark);
        assert(front@ =~= text@.take(text@.len() - mark));
        Some(string_of(front.as_slice()))
    } else {
        None
    }
}

/// A path without the mark of a deleted file.
pub open spec fn undeleted_path(path: Seq<u8>) -> Seq<u8> {
    match undeleted(utf8_lossy(path)) {
        Some(text) => encode_utf8(text),
        None => path,
    }
}

/// Takes the mark of a deleted file off a path.
pub fn path_without_deleted_suffix(path: &[u8]) -> (clean: Vec<u8>)
    ensures
        clean@ == undeleted_path(path@),
{
    let text = decode_lossy(path);
    match strip_deleted(text.as_str()) {
        Some(stripped) => {
            let bytes = stripped.as_str().as_bytes();
            let clean = slice_of(bytes, 0, bytes.len());
            assert(clean@ =~= bytes@);
            clean
        },
        None => {
            let clean = slice_of(path, 0, path.len());
            assert(clean@ =~= path@);
            clean
        },
    }
}

/// What a descriptor leads to.
#[derive(Clone, Copy, PartialEq, Eq, Structural)]
pub enum FileKind {
    File,
    Directory,
    Other,
}

/// What was read of a descriptor: where it leads, to what, and the text of its information file.
pub struct DescriptorFiles {
    pub target: Vec<u8>,
    pub kind: FileKind,
    pub fdinfo: Option<String>,
}

/// What a [`DescriptorFiles`] says.
pub struct DescriptorFilesModel {
    pub target: Seq<u8>,
    pub kind: FileKind,
    pub fdinfo: Option<Seq<char>>,
}

impl View for DescriptorFiles {
    type V = DescriptorFilesModel;

    open spec fn view(&self) -> DescriptorFilesModel {
        DescriptorFilesModel {
            target: self.target@,
            kind: self.kind,
            fdinfo: contents_of(self.fdinfo),
        }
    }
}

/// The contents of a list of descriptor readings; one that could not be made has none.
pub open spec fn reading_models(list: Seq<Option<DescriptorFiles>>) -> Seq<
    Option<DescriptorFilesModel>,
> {
    list.map_values(
        |reading: Option<DescriptorFiles>|
            match reading {
                Some(files) => Some(files@),
                None => None,
            },
    )
}

/// What the first `n` readings of descriptors come to: the files and directories among them, and
/// whether one of them could not be read.
pub open spec fn descriptors_of(readings: Seq<Option<DescriptorFilesModel>>, n: nat) -> DescriptorsModel
    decreases n,
{
    if n == 0 {
        DescriptorsModel { descriptors: seq![], limited: false }
    } else {
        let before = descriptors_of(readings, (n - 1) as nat);
        match readings[n - 1] {
            Some(files) => if files.kind == FileKind::Other {
                before
            } else {
                let access = match files.fdinfo {
                    Some(text) => access_of(text),
                    None => None,
                };
                match access {
                    Some((read, write)) => DescriptorsModel {
                        descriptors: before.descriptors.push(
                            DescriptorModel {
                                path: undeleted_path(files.target),
                                directory: files.kind == FileKind::Directory,
                                read,
                                write,
                            },
                        ),
                        ..before
                    },
                    None => DescriptorsModel { limited: true, ..before },
                }
            },
            None => DescriptorsModel { limited: true, ..before },
        }
    }
}

/// Turns what was read of the descriptors of a process into its open files and directories.
pub fn file_descriptors(readings: &Vec<Option<DescriptorFiles>>) -> (snapshot:
    FileDescriptorSnapshot)
    ensures
        snapshot@ == descriptors_of(reading_models(readings@), readings@.len()),
{
    let mut descriptors: Vec<FileDescriptor> = Vec::new();
    let mut limited = false;
    let ghost all = reading_models(readings@);
    assert(descriptor_models(descriptors@) =~= Seq::<DescriptorModel>::empty());
    for i in 0..readings.len()
        invariant
            all == reading_models(readings@),
            descriptor_models(descriptors@) == descriptors_of(all, i as nat).descriptors,
            limited == descriptors_of(all, i as nat).limited,
    {
        let ghost before = descriptor_models(descriptors@);
        match &readings[i] {
            Some(files) => {
                assert(all[i as int] == Some(files@));
                if files.kind != FileKind::Other {
                    let access = match &files.fdinfo {
                        Some(text) => read_fd_access(text.as_str()),
                        None => None,
                    };
                    match access {
                        Some((read, write)) => {
                            let descriptor = FileDescriptor {
                                path: path_without_deleted_suffix(files.target.as_slice()),
                                directory: files.kind == FileKind::Directory,
                                read,
                                write,
                            };
                            let ghost shown = descriptor@;
                            descriptors.push(descriptor);
                            assert(descriptor_models(descriptors@) =~= before.push(shown));
                        },
                        None => {
                            limited = true;
                        },
                    }
                }
            },
            None => {
                assert(all[i as int] is None);
                limited = true;
            },
        }
    }
    FileDescriptorSnapshot { descriptors, limited }
}

/// Puts together the sockets of a process from the links of its descriptors and its socket tables;
/// without either there is no answer.
pub fn network_snapshot(links: &Option<Vec<Option<Vec<u8>>>>, tables: &SocketTables) -> (snapshot:
    Option<NetworkSnapshot>)
    ensures
        snapshot is Some <==> links is Some && sockets_of(*tables).read_any,
        snapshot matches Some(s) ==> {
            let all = link_models(links->0@);
            let reading = sockets_of(*tables);
            &&& s.wf()
            &&& s@.inodes == inodes_of(all, all.len())
            &&& s@.sockets == reading.sockets
            &&& s@.limited == (misses_link(all) || reading.limited)
        },
{
    match links {
        Some(list) => {
            let (inodes, inode_limited) = read_socket_inodes(list);
            match read_network_sockets(tables) {
                Some((sockets, socket_limited)) => Some(
                    NetworkSnapshot { inodes, sockets, limited: inode_limited || socket_limited },
                ),
                None => None,
            }
        },
        None => None,
    }
}

} // verus!

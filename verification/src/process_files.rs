//! Reading processes from the files that the kernel keeps about them.

use vstd::prelude::*;

use crate::boundary::{ProcessSnapshot, SnapshotModel};
use crate::formatting::{
    is_one_line, join, joined, sanitize_process_text, sanitized, shown_text_stays_on_one_line,
};
use crate::numbers::{parse_unsigned, unsigned_value};
use crate::platform::{number_of, parse_number};
use crate::process::{ProcessInfo, ProcessModel};
use crate::scanning::{
    find_from, find_last_pair, last_pair, length_until, lines, split_lines, split_words, words,
};
use crate::sockets::contents_of;
use crate::table::{placed, Table};
use crate::text::{chars_of, decode_lossy, is_word, nested, slice_of, string_of, texts, utf8_lossy};

verus! {

/// What the status line of a process tells beside its name.
pub struct StatFields {
    pub state: char,
    pub parent_pid: u32,
    pub user_cpu_ticks: Option<u64>,
    pub system_cpu_ticks: Option<u64>,
}

/// The number in field `i`, if there is such a field and it holds a number.
pub open spec fn field_number(fields: Seq<Seq<char>>, i: int) -> Option<u64> {
    if i < fields.len() {
        number_of(fields[i])
    } else {
        None
    }
}

/// The fields of a status line: the name of the process stands between the first opening bracket
/// and the last closing one before a blank, and its state and its parent are the first two words
/// after that.
pub open spec fn stat_fields(stat: Seq<char>) -> Option<StatFields> {
    match last_pair(stat, ')', ' ') {
        Some(end) => {
            let fields = words(stat.skip(end + 2));
            if length_until(stat, '(') < stat.len() && fields.len() > 1 && fields[0].len() > 0 {
                match unsigned_value(fields[1], 10, u32::MAX as nat) {
                    Some(parent) => Some(
                        StatFields {
                            state: fields[0][0],
                            parent_pid: parent as u32,
                            user_cpu_ticks: field_number(fields, 11),
                            system_cpu_ticks: field_number(fields, 12),
                        },
                    ),
                    None => None,
                }
            } else {
                None
            }
        },
        None => None,
    }
}

/// Where the status line has fields, the name in it does not end before it starts.
pub open spec fn name_is_in_order(stat: Seq<char>) -> bool {
    stat_fields(stat) is Some ==> length_until(stat, '(') + 1 <= last_pair(stat, ')', ' ')->0
}

/// The name of a process in its status line.
pub open spec fn stat_name(stat: Seq<char>) -> Seq<char> {
    stat.subrange(length_until(stat, '(') as int + 1, last_pair(stat, ')', ' ')->0)
}

/// Reads the number in field `i`.
fn parse_field(fields: &Vec<Vec<char>>, i: usize) -> (n: Option<u64>)
    ensures
        n == field_number(nested(fields@), i as int),
{
    if i < fields.len() {
        assert(nested(fields@)[i as int] == fields@[i as int]@);
        parse_number(fields[i].as_slice())
    } else {
        None
    }
}

/// Reads the fields of a status line, and where the brackets around the name stand.
fn parse_stat_fields(text: &[char]) -> (parsed: Option<(StatFields, usize, usize)>)
    ensures
        match parsed {
            Some((fields, open, end)) => stat_fields(text@) == Some(fields) && open == length_until(
                text@,
                '(',
            ) && open < text@.len() && last_pair(text@, ')', ' ') == Some(end as int) && end
                <= text@.len(),
            None => stat_fields(text@) is None,
        },
{
    let end: usize = match find_last_pair(text, ')', ' ') {
        Some(end) => end,
        None => {
            return None;
        },
    };
    let open = find_from(text, 0, '(');
    assert(text@.skip(0) =~= text@);
    if open == text.len() {
        return None;
    }
    let rest = slice_of(text, end + 2, text.len());
    assert(rest@ =~= text@.skip(end + 2));
    let fields = split_words(rest.as_slice());
    assert(nested(fields@).len() == fields@.len());
    if fields.len() < 2 {
        return None;
    }
    assert(nested(fields@)[0] == fields@[0]@);
    assert(nested(fields@)[1] == fields@[1]@);
    if fields[0].len() == 0 {
        return None;
    }
    match parse_unsigned(fields[1].as_slice(), 10, u32::MAX as u64) {
        Some(parent) => {
            let parsed = StatFields {
                state: fields[0][0],
                parent_pid: parent as u32,
                user_cpu_ticks: parse_field(&fields, 11),
                system_cpu_ticks: parse_field(&fields, 12),
            };
            Some((parsed, open, end))
        },
        None => None,
    }
}

/// Whether the name in a status line does not end before it starts.
pub fn has_name_in_order(stat: &str) -> (in_order: bool)
    ensures
        in_order == name_is_in_order(stat@),
{
    let chars = chars_of(stat);
    match parse_stat_fields(chars.as_slice()) {
        Some((_, open, end)) => open < end,
        None => true,
    }
}

/// Reads the status line of a process: its fields, and its name.
pub fn parse_stat(stat: &str) -> (parsed: Option<(StatFields, String)>)
    requires
        name_is_in_order(stat@),
    ensures
        match parsed {
            Some((fields, name)) => stat_fields(stat@) == Some(fields) && name@ == stat_name(stat@),
            None => stat_fields(stat@) is None,
        },
{
    let chars = chars_of(stat);
    let text = chars.as_slice();
    match parse_stat_fields(text) {
        Some((fields, open, end)) => {
            let name = slice_of(text, open + 1, end);
            Some((fields, string_of(name.as_slice())))
        },
        None => None,
    }
}

/// How many bytes stand before the first zero.
pub open spec fn argument_length(bytes: Seq<u8>) -> nat
    decreases bytes.len(),
{
    if bytes.len() == 0 || bytes[0] == 0 {
        0
    } else {
        1 + argument_length(bytes.drop_first())
    }
}

/// An argument is no longer than the bytes it stands in.
pub proof fn lemma_argument_fits(bytes: Seq<u8>)
    ensures
        argument_length(bytes) <= bytes.len(),
    decreases bytes.len(),
{
    if bytes.len() > 0 && bytes[0] != 0 {
        lemma_argument_fits(bytes.drop_first());
    }
}

/// Where the first zero stands, counted by `argument_length`.
proof fn lemma_argument_length(bytes: Seq<u8>, n: int)
    requires
        0 <= n <= bytes.len(),
        forall|k: int| 0 <= k < n ==> #[trigger] bytes[k] != 0,
        n == bytes.len() || bytes[n] == 0,
    ensures
        argument_length(bytes) == n,
    decreases n,
{
    if n > 0 {
        assert(bytes[0] != 0);
        let t = bytes.drop_first();
        assert forall|k: int| 0 <= k < n - 1 implies #[trigger] t[k] != 0 by {
            assert(t[k] == bytes[k + 1]);
        }
        lemma_argument_length(t, n - 1);
    }
}

/// The arguments of a process: the longest runs without a zero byte, in order.
pub open spec fn arguments_of(bytes: Seq<u8>) -> Seq<Seq<u8>>
    decreases bytes.len(),
{
    if bytes.len() == 0 {
        seq![]
    } else if bytes[0] == 0 {
        arguments_of(bytes.drop_first())
    } else {
        proof {
            lemma_argument_fits(bytes);
        }
        seq![bytes.take(argument_length(bytes) as int)] + arguments_of(
            bytes.skip(argument_length(bytes) as int),
        )
    }
}

/// Cuts the argument file of a process into its arguments.
pub fn split_arguments(bytes: &[u8]) -> (arguments: Vec<Vec<u8>>)
    ensures
        nested(arguments@) == arguments_of(bytes@),
{
    let mut arguments: Vec<Vec<u8>> = Vec::new();
    let mut i: usize = 0;
    assert(bytes@.skip(0) =~= bytes@);
    assert(nested(arguments@) =~= Seq::<Seq<u8>>::empty());
    while i < bytes.len()
        invariant
            i <= bytes@.len(),
            arguments_of(bytes@) =~= nested(arguments@) + arguments_of(bytes@.skip(i as int)),
        decreases bytes@.len() - i,
    {
        let ghost rest = bytes@.skip(i as int);
        if bytes[i] == 0 {
            assert(rest.drop_first() =~= bytes@.skip(i + 1));
            i += 1;
        } else {
            let mut j: usize = i;
            while j < bytes.len() && bytes[j] != 0
                invariant
                    i <= j <= bytes@.len(),
                    i < bytes@.len(),
                    forall|k: int| i <= k < j ==> #[trigger] bytes@[k] != 0,
                decreases bytes@.len() - j,
            {
                j += 1;
            }
            proof {
                lemma_argument_length(rest, j - i);
                assert(rest.take(j - i) =~= bytes@.subrange(i as int, j as int));
                assert(rest.skip(j - i) =~= bytes@.skip(j as int));
            }
            let ghost before = nested(arguments@);
            arguments.push(slice_of(bytes, i, j));
            assert(nested(arguments@) =~= before.push(bytes@.subrange(i as int, j as int)));
            i = j;
        }
    }
    assert(bytes@.skip(i as int) =~= Seq::<u8>::empty());
    arguments
}

/// The command that a list of arguments makes, if it is not empty.
pub open spec fn command_of(arguments: Seq<Seq<char>>) -> Option<Seq<char>> {
    let command = joined(arguments.map_values(|a: Seq<char>| sanitized(a)), " "@);
    if command.len() == 0 {
        None
    } else {
        Some(command)
    }
}

/// Makes a command of the texts of its arguments.
pub fn command_from_arguments(arguments: &Vec<String>) -> (command: Option<String>)
    ensures
        match command {
            Some(c) => command_of(texts(arguments@)) == Some(c@),
            None => command_of(texts(arguments@)) is None,
        },
{
    let mut parts: Vec<String> = Vec::new();
    let ghost all = texts(arguments@).map_values(|a: Seq<char>| sanitized(a));
    for i in 0..arguments.len()
        invariant
            all == texts(arguments@).map_values(|a: Seq<char>| sanitized(a)),
            texts(parts@) =~= all.take(i as int),
    {
        let ghost before = texts(parts@);
        let part = sanitize_process_text(arguments[i].as_str());
        assert(texts(arguments@)[i as int] == arguments@[i as int]@);
        assert(part@ == all[i as int]);
        parts.push(part);
        assert(texts(parts@) =~= before.push(all[i as int]));
        assert(all.take(i + 1) =~= all.take(i as int).push(all[i as int]));
    }
    assert(all.take(arguments@.len() as int) =~= all);
    let command = join(&parts, " ");
    if command.as_str().is_empty() {
        None
    } else {
        Some(command)
    }
}

/// The command that the argument file of a process tells.
pub open spec fn command_line_of(bytes: Seq<u8>) -> Option<Seq<char>> {
    command_of(arguments_of(bytes).map_values(|a: Seq<u8>| utf8_lossy(a)))
}

/// Reads the argument file of a process.
pub fn read_command_line(bytes: &[u8]) -> (command: Option<String>)
    ensures
        match command {
            Some(c) => command_line_of(bytes@) == Some(c@),
            None => command_line_of(bytes@) is None,
        },
{
    let arguments = split_arguments(bytes);
    let mut decoded: Vec<String> = Vec::new();
    let ghost all = arguments_of(bytes@).map_values(|a: Seq<u8>| utf8_lossy(a));
    assert(nested(arguments@).len() == arguments@.len());
    for i in 0..arguments.len()
        invariant
            all == arguments_of(bytes@).map_values(|a: Seq<u8>| utf8_lossy(a)),
            nested(arguments@) == arguments_of(bytes@),
            texts(decoded@) =~= all.take(i as int),
    {
        let ghost before = texts(decoded@);
        let text = decode_lossy(arguments[i].as_slice());
        assert(nested(arguments@)[i as int] == arguments@[i as int]@);
        assert(text@ == all[i as int]);
        decoded.push(text);
        assert(texts(decoded@) =~= before.push(all[i as int]));
        assert(all.take(i + 1) =~= all.take(i as int).push(all[i as int]));
    }
    assert(all.take(arguments@.len() as int) =~= all);
    command_from_arguments(&decoded)
}

/// What the first `n` lines of the storage file of a process tell: bytes read and bytes written.
pub open spec fn io_of(rows: Seq<Seq<char>>, n: nat) -> (Option<u64>, Option<u64>)
    decreases n,
{
    if n == 0 {
        (None, None)
    } else {
        let before = io_of(rows, (n - 1) as nat);
        let fields = words(rows[n - 1]);
        if fields.len() > 0 && fields[0] == "read_bytes:"@ {
            (field_number(fields, 1), before.1)
        } else if fields.len() > 0 && fields[0] == "write_bytes:"@ {
            (before.0, field_number(fields, 1))
        } else {
            before
        }
    }
}

/// What the storage file of a process tells; nothing where it could not be read.
pub open spec fn process_io_of(io: Option<Seq<char>>) -> (Option<u64>, Option<u64>) {
    match io {
        Some(text) => io_of(lines(text), lines(text).len()),
        None => (None, None),
    }
}

/// Reads the storage file of a process: bytes read and bytes written.
pub fn read_process_io(io: &Option<String>) -> (counters: (Option<u64>, Option<u64>))
    ensures
        counters == process_io_of(contents_of(*io)),
{
    match io {
        Some(text) => {
            let chars = chars_of(text.as_str());
            let rows = split_lines(chars.as_slice());
            let ghost all = lines(text@);
            let mut read_storage_bytes: Option<u64> = None;
            let mut write_storage_bytes: Option<u64> = None;
            assert(nested(rows@).len() == rows@.len());
            for i in 0..rows.len()
                invariant
                    nested(rows@) == all,
                    rows@.len() == all.len(),
                    (read_storage_bytes, write_storage_bytes) == io_of(all, i as nat),
            {
                assert(all[i as int] == rows@[i as int]@);
                let fields = split_words(rows[i].as_slice());
                assert(nested(fields@).len() == fields@.len());
                if fields.len() > 0 {
                    assert(nested(fields@)[0] == fields@[0]@);
                    if is_word(fields[0].as_slice(), "read_bytes:") {
                        read_storage_bytes = parse_field(&fields, 1);
                    } else if is_word(fields[0].as_slice(), "write_bytes:") {
                        write_storage_bytes = parse_field(&fields, 1);
                    }
                }
            }
            (read_storage_bytes, write_storage_bytes)
        },
        None => (None, None),
    }
}

/// The resident memory that a line of the status file of a process tells.
pub open spec fn memory_of_line(line: Seq<char>) -> Option<u64> {
    let fields = words(line);
    if fields.len() > 2 && fields[0] == "VmRSS:"@ && fields[2] == "kB"@ {
        number_of(fields[1])
    } else {
        None
    }
}

/// The resident memory that the first line to tell any tells.
pub open spec fn memory_of(rows: Seq<Seq<char>>) -> Option<u64>
    decreases rows.len(),
{
    if rows.len() == 0 {
        None
    } else {
        match memory_of_line(rows[0]) {
            Some(kib) => Some(kib),
            None => memory_of(rows.drop_first()),
        }
    }
}

/// The resident memory of a process in its status file; none where that could not be read.
pub open spec fn resident_memory_of(status: Option<Seq<char>>) -> Option<u64> {
    match status {
        Some(text) => memory_of(lines(text)),
        None => None,
    }
}

/// Reads the resident memory in a line.
fn parse_memory_line(line: &[char]) -> (kib: Option<u64>)
    ensures
        kib == memory_of_line(line@),
{
    let fields = split_words(line);
    assert(nested(fields@).len() == fields@.len());
    if fields.len() > 2 {
        assert(nested(fields@)[0] == fields@[0]@);
        assert(nested(fields@)[1] == fields@[1]@);
        assert(nested(fields@)[2] == fields@[2]@);
        if is_word(fields[0].as_slice(), "VmRSS:") && is_word(fields[2].as_slice(), "kB") {
            return parse_number(fields[1].as_slice());
        }
    }
    None
}

/// Reads the resident memory of a process from its status file.
pub fn read_resident_memory_kib(status: &Option<String>) -> (kib: Option<u64>)
    ensures
        kib == resident_memory_of(contents_of(*status)),
{
    match status {
        Some(text) => {
            let chars = chars_of(text.as_str());
            let rows = split_lines(chars.as_slice());
            let ghost all = lines(text@);
            assert(all.skip(0) =~= all);
            for i in 0..rows.len()
                invariant
                    *status matches Some(t) && all == lines(t@),
                    nested(rows@) == all,
                    rows@.len() == all.len(),
                    memory_of(all) == memory_of(all.skip(i as int)),
            {
                assert(all[i as int] == rows@[i as int]@);
                assert(all.skip(i as int).drop_first() =~= all.skip(i + 1));
                if let Some(kib) = parse_memory_line(rows[i].as_slice()) {
                    return Some(kib);
                }
            }
            assert(all.skip(rows@.len() as int).len() == 0);
            None
        },
        None => None,
    }
}

/// What was read of a process: the text of its status line, its argument file, its storage file
/// and its status file, each if it could be read.
pub struct ProcessFiles {
    pub pid: u32,
    pub stat: Option<String>,
    pub cmdline: Option<Vec<u8>>,
    pub io: Option<String>,
    pub status: Option<String>,
}

/// What a [`ProcessFiles`] says.
pub struct ProcessFilesModel {
    pub pid: u32,
    pub stat: Option<Seq<char>>,
    pub cmdline: Option<Seq<u8>>,
    pub io: Option<Seq<char>>,
    pub status: Option<Seq<char>>,
}

impl View for ProcessFiles {
    type V = ProcessFilesModel;

    open spec fn view(&self) -> ProcessFilesModel {
        ProcessFilesModel {
            pid: self.pid,
            stat: contents_of(self.stat),
            cmdline: match self.cmdline {
                Some(bytes) => Some(bytes@),
                None => None,
            },
            io: contents_of(self.io),
            status: contents_of(self.status),
        }
    }
}

impl ProcessFilesModel {
    /// The name in the status line does not end before it starts.
    pub open spec fn is_in_order(self) -> bool {
        self.stat matches Some(stat) ==> name_is_in_order(stat)
    }
}

/// The process that its files tell; none without a readable status line. Its command is its
/// arguments, or else its name in brackets.
pub open spec fn process_from(files: ProcessFilesModel) -> Option<ProcessModel> {
    match files.stat {
        Some(stat) => match stat_fields(stat) {
            Some(fields) => {
                let arguments = match files.cmdline {
                    Some(bytes) => command_line_of(bytes),
                    None => None,
                };
                let command = match arguments {
                    Some(text) => text,
                    None => "["@ + sanitized(stat_name(stat)) + "]"@,
                };
                Some(
                    ProcessModel {
                        pid: files.pid,
                        parent_pid: fields.parent_pid,
                        state: fields.state,
                        command,
                        user_cpu_ticks: fields.user_cpu_ticks,
                        system_cpu_ticks: fields.system_cpu_ticks,
                        resident_memory_kib: resident_memory_of(files.status),
                        read_storage_bytes: process_io_of(files.io).0,
                        write_storage_bytes: process_io_of(files.io).1,
                    },
                )
            },
            None => None,
        },
        None => None,
    }
}

/// Reads a process from its files.
pub fn read_process_info(files: &ProcessFiles) -> (info: Option<ProcessInfo>)
    requires
        files@.is_in_order(),
    ensures
        match info {
            Some(p) => process_from(files@) == Some(p@),
            None => process_from(files@) is None,
        },
{
    let stat = match &files.stat {
        Some(stat) => stat,
        None => {
            return None;
        },
    };
    let (fields, name) = match parse_stat(stat.as_str()) {
        Some(parsed) => parsed,
        None => {
            return None;
        },
    };
    let arguments = match &files.cmdline {
        Some(bytes) => read_command_line(bytes.as_slice()),
        None => None,
    };
    let command = match arguments {
        Some(text) => text,
        None => {
            let mut text = "[".to_owned();
            let clean = sanitize_process_text(name.as_str());
            text.append(clean.as_str());
            text.append("]");
            text
        },
    };
    let (read_storage_bytes, write_storage_bytes) = read_process_io(&files.io);
    Some(
        ProcessInfo {
            pid: files.pid,
            parent_pid: fields.parent_pid,
            state: fields.state,
            command,
            user_cpu_ticks: fields.user_cpu_ticks,
            system_cpu_ticks: fields.system_cpu_ticks,
            resident_memory_kib: read_resident_memory_kib(&files.status),
            read_storage_bytes,
            write_storage_bytes,
        },
    )
}

/// The contents of a list of process files.
pub open spec fn file_models(list: Seq<ProcessFiles>) -> Seq<ProcessFilesModel> {
    list.map_values(|f: ProcessFiles| f@)
}

/// The snapshot that the first `n` processes of the process directory make.
pub open spec fn snapshot_of(entries: Seq<ProcessFilesModel>, n: nat) -> SnapshotModel
    decreases n,
{
    if n == 0 {
        SnapshotModel { processes: seq![], available: true, unreadable_pids: seq![] }
    } else {
        let before = snapshot_of(entries, (n - 1) as nat);
        match process_from(entries[n - 1]) {
            Some(process) => SnapshotModel {
                processes: placed::<ProcessInfo>(before.processes, process),
                ..before
            },
            None => SnapshotModel {
                unreadable_pids: before.unreadable_pids.push(entries[n - 1].pid),
                ..before
            },
        }
    }
}

/// The snapshot of the process directory; where that could not be read, an empty one that says so.
pub open spec fn processes_of(entries: Option<Seq<ProcessFilesModel>>) -> SnapshotModel {
    match entries {
        Some(list) => snapshot_of(list, list.len()),
        None => SnapshotModel { processes: seq![], available: false, unreadable_pids: seq![] },
    }
}

/// The contents of the process directory, if it could be read.
pub open spec fn directory_model(entries: Option<Vec<ProcessFiles>>) -> Option<
    Seq<ProcessFilesModel>,
> {
    match entries {
        Some(list) => Some(file_models(list@)),
        None => None,
    }
}

/// In no status line the name ends before it starts.
pub open spec fn are_in_order(list: Seq<ProcessFilesModel>) -> bool {
    forall|i: int| 0 <= i < list.len() ==> #[trigger] list[i].is_in_order()
}

/// Takes a snapshot from what was read of the processes in the process directory.
pub fn current_processes(entries: &Option<Vec<ProcessFiles>>) -> (snapshot: ProcessSnapshot)
    requires
        directory_model(*entries) matches Some(list) ==> are_in_order(list),
    ensures
        snapshot.wf(),
        snapshot@ == processes_of(directory_model(*entries)),
{
    let mut processes: Table<ProcessInfo> = Table::new();
    let mut unreadable_pids: Vec<u32> = Vec::new();
    match entries {
        Some(list) => {
            let ghost all = file_models(list@);
            assert(directory_model(*entries) == Some(all));
            for i in 0..list.len()
                invariant
                    all == file_models(list@),
                    are_in_order(all),
                    processes.wf(),
                    snapshot_of(all, i as nat) == (SnapshotModel {
                        processes: processes@,
                        available: true,
                        unreadable_pids: unreadable_pids@,
                    }),
            {
                assert(all[i as int] == list@[i as int]@);
                assert(all[i as int].is_in_order());
                match read_process_info(&list[i]) {
                    Some(info) => {
                        processes.place(info);
                    },
                    None => {
                        unreadable_pids.push(list[i].pid);
                    },
                }
            }
            ProcessSnapshot { processes, available: true, unreadable_pids }
        },
        None => ProcessSnapshot { processes, available: false, unreadable_pids },
    }
}

/// The clock ticks of a second, as the system answers; none where the answer is not positive.
pub fn clock_ticks_per_second(answer: i64) -> (ticks: Option<u64>)
    ensures
        ticks == if answer > 0 {
            Some(answer as u64)
        } else {
            None
        },
{
    if answer > 0 {
        Some(answer as u64)
    } else {
        None
    }
}

/// Parts that stay on one line do so when they are joined by blanks.
proof fn lemma_joined_on_one_line(parts: Seq<Seq<char>>)
    requires
        forall|i: int| 0 <= i < parts.len() ==> is_one_line(#[trigger] parts[i]),
    ensures
        is_one_line(joined(parts, " "@)),
    decreases parts.len(),
{
    reveal_strlit(" ");
    if parts.len() > 0 {
        let front = parts.drop_last();
        assert forall|i: int| 0 <= i < front.len() implies is_one_line(#[trigger] front[i]) by {
            assert(front[i] == parts[i]);
        }
        lemma_joined_on_one_line(front);
        assert(is_one_line(parts[parts.len() - 1]));
    }
}

/// The command of a process that was read stays on one line.
pub proof fn commands_stay_on_one_line(files: ProcessFilesModel)
    ensures
        process_from(files) matches Some(process) ==> is_one_line(process.command),
{
    if let Some(stat) = files.stat {
        reveal_strlit("[");
        reveal_strlit("]");
        shown_text_stays_on_one_line(stat_name(stat));
        if let Some(bytes) = files.cmdline {
            let arguments = arguments_of(bytes).map_values(|a: Seq<u8>| utf8_lossy(a));
            let parts = arguments.map_values(|a: Seq<char>| sanitized(a));
            assert forall|i: int| 0 <= i < parts.len() implies is_one_line(#[trigger] parts[i]) by {
                shown_text_stays_on_one_line(arguments[i]);
            }
            lemma_joined_on_one_line(parts);
        }
    }
}

} // verus!

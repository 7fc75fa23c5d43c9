//! Reading what the kernel writes about processes, descriptors and sockets.

use runlens::address::{
    decode_ipv4_address, decode_ipv6_address, format_address, is_remote_address, IpAddress,
};
use runlens::platform::{
    file_descriptors, network_snapshot, parse_number, parse_pid, path_without_deleted_suffix,
    read_fd_access, strip_deleted, DescriptorFiles, FileKind,
};
use runlens::process_files::{
    clock_ticks_per_second, command_from_arguments, current_processes, has_name_in_order,
    parse_stat, read_command_line, read_process_info, read_process_io, read_resident_memory_kib,
    split_arguments, ProcessFiles,
};
use runlens::sockets::{
    format_network_endpoint, network_socket_state, parse_network_endpoint, parse_network_socket,
    parse_socket_inode, read_network_sockets, read_socket_inodes, SocketProtocol, SocketTables,
};

fn chars(text: &str) -> Vec<char> {
    text.chars().collect()
}

fn v4(text: &str) -> Option<String> {
    decode_ipv4_address(&chars(text)).map(|a| format_address(&a))
}

fn v6(text: &str) -> Option<String> {
    decode_ipv6_address(&chars(text)).map(|a| format_address(&a))
}

fn some(text: &str) -> Option<String> {
    Some(text.to_string())
}

const TCP: &str = "  sl  local_address rem_address   st tx_queue rx_queue tr tm->when retrnsmt   uid  timeout inode\n   0: 0100007F:1F90 0200000A:01BB 01 00000000:00000000 00:00000000 00000000  1000        0 4242 1 0000000000000000 20 0 0 10 -1\n   1: 0100007F:0016 00000000:0000 0A 00000000:00000000 00:00000000 00000000     0        0 77 1 0\n";

fn tables(tcp: Option<&str>, udp: Option<&str>) -> SocketTables {
    SocketTables {
        tcp: tcp.map(String::from),
        tcp6: Some("heading\n".to_string()),
        udp: udp.map(String::from),
        udp6: Some(String::new()),
    }
}

#[test]
fn addresses_of_four_octets_are_read_lowest_byte_first() {
    assert_eq!(v4("0100007F"), some("127.0.0.1"));
    assert_eq!(v4("00000000"), some("0.0.0.0"));
    assert_eq!(v4("FE01A8C0"), some("192.168.1.254"));
    assert_eq!(v4("ffffffff"), some("255.255.255.255"));
    assert_eq!(v4("0100007"), None);
    assert_eq!(v4("0100007G"), None);
    assert_eq!(v4(""), None);
}

#[test]
fn addresses_of_eight_groups_are_read_word_by_word() {
    assert_eq!(v6("00000000000000000000000001000000"), some("::1"));
    assert_eq!(v6("00000000000000000000000000000000"), some("::"));
    assert_eq!(v6("0000000000000000FFFF00000100007F"), some("::ffff:127.0.0.1"));
    assert_eq!(v6("B80D0120000000000000000001000000"), some("2001:db8::1"));
    assert_eq!(v6("000080FE000000000000000067452301"), some("fe80::123:4567"));
    assert_eq!(v6("B80D01200100000000000100BC9A7856"), some("2001:db8:0:1:1:0:5678:9abc"));
    assert_eq!(v6("0000000000000000000000000100000"), None);
    assert_eq!(v6("0000000000000000000000000100000x"), None);
}

#[test]
fn the_longest_run_of_zero_groups_is_left_out() {
    assert_eq!(format_address(&IpAddress::V6([1, 0, 0, 2, 0, 0, 0, 3])), "1:0:0:2::3");
    assert_eq!(format_address(&IpAddress::V6([1, 0, 0, 2, 0, 0, 3, 4])), "1::2:0:0:3:4");
    assert_eq!(format_address(&IpAddress::V6([1, 0, 2, 3, 4, 5, 6, 7])), "1:0:2:3:4:5:6:7");
    assert_eq!(format_address(&IpAddress::V6([1, 2, 3, 4, 5, 6, 0, 0])), "1:2:3:4:5:6::");
    assert_eq!(format_address(&IpAddress::V6([0, 0, 3, 4, 5, 6, 7, 8])), "::3:4:5:6:7:8");
}

#[test]
fn addresses_of_this_machine_are_not_remote() {
    assert!(!is_remote_address(&IpAddress::V4([127, 0, 0, 1])));
    assert!(!is_remote_address(&IpAddress::V4([127, 9, 9, 9])));
    assert!(!is_remote_address(&IpAddress::V4([0, 0, 0, 0])));
    assert!(is_remote_address(&IpAddress::V4([0, 0, 0, 1])));
    assert!(is_remote_address(&IpAddress::V4([10, 0, 0, 2])));
    assert!(!is_remote_address(&IpAddress::V6([0, 0, 0, 0, 0, 0, 0, 1])));
    assert!(!is_remote_address(&IpAddress::V6([0, 0, 0, 0, 0, 0, 0, 0])));
    assert!(is_remote_address(&IpAddress::V6([0, 0, 0, 0, 0, 0xffff, 0x7f00, 1])));
}

#[test]
fn endpoints_are_read_and_written() {
    let end = parse_network_endpoint("0100007F:1F90", false).unwrap();
    assert_eq!(end.port, 8080);
    assert_eq!(format_network_endpoint(&end), "127.0.0.1:8080");
    let end = parse_network_endpoint("00000000000000000000000001000000:0035", true).unwrap();
    assert_eq!(format_network_endpoint(&end), "[::1]:53");
    assert!(parse_network_endpoint("0100007F", false).is_none());
    assert!(parse_network_endpoint("0100007F:10000", false).is_none());
    assert!(parse_network_endpoint("0100007F:", false).is_none());
    assert!(parse_network_endpoint("0100007F:1F90", true).is_none());
}

#[test]
fn socket_states_have_names() {
    let tcp = [
        "ESTABLISHED", "SYN_SENT", "SYN_RECV", "FIN_WAIT1", "FIN_WAIT2", "TIME_WAIT", "CLOSE",
        "CLOSE_WAIT", "LAST_ACK", "LISTEN", "CLOSING", "NEW_SYN_RECV",
    ];
    for (i, name) in tcp.iter().enumerate() {
        let value = format!("{:02X}", i + 1);
        assert_eq!(network_socket_state(SocketProtocol::Tcp, &value), some(name));
        assert_eq!(network_socket_state(SocketProtocol::Tcp6, &value), some(name));
    }
    assert_eq!(network_socket_state(SocketProtocol::Tcp, "0D"), some("0x0D"));
    assert_eq!(network_socket_state(SocketProtocol::Udp, "01"), some("ESTABLISHED"));
    assert_eq!(network_socket_state(SocketProtocol::Udp6, "07"), some("UNCONNECTED"));
    assert_eq!(network_socket_state(SocketProtocol::Udp, "0A"), some("0x0A"));
    assert_eq!(network_socket_state(SocketProtocol::Udp, "fe"), some("0xFE"));
    assert_eq!(network_socket_state(SocketProtocol::Tcp, "100"), None);
    assert_eq!(network_socket_state(SocketProtocol::Tcp, "zz"), None);
}

#[test]
fn protocols_have_tables_and_labels() {
    assert_eq!(SocketProtocol::Tcp.table(), ("tcp", false));
    assert_eq!(SocketProtocol::Tcp6.table(), ("tcp6", true));
    assert_eq!(SocketProtocol::Udp.table(), ("udp", false));
    assert_eq!(SocketProtocol::Udp6.table(), ("udp6", true));
    assert_eq!(SocketProtocol::Tcp6.label(), "TCP");
    assert_eq!(SocketProtocol::Udp.label(), "UDP");
}

#[test]
fn socket_lines_are_read() {
    let line = TCP.lines().nth(1).unwrap();
    let (inode, record) = parse_network_socket(line, SocketProtocol::Tcp, false).unwrap();
    assert_eq!(inode, 4242);
    assert_eq!(record.state, "ESTABLISHED");
    assert!(record.key.is_remote());
    assert_eq!(format_network_endpoint(&record.key.local), "127.0.0.1:8080");
    assert_eq!(format_network_endpoint(&record.key.remote), "10.0.0.2:443");
    assert!(parse_network_socket("0: 0100007F:1F90 0200000A:01BB 01 a b c d e", SocketProtocol::Tcp, false).is_none());
    assert!(parse_network_socket("", SocketProtocol::Tcp, false).is_none());
}

#[test]
fn socket_tables_are_read_together() {
    let (sockets, limited) = read_network_sockets(&tables(Some(TCP), Some("heading\n"))).unwrap();
    assert!(!limited);
    assert_eq!(sockets.len(), 2);
    assert_eq!(sockets.get(&77).unwrap().record.state, "LISTEN");
    assert!(sockets.get(&1).is_none());

    let (sockets, limited) = read_network_sockets(&tables(None, Some("heading\nbroken\n"))).unwrap();
    assert!(limited);
    assert_eq!(sockets.len(), 0);

    let none = SocketTables { tcp: None, tcp6: None, udp: None, udp6: None };
    assert!(read_network_sockets(&none).is_none());
}

#[test]
fn socket_links_name_inodes() {
    assert_eq!(parse_socket_inode(b"socket:[4242]"), Some(4242));
    assert_eq!(parse_socket_inode(b"socket:[]"), None);
    assert_eq!(parse_socket_inode(b"socket:[42"), None);
    assert_eq!(parse_socket_inode(b"pipe:[42]"), None);
    assert_eq!(parse_socket_inode(b"socket:[\xff]"), None);
    let links = vec![
        Some(b"socket:[5]".to_vec()),
        Some(b"/dev/null".to_vec()),
        Some(b"socket:[5]".to_vec()),
        Some(b"socket:[3]".to_vec()),
    ];
    assert_eq!(read_socket_inodes(&links), (vec![5, 3], false));
    assert_eq!(read_socket_inodes(&vec![None]), (vec![], true));
}

#[test]
fn sockets_of_a_process_need_its_links_and_a_table() {
    let links = Some(vec![Some(b"socket:[4242]".to_vec())]);
    let snapshot = network_snapshot(&links, &tables(Some(TCP), Some("h\n"))).unwrap();
    assert_eq!(snapshot.inodes, vec![4242]);
    assert!(!snapshot.limited);
    assert!(network_snapshot(&None, &tables(Some(TCP), None)).is_none());
    let partial = network_snapshot(&links, &tables(Some(TCP), None)).unwrap();
    assert!(partial.limited);
    let unreadable = network_snapshot(&Some(vec![None]), &tables(Some(TCP), Some("h\n"))).unwrap();
    assert!(unreadable.limited);
}

#[test]
fn numbers_and_identifiers_are_read() {
    assert_eq!(parse_number(&chars("42")), Some(42));
    assert_eq!(parse_number(&chars("-1")), None);
    assert_eq!(parse_pid("4294967295"), Some(u32::MAX));
    assert_eq!(parse_pid("4294967296"), None);
    assert_eq!(parse_pid("self"), None);
}

#[test]
fn open_flags_tell_the_access() {
    assert_eq!(read_fd_access("pos:\t0\nflags:\t0100000\nmnt_id:\t1\n"), Some((true, false)));
    assert_eq!(read_fd_access("flags: 0100001\n"), Some((false, true)));
    assert_eq!(read_fd_access("flags:\t02\n"), Some((true, true)));
    assert_eq!(read_fd_access("flags:\t03\n"), None);
    assert_eq!(read_fd_access("flags:\t9\nflags:\t01\n"), Some((false, true)));
    assert_eq!(read_fd_access("pos:\t0\n"), None);
}

#[test]
fn the_mark_of_deleted_files_is_taken_off() {
    assert_eq!(strip_deleted("/tmp/a (deleted)"), some("/tmp/a"));
    assert_eq!(strip_deleted("/tmp/a"), None);
    assert_eq!(path_without_deleted_suffix(b"/tmp/a (deleted)"), b"/tmp/a".to_vec());
    assert_eq!(path_without_deleted_suffix(b"/tmp/\xff"), b"/tmp/\xff".to_vec());
    assert_eq!(path_without_deleted_suffix(b"/\xff (deleted)"), "/\u{fffd}".as_bytes().to_vec());
}

#[test]
fn descriptors_of_files_and_directories_count() {
    let descriptor = |target: &str, kind: FileKind, fdinfo: Option<&str>| {
        Some(DescriptorFiles {
            target: target.as_bytes().to_vec(),
            kind,
            fdinfo: fdinfo.map(String::from),
        })
    };
    let snapshot = file_descriptors(&vec![
        descriptor("/a (deleted)", FileKind::File, Some("flags:\t02\n")),
        descriptor("/dev/null", FileKind::Other, None),
        descriptor("/d", FileKind::Directory, Some("flags:\t00\n")),
    ]);
    assert!(!snapshot.limited);
    assert_eq!(snapshot.descriptors.len(), 2);
    assert_eq!(snapshot.descriptors[0].path, b"/a".to_vec());
    assert!(snapshot.descriptors[0].read && snapshot.descriptors[0].write);
    assert!(snapshot.descriptors[1].directory && !snapshot.descriptors[1].write);
    assert!(file_descriptors(&vec![None]).limited);
    assert!(file_descriptors(&vec![descriptor("/a", FileKind::File, None)]).limited);
}

#[test]
fn status_lines_are_read() {
    let stat = "12 (a) b) S 7 12 12 0 -1 4194560 100 0 0 0 31 17 0 0 20 0 1 0 5 6 7";
    let (fields, name) = parse_stat(stat).unwrap();
    assert_eq!(name, "a) b");
    assert_eq!(fields.state, 'S');
    assert_eq!(fields.parent_pid, 7);
    assert_eq!(fields.user_cpu_ticks, Some(31));
    assert_eq!(fields.system_cpu_ticks, Some(17));
    let (fields, _) = parse_stat("1 (x) Z 0").unwrap();
    assert_eq!(fields.user_cpu_ticks, None);
    for broken in ["", "1 x S 0", "1 (x) S", "1 (x) S parent", "1 (x)S 0"] {
        assert!(parse_stat(broken).is_none(), "{broken}");
    }
}

#[test]
fn names_that_end_before_they_start_are_told() {
    assert!(has_name_in_order("1 (x) S 0"));
    assert!(has_name_in_order(""));
    assert!(!has_name_in_order("1 ) S 0 ("));
}

#[test]
fn arguments_make_the_command() {
    assert_eq!(split_arguments(b"sh\0-c\0\0echo\n1\0"), vec![b"sh".to_vec(), b"-c".to_vec(), b"echo\n1".to_vec()]);
    assert_eq!(read_command_line(b"sh\0-c\0\0echo\n1\0"), some("sh -c echo 1"));
    assert_eq!(read_command_line(b"\0\0"), None);
    assert_eq!(read_command_line(b""), None);
    assert_eq!(read_command_line(b"\xfe"), some("\u{fffd}"));
    assert_eq!(command_from_arguments(&vec!["a\tb".to_string(), "c".to_string()]), some("a b c"));
}

#[test]
fn counters_are_read() {
    let io = some("rchar: 1\nread_bytes: 4096\nwrite_bytes: 8192\ncancelled_write_bytes: 3\n");
    assert_eq!(read_process_io(&io), (Some(4096), Some(8192)));
    assert_eq!(read_process_io(&some("read_bytes: x\n")), (None, None));
    assert_eq!(read_process_io(&some("read_bytes: 1\nread_bytes:\n")), (None, None));
    assert_eq!(read_process_io(&None), (None, None));
    assert_eq!(read_resident_memory_kib(&some("Name:\tx\nVmRSS:\t  512 kB\n")), Some(512));
    assert_eq!(read_resident_memory_kib(&some("VmRSS:\t512 MB\nVmRSS: 7 kB\n")), Some(7));
    assert_eq!(read_resident_memory_kib(&some("VmSize: 1 kB\n")), None);
    assert_eq!(read_resident_memory_kib(&None), None);
    assert_eq!(clock_ticks_per_second(100), Some(100));
    assert_eq!(clock_ticks_per_second(0), None);
    assert_eq!(clock_ticks_per_second(-1), None);
}

fn files(pid: u32, stat: Option<&str>, cmdline: Option<&[u8]>) -> ProcessFiles {
    ProcessFiles {
        pid,
        stat: stat.map(String::from),
        cmdline: cmdline.map(|b| b.to_vec()),
        io: None,
        status: None,
    }
}

#[test]
fn processes_are_read() {
    let info = read_process_info(&files(9, Some("9 (my\tsh) R 1"), None)).unwrap();
    assert_eq!(info.command, "[my sh]");
    assert!(info.is_alive());
    let info = read_process_info(&files(9, Some("9 (sh) Z 1"), Some(b"sh\0"))).unwrap();
    assert_eq!(info.command, "sh");
    assert!(!info.is_alive());
    assert!(read_process_info(&files(9, None, Some(b"sh\0"))).is_none());
}

#[test]
fn the_process_directory_makes_a_snapshot() {
    let snapshot = current_processes(&Some(vec![
        files(30, Some("30 (b) S 10"), None),
        files(10, Some("10 (a) S 1"), None),
        files(20, None, None),
    ]));
    assert!(snapshot.available);
    assert_eq!(snapshot.processes.len(), 2);
    assert_eq!(snapshot.processes.at(0).pid, 10);
    assert_eq!(snapshot.processes.get(&30).unwrap().parent_pid, 10);
    assert!(snapshot.is_unreadable(20));
    assert!(!snapshot.is_unreadable(10));
    assert!(!current_processes(&None).available);
}

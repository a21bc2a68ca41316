use psutils::address::{Address, Socket, Target};
use psutils::connections::{Connection, NetFile, RetrieveError, State};
use psutils::inodes::{Descriptor, InodeIndex, ProcessDir};
use psutils::table::{malformed_rows, parse_row, read_table, Row};
use psutils::{ConnType, Connections};

fn descriptor(name: &str, target: Option<&str>) -> Descriptor {
    Descriptor { name: name.as_bytes().to_vec(), target: target.map(|t| t.as_bytes().to_vec()) }
}

fn process(name: &str, descriptors: Vec<Descriptor>) -> ProcessDir {
    ProcessDir { name: name.as_bytes().to_vec(), descriptors }
}

fn net_file(name: &str, contents: &str) -> NetFile {
    NetFile { name: name.as_bytes().to_vec(), contents: contents.as_bytes().to_vec() }
}

const HEADER: &str = "  sl  local_address rem_address   st tx_queue rx_queue tr tm->when retrnsmt   uid  timeout inode";

fn line(slot: u32, local: &str, remote: &str, status: &str, inode: &str) -> String {
    format!(
        "{:4}: {} {} {} 00000000:00000000 00:00000000 00000000     0        0 {} 1 0000000000000000 100 0 0 10 0",
        slot, local, remote, status, inode
    )
}

fn tcp_table() -> String {
    let rows = vec![
        HEADER.to_string(),
        line(0, "0100007F:0277", "00000000:0000", "0A", "1001"),
        line(1, "0500000A:0016", "0A00000A:C350", "01", "2001"),
        line(2, "0500000A:0017", "0A00000A:C351", "01", "9999"),
        "   3: 0500000A:0018 0A00000A:C352 01".to_string(),
        line(4, "0500000A:01BB", "0B00000A:D431", "06", "1002"),
        line(5, "ZZ00007F:0277", "00000000:0000", "0A", "1001"),
        line(6, "0100007F:0277", "00000000", "0A", "1001"),
    ];
    rows.join("\n") + "\n"
}

fn udp_table() -> String {
    let rows = vec![
        HEADER.to_string(),
        line(0, "00000000:0044", "00000000:0000", "07", "2001"),
    ];
    rows.join("\n") + "\n"
}

fn host() -> Connections {
    Connections {
        processes: vec![
            process(
                "100",
                vec![
                    descriptor("0", Some("/dev/null")),
                    descriptor("3", Some("socket:[1001]")),
                    descriptor("4", Some("socket:[1002]")),
                    descriptor("5", None),
                ],
            ),
            process("net", vec![]),
            process(
                "200",
                vec![descriptor("7", Some("socket:[2001]")), descriptor("8", Some("socket:[1002]"))],
            ),
            process("self", vec![descriptor("9", Some("socket:[1001]"))]),
        ],
        net: vec![net_file("tcp", &tcp_table()), net_file("udp", &udp_table())],
    }
}

fn listen_of_100(kind: ConnType) -> Connection {
    Connection {
        fd: 3,
        family: Socket::AF_INET,
        conn_type: kind,
        laddr: Target { addr: Address::V4(127, 0, 0, 1), port: 631 },
        raddr: Target { addr: Address::V4(0, 0, 0, 0), port: 0 },
        status: Some(State::CONN_LISTEN),
        pid: 100,
    }
}

fn established_of_200(kind: ConnType) -> Connection {
    Connection {
        fd: 7,
        family: Socket::AF_INET,
        conn_type: kind,
        laddr: Target { addr: Address::V4(10, 0, 0, 5), port: 22 },
        raddr: Target { addr: Address::V4(10, 0, 0, 10), port: 50000 },
        status: Some(State::CONN_ESTABLISHED),
        pid: 200,
    }
}

fn shared(kind: ConnType, pid: u16, fd: u16) -> Connection {
    Connection {
        fd,
        family: Socket::AF_INET,
        conn_type: kind,
        laddr: Target { addr: Address::V4(10, 0, 0, 5), port: 443 },
        raddr: Target { addr: Address::V4(10, 0, 0, 11), port: 54321 },
        status: Some(State::CONN_TIME_WAIT),
        pid,
    }
}

fn datagram_of_200(kind: ConnType) -> Connection {
    Connection {
        fd: 7,
        family: Socket::AF_INET,
        conn_type: kind,
        laddr: Target { addr: Address::V4(0, 0, 0, 0), port: 68 },
        raddr: Target { addr: Address::V4(0, 0, 0, 0), port: 0 },
        status: None,
        pid: 200,
    }
}

#[test]
fn index_keeps_both_descriptors_of_one_socket() {
    let c = Connections {
        processes: vec![process(
            "42",
            vec![
                descriptor("3", Some("socket:[123]")),
                descriptor("4", Some("socket:[123]")),
                descriptor("5", Some("/var/log/syslog")),
            ],
        )],
        net: vec![],
    };
    let index = c.get_proc_inodes(42);
    assert_eq!(index.get(b"123"), vec![(42, 3), (42, 4)]);
    assert_eq!(index.get(b"123").len(), 2);
    assert_eq!(index.len(), 1);
    assert!(index.contains_key(b"123"));
    assert_eq!(index.first_owner(b"123"), Some((42, 3)));
    assert!(!index.contains_key(b"/var/log/syslog"));
    assert_eq!(index.get(b"5"), vec![]);
}

#[test]
fn index_skips_what_is_no_socket() {
    let c = Connections {
        processes: vec![process(
            "42",
            vec![
                descriptor("1", None),
                descriptor("2", Some("pipe:[77]")),
                descriptor("3", Some("socket:[123")),
                descriptor("4", Some("socket:[")),
                descriptor("5", Some("Socket:[5]")),
                descriptor("six", Some("socket:[6]")),
                descriptor("70000", Some("socket:[7]")),
                descriptor("8", Some("socket:[]")),
                descriptor("9", Some("socket:[9]")),
                descriptor("10", Some(" socket:[10]")),
            ],
        )],
        net: vec![],
    };
    let index = c.get_proc_inodes(42);
    assert_eq!(index.len(), 2);
    assert_eq!(index.get(b""), vec![(42, 8)]);
    assert_eq!(index.get(b"9"), vec![(42, 9)]);
    assert_eq!(index.get(b"123"), vec![]);
    assert_eq!(index.get(b"12"), vec![]);
    assert_eq!(index.get(b"6"), vec![]);
    assert_eq!(index.get(b"7"), vec![]);
    assert_eq!(index.get(b"10"), vec![]);
}

#[test]
fn index_of_a_process_that_is_not_there_is_empty() {
    let c = host();
    assert!(c.get_proc_inodes(300).is_empty());
    assert!(!c.get_proc_inodes(100).is_empty());
    assert!(InodeIndex::new().is_empty());
    assert_eq!(InodeIndex::new().first_owner(b"1"), None);
}

#[test]
fn index_of_the_host_merges_all_processes() {
    let c = host();
    let index = c.get_all_inodes();
    assert_eq!(index.len(), 3);
    assert_eq!(index.get(b"1001"), vec![(100, 3)]);
    assert_eq!(index.get(b"1002"), vec![(100, 4), (200, 8)]);
    assert_eq!(index.get(b"2001"), vec![(200, 7)]);
    assert_eq!(index.first_owner(b"1002"), Some((100, 4)));
    let scoped = c.get_proc_inodes(200);
    assert_eq!(scoped.get(b"1002"), vec![(200, 8)]);
    assert_eq!(scoped.get(b"1001"), vec![]);
}

#[test]
fn index_records_in_encounter_order() {
    let mut index = InodeIndex::new();
    index.insert("5", 2, 9);
    index.insert("6", 1, 4);
    index.insert("5", 1, 3);
    assert_eq!(index.get(b"5"), vec![(2, 9), (1, 3)]);
    assert_eq!(index.first_owner(b"5"), Some((2, 9)));
    assert_eq!(index.first_owner(b"6"), Some((1, 4)));
    assert_eq!(index.first_owner(b"7"), None);
    assert_eq!(index.len(), 2);
    assert_eq!(InodeIndex::new().len(), 0);
}

#[test]
fn reader_skips_the_header_whatever_it_holds() {
    let body = format!(
        "{}\n{}\n{}\n",
        line(0, "0100007F:0277", "00000000:0000", "0A", "1001"),
        line(1, "0500000A:0016", "0A00000A:C350", "01", "2001"),
        line(2, "0500000A:0017", "0A00000A:C351", "01", "9999")
    );
    let headers = vec![
        HEADER.to_string(),
        String::new(),
        line(9, "0100007F:0277", "00000000:0000", "0A", "1001"),
        "header".to_string(),
    ];
    let mut seen: Vec<Vec<Row>> = Vec::new();
    for header in headers {
        let table = format!("{}\n{}", header, body);
        let rows = read_table(Some(table.as_bytes()));
        assert_eq!(rows.len(), 3);
        seen.push(rows);
    }
    assert_eq!(seen[0], seen[1]);
    assert_eq!(seen[0], seen[2]);
    assert_eq!(seen[0], seen[3]);
    assert_eq!(seen[0][0].inode, b"1001".to_vec());
    assert_eq!(seen[0][1].laddr, b"0500000A:0016".to_vec());
    assert_eq!(seen[0][1].raddr, b"0A00000A:C350".to_vec());
    assert_eq!(seen[0][2].status, b"01".to_vec());
}

#[test]
fn reader_leaves_out_malformed_rows_only() {
    let rows = read_table(Some(tcp_table().as_bytes()));
    assert_eq!(rows.len(), 6);
    assert_eq!(rows[3].inode, b"1002".to_vec());
    assert_eq!(read_table(None), vec![]);
    assert_eq!(read_table(Some(b"")), vec![]);
    assert_eq!(read_table(Some(HEADER.as_bytes())), vec![]);
    let unterminated = format!("{}\n{}", HEADER, line(0, "a", "b", "c", "d"));
    assert_eq!(read_table(Some(unterminated.as_bytes())).len(), 1);
}

#[test]
fn row_needs_ten_columns() {
    assert_eq!(parse_row(b"0 1 2 3 4 5 6 7 8"), None);
    assert_eq!(
        parse_row(b"0 1 2 3 4 5 6 7 8 9"),
        Some(Row {
            laddr: b"1".to_vec(),
            raddr: b"2".to_vec(),
            status: b"3".to_vec(),
            inode: b"9".to_vec()
        })
    );
    assert_eq!(
        parse_row(b"\t0   1 2  3 4 5 6 7 8 9 10 11\r"),
        Some(Row {
            laddr: b"1".to_vec(),
            raddr: b"2".to_vec(),
            status: b"3".to_vec(),
            inode: b"9".to_vec()
        })
    );
    assert_eq!(parse_row(b""), None);
}

#[test]
fn filter_yields_only_the_rows_of_that_process() {
    let c = host();
    assert_eq!(
        c.retrieve(&ConnType::Tcp, Some(100)),
        Ok(vec![listen_of_100(ConnType::Tcp), shared(ConnType::Tcp, 100, 4)])
    );
    assert_eq!(
        c.retrieve(&ConnType::Tcp, Some(200)),
        Ok(vec![established_of_200(ConnType::Tcp), shared(ConnType::Tcp, 200, 8)])
    );
    assert_eq!(
        c.retrieve(&ConnType::Tcp, None),
        Ok(vec![
            listen_of_100(ConnType::Tcp),
            established_of_200(ConnType::Tcp),
            shared(ConnType::Tcp, 100, 4)
        ])
    );
}

#[test]
fn filter_on_a_process_without_sockets_yields_nothing() {
    let c = host();
    assert_eq!(c.retrieve(&ConnType::Tcp, Some(300)), Ok(vec![]));
    assert_eq!(c.retrieve(&ConnType::All, Some(300)), Ok(vec![]));
    assert_eq!(c.retrieve(&ConnType::Unix, Some(300)), Ok(vec![]));
}

#[test]
fn missing_ipv6_tables_are_tolerated() {
    let c = host();
    assert_eq!(c.find_table("tcp6"), None);
    assert_eq!(c.find_table("udp6"), None);
    assert_eq!(c.retrieve(&ConnType::Inet6, None), Ok(vec![]));
    assert_eq!(c.retrieve(&ConnType::Tcp6, None), Ok(vec![]));
    assert_eq!(c.retrieve(&ConnType::Udp6, Some(100)), Ok(vec![]));
    assert_eq!(
        c.retrieve(&ConnType::Inet4, None),
        Ok(vec![
            listen_of_100(ConnType::Inet4),
            established_of_200(ConnType::Inet4),
            shared(ConnType::Inet4, 100, 4),
            datagram_of_200(ConnType::Inet4)
        ])
    );
}

#[test]
fn missing_ipv4_tables_are_tolerated_too() {
    let mut c = host();
    c.net = vec![];
    assert_eq!(c.retrieve(&ConnType::Inet, None), Ok(vec![]));
    assert_eq!(c.retrieve(&ConnType::Tcp4, Some(100)), Ok(vec![]));
}

#[test]
fn rows_of_ipv6_tables_yield_nothing() {
    let mut c = host();
    let row = "   0: 0000000000000000FFFF00000100007F:9E49 00000000000000000000000000000000:0000 0A 00000000:00000000 00:00000000 00000000     0        0 1001 1 0000000000000000 100 0 0 10 0";
    c.net.push(net_file("tcp6", &format!("{}\n{}\n", HEADER, row)));
    assert_eq!(read_table(c.find_table("tcp6")).len(), 1);
    assert_eq!(c.retrieve(&ConnType::Tcp6, None), Ok(vec![]));
    assert_eq!(
        c.retrieve(&ConnType::Tcp, Some(200)),
        Ok(vec![established_of_200(ConnType::Tcp), shared(ConnType::Tcp, 200, 8)])
    );
}

#[test]
fn retrieve_twice_gives_the_same() {
    let c = host();
    for kind in [ConnType::Tcp, ConnType::Udp, ConnType::Inet, ConnType::Inet4, ConnType::Inet6] {
        for pid in [None, Some(100), Some(200), Some(300)] {
            let first = c.retrieve(&kind, pid);
            let second = c.retrieve(&kind, pid);
            assert!(first.is_ok());
            assert_eq!(first, second);
        }
    }
    assert_eq!(c.retrieve(&ConnType::All, None), c.retrieve(&ConnType::All, None));
}

#[test]
fn unix_sockets_are_not_supported() {
    let c = host();
    assert_eq!(c.retrieve(&ConnType::All, None), Err(RetrieveError::UnsupportedFamily));
    assert_eq!(c.retrieve(&ConnType::Unix, None), Err(RetrieveError::UnsupportedFamily));
    assert_eq!(c.retrieve(&ConnType::All, Some(100)), Err(RetrieveError::UnsupportedFamily));
    assert_eq!(c.retrieve(&ConnType::Unix, Some(200)), Err(RetrieveError::UnsupportedFamily));
}

#[test]
fn datagram_sockets_carry_no_status() {
    let c = host();
    assert_eq!(c.retrieve(&ConnType::Udp, None), Ok(vec![datagram_of_200(ConnType::Udp)]));
    assert_eq!(c.retrieve(&ConnType::Udp4, Some(200)), Ok(vec![datagram_of_200(ConnType::Udp4)]));
    assert_eq!(c.retrieve(&ConnType::Udp4, Some(100)), Ok(vec![]));
}

#[test]
fn records_are_grouped_by_table_in_reading_order() {
    let c = host();
    let all = c.retrieve(&ConnType::Inet, None).unwrap();
    assert_eq!(
        all,
        vec![
            listen_of_100(ConnType::Inet),
            established_of_200(ConnType::Inet),
            shared(ConnType::Inet, 100, 4),
            datagram_of_200(ConnType::Inet)
        ]
    );
    for record in all {
        assert_eq!(record.conn_type, ConnType::Inet);
    }
}

#[test]
fn the_first_file_of_a_name_counts() {
    let mut c = host();
    c.net.insert(0, net_file("tcp", HEADER));
    assert_eq!(c.retrieve(&ConnType::Tcp, None), Ok(vec![]));
    assert_eq!(c.find_table("tcp"), Some(HEADER.as_bytes()));
    assert_eq!(c.find_table("tc"), None);
}

#[test]
fn status_codes_are_two_capital_hex_digits() {
    let stream = Socket::SOCK_STREAM;
    assert_eq!(Connections::decode_status(b"01", &stream), Some(State::CONN_ESTABLISHED));
    assert_eq!(Connections::decode_status(b"02", &stream), Some(State::CONN_SYN_SENT));
    assert_eq!(Connections::decode_status(b"03", &stream), Some(State::CONN_SYN_RECV));
    assert_eq!(Connections::decode_status(b"04", &stream), Some(State::CONN_FIN_WAIT1));
    assert_eq!(Connections::decode_status(b"05", &stream), Some(State::CONN_FIN_WAIT2));
    assert_eq!(Connections::decode_status(b"06", &stream), Some(State::CONN_TIME_WAIT));
    assert_eq!(Connections::decode_status(b"07", &stream), Some(State::CONN_CLOSE));
    assert_eq!(Connections::decode_status(b"08", &stream), Some(State::CONN_CLOSE_WAIT));
    assert_eq!(Connections::decode_status(b"09", &stream), Some(State::CONN_LAST_ACK));
    assert_eq!(Connections::decode_status(b"0A", &stream), Some(State::CONN_LISTEN));
    assert_eq!(Connections::decode_status(b"0B", &stream), Some(State::CONN_CLOSING));
    assert_eq!(Connections::decode_status(b"0C", &stream), None);
    assert_eq!(Connections::decode_status(b"00", &stream), None);
    assert_eq!(Connections::decode_status(b"0a", &stream), None);
    assert_eq!(Connections::decode_status(b"1", &stream), None);
    assert_eq!(Connections::decode_status(b"001", &stream), None);
    assert_eq!(Connections::decode_status(b"", &stream), None);
    assert_eq!(Connections::decode_status(b"FF", &stream), None);
    assert_eq!(Connections::decode_status(b"01", &Socket::SOCK_DGRAM), None);
    assert_eq!(Connections::decode_status(b"0A", &Socket::AF_INET), None);
}

#[test]
fn an_unknown_status_does_not_drop_the_row() {
    let mut c = host();
    c.net = vec![net_file(
        "tcp",
        &format!("{}\n{}\n", HEADER, line(0, "0100007F:0277", "00000000:0000", "7F", "1001")),
    )];
    let mut expected = listen_of_100(ConnType::Tcp4);
    expected.status = None;
    assert_eq!(c.retrieve(&ConnType::Tcp4, None), Ok(vec![expected]));
}

#[test]
fn the_table_of_states_is_closed() {
    let statuses = Connections::tcp_statuses();
    assert_eq!(statuses.len(), 11);
    assert_eq!(statuses.get(&0x0A), Some(&State::CONN_LISTEN));
    assert_eq!(statuses.get(&0x01), Some(&State::CONN_ESTABLISHED));
    assert_eq!(statuses.get(&0x0B), Some(&State::CONN_CLOSING));
    assert_eq!(statuses.get(&0x00), None);
    assert_eq!(statuses.get(&0x0C), None);
}

#[test]
fn each_kind_covers_its_tables() {
    let tcp4 = ("tcp", Socket::AF_INET, Some(Socket::SOCK_STREAM));
    let tcp6 = ("tcp6", Socket::AF_INET6, Some(Socket::SOCK_STREAM));
    let udp4 = ("udp", Socket::AF_INET, Some(Socket::SOCK_DGRAM));
    let udp6 = ("udp6", Socket::AF_INET6, Some(Socket::SOCK_DGRAM));
    let unix = ("unix", Socket::AF_UNIX, None);
    assert_eq!(Connections::types(&ConnType::All), vec![tcp4, tcp6, udp4, udp6, unix]);
    assert_eq!(Connections::types(&ConnType::Tcp), vec![tcp4, tcp6]);
    assert_eq!(Connections::types(&ConnType::Tcp4), vec![tcp4]);
    assert_eq!(Connections::types(&ConnType::Tcp6), vec![tcp6]);
    assert_eq!(Connections::types(&ConnType::Udp), vec![udp4, udp6]);
    assert_eq!(Connections::types(&ConnType::Udp4), vec![udp4]);
    assert_eq!(Connections::types(&ConnType::Udp6), vec![udp6]);
    assert_eq!(Connections::types(&ConnType::Unix), vec![unix]);
    assert_eq!(Connections::types(&ConnType::Inet), vec![tcp4, tcp6, udp4, udp6]);
    assert_eq!(Connections::types(&ConnType::Inet4), vec![tcp4, udp4]);
    assert_eq!(Connections::types(&ConnType::Inet6), vec![tcp6, udp6]);
}

#[test]
fn a_process_is_found_by_its_number_in_decimal() {
    let c = Connections {
        processes: vec![
            process("007", vec![descriptor("1", Some("socket:[1]"))]),
            process("7", vec![descriptor("2", Some("socket:[2]"))]),
            process("7", vec![descriptor("3", Some("socket:[3]"))]),
            process("65536", vec![descriptor("4", Some("socket:[4]"))]),
            process("0", vec![descriptor("5", Some("socket:[5]"))]),
        ],
        net: vec![],
    };
    let seven = c.get_proc_inodes(7);
    assert_eq!(seven.len(), 1);
    assert_eq!(seven.get(b"2"), vec![(7, 2)]);
    assert_eq!(c.get_proc_inodes(0).get(b"5"), vec![(0, 5)]);
    let all = c.get_all_inodes();
    assert_eq!(all.get(b"1"), vec![]);
    assert_eq!(all.get(b"2"), vec![(7, 2), (7, 2), (7, 2)]);
    assert_eq!(all.get(b"3"), vec![]);
    assert_eq!(all.get(b"4"), vec![]);
    assert_eq!(all.get(b"5"), vec![(0, 5)]);
}

#[test]
fn malformed_lines_are_reported_by_position() {
    assert_eq!(malformed_rows(tcp_table().as_bytes()), vec![4]);
    assert_eq!(malformed_rows(b""), Vec::<usize>::new());
    assert_eq!(malformed_rows(b"short header\n"), Vec::<usize>::new());
    assert_eq!(malformed_rows(b"h\n\n0 1 2 3 4 5 6 7 8 9\nx\n"), vec![1, 3]);
}

#[test]
fn a_line_that_is_not_utf8_writes_no_row() {
    let good = line(0, "0100007F:0277", "00000000:0000", "0A", "1001");
    let mut table: Vec<u8> = Vec::new();
    table.extend_from_slice(b"header \xFF\n");
    table.extend_from_slice(good.as_bytes());
    table.extend_from_slice(b"\n");
    table.extend_from_slice(good.as_bytes());
    table.extend_from_slice(b" \xC3\x28\n");
    table.extend_from_slice(b"short \xFF\n");
    table.extend_from_slice(b"short\n");
    table.extend_from_slice(good.as_bytes());
    table.extend_from_slice(" \u{e9}\n".as_bytes());
    let rows = read_table(Some(&table));
    assert_eq!(rows.len(), 2);
    assert_eq!(rows[0].inode, b"1001".to_vec());
    assert_eq!(malformed_rows(&table), vec![4]);
    let mut bad = good.clone().into_bytes();
    bad.push(0x80);
    assert_eq!(parse_row(&bad), None);
    assert!(parse_row(good.as_bytes()).is_some());

    let mut c = host();
    c.net = vec![NetFile { name: b"tcp".to_vec(), contents: table }];
    assert_eq!(
        c.retrieve(&ConnType::Tcp4, None),
        Ok(vec![listen_of_100(ConnType::Tcp4), listen_of_100(ConnType::Tcp4)])
    );
}

#[test]
fn a_table_with_carriage_returns_reads_the_same() {
    let unix = tcp_table();
    let dos = unix.replace("\n", "\r\n");
    assert_eq!(read_table(Some(dos.as_bytes())), read_table(Some(unix.as_bytes())));
    assert_eq!(malformed_rows(dos.as_bytes()), vec![4]);
}

#[test]
fn index_is_keyed_by_the_inode_as_text() {
    let mut index = InodeIndex::new();
    index.insert("12\u{e9}", 1, 2);
    index.insert("", 3, 4);
    index.insert("12\u{e9}", 5, 6);
    assert_eq!(index.len(), 2);
    assert_eq!(index.get("12\u{e9}".as_bytes()), vec![(1, 2), (5, 6)]);
    assert_eq!(index.get(b""), vec![(3, 4)]);
    assert_eq!(index.get(b"12"), vec![]);
    assert_eq!(index.get(b"12\xC3"), vec![]);
    assert_eq!(index.first_owner(b"12\xFF"), None);
    assert!(!index.contains_key(b"\xFF"));
    assert!(index.contains_key("12\u{e9}".as_bytes()));
}

#[test]
fn an_inode_that_is_not_utf8_is_not_indexed() {
    let c = Connections {
        processes: vec![ProcessDir {
            name: b"42".to_vec(),
            descriptors: vec![
                Descriptor { name: b"3".to_vec(), target: Some(b"socket:[12\xFF]".to_vec()) },
                Descriptor { name: b"4".to_vec(), target: Some(b"socket:[12]".to_vec()) },
                Descriptor {
                    name: b"5".to_vec(),
                    target: Some("socket:[12\u{e9}]".as_bytes().to_vec()),
                },
            ],
        }],
        net: vec![],
    };
    let index = c.get_proc_inodes(42);
    assert_eq!(index.len(), 2);
    assert_eq!(index.get(b"12"), vec![(42, 4)]);
    assert_eq!(index.get("12\u{e9}".as_bytes()), vec![(42, 5)]);
    assert_eq!(index.get(b"12\xFF"), vec![]);
}

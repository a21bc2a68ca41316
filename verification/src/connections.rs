//! The connection assembler: the rows of the socket tables joined to the
//! processes that own their sockets.

use crate::address::{base16_digit, decode_address_bytes, decoded_address};
pub use crate::address::{Address, Socket, Target};
use crate::inodes::{
    host_scan, index_map, process_scan, scan_host, scan_process, Holding, InodeIndex,
    ProcessDir,
};
use crate::number::{DIGIT_0, DIGIT_9, UPPER_A, UPPER_F};
use crate::table::{read_table, row_views, table_rows, Row, RowView};
use crate::text::bytes_eq;
use std::collections::HashMap;
use vstd::prelude::*;
use vstd::string::StringSliceAdditionalSpecFns;

verus! {

broadcast use vstd::std_specs::hash::group_hash_axioms;

/// Which socket tables a request covers.
#[derive(Clone, Copy, Debug, PartialEq, Eq, Structural)]
pub enum ConnType {
    All,
    Tcp,
    Tcp4,
    Tcp6,
    Udp,
    Udp4,
    Udp6,
    Unix,
    Inet,
    Inet4,
    Inet6,
}

/// The states of a TCP connection, as the kernel numbers them from one.
#[allow(non_camel_case_types)]
#[derive(Clone, Copy, Debug, PartialEq, Eq, Structural)]
pub enum State {
    CONN_ESTABLISHED,
    CONN_SYN_SENT,
    CONN_SYN_RECV,
    CONN_FIN_WAIT1,
    CONN_FIN_WAIT2,
    CONN_TIME_WAIT,
    CONN_CLOSE,
    CONN_CLOSE_WAIT,
    CONN_LAST_ACK,
    CONN_LISTEN,
    CONN_CLOSING,
}

/// One socket with its owner.
#[derive(Clone, Copy, Debug, PartialEq, Eq)]
pub struct Connection {
    pub fd: u16,
    pub family: Socket,
    pub conn_type: ConnType,
    pub laddr: Target,
    pub raddr: Target,
    pub status: Option<State>,
    pub pid: u16,
}

/// The table of TCP states by their kernel code.
pub open spec fn tcp_status_map() -> Map<u8, State> {
    map![
        0x01u8 => State::CONN_ESTABLISHED,
        0x02u8 => State::CONN_SYN_SENT,
        0x03u8 => State::CONN_SYN_RECV,
        0x04u8 => State::CONN_FIN_WAIT1,
        0x05u8 => State::CONN_FIN_WAIT2,
        0x06u8 => State::CONN_TIME_WAIT,
        0x07u8 => State::CONN_CLOSE,
        0x08u8 => State::CONN_CLOSE_WAIT,
        0x09u8 => State::CONN_LAST_ACK,
        0x0Au8 => State::CONN_LISTEN,
        0x0Bu8 => State::CONN_CLOSING,
    ]
}

/// The tables that a request covers, in the order in which they are read:
/// the table's file name, its address family and its socket type.
pub open spec fn tables_of(kind: ConnType) -> Seq<(&'static str, Socket, Option<Socket>)> {
    let tcp4 = ("tcp", Socket::AF_INET, Some(Socket::SOCK_STREAM));
    let tcp6 = ("tcp6", Socket::AF_INET6, Some(Socket::SOCK_STREAM));
    let udp4 = ("udp", Socket::AF_INET, Some(Socket::SOCK_DGRAM));
    let udp6 = ("udp6", Socket::AF_INET6, Some(Socket::SOCK_DGRAM));
    let unix = ("unix", Socket::AF_UNIX, None::<Socket>);
    match kind {
        ConnType::All => seq![tcp4, tcp6, udp4, udp6, unix],
        ConnType::Tcp => seq![tcp4, tcp6],
        ConnType::Tcp4 => seq![tcp4],
        ConnType::Tcp6 => seq![tcp6],
        ConnType::Udp => seq![udp4, udp6],
        ConnType::Udp4 => seq![udp4],
        ConnType::Udp6 => seq![udp6],
        ConnType::Unix => seq![unix],
        ConnType::Inet => seq![tcp4, tcp6, udp4, udp6],
        ConnType::Inet4 => seq![tcp4, udp4],
        ConnType::Inet6 => seq![tcp6, udp6],
    }
}

/// The number that a status code writes: two base-16 symbols.
pub open spec fn status_code(code: Seq<u8>) -> Option<u8> {
    if code.len() == 2 && base16_digit(code[0]) is Some && base16_digit(code[1]) is Some {
        Some((16 * base16_digit(code[0])->0 + base16_digit(code[1])->0) as u8)
    } else {
        None
    }
}

/// The status that a row's code stands for. Only stream sockets have one, and
/// a code that the table of TCP states does not hold gives none.
pub open spec fn status_of(code: Seq<u8>, socket_type: Socket) -> Option<State> {
    match status_code(code) {
        Some(n) => {
            if socket_type == Socket::SOCK_STREAM && tcp_status_map().contains_key(n) {
                Some(tcp_status_map()[n])
            } else {
                None
            }
        },
        None => None,
    }
}

/// The value of a base-16 symbol.
fn base16_value(b: u8) -> (r: Option<u8>)
    ensures
        r == match base16_digit(b) {
            Some(v) => Some(v as u8),
            None => None,
        },
{
    if DIGIT_0 <= b && b <= DIGIT_9 {
        Some(b - DIGIT_0)
    } else if UPPER_A <= b && b <= UPPER_F {
        Some(b - UPPER_A + 10)
    } else {
        None
    }
}

/// The first owner on record for `inode`, if the index knows the inode.
pub open spec fn first_owner(index: Map<Seq<u8>, Seq<(u16, u16)>>, inode: Seq<u8>) -> Option<
    (u16, u16),
> {
    if index.contains_key(inode) {
        Some(index[inode][0])
    } else {
        None
    }
}

/// The connection that a row stands for. A row stands for none where the
/// index does not know its inode, where a process filter is given and the
/// first owner of the inode is another process, or where one of its two
/// addresses does not decode. The connection carries the kind that was asked
/// for.
pub open spec fn connection_of(
    row: RowView,
    family: Socket,
    socket_type: Socket,
    index: Map<Seq<u8>, Seq<(u16, u16)>>,
    filter_pid: Option<u16>,
    kind: ConnType,
) -> Option<Connection> {
    match first_owner(index, row.inode) {
        Some((pid, fd)) => {
            if filter_pid is Some && filter_pid != Some(pid) {
                None
            } else {
                match (decoded_address(row.laddr, family), decoded_address(row.raddr, family)) {
                    (Some(laddr), Some(raddr)) => Some(
                        Connection {
                            fd,
                            family,
                            conn_type: kind,
                            laddr,
                            raddr,
                            status: status_of(row.status, socket_type),
                            pid,
                        },
                    ),
                    _ => None,
                }
            }
        },
        None => None,
    }
}

/// The connections that the rows of a table stand for, in the order of the
/// rows.
pub open spec fn connections_of(
    rows: Seq<RowView>,
    family: Socket,
    socket_type: Socket,
    index: Map<Seq<u8>, Seq<(u16, u16)>>,
    filter_pid: Option<u16>,
    kind: ConnType,
) -> Seq<Connection> {
    rows.filter_map(
        |row: RowView| connection_of(row, family, socket_type, index, filter_pid, kind),
    )
}

/// One file of the procfs directory `net`: its name and what it holds.
#[derive(Clone, Debug, PartialEq, Eq)]
pub struct NetFile {
    pub name: Vec<u8>,
    pub contents: Vec<u8>,
}

/// What the first file called `name` holds; `None` where there is no such
/// file.
pub open spec fn file_contents(net: Seq<NetFile>, name: Seq<u8>) -> Option<Seq<u8>>
    decreases net.len(),
{
    if net.len() == 0 {
        None
    } else if net[0].name@ == name {
        Some(net[0].contents@)
    } else {
        file_contents(net.skip(1), name)
    }
}

/// What a result of `retrieve` stands for.
pub open spec fn outcome(r: Result<Vec<Connection>, RetrieveError>) -> Result<
    Seq<Connection>,
    RetrieveError,
> {
    match r {
        Ok(connections) => Ok(connections@),
        Err(e) => Err(e),
    }
}

/// Why connections could not be retrieved.
#[derive(Clone, Copy, Debug, PartialEq, Eq, Structural)]
pub enum RetrieveError {
    /// The request covers a table of a family other than IPv4 and IPv6.
    UnsupportedFamily,
}

/// A captured procfs: the entries of its root with their descriptor
/// directories, and the files of its directory `net`.
#[derive(Clone, Debug, PartialEq, Eq)]
pub struct Connections {
    pub processes: Vec<ProcessDir>,
    pub net: Vec<NetFile>,
}

impl Connections {
    /// The table of TCP states by their kernel code.
    pub fn tcp_statuses() -> (r: HashMap<u8, State>)
        ensures
            r@ == tcp_status_map(),
    {
        let mut m: HashMap<u8, State> = HashMap::new();
        m.insert(0x01, State::CONN_ESTABLISHED);
        m.insert(0x02, State::CONN_SYN_SENT);
        m.insert(0x03, State::CONN_SYN_RECV);
        m.insert(0x04, State::CONN_FIN_WAIT1);
        m.insert(0x05, State::CONN_FIN_WAIT2);
        m.insert(0x06, State::CONN_TIME_WAIT);
        m.insert(0x07, State::CONN_CLOSE);
        m.insert(0x08, State::CONN_CLOSE_WAIT);
        m.insert(0x09, State::CONN_LAST_ACK);
        m.insert(0x0A, State::CONN_LISTEN);
        m.insert(0x0B, State::CONN_CLOSING);
        m
    }

    /// The tables that a request covers, in the order in which they are read.
    pub fn types(kind: &ConnType) -> (r: Vec<(&'static str, Socket, Option<Socket>)>)
        ensures
            r@ == tables_of(*kind),
    {
        let tcp4 = ("tcp", Socket::AF_INET, Some(Socket::SOCK_STREAM));
        let tcp6 = ("tcp6", Socket::AF_INET6, Some(Socket::SOCK_STREAM));
        let udp4 = ("udp", Socket::AF_INET, Some(Socket::SOCK_DGRAM));
        let udp6 = ("udp6", Socket::AF_INET6, Some(Socket::SOCK_DGRAM));
        let unix = ("unix", Socket::AF_UNIX, None);
        let r = match kind {
            ConnType::All => vec![tcp4, tcp6, udp4, udp6, unix],
            ConnType::Tcp => vec![tcp4, tcp6],
            ConnType::Tcp4 => vec![tcp4],
            ConnType::Tcp6 => vec![tcp6],
            ConnType::Udp => vec![udp4, udp6],
            ConnType::Udp4 => vec![udp4],
            ConnType::Udp6 => vec![udp6],
            ConnType::Unix => vec![unix],
            ConnType::Inet => vec![tcp4, tcp6, udp4, udp6],
            ConnType::Inet4 => vec![tcp4, udp4],
            ConnType::Inet6 => vec![tcp6, udp6],
        };
        r
    }

    /// The status that a row's code stands for.
    pub fn decode_status(code: &[u8], socket_type: &Socket) -> (r: Option<State>)
        ensures
            r == status_of(code@, *socket_type),
    {
        if code.len() != 2 {
            return None;
        }
        match (base16_value(code[0]), base16_value(code[1]), socket_type) {
            (Some(hi), Some(lo), Socket::SOCK_STREAM) => {
                let n: u8 = 16 * hi + lo;
                let statuses = Connections::tcp_statuses();
                match statuses.get(&n) {
                    Some(state) => Some(*state),
                    None => None,
                }
            },
            _ => None,
        }
    }

    /// Decodes a packed `ADDRESS:PORT` field of a socket table, such as
    /// `0500000A:0016`, which is the address `10.0.0.5` and the port 22.
    pub fn decode_address(addr: &str, family: &Socket) -> (r: Option<Target>)
        ensures
            r == decoded_address(addr.spec_bytes(), *family),
    {
        decode_address_bytes(addr.as_bytes(), family)
    }

    /// The connection that a row of a table stands for.
    pub fn assemble(
        row: &Row,
        family: Socket,
        socket_type: &Socket,
        inodes: &InodeIndex,
        filter_pid: Option<u16>,
        kind: &ConnType,
    ) -> (r: Option<Connection>)
        requires
            inodes.wf(),
        ensures
            r == connection_of(row@, family, *socket_type, inodes@, filter_pid, *kind),
    {
        match inodes.first_owner(row.inode.as_slice()) {
            Some((pid, fd)) => {
                match filter_pid {
                    Some(wanted) => {
                        if wanted != pid {
                            return None;
                        }
                    },
                    None => {},
                }
                let status = Connections::decode_status(row.status.as_slice(), socket_type);
                let laddr = decode_address_bytes(row.laddr.as_slice(), &family);
                let raddr = decode_address_bytes(row.raddr.as_slice(), &family);
                match (laddr, raddr) {
                    (Some(laddr), Some(raddr)) => Some(
                        Connection { fd, family, conn_type: *kind, laddr, raddr, status, pid },
                    ),
                    _ => None,
                }
            },
            None => None,
        }
    }

    /// Reads one socket table and assembles the connection of each of its
    /// rows. `table` is what the table's file holds, and `None` where the
    /// file does not exist.
    pub fn process_inet(
        table: Option<&[u8]>,
        family: Socket,
        _type: &Socket,
        inodes: &InodeIndex,
        filter_pid: Option<u16>,
        kind: &ConnType,
    ) -> (r: Vec<Connection>)
        requires
            inodes.wf(),
        ensures
            r@ == connections_of(
                table_rows(
                    match table {
                        Some(data) => Some(data@),
                        None => None,
                    },
                ),
                family,
                *_type,
                inodes@,
                filter_pid,
                *kind,
            ),
    {
        let rows = read_table(table);
        let mut connections: Vec<Connection> = Vec::new();
        let mut i: usize = 0;
        let ghost all = row_views(rows@);
        while i < rows.len()
            invariant
                i <= rows.len(),
                inodes.wf(),
                all == row_views(rows@),
                connections@ == connections_of(
                    all.take(i as int),
                    family,
                    *_type,
                    inodes@,
                    filter_pid,
                    *kind,
                ),
            decreases rows.len() - i,
        {
            proof {
                let next = all.take(i + 1);
                assert(next.drop_last() =~= all.take(i as int));
            }
            match Connections::assemble(&rows[i], family, _type, inodes, filter_pid, kind) {
                Some(c) => {
                    connections.push(c);
                },
                None => {},
            }
            i += 1;
        }
        assert(all.take(i as int) =~= all);
        connections
    }

    /// The index of the sockets that process `pid` holds open.
    pub fn get_proc_inodes(&self, pid: u16) -> (r: InodeIndex)
        ensures
            r.wf(),
            r.scan() == process_scan(self.processes@, pid),
            r@ == index_map(process_scan(self.processes@, pid)),
    {
        let mut inodes = InodeIndex::new();
        scan_process(&mut inodes, &self.processes, pid);
        inodes
    }

    /// The index of the sockets that the processes of the host hold open.
    pub fn get_all_inodes(&self) -> (r: InodeIndex)
        ensures
            r.wf(),
            r.scan() == host_scan(self.processes@),
            r@ == index_map(host_scan(self.processes@)),
    {
        let mut inodes = InodeIndex::new();
        scan_host(&mut inodes, &self.processes);
        inodes
    }

    /// What the table called `name` holds; `None` where the file does not
    /// exist.
    pub open spec fn table(&self, name: &str) -> Option<Seq<u8>> {
        file_contents(self.net@, name.spec_bytes())
    }

    /// What the table called `name` holds.
    pub fn find_table(&self, name: &str) -> (r: Option<&[u8]>)
        ensures
            match r {
                Some(data) => self.table(name) == Some(data@),
                None => self.table(name) is None,
            },
    {
        let wanted = name.as_bytes();
        let mut i: usize = 0;
        assert(self.net@.skip(0) =~= self.net@);
        while i < self.net.len()
            invariant
                i <= self.net.len(),
                wanted@ == name.spec_bytes(),
                self.table(name) == file_contents(self.net@.skip(i as int), name.spec_bytes()),
            decreases self.net.len() - i,
        {
            if bytes_eq(self.net[i].name.as_slice(), wanted) {
                return Some(self.net[i].contents.as_slice());
            }
            assert(self.net@.skip(i as int).skip(1) =~= self.net@.skip(i + 1));
            i += 1;
        }
        None
    }

    /// The holdings that a request looks sockets up in: those of the one
    /// process where a process filter is given, else those of the host.
    pub open spec fn scan_for(&self, pid: Option<u16>) -> Seq<Holding> {
        match pid {
            Some(p) => process_scan(self.processes@, p),
            None => host_scan(self.processes@),
        }
    }

    /// The connections of the given tables, table by table. A table of IPv4
    /// or IPv6 adds the connections of its rows; a table of another family
    /// makes the request fail.
    pub open spec fn collected(
        &self,
        tables: Seq<(&'static str, Socket, Option<Socket>)>,
        index: Map<Seq<u8>, Seq<(u16, u16)>>,
        pid: Option<u16>,
        kind: ConnType,
    ) -> Result<Seq<Connection>, RetrieveError>
        decreases tables.len(),
    {
        if tables.len() == 0 {
            Ok(Seq::empty())
        } else {
            match self.collected(tables.drop_last(), index, pid, kind) {
                Ok(front) => {
                    let (name, family, socket_type) = tables.last();
                    if family == Socket::AF_INET || family == Socket::AF_INET6 {
                        match socket_type {
                            Some(t) => Ok(
                                front + connections_of(
                                    table_rows(self.table(name)),
                                    family,
                                    t,
                                    index,
                                    pid,
                                    kind,
                                ),
                            ),
                            None => Ok(front),
                        }
                    } else {
                        Err(RetrieveError::UnsupportedFamily)
                    }
                },
                Err(e) => Err(e),
            }
        }
    }

    /// What a request retrieves. With a process filter and no socket held by
    /// that process, nothing, and no table is looked at. Otherwise the
    /// connections of the tables that the kind covers, in the order of the
    /// tables and of their rows.
    pub open spec fn retrieved(&self, kind: ConnType, pid: Option<u16>) -> Result<
        Seq<Connection>,
        RetrieveError,
    > {
        let scan = self.scan_for(pid);
        if pid is Some && scan.len() == 0 {
            Ok(Seq::empty())
        } else {
            self.collected(tables_of(kind), index_map(scan), pid, kind)
        }
    }

    /// Retrieves the connections of the given kind, of one process or of the
    /// whole host.
    pub fn retrieve(&self, kind: &ConnType, pid: Option<u16>) -> (r: Result<
        Vec<Connection>,
        RetrieveError,
    >)
        ensures
            outcome(r) == self.retrieved(*kind, pid),
            r is Err <==> (*kind == ConnType::All || *kind == ConnType::Unix) && !(pid is Some
                && self.scan_for(pid).len() == 0),
            r matches Ok(connections) ==> forall|i: int|
                0 <= i < connections.len() ==> (#[trigger] connections[i]).conn_type == *kind && (
                pid is Some ==> pid == Some(connections[i].pid)),
    {
        proof {
            lemma_retrieve_fails_iff(*self, *kind, pid);
            lemma_retrieved_keeps_kind_and_filter(*self, *kind, pid);
        }
        let inodes = match pid {
            Some(p) => {
                let found = self.get_proc_inodes(p);
                if found.is_empty() {
                    return Ok(Vec::new());
                }
                found
            },
            None => self.get_all_inodes(),
        };
        let tables = Connections::types(kind);
        let mut ret: Vec<Connection> = Vec::new();
        let mut failed: bool = false;
        let mut i: usize = 0;
        while i < tables.len()
            invariant
                i <= tables.len(),
                inodes.wf(),
                inodes@ == index_map(self.scan_for(pid)),
                match self.collected(tables@.take(i as int), inodes@, pid, *kind) {
                    Ok(found) => !failed && found == ret@,
                    Err(e) => failed,
                },
            decreases tables.len() - i,
        {
            proof {
                let next = tables@.take(i + 1);
                assert(next.drop_last() =~= tables@.take(i as int));
            }
            if !failed {
                let (name, family, socket_type) = tables[i];
                match family {
                    Socket::AF_INET | Socket::AF_INET6 => {
                        match socket_type {
                            Some(t) => {
                                let table = self.find_table(name);
                                let mut found = Connections::process_inet(
                                    table,
                                    family,
                                    &t,
                                    &inodes,
                                    pid,
                                    kind,
                                );
                                ret.append(&mut found);
                            },
                            None => {},
                        }
                    },
                    _ => {
                        failed = true;
                    },
                }
            }
            i += 1;
        }
        assert(tables@.take(i as int) =~= tables@);
        if failed {
            Err(RetrieveError::UnsupportedFamily)
        } else {
            Ok(ret)
        }
    }
}

/// Every connection stands for a row: a row whose inode the index knows and
/// whose two addresses decode. No connection is made of anything else.
pub proof fn lemma_every_connection_has_a_row(
    rows: Seq<RowView>,
    family: Socket,
    socket_type: Socket,
    index: Map<Seq<u8>, Seq<(u16, u16)>>,
    filter_pid: Option<u16>,
    kind: ConnType,
    i: int,
) -> (j: int)
    requires
        0 <= i < connections_of(rows, family, socket_type, index, filter_pid, kind).len(),
    ensures
        0 <= j < rows.len(),
        connection_of(rows[j], family, socket_type, index, filter_pid, kind) == Some(
            connections_of(rows, family, socket_type, index, filter_pid, kind)[i],
        ),
        index.contains_key(rows[j].inode),
        decoded_address(rows[j].laddr, family) is Some,
        decoded_address(rows[j].raddr, family) is Some,
    decreases rows.len(),
{
    let front = rows.drop_last();
    let found = connections_of(front, family, socket_type, index, filter_pid, kind);
    if i < found.len() {
        let j = lemma_every_connection_has_a_row(
            front,
            family,
            socket_type,
            index,
            filter_pid,
            kind,
            i,
        );
        j
    } else {
        rows.len() - 1
    }
}

/// Every connection of a table carries the kind that was asked for, and the
/// process that was asked for where a process filter is given.
pub proof fn lemma_connections_keep_kind_and_filter(
    rows: Seq<RowView>,
    family: Socket,
    socket_type: Socket,
    index: Map<Seq<u8>, Seq<(u16, u16)>>,
    filter_pid: Option<u16>,
    kind: ConnType,
)
    ensures
        forall|i: int|
            0 <= i < connections_of(rows, family, socket_type, index, filter_pid, kind).len() ==> {
                let c = #[trigger] connections_of(
                    rows,
                    family,
                    socket_type,
                    index,
                    filter_pid,
                    kind,
                )[i];
                c.conn_type == kind && (filter_pid is Some ==> filter_pid == Some(c.pid))
            },
    decreases rows.len(),
{
    if rows.len() > 0 {
        lemma_connections_keep_kind_and_filter(
            rows.drop_last(),
            family,
            socket_type,
            index,
            filter_pid,
            kind,
        );
    }
}

/// Every connection collected from a list of tables carries the kind that
/// was asked for, and the process that was asked for where a process filter
/// is given.
pub proof fn lemma_collected_keeps_kind_and_filter(
    c: Connections,
    tables: Seq<(&'static str, Socket, Option<Socket>)>,
    index: Map<Seq<u8>, Seq<(u16, u16)>>,
    pid: Option<u16>,
    kind: ConnType,
)
    ensures
        c.collected(tables, index, pid, kind) matches Ok(found) ==> forall|i: int|
            0 <= i < found.len() ==> (#[trigger] found[i]).conn_type == kind && (pid is Some
                ==> pid == Some(found[i].pid)),
    decreases tables.len(),
{
    if tables.len() > 0 {
        lemma_collected_keeps_kind_and_filter(c, tables.drop_last(), index, pid, kind);
        let (name, family, socket_type) = tables.last();
        if socket_type is Some {
            lemma_connections_keep_kind_and_filter(
                table_rows(c.table(name)),
                family,
                socket_type->0,
                index,
                pid,
                kind,
            );
        }
    }
}

/// A caller that names a process receives only that process's connections,
/// and every connection carries the kind that was asked for.
pub proof fn lemma_retrieved_keeps_kind_and_filter(c: Connections, kind: ConnType, pid: Option<u16>)
    ensures
        c.retrieved(kind, pid) matches Ok(found) ==> forall|i: int|
            0 <= i < found.len() ==> (#[trigger] found[i]).conn_type == kind && (pid is Some
                ==> pid == Some(found[i].pid)),
{
    lemma_collected_keeps_kind_and_filter(
        c,
        tables_of(kind),
        index_map(c.scan_for(pid)),
        pid,
        kind,
    );
}

/// Collecting fails exactly where one of the tables is of a family other
/// than IPv4 and IPv6.
pub proof fn lemma_collected_fails_iff(
    c: Connections,
    tables: Seq<(&'static str, Socket, Option<Socket>)>,
    index: Map<Seq<u8>, Seq<(u16, u16)>>,
    pid: Option<u16>,
    kind: ConnType,
)
    ensures
        c.collected(tables, index, pid, kind) is Err <==> exists|i: int|
            0 <= i < tables.len() && (#[trigger] tables[i]).1 != Socket::AF_INET && tables[i].1
                != Socket::AF_INET6,
        c.collected(tables, index, pid, kind) is Err ==> c.collected(tables, index, pid, kind)
            == Err::<Seq<Connection>, RetrieveError>(RetrieveError::UnsupportedFamily),
    decreases tables.len(),
{
    if tables.len() > 0 {
        let front = tables.drop_last();
        lemma_collected_fails_iff(c, front, index, pid, kind);
        if c.collected(front, index, pid, kind) is Err {
            let i = choose|i: int|
                0 <= i < front.len() && (#[trigger] front[i]).1 != Socket::AF_INET && front[i].1
                    != Socket::AF_INET6;
            assert(tables[i] == front[i]);
        } else if c.collected(tables, index, pid, kind) is Ok {
            assert forall|i: int| 0 <= i < tables.len() implies (#[trigger] tables[i]).1
                == Socket::AF_INET || tables[i].1 == Socket::AF_INET6 by {
                if i < front.len() {
                    assert(tables[i] == front[i]);
                }
            }
        }
    }
}

/// A request fails exactly where it covers the table of UNIX sockets and is
/// not answered before any table is looked at, that is, unless it names a
/// process that holds no socket.
pub proof fn lemma_retrieve_fails_iff(c: Connections, kind: ConnType, pid: Option<u16>)
    ensures
        c.retrieved(kind, pid) is Err <==> (kind == ConnType::All || kind == ConnType::Unix) && !(
        pid is Some && c.scan_for(pid).len() == 0),
        c.retrieved(kind, pid) is Err ==> c.retrieved(kind, pid) == Err::<
            Seq<Connection>,
            RetrieveError,
        >(RetrieveError::UnsupportedFamily),
{
    let tables = tables_of(kind);
    lemma_collected_fails_iff(c, tables, index_map(c.scan_for(pid)), pid, kind);
}

/// Where the tables of IPv6 do not exist, a request for the IPv6 sockets
/// retrieves nothing and does not fail, and a request for the IPv4 sockets
/// retrieves the connections of the TCP table followed by those of the UDP
/// table.
pub proof fn lemma_missing_ipv6_tables(c: Connections, pid: Option<u16>)
    requires
        c.table("tcp6") is None,
        c.table("udp6") is None,
    ensures
        c.retrieved(ConnType::Inet6, pid) == Ok::<Seq<Connection>, RetrieveError>(Seq::empty()),
        !(pid is Some && c.scan_for(pid).len() == 0) ==> c.retrieved(ConnType::Inet4, pid) == Ok::<
            Seq<Connection>,
            RetrieveError,
        >(
            connections_of(
                table_rows(c.table("tcp")),
                Socket::AF_INET,
                Socket::SOCK_STREAM,
                index_map(c.scan_for(pid)),
                pid,
                ConnType::Inet4,
            ) + connections_of(
                table_rows(c.table("udp")),
                Socket::AF_INET,
                Socket::SOCK_DGRAM,
                index_map(c.scan_for(pid)),
                pid,
                ConnType::Inet4,
            ),
        ),
{
    let index = index_map(c.scan_for(pid));
    let none = Seq::<Connection>::empty();
    let no_table = Seq::<(&'static str, Socket, Option<Socket>)>::empty();

    let six = tables_of(ConnType::Inet6);
    let six_head = six.drop_last();
    assert(six_head.drop_last() =~= no_table);
    assert(c.collected(no_table, index, pid, ConnType::Inet6) == Ok::<
        Seq<Connection>,
        RetrieveError,
    >(none));
    assert(c.collected(six_head, index, pid, ConnType::Inet6) == Ok::<
        Seq<Connection>,
        RetrieveError,
    >(none));

    let four = tables_of(ConnType::Inet4);
    let four_head = four.drop_last();
    assert(four_head.drop_last() =~= no_table);
    let tcp = connections_of(
        table_rows(c.table("tcp")),
        Socket::AF_INET,
        Socket::SOCK_STREAM,
        index,
        pid,
        ConnType::Inet4,
    );
    assert(c.collected(no_table, index, pid, ConnType::Inet4) == Ok::<
        Seq<Connection>,
        RetrieveError,
    >(none));
    assert(c.collected(four_head, index, pid, ConnType::Inet4) == Ok::<
        Seq<Connection>,
        RetrieveError,
    >(tcp));
}

/// Asking twice gives the same answer: two results of `retrieve` for the
/// same captured procfs, kind and process filter agree on whether the
/// request failed and hold the same connections in the same order.
pub proof fn lemma_retrieve_is_repeatable(
    c: Connections,
    kind: ConnType,
    pid: Option<u16>,
    first: Result<Vec<Connection>, RetrieveError>,
    second: Result<Vec<Connection>, RetrieveError>,
)
    requires
        outcome(first) == c.retrieved(kind, pid),
        outcome(second) == c.retrieved(kind, pid),
    ensures
        first is Ok <==> second is Ok,
        first matches Ok(a) ==> second matches Ok(b) && a@ == b@ && a@.to_multiset()
            == b@.to_multiset(),
        first matches Err(e) ==> second == Err::<Vec<Connection>, RetrieveError>(e),
{
}

} // verus!

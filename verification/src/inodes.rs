//! The inode index: which process holds which socket open, and under which
//! descriptor.

use crate::number::{decimal_bytes, parse_decimal, parse_u16, render_decimal};
use crate::text::{bytes_eq, copy_range, has_prefix, starts_with, utf8_text};
use vstd::hash_map::StringHashMap;
use vstd::prelude::*;
use vstd::string::StringSliceAdditionalSpecFns;
use vstd::utf8::{encode_utf8, valid_utf8};

verus! {

/// One entry of a process's descriptor directory: its name, which is the
/// descriptor's number in decimal, and the target of the link, if it could be
/// resolved.
#[derive(Clone, Debug, PartialEq, Eq)]
pub struct Descriptor {
    pub name: Vec<u8>,
    pub target: Option<Vec<u8>>,
}

/// One entry of the procfs root: its name and the entries of the descriptor
/// directory below it. The list is empty where there is no such directory or
/// it could not be read.
#[derive(Clone, Debug, PartialEq, Eq)]
pub struct ProcessDir {
    pub name: Vec<u8>,
    pub descriptors: Vec<Descriptor>,
}

/// One socket held open: its inode as the kernel writes it, the process and
/// the descriptor's number.
pub struct Holding {
    pub inode: Seq<u8>,
    pub pid: u16,
    pub fd: u16,
}

/// The owners of `inode` among the holdings of `scan`, in the order of the
/// scan: each a process id and a descriptor number.
pub open spec fn owners_in(scan: Seq<Holding>, inode: Seq<u8>) -> Seq<(u16, u16)> {
    scan.filter_map(
        |h: Holding|
            if h.inode == inode {
                Some((h.pid, h.fd))
            } else {
                None
            },
    )
}

/// The mapping that a scan stands for: each inode that some holding names,
/// with its owners in the order of the scan.
pub open spec fn index_map(scan: Seq<Holding>) -> Map<Seq<u8>, Seq<(u16, u16)>> {
    Map::new(
        |inode: Seq<u8>| owners_in(scan, inode).len() > 0,
        |inode: Seq<u8>| owners_in(scan, inode),
    )
}

/// The first owner of `inode` in a scan.
pub open spec fn first_owner_in(scan: Seq<Holding>, inode: Seq<u8>) -> Option<(u16, u16)> {
    if owners_in(scan, inode).len() > 0 {
        Some(owners_in(scan, inode)[0])
    } else {
        None
    }
}

/// Where no holding before position `i` names `inode`: if the holding at `i`
/// names it, that holding is the inode's first owner; if `i` is the end of
/// the scan, the inode has no owner.
pub proof fn lemma_first_owner(scan: Seq<Holding>, inode: Seq<u8>, i: int)
    requires
        0 <= i <= scan.len(),
        forall|k: int| 0 <= k < i ==> scan[k].inode != inode,
    ensures
        i == scan.len() ==> owners_in(scan, inode).len() == 0,
        i < scan.len() && scan[i].inode == inode ==> first_owner_in(scan, inode) == Some(
            (scan[i].pid, scan[i].fd),
        ),
    decreases scan.len(),
{
    if scan.len() > 0 {
        let front = scan.drop_last();
        if i == scan.len() {
            lemma_first_owner(front, inode, i - 1);
        } else {
            lemma_first_owner(front, inode, i);
        }
    }
}

/// The owners found in two scans, one after the other, are the owners found
/// in the first followed by those found in the second.
pub proof fn lemma_owners_in_concat(a: Seq<Holding>, b: Seq<Holding>, inode: Seq<u8>)
    ensures
        owners_in(a + b, inode) == owners_in(a, inode) + owners_in(b, inode),
    decreases b.len(),
{
    if b.len() > 0 {
        lemma_owners_in_concat(a, b.drop_last(), inode);
        assert((a + b).drop_last() =~= a + b.drop_last());
    }
}

/// One more holding adds its inode to those that the index knows, and takes
/// none away.
pub proof fn lemma_index_grows(scan: Seq<Holding>, h: Holding)
    ensures
        index_map(scan.push(h)).dom() == index_map(scan).dom().insert(h.inode),
{
    assert(scan.push(h).drop_last() =~= scan);
    assert(index_map(scan.push(h)).dom() =~= index_map(scan).dom().insert(h.inode));
}

/// No holding names an inode that is not text, where every holding of the
/// scan names one that is.
pub proof fn lemma_no_owner_outside_text(scan: Seq<Holding>, inode: Seq<u8>)
    requires
        forall|i: int| 0 <= i < scan.len() ==> valid_utf8((#[trigger] scan[i]).inode),
        !valid_utf8(inode),
    ensures
        owners_in(scan, inode).len() == 0,
{
    lemma_first_owner(scan, inode, scan.len() as int);
}

/// Two texts with the same UTF-8 encoding are the same text.
pub proof fn lemma_encoding_tells_texts_apart(a: Seq<char>, b: Seq<char>)
    requires
        encode_utf8(a) == encode_utf8(b),
    ensures
        a == b,
{
    vstd::utf8::encode_utf8_decode_utf8(a);
    vstd::utf8::encode_utf8_decode_utf8(b);
}

/// The index of socket inodes: a hash map from each inode, as text, to its
/// owners in the order in which the scan met them, so that the first of them
/// stays the first. Beside the map the index keeps, for its contracts only,
/// every holding in encounter order.
pub struct InodeIndex {
    owners: StringHashMap<Vec<(u16, u16)>>,
    met: Ghost<Seq<Holding>>,
}

impl View for InodeIndex {
    type V = Map<Seq<u8>, Seq<(u16, u16)>>;

    /// The mapping from each inode, in UTF-8, to its owners.
    open spec fn view(&self) -> Map<Seq<u8>, Seq<(u16, u16)>> {
        index_map(self.scan())
    }
}

/// A copy of a list of owners.
fn copy_owners(owners: &Vec<(u16, u16)>) -> (r: Vec<(u16, u16)>)
    ensures
        r@ == owners@,
{
    let mut r: Vec<(u16, u16)> = Vec::new();
    let mut i: usize = 0;
    while i < owners.len()
        invariant
            i <= owners.len(),
            r@ == owners@.take(i as int),
        decreases owners.len() - i,
    {
        r.push(owners[i]);
        i += 1;
        assert(r@ =~= owners@.take(i as int));
    }
    assert(owners@.take(i as int) =~= owners@);
    r
}

impl InodeIndex {
    /// The holdings of the index in encounter order.
    pub closed spec fn scan(&self) -> Seq<Holding> {
        self.met@
    }

    /// Whether the index is well formed: every inode is text in UTF-8, and
    /// the map holds each inode that some holding names, as text, with
    /// exactly its owners.
    pub closed spec fn wf(&self) -> bool {
        &&& forall|i: int|
            0 <= i < self.met@.len() ==> valid_utf8((#[trigger] self.met@[i]).inode)
        &&& self.owners@.dom().finite()
        &&& index_map(self.met@).dom().finite()
        &&& self.owners@.dom().len() == index_map(self.met@).dom().len()
        &&& forall|k: Seq<char>| #[trigger]
            self.owners@.contains_key(k) <==> owners_in(self.met@, encode_utf8(k)).len() > 0
        &&& forall|k: Seq<char>| #[trigger]
            self.owners@.contains_key(k) ==> self.owners@[k]@ == owners_in(
                self.met@,
                encode_utf8(k),
            )
    }

    /// The owners of `inode`, in encounter order; none where the index does
    /// not know the inode.
    pub open spec fn owners(&self, inode: Seq<u8>) -> Seq<(u16, u16)> {
        owners_in(self.scan(), inode)
    }

    /// An index without holdings.
    pub fn new() -> (r: InodeIndex)
        ensures
            r.wf(),
            r.scan() == Seq::<Holding>::empty(),
            r@ == Map::<Seq<u8>, Seq<(u16, u16)>>::empty(),
    {
        let r = InodeIndex { owners: StringHashMap::new(), met: Ghost(Seq::empty()) };
        proof {
            lemma_empty_index(r.met@);
            assert(index_map(r.met@).dom() =~= Set::<Seq<u8>>::empty());
            assert(r.owners@.dom() =~= Set::<Seq<char>>::empty());
        }
        r
    }

    /// Whether the index holds nothing.
    pub fn is_empty(&self) -> (r: bool)
        requires
            self.wf(),
        ensures
            r == (self.scan().len() == 0),
            r == (self@ == Map::<Seq<u8>, Seq<(u16, u16)>>::empty()),
    {
        proof {
            lemma_empty_index(self.scan());
            let known = index_map(self.scan()).dom();
            if known.len() == 0 {
                known.lemma_len0_is_empty();
                assert(index_map(self.scan()) =~= Map::<Seq<u8>, Seq<(u16, u16)>>::empty());
            }
        }
        self.owners.len() == 0
    }

    /// The number of inodes that the index knows.
    pub fn len(&self) -> (r: usize)
        requires
            self.wf(),
        ensures
            self@.dom().finite(),
            r == self@.dom().len(),
    {
        self.owners.len()
    }

    /// Records that process `pid` holds `inode` open under descriptor `fd`.
    pub fn insert(&mut self, inode: &str, pid: u16, fd: u16)
        requires
            old(self).wf(),
        ensures
            final(self).wf(),
            final(self).scan() == old(self).scan().push(
                Holding { inode: inode.spec_bytes(), pid, fd },
            ),
    {
        let ghost before = self.met@;
        let ghost h = Holding { inode: inode.spec_bytes(), pid, fd };
        let ghost after = before.push(h);
        let mut list = match self.owners.get(inode) {
            Some(known) => copy_owners(known),
            None => Vec::new(),
        };
        list.push((pid, fd));
        proof {
            assert(after.drop_last() =~= before);
            lemma_index_grows(before, h);
            assert(list@ =~= owners_in(after, h.inode));
        }
        self.owners.insert(inode.to_owned(), list);
        self.met = Ghost(after);
        proof {
            vstd::utf8::encode_utf8_valid_utf8(inode@);
            assert forall|i: int| 0 <= i < after.len() implies valid_utf8(
                (#[trigger] after[i]).inode,
            ) by {
                if i < before.len() {
                    assert(after[i] == before[i]);
                }
            }
            assert(old(self).owners@.contains_key(inode@) <==> index_map(before).dom().contains(
                h.inode,
            ));
            assert(self.owners@.dom() =~= old(self).owners@.dom().insert(inode@));
            assert(self.owners@.dom().len() == index_map(after).dom().len());
            assert forall|k: Seq<char>| #[trigger]
                self.owners@.contains_key(k) <==> owners_in(after, encode_utf8(k)).len()
                    > 0 by {
                if k != inode@ && encode_utf8(k) == h.inode {
                    lemma_encoding_tells_texts_apart(k, inode@);
                }
            }
            assert forall|k: Seq<char>| #[trigger]
                self.owners@.contains_key(k) implies self.owners@[k]@ == owners_in(
                after,
                encode_utf8(k),
            ) by {
                if k != inode@ && encode_utf8(k) == h.inode {
                    lemma_encoding_tells_texts_apart(k, inode@);
                }
            }
        }
    }

    /// The first owner on record for `inode`.
    pub fn first_owner(&self, inode: &[u8]) -> (r: Option<(u16, u16)>)
        requires
            self.wf(),
        ensures
            r == first_owner_in(self.scan(), inode@),
    {
        match utf8_text(inode) {
            Ok(text) => match self.owners.get(text) {
                Some(known) => Some(known[0]),
                None => None,
            },
            Err(_) => {
                proof {
                    lemma_no_owner_outside_text(self.scan(), inode@);
                }
                None
            },
        }
    }

    /// Whether the index knows `inode`.
    pub fn contains_key(&self, inode: &[u8]) -> (r: bool)
        requires
            self.wf(),
        ensures
            r == self@.contains_key(inode@),
    {
        self.first_owner(inode).is_some()
    }

    /// All owners on record for `inode`, in encounter order.
    pub fn get(&self, inode: &[u8]) -> (r: Vec<(u16, u16)>)
        requires
            self.wf(),
        ensures
            r@ == self.owners(inode@),
    {
        match utf8_text(inode) {
            Ok(text) => match self.owners.get(text) {
                Some(known) => copy_owners(known),
                None => Vec::new(),
            },
            Err(_) => {
                proof {
                    lemma_no_owner_outside_text(self.scan(), inode@);
                }
                Vec::new()
            },
        }
    }
}

/// The closing bracket, with which the link of a socket descriptor ends.
pub const CLOSE_BRACKET: u8 = 0x5D;

/// The largest process id and the largest descriptor number that the index
/// holds.
pub const MAX_ID: u64 = 0xFFFF;

/// The bytes of `socket:[`, with which the link of a socket descriptor starts.
pub open spec fn socket_prefix() -> Seq<u8> {
    "socket:[".spec_bytes()
}

/// The inode that a link target names: the target has the form
/// `socket:[INODE]`, and the inode is what stands between the brackets.
pub open spec fn socket_inode(target: Seq<u8>) -> Option<Seq<u8>> {
    if has_prefix(target, socket_prefix()) && target.len() > socket_prefix().len() && target.last()
        == CLOSE_BRACKET {
        Some(target.subrange(socket_prefix().len() as int, target.len() - 1))
    } else {
        None
    }
}

/// The inode that a link target names, if it is the link of a socket.
pub fn parse_socket_link(target: &[u8]) -> (r: Option<Vec<u8>>)
    ensures
        match r {
            Some(inode) => socket_inode(target@) == Some(inode@),
            None => socket_inode(target@) is None,
        },
{
    let prefix = "socket:[".as_bytes();
    let n = target.len();
    if starts_with(target, prefix) && n > prefix.len() && target[n - 1] == CLOSE_BRACKET {
        Some(copy_range(target, prefix.len(), n - 1))
    } else {
        None
    }
}

/// The holding that a descriptor of process `pid` stands for: its link names
/// a socket whose inode is text in UTF-8, and its name is a descriptor
/// number of at most sixteen bits.
pub open spec fn holding_of(pid: u16, d: Descriptor) -> Option<Holding> {
    match d.target {
        Some(target) => match (socket_inode(target@), parse_decimal(d.name@, MAX_ID as nat)) {
            (Some(inode), Some(fd)) => if valid_utf8(inode) {
                Some(Holding { inode, pid, fd: fd as u16 })
            } else {
                None
            },
            _ => None,
        },
        None => None,
    }
}

/// The holdings of process `pid`, in the order of its descriptors.
pub open spec fn descriptor_scan(pid: u16, descriptors: Seq<Descriptor>) -> Seq<Holding> {
    descriptors.filter_map(|d: Descriptor| holding_of(pid, d))
}

/// Adds the holdings of process `pid` to `index`, in the order of its
/// descriptors. Descriptors that are no sockets, or whose link could not be
/// resolved, add nothing.
pub fn scan_descriptors(index: &mut InodeIndex, pid: u16, descriptors: &Vec<Descriptor>)
    requires
        old(index).wf(),
    ensures
        final(index).wf(),
        final(index).scan() == old(index).scan() + descriptor_scan(pid, descriptors@),
{
    let mut i: usize = 0;
    while i < descriptors.len()
        invariant
            i <= descriptors.len(),
            index.wf(),
            index.scan() == old(index).scan() + descriptor_scan(pid, descriptors@.take(i as int)),
        decreases descriptors.len() - i,
    {
        assert(descriptors@.take(i + 1).drop_last() =~= descriptors@.take(i as int));
        let d = &descriptors[i];
        match &d.target {
            Some(target) => {
                match parse_socket_link(target.as_slice()) {
                    Some(inode) => {
                        match (utf8_text(inode.as_slice()), parse_u16(d.name.as_slice())) {
                            (Ok(text), Some(fd)) => {
                                index.insert(text, pid, fd);
                            },
                            _ => {},
                        }
                    },
                    None => {},
                }
            },
            None => {},
        }
        i += 1;
    }
    assert(descriptors@.take(i as int) =~= descriptors@);
}

/// The descriptors found for process `pid`: those of the first entry of the
/// procfs root whose name is the pid in decimal, and none where there is no
/// such entry.
pub open spec fn process_descriptors(processes: Seq<ProcessDir>, pid: u16) -> Seq<Descriptor>
    decreases processes.len(),
{
    if processes.len() == 0 {
        Seq::empty()
    } else if processes[0].name@ == decimal_bytes(pid as nat) {
        processes[0].descriptors@
    } else {
        process_descriptors(processes.skip(1), pid)
    }
}

/// The holdings of process `pid`.
pub open spec fn process_scan(processes: Seq<ProcessDir>, pid: u16) -> Seq<Holding> {
    descriptor_scan(pid, process_descriptors(processes, pid))
}

/// The process id that the name of an entry of the procfs root writes, if it
/// writes one.
pub open spec fn pid_of(name: Seq<u8>) -> Option<u16> {
    match parse_decimal(name, MAX_ID as nat) {
        Some(pid) => Some(pid as u16),
        None => None,
    }
}

/// The holdings of every process among the entries `listed`, entry by entry:
/// each entry whose name writes a process id adds the holdings of that
/// process as `processes` has them.
pub open spec fn listed_scan(processes: Seq<ProcessDir>, listed: Seq<ProcessDir>) -> Seq<
    Holding,
>
    decreases listed.len(),
{
    if listed.len() == 0 {
        Seq::empty()
    } else {
        let front = listed_scan(processes, listed.drop_last());
        match pid_of(listed.last().name@) {
            Some(pid) => front + process_scan(processes, pid),
            None => front,
        }
    }
}

/// The holdings of every process of the host.
pub open spec fn host_scan(processes: Seq<ProcessDir>) -> Seq<Holding> {
    listed_scan(processes, processes)
}

/// Adds the holdings of process `pid` to `index`.
pub fn scan_process(index: &mut InodeIndex, processes: &Vec<ProcessDir>, pid: u16)
    requires
        old(index).wf(),
    ensures
        final(index).wf(),
        final(index).scan() == old(index).scan() + process_scan(processes@, pid),
{
    let name = render_decimal(pid as u64);
    let mut i: usize = 0;
    assert(processes@.skip(0) =~= processes@);
    while i < processes.len()
        invariant
            i <= processes.len(),
            name@ == decimal_bytes(pid as nat),
            index.wf(),
            index.scan() == old(index).scan(),
            process_descriptors(processes@, pid) == process_descriptors(
                processes@.skip(i as int),
                pid,
            ),
        decreases processes.len() - i,
    {
        if bytes_eq(processes[i].name.as_slice(), name.as_slice()) {
            scan_descriptors(index, pid, &processes[i].descriptors);
            return ;
        }
        assert(processes@.skip(i as int).skip(1) =~= processes@.skip(i + 1));
        i += 1;
    }
}

/// Adds the holdings of every process of the host to `index`.
pub fn scan_host(index: &mut InodeIndex, processes: &Vec<ProcessDir>)
    requires
        old(index).wf(),
    ensures
        final(index).wf(),
        final(index).scan() == old(index).scan() + host_scan(processes@),
{
    let mut i: usize = 0;
    while i < processes.len()
        invariant
            i <= processes.len(),
            index.wf(),
            index.scan() == old(index).scan() + listed_scan(processes@, processes@.take(i as int)),
        decreases processes.len() - i,
    {
        assert(processes@.take(i + 1).drop_last() =~= processes@.take(i as int));
        match parse_u16(processes[i].name.as_slice()) {
            Some(pid) => {
                scan_process(index, processes, pid);
            },
            None => {},
        }
        i += 1;
    }
    assert(processes@.take(i as int) =~= processes@);
}

/// The link `socket:[INODE]` names the inode between its brackets, whatever
/// bytes the inode is made of.
pub proof fn lemma_socket_link_names_its_inode(inode: Seq<u8>)
    ensures
        socket_inode(socket_prefix() + inode + seq![CLOSE_BRACKET]) == Some(inode),
{
    let prefix = socket_prefix();
    let target = prefix + inode + seq![CLOSE_BRACKET];
    assert(target.take(prefix.len() as int) =~= prefix);
}

/// The owner that one descriptor of process `pid` adds to `inode`.
pub open spec fn owner_from(pid: u16, d: Descriptor, inode: Seq<u8>) -> Option<(u16, u16)> {
    match holding_of(pid, d) {
        Some(h) => if h.inode == inode {
            Some((pid, h.fd))
        } else {
            None
        },
        None => None,
    }
}

/// The owners that the descriptors of process `pid` add to `inode`, in the
/// order of the descriptors.
pub open spec fn owners_from(pid: u16, descriptors: Seq<Descriptor>, inode: Seq<u8>) -> Seq<
    (u16, u16),
> {
    descriptors.filter_map(|d: Descriptor| owner_from(pid, d, inode))
}

/// The index of a process is complete and holds nothing else: the owners of
/// an inode are the process's descriptors that link to the socket of that
/// inode, one owner for each such descriptor, in the order of the
/// descriptors. A descriptor that links to anything else adds no owner.
pub proof fn lemma_owners_of_process(pid: u16, descriptors: Seq<Descriptor>, inode: Seq<u8>)
    ensures
        owners_in(descriptor_scan(pid, descriptors), inode) == owners_from(
            pid,
            descriptors,
            inode,
        ),
    decreases descriptors.len(),
{
    if descriptors.len() > 0 {
        let front = descriptors.drop_last();
        lemma_owners_of_process(pid, front, inode);
        match holding_of(pid, descriptors.last()) {
            Some(h) => {
                lemma_owners_in_concat(descriptor_scan(pid, front), seq![h], inode);
                assert(seq![h].drop_last() =~= Seq::<Holding>::empty());
                assert(owners_in(Seq::<Holding>::empty(), inode) =~= Seq::<
                    (u16, u16),
                >::empty());
            },
            None => {},
        }
    }
}

/// Merging appends and overwrites nothing: the owners of an inode on the
/// host are those found up to the last entry of the procfs root, followed by
/// those of the process that the last entry names.
pub proof fn lemma_merge_appends(
    processes: Seq<ProcessDir>,
    listed: Seq<ProcessDir>,
    inode: Seq<u8>,
)
    requires
        listed.len() > 0,
    ensures
        owners_in(listed_scan(processes, listed), inode) == owners_in(
            listed_scan(processes, listed.drop_last()),
            inode,
        ) + match pid_of(listed.last().name@) {
            Some(pid) => owners_in(process_scan(processes, pid), inode),
            None => Seq::empty(),
        },
{
    let front = listed_scan(processes, listed.drop_last());
    match pid_of(listed.last().name@) {
        Some(pid) => {
            lemma_owners_in_concat(front, process_scan(processes, pid), inode);
        },
        None => {
        },
    }
}

/// An index holds nothing exactly where its mapping knows no inode.
pub proof fn lemma_empty_index(scan: Seq<Holding>)
    ensures
        scan.len() == 0 <==> index_map(scan) == Map::<Seq<u8>, Seq<(u16, u16)>>::empty(),
{
    if scan.len() == 0 {
        assert(index_map(scan) =~= Map::<Seq<u8>, Seq<(u16, u16)>>::empty());
    } else {
        let inode = scan.last().inode;
        assert(index_map(scan).contains_key(inode));
    }
}

} // verus!

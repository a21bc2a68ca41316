//! The reader of a kernel socket table: a header line, then one row for each
//! socket, its columns separated by whitespace.

use crate::text::{
    byte_views, copy_range, fields, lemma_offset_of_scan, lines, split_fields, split_lines,
    utf8_text, LINE_FEED,
};
use vstd::prelude::*;
use vstd::utf8::valid_utf8;

verus! {

/// The columns of a table row that the library reads: column 1 is the local
/// address, column 2 the remote address, column 3 the status code and
/// column 9 the inode, counting from zero.
#[derive(Clone, Debug, PartialEq, Eq)]
pub struct Row {
    pub laddr: Vec<u8>,
    pub raddr: Vec<u8>,
    pub status: Vec<u8>,
    pub inode: Vec<u8>,
}

/// What a `Row` stands for.
pub struct RowView {
    pub laddr: Seq<u8>,
    pub raddr: Seq<u8>,
    pub status: Seq<u8>,
    pub inode: Seq<u8>,
}

impl View for Row {
    type V = RowView;

    open spec fn view(&self) -> RowView {
        RowView {
            laddr: self.laddr@,
            raddr: self.raddr@,
            status: self.status@,
            inode: self.inode@,
        }
    }
}

/// The rows that the entries of `v` stand for.
pub open spec fn row_views(v: Seq<Row>) -> Seq<RowView> {
    Seq::new(v.len(), |i: int| v[i]@)
}

/// Whether a line is malformed: it is text, that is valid UTF-8, of fewer
/// than ten columns.
pub open spec fn is_malformed(line: Seq<u8>) -> bool {
    valid_utf8(line) && fields(line).len() < 10
}

/// The row that a line writes. A line that is not valid UTF-8 writes none,
/// and a malformed line writes none.
pub open spec fn row_of(line: Seq<u8>) -> Option<RowView> {
    let columns = fields(line);
    if valid_utf8(line) && columns.len() >= 10 {
        Some(
            RowView {
                laddr: columns[1],
                raddr: columns[2],
                status: columns[3],
                inode: columns[9],
            },
        )
    } else {
        None
    }
}

/// The rows that the lines of `ls` write, in order; the lines that write
/// none are left out.
pub open spec fn rows_of(ls: Seq<Seq<u8>>) -> Seq<RowView> {
    ls.filter_map(|line: Seq<u8>| row_of(line))
}

/// The rows of a table: those of every line but the first, which is the
/// header. A table that does not exist has no rows.
pub open spec fn table_rows(contents: Option<Seq<u8>>) -> Seq<RowView> {
    match contents {
        Some(data) => {
            if lines(data).len() == 0 {
                Seq::empty()
            } else {
                rows_of(lines(data).skip(1))
            }
        },
        None => Seq::empty(),
    }
}

/// Reads one line of a table.
pub fn parse_row(line: &[u8]) -> (r: Option<Row>)
    ensures
        match r {
            Some(row) => row_of(line@) == Some(row@),
            None => row_of(line@) is None,
        },
{
    if utf8_text(line).is_err() {
        return None;
    }
    let columns = split_fields(line);
    if columns.len() >= 10 {
        let laddr = copy_range(columns[1].as_slice(), 0, columns[1].len());
        let raddr = copy_range(columns[2].as_slice(), 0, columns[2].len());
        let status = copy_range(columns[3].as_slice(), 0, columns[3].len());
        let inode = copy_range(columns[9].as_slice(), 0, columns[9].len());
        assert(laddr@ =~= columns@[1]@);
        assert(raddr@ =~= columns@[2]@);
        assert(status@ =~= columns@[3]@);
        assert(inode@ =~= columns@[9]@);
        Some(Row { laddr, raddr, status, inode })
    } else {
        None
    }
}

/// Reads a table: skips the header line and yields the row of every other
/// line that is valid UTF-8 and well formed. For a table that does not exist it yields no
/// rows.
pub fn read_table(contents: Option<&[u8]>) -> (r: Vec<Row>)
    ensures
        row_views(r@) == table_rows(
            match contents {
                Some(data) => Some(data@),
                None => None,
            },
        ),
{
    let mut out: Vec<Row> = Vec::new();
    match contents {
        None => {
            out
        },
        Some(data) => {
            let ls = split_lines(data);
            if ls.len() == 0 {
                return out;
            }
            let ghost body = lines(data@).skip(1);
            let mut i: usize = 1;
            while i < ls.len()
                invariant
                    1 <= i <= ls.len(),
                    byte_views(ls@) == lines(data@),
                    body == lines(data@).skip(1),
                    row_views(out@) == rows_of(body.take(i - 1)),
                decreases ls.len() - i,
            {
                proof {
                    let next = body.take(i as int);
                    assert(next.drop_last() =~= body.take(i - 1));
                }
                match parse_row(ls[i].as_slice()) {
                    Some(row) => {
                        out.push(row);
                    },
                    None => {},
                }
                i += 1;
            }
            assert(body.take(i - 1) =~= body);
            out
        },
    }
}

/// The positions of the malformed lines among the first `n` lines of `ls`,
/// in order. The header, at position zero, is not counted.
pub open spec fn malformed_among(ls: Seq<Seq<u8>>, n: int) -> Seq<usize>
    decreases n,
{
    if n <= 1 {
        Seq::empty()
    } else {
        let front = malformed_among(ls, n - 1);
        if is_malformed(ls[n - 1]) {
            front.push((n - 1) as usize)
        } else {
            front
        }
    }
}

/// The positions of the lines of a table that `read_table` leaves out as
/// malformed, for a caller that reports them. Lines are counted from zero,
/// the header being line zero. A line that is not valid UTF-8 is left out
/// without being malformed.
pub fn malformed_rows(data: &[u8]) -> (r: Vec<usize>)
    ensures
        r@ == malformed_among(lines(data@), lines(data@).len() as int),
{
    let ls = split_lines(data);
    let mut out: Vec<usize> = Vec::new();
    if ls.len() == 0 {
        return out;
    }
    let mut i: usize = 1;
    while i < ls.len()
        invariant
            1 <= i <= ls.len(),
            byte_views(ls@) == lines(data@),
            out@ == malformed_among(lines(data@), i as int),
        decreases ls.len() - i,
    {
        if utf8_text(ls[i].as_slice()).is_ok() && parse_row(ls[i].as_slice()).is_none() {
            out.push(i);
        }
        i += 1;
    }
    out
}

/// The header is skipped whatever it holds: a table made of a header line
/// without a line feed, a line feed and a body has the rows of the body's
/// lines.
pub proof fn lemma_header_is_skipped(header: Seq<u8>, body: Seq<u8>)
    requires
        forall|k: int| 0 <= k < header.len() ==> header[k] != LINE_FEED,
    ensures
        table_rows(Some(header + seq![LINE_FEED] + body)) == rows_of(lines(body)),
{
    let data = header + seq![LINE_FEED] + body;
    let n = header.len() as int;
    assert(data.skip(0) =~= data);
    assert forall|k: int| 0 <= k < n implies data[k] != LINE_FEED by {}
    lemma_offset_of_scan(data, LINE_FEED, 0, n);
    assert(data.skip(n + 1) =~= body);
    assert(lines(data).skip(1) =~= lines(body));
}

/// Every well-formed line yields its row: where each of the lines writes a
/// row, there are as many rows as lines, in the same order.
pub proof fn lemma_rows_of_well_formed(ls: Seq<Seq<u8>>)
    requires
        forall|i: int| 0 <= i < ls.len() ==> (#[trigger] row_of(ls[i])) is Some,
    ensures
        rows_of(ls).len() == ls.len(),
        forall|i: int| 0 <= i < ls.len() ==> Some(#[trigger] rows_of(ls)[i]) == row_of(ls[i]),
    decreases ls.len(),
{
    if ls.len() > 0 {
        let front = ls.drop_last();
        assert forall|i: int| 0 <= i < front.len() implies (#[trigger] row_of(front[i]))
            is Some by {}
        lemma_rows_of_well_formed(front);
    }
}

} // verus!

//! Processor times as the kernel reports them in its `stat` file.

use crate::number::{parse_decimal, parse_u64};
use crate::text::{
    byte_views, has_prefix, lines, split_lines, split_tokens, starts_with, tokens, utf8_text,
};
use vstd::prelude::*;
use vstd::string::StringSliceAdditionalSpecFns;
use vstd::utf8::{is_char_boundary, valid_utf8};

verus! {

broadcast use vstd::utf8::encode_utf8_valid_utf8;

/// The time, in clock ticks, that a processor has spent in each of its
/// modes.
#[derive(Copy, Clone, Debug, PartialEq, Eq)]
pub struct CpuTime {
    pub user: u64,
    pub nice: u64,
    pub system: u64,
    pub idle: u64,
    pub iowait: u64,
    pub irq: u64,
    pub soft_irq: u64,
    pub steal: u64,
    pub guest: u64,
    pub guest_nice: u64,
}

/// The count that a column writes: its decimal number, and zero where the
/// column is no decimal number of at most sixty-four bits.
pub open spec fn counter(column: Seq<u8>) -> u64 {
    match parse_decimal(column, u64::MAX as nat) {
        Some(v) => v as u64,
        None => 0,
    }
}

/// The processor times that a text in UTF-8 writes. Its columns are its
/// tokens, parted by Unicode white space. The first column is the
/// processor's label; the ten columns after it are the times. A text of
/// fewer than eleven columns writes none.
pub open spec fn cpu_time_of(text: Seq<u8>) -> Option<CpuTime> {
    let columns = tokens(text);
    if columns.len() >= 11 {
        Some(
            CpuTime {
                user: counter(columns[1]),
                nice: counter(columns[2]),
                system: counter(columns[3]),
                idle: counter(columns[4]),
                iowait: counter(columns[5]),
                irq: counter(columns[6]),
                soft_irq: counter(columns[7]),
                steal: counter(columns[8]),
                guest: counter(columns[9]),
                guest_nice: counter(columns[10]),
            },
        )
    } else {
        None
    }
}

/// The processor times that a line of the `stat` file writes. A line that is
/// not valid UTF-8 writes none.
pub open spec fn line_cpu_time(line: Seq<u8>) -> Option<CpuTime> {
    if valid_utf8(line) {
        cpu_time_of(line)
    } else {
        None
    }
}

/// Whether a line starts with `cpu`.
pub open spec fn is_cpu_line(line: Seq<u8>) -> bool {
    has_prefix(line, "cpu".spec_bytes())
}

/// Whether the first three bytes of a line of text can be looked at: the
/// line has them, and no character lies across their end.
pub open spec fn has_label(line: Seq<u8>) -> bool {
    line.len() >= 3 && is_char_boundary(line, 3)
}

/// Whether the label of every line that is read can be looked at. The lines
/// are read in order up to the first whose label is not `cpu`; a line that
/// is not valid UTF-8 is passed over.
pub open spec fn labels_can_be_read(ls: Seq<Seq<u8>>) -> bool
    decreases ls.len(),
{
    if ls.len() == 0 {
        true
    } else if !valid_utf8(ls[0]) {
        labels_can_be_read(ls.skip(1))
    } else if !has_label(ls[0]) {
        false
    } else if !is_cpu_line(ls[0]) {
        true
    } else {
        labels_can_be_read(ls.skip(1))
    }
}

/// The processor times of the leading lines that start with `cpu`, in order.
/// The first line of text that does not start so ends the list. A line that
/// is not valid UTF-8 is passed over, and a line that writes no times is left
/// out.
pub open spec fn cpu_times_of(ls: Seq<Seq<u8>>) -> Seq<CpuTime>
    decreases ls.len(),
{
    if ls.len() == 0 {
        Seq::empty()
    } else if !valid_utf8(ls[0]) {
        cpu_times_of(ls.skip(1))
    } else if !is_cpu_line(ls[0]) {
        Seq::empty()
    } else {
        match cpu_time_of(ls[0]) {
            Some(t) => seq![t] + cpu_times_of(ls.skip(1)),
            None => cpu_times_of(ls.skip(1)),
        }
    }
}

/// Whether `cpu_time` can be asked for the times of a `stat` file: the label
/// of every line that it reads after the first can be looked at.
pub open spec fn can_read_cpu_times(stat: Seq<u8>) -> bool {
    lines(stat).len() > 0 ==> labels_can_be_read(lines(stat).skip(1))
}

/// The count that a column writes.
fn read_counter(columns: &Vec<Vec<u8>>, i: usize) -> (r: u64)
    requires
        i < columns.len(),
    ensures
        r == counter(byte_views(columns@)[i as int]),
{
    match parse_u64(columns[i].as_slice()) {
        Some(v) => v,
        None => 0,
    }
}

/// Reads the processor times from a text in UTF-8.
fn decode_text(text: &[u8]) -> (r: Option<CpuTime>)
    ensures
        r == cpu_time_of(text@),
{
    let columns = split_tokens(text);
    if columns.len() >= 11 {
        Some(
            CpuTime {
                user: read_counter(&columns, 1),
                nice: read_counter(&columns, 2),
                system: read_counter(&columns, 3),
                idle: read_counter(&columns, 4),
                iowait: read_counter(&columns, 5),
                irq: read_counter(&columns, 6),
                soft_irq: read_counter(&columns, 7),
                steal: read_counter(&columns, 8),
                guest: read_counter(&columns, 9),
                guest_nice: read_counter(&columns, 10),
            },
        )
    } else {
        None
    }
}

impl CpuTime {
    /// Reads the processor times from a line of the `stat` file, such as
    /// `cpu  13935784 23594 4431910 129425881 49388 0 115234 0 0 0`. The
    /// columns are parted by Unicode white space.
    pub fn decode(input: &str) -> (r: Option<CpuTime>)
        ensures
            r == cpu_time_of(input.spec_bytes()),
            r == line_cpu_time(input.spec_bytes()),
    {
        decode_text(input.as_bytes())
    }

    /// Reads the processor times from the bytes of a line of the `stat`
    /// file. Bytes that are not valid UTF-8 write none.
    pub fn decode_bytes(line: &[u8]) -> (r: Option<CpuTime>)
        ensures
            r == line_cpu_time(line@),
    {
        match utf8_text(line) {
            Ok(text) => CpuTime::decode(text),
            Err(_) => None,
        }
    }
}

/// The times of all processors together: those that the first line of the
/// `stat` file writes.
pub fn times(stat: &[u8]) -> (r: Option<CpuTime>)
    ensures
        r == if lines(stat@).len() > 0 {
            line_cpu_time(lines(stat@)[0])
        } else {
            None
        },
{
    let ls = split_lines(stat);
    if ls.len() > 0 {
        assert(byte_views(ls@)[0] == ls@[0]@);
        CpuTime::decode_bytes(ls[0].as_slice())
    } else {
        None
    }
}

/// Whether the label of the line of text `line` can be looked at.
fn label_can_be_read(text: &str) -> (r: bool)
    ensures
        r == has_label(text.spec_bytes()),
{
    text.as_bytes().len() >= 3 && text.is_char_boundary(3)
}

/// Whether `cpu_time` can be asked for the times of this `stat` file.
pub fn cpu_times_can_be_read(stat: &[u8]) -> (r: bool)
    ensures
        r == can_read_cpu_times(stat@),
{
    let ls = split_lines(stat);
    if ls.len() == 0 {
        return true;
    }
    let ghost all = lines(stat@);
    let mut i: usize = 1;
    while i < ls.len()
        invariant
            1 <= i <= ls.len(),
            all == lines(stat@),
            byte_views(ls@) == all,
            labels_can_be_read(all.skip(i as int)) == labels_can_be_read(all.skip(1)),
        decreases ls.len() - i,
    {
        proof {
            let rest = all.skip(i as int);
            assert(rest[0] == byte_views(ls@)[i as int]);
            assert(rest.skip(1) =~= all.skip(i + 1));
        }
        match utf8_text(ls[i].as_slice()) {
            Ok(text) => {
                if !label_can_be_read(text) {
                    return false;
                }
                if !starts_with(ls[i].as_slice(), "cpu".as_bytes()) {
                    return true;
                }
            },
            Err(_) => {},
        }
        i += 1;
    }
    assert(all.skip(i as int) =~= Seq::<Seq<u8>>::empty());
    true
}

/// The times of each processor: those of the lines that start with `cpu`
/// and follow the first line of the `stat` file.
pub fn cpu_time(stat: &[u8]) -> (r: Vec<CpuTime>)
    requires
        can_read_cpu_times(stat@),
    ensures
        r@ == if lines(stat@).len() > 0 {
            cpu_times_of(lines(stat@).skip(1))
        } else {
            Seq::empty()
        },
{
    let ls = split_lines(stat);
    let mut times: Vec<CpuTime> = Vec::new();
    if ls.len() == 0 {
        return times;
    }
    let ghost all = lines(stat@);
    let mut i: usize = 1;
    while i < ls.len()
        invariant
            1 <= i <= ls.len(),
            all == lines(stat@),
            byte_views(ls@) == all,
            times@ + cpu_times_of(all.skip(i as int)) == cpu_times_of(all.skip(1)),
        decreases ls.len() - i,
    {
        proof {
            let rest = all.skip(i as int);
            assert(rest[0] == byte_views(ls@)[i as int]);
            assert(rest.skip(1) =~= all.skip(i + 1));
        }
        match utf8_text(ls[i].as_slice()) {
            Ok(text) => {
                if !starts_with(ls[i].as_slice(), "cpu".as_bytes()) {
                    return times;
                }
                match CpuTime::decode(text) {
                    Some(t) => {
                        times.push(t);
                    },
                    None => {},
                }
            },
            Err(_) => {},
        }
        i += 1;
    }
    assert(all.skip(i as int) =~= Seq::<Seq<u8>>::empty());
    times
}

} // verus!

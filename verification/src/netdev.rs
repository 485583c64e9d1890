//! Fixed-column parser for `/proc/net/dev`-style counter tables: per
//! interface, the cumulative receive/transmit byte and packet counts.

use vstd::prelude::*;
use crate::text::{
    find_first, lines_of, parse_u64_or_zero, parsed_or_zero, split_at_first, split_lines, tokens,
    tokens_of, trim, trim_spec,
};

verus! {

/// Mathematical model of one row of the counter table.
pub ghost struct CountersSpec {
    pub name: Seq<u8>,
    pub receive_bytes: u64,
    pub receive_packets: u64,
    pub transmit_bytes: u64,
    pub transmit_packets: u64,
}

/// Cumulative traffic counters of one network interface. Counters whose
/// field could not be read as a number hold 0.
pub struct InterfaceCounters {
    pub name: Vec<u8>,
    pub receive_bytes: u64,
    pub receive_packets: u64,
    pub transmit_bytes: u64,
    pub transmit_packets: u64,
}

impl View for InterfaceCounters {
    type V = CountersSpec;

    open spec fn view(&self) -> CountersSpec {
        CountersSpec {
            name: self.name@,
            receive_bytes: self.receive_bytes,
            receive_packets: self.receive_packets,
            transmit_bytes: self.transmit_bytes,
            transmit_packets: self.transmit_packets,
        }
    }
}

/// The record a single data line yields: the line splits at its first colon
/// into the interface name (trimmed) and a data segment; the data segment
/// must hold at least 16 whitespace-separated fields, of which fields 0, 1,
/// 8 and 9 are read as receive bytes, receive packets, transmit bytes and
/// transmit packets, each 0 when unparseable. A line without a colon or with
/// fewer than 16 fields yields nothing.
pub open spec fn counter_record_of(line: Seq<u8>) -> Option<CountersSpec> {
    let c = find_first(line, 58);
    if c < 0 {
        None
    } else {
        let fields = tokens_of(line.skip(c + 1));
        if fields.len() >= 16 {
            Some(
                CountersSpec {
                    name: trim_spec(line.take(c)),
                    receive_bytes: parsed_or_zero(fields[0]),
                    receive_packets: parsed_or_zero(fields[1]),
                    transmit_bytes: parsed_or_zero(fields[8]),
                    transmit_packets: parsed_or_zero(fields[9]),
                },
            )
        } else {
            None
        }
    }
}

/// The records of a sequence of data lines, in line order, lines that yield
/// nothing omitted.
pub open spec fn counter_records_of(lines: Seq<Seq<u8>>) -> Seq<CountersSpec>
    decreases lines.len(),
{
    if lines.len() == 0 {
        Seq::empty()
    } else {
        let rest = counter_records_of(lines.drop_first());
        match counter_record_of(lines[0]) {
            Some(r) => seq![r] + rest,
            None => rest,
        }
    }
}

/// What parsing a whole counter table yields: the first two lines are
/// headers and are skipped unconditionally; every further line contributes
/// per `counter_record_of`.
pub open spec fn net_dev_records(input: Seq<u8>) -> Seq<CountersSpec> {
    let lines = lines_of(input);
    if lines.len() < 2 {
        Seq::empty()
    } else {
        counter_records_of(lines.skip(2))
    }
}

/// Reads one data line of the counter table.
fn counter_line(line: &[u8]) -> (r: Option<InterfaceCounters>)
    ensures
        match r {
            Some(c) => counter_record_of(line@) == Some(c@),
            None => counter_record_of(line@) is None,
        },
{
    match split_at_first(line, 58) {
        Some((before, after)) => {
            let fields = tokens(after.as_slice());
            if fields.len() >= 16 {
                let c = InterfaceCounters {
                    name: trim(before.as_slice()),
                    receive_bytes: parse_u64_or_zero(fields[0].as_slice()),
                    receive_packets: parse_u64_or_zero(fields[1].as_slice()),
                    transmit_bytes: parse_u64_or_zero(fields[8].as_slice()),
                    transmit_packets: parse_u64_or_zero(fields[9].as_slice()),
                };
                Some(c)
            } else {
                None
            }
        },
        None => None,
    }
}

/// Parses a `/proc/net/dev`-style counter table: skips the two header
/// lines, then yields one record per remaining line that has a colon and at
/// least 16 data fields, in line order.
pub fn parse_net_dev(input: &[u8]) -> (r: Vec<InterfaceCounters>)
    ensures
        r@.len() == net_dev_records(input@).len(),
        forall|k: int| 0 <= k < r@.len() ==> r@[k]@ == net_dev_records(input@)[k],
{
    let lines = split_lines(input);
    let ghost lv = lines_of(input@);
    let mut r: Vec<InterfaceCounters> = Vec::new();
    let ghost mut done: Seq<CountersSpec> = Seq::empty();
    let mut idx: usize = if lines.len() < 2 {
        lines.len()
    } else {
        2
    };
    proof {
        if lv.len() >= 2 {
            assert(net_dev_records(input@) == done + counter_records_of(lv.skip(idx as int)));
        } else {
            assert(lv.skip(idx as int) =~= Seq::<Seq<u8>>::empty());
        }
    }
    while idx < lines.len()
        invariant
            lines@.len() == lv.len(),
            forall|k: int| 0 <= k < lv.len() ==> lines@[k]@ == lv[k],
            lv == lines_of(input@),
            0 <= idx <= lv.len(),
            done.len() == r@.len(),
            forall|k: int| 0 <= k < r@.len() ==> r@[k]@ == done[k],
            net_dev_records(input@) == done + counter_records_of(lv.skip(idx as int)),
        decreases lv.len() - idx,
    {
        let ghost suffix = lv.skip(idx as int);
        proof {
            assert(suffix[0] == lv[idx as int]);
            assert(suffix.drop_first() =~= lv.skip(idx + 1));
        }
        match counter_line(lines[idx].as_slice()) {
            Some(c) => {
                proof {
                    done = done.push(c@);
                    assert(net_dev_records(input@) =~= done + counter_records_of(
                        lv.skip(idx + 1),
                    ));
                }
                r.push(c);
            },
            None => {},
        }
        idx = idx + 1;
    }
    proof {
        assert(lv.skip(idx as int) =~= Seq::<Seq<u8>>::empty());
        assert(net_dev_records(input@) =~= done);
    }
    r
}

} // verus!

//! Line-oriented parser for address-listing output (`ip addr show` style):
//! one record per interface block, fields populated incrementally.

use vstd::prelude::*;
use crate::text::{
    all_digits, contains_bytes, contains_seq, find_first, lines_of, split_at_first, split_lines,
    tokens, tokens_of, trim, trim_spec,
};

verus! {

/// Mathematical model of one interface record.
pub ghost struct InterfaceSpec {
    pub name: Seq<u8>,
    pub ipv4: Option<Seq<u8>>,
    pub ipv6: Option<Seq<u8>>,
    pub mac: Option<Seq<u8>>,
}

/// One network interface: its name and, where the listing shows them, its
/// IPv4 address, IPv6 address and MAC address.
pub struct NetworkInterface {
    pub name: Vec<u8>,
    pub ipv4: Option<Vec<u8>>,
    pub ipv6: Option<Vec<u8>>,
    pub mac: Option<Vec<u8>>,
}

impl View for NetworkInterface {
    type V = InterfaceSpec;

    open spec fn view(&self) -> InterfaceSpec {
        InterfaceSpec {
            name: self.name@,
            ipv4: match self.ipv4 {
                Some(v) => Some(v@),
                None => None,
            },
            ipv6: match self.ipv6 {
                Some(v) => Some(v@),
                None => None,
            },
            mac: match self.mac {
                Some(v) => Some(v@),
                None => None,
            },
        }
    }
}

/// The record an interface block starts from: no name, no addresses.
pub open spec fn empty_iface() -> InterfaceSpec {
    InterfaceSpec { name: Seq::empty(), ipv4: None, ipv6: None, mac: None }
}

/// A record is flushed into the output only once something was written to
/// it.
pub open spec fn iface_populated(c: InterfaceSpec) -> bool {
    c.name.len() > 0 || c.ipv4 is Some || c.ipv6 is Some || c.mac is Some
}

/// The bytes of `"inet "`, the marker of an IPv4 address line. The trailing
/// space keeps it from matching `inet6`.
pub open spec fn inet4_marker() -> Seq<u8> {
    seq![105u8, 110u8, 101u8, 116u8, 32u8]
}

/// The bytes of `"inet6 "`, the marker of an IPv6 address line.
pub open spec fn inet6_marker() -> Seq<u8> {
    seq![105u8, 110u8, 101u8, 116u8, 54u8, 32u8]
}

/// The bytes of `"link/"`, the marker of a hardware-address line.
pub open spec fn link_marker() -> Seq<u8> {
    seq![108u8, 105u8, 110u8, 107u8, 47u8]
}

/// Whether a line opens a new interface block: it has a colon, and the
/// part before the first colon is, after trimming, a non-empty decimal
/// number (the interface index).
pub open spec fn is_start_line(line: Seq<u8>) -> bool {
    let c = find_first(line, 58);
    0 <= c && trim_spec(line.take(c)).len() > 0 && all_digits(trim_spec(line.take(c)))
}

/// A token with one trailing colon removed, as the interface name token of
/// an address listing carries a colon separator.
pub open spec fn strip_colon_tail(t: Seq<u8>) -> Seq<u8> {
    if t.len() > 0 && t.last() == 58 {
        t.drop_last()
    } else {
        t
    }
}

/// The interface name a block-start line carries: the first
/// whitespace-separated token after the first colon, its trailing colon
/// separator removed; empty when nothing follows the colon.
pub open spec fn start_name(line: Seq<u8>) -> Seq<u8> {
    let c = find_first(line, 58);
    let toks = tokens_of(line.skip(c + 1));
    if toks.len() == 0 {
        Seq::empty()
    } else {
        strip_colon_tail(toks[0])
    }
}

/// The address fields a line writes into the current record: a line holding
/// `"inet "` writes its second token as the IPv4 address, one holding
/// `"inet6 "` the IPv6 address, one holding `"link/"` the MAC address. A
/// later write to the same field replaces an earlier one.
pub open spec fn addr_step(cur: InterfaceSpec, line: Seq<u8>) -> InterfaceSpec {
    let toks = tokens_of(line);
    let c1 = if contains_seq(line, inet4_marker()) && toks.len() >= 2 {
        InterfaceSpec { ipv4: Some(toks[1]), ..cur }
    } else {
        cur
    };
    let c2 = if contains_seq(line, inet6_marker()) && toks.len() >= 2 {
        InterfaceSpec { ipv6: Some(toks[1]), ..c1 }
    } else {
        c1
    };
    if contains_seq(line, link_marker()) && toks.len() >= 2 {
        InterfaceSpec { mac: Some(toks[1]), ..c2 }
    } else {
        c2
    }
}

/// One line of the listing applied to the parser state: a block-start line
/// first flushes the current record (if populated) and opens a fresh one
/// named after the line; then, independently, the line's address markers
/// write into the current record.
pub open spec fn line_step(cur: InterfaceSpec, out: Seq<InterfaceSpec>, line: Seq<u8>) -> (
    InterfaceSpec,
    Seq<InterfaceSpec>,
) {
    let (c1, o1) = if is_start_line(line) {
        (
            InterfaceSpec { name: start_name(line), ipv4: None, ipv6: None, mac: None },
            if iface_populated(cur) {
                out.push(cur)
            } else {
                out
            },
        )
    } else {
        (cur, out)
    };
    (addr_step(c1, line), o1)
}

/// Runs the parser over the remaining lines and flushes the final record at
/// end of input if it is populated.
pub open spec fn run_lines(lines: Seq<Seq<u8>>, cur: InterfaceSpec, out: Seq<InterfaceSpec>) -> Seq<
    InterfaceSpec,
>
    decreases lines.len(),
{
    if lines.len() == 0 {
        if iface_populated(cur) {
            out.push(cur)
        } else {
            out
        }
    } else {
        let (c1, o1) = line_step(cur, out, lines[0]);
        run_lines(lines.drop_first(), c1, o1)
    }
}

/// What parsing a whole address listing yields, in order of appearance.
pub open spec fn interface_records(input: Seq<u8>) -> Seq<InterfaceSpec> {
    run_lines(lines_of(input), empty_iface(), Seq::empty())
}

/// Runtime test for a non-empty all-digit byte string.
fn is_decimal(s: &[u8]) -> (r: bool)
    ensures
        r == (s@.len() > 0 && all_digits(s@)),
{
    s.len() > 0 && crate::text::check_digits(s)
}

/// Builds the `"inet "` marker.
fn inet4_pat() -> (r: Vec<u8>)
    ensures
        r@ == inet4_marker(),
{
    let mut r: Vec<u8> = Vec::new();
    r.push(105);
    r.push(110);
    r.push(101);
    r.push(116);
    r.push(32);
    proof {
        assert(r@ =~= inet4_marker());
    }
    r
}

/// Builds the `"inet6 "` marker.
fn inet6_pat() -> (r: Vec<u8>)
    ensures
        r@ == inet6_marker(),
{
    let mut r: Vec<u8> = Vec::new();
    r.push(105);
    r.push(110);
    r.push(101);
    r.push(116);
    r.push(54);
    r.push(32);
    proof {
        assert(r@ =~= inet6_marker());
    }
    r
}

/// Builds the `"link/"` marker.
fn link_pat() -> (r: Vec<u8>)
    ensures
        r@ == link_marker(),
{
    let mut r: Vec<u8> = Vec::new();
    r.push(108);
    r.push(105);
    r.push(110);
    r.push(107);
    r.push(47);
    proof {
        assert(r@ =~= link_marker());
    }
    r
}

/// Copies one token out of a token list.
fn token_copy(toks: &Vec<Vec<u8>>, i: usize) -> (r: Vec<u8>)
    requires
        i < toks@.len(),
    ensures
        r@ == toks@[i as int]@,
{
    let t = toks[i].as_slice();
    crate::text::copy_range(t, 0, t.len())
}

/// Parses an address listing into interface records, in order of
/// appearance: each block-start line (`<index>: <name>: ...`) opens a
/// record, the indented lines after it fill in addresses, and a record is
/// flushed when the next block starts or the input ends.
pub fn parse_interfaces(input: &[u8]) -> (r: Vec<NetworkInterface>)
    ensures
        r@.len() == interface_records(input@).len(),
        forall|k: int| 0 <= k < r@.len() ==> r@[k]@ == interface_records(input@)[k],
{
    let lines = split_lines(input);
    let ghost lv = lines_of(input@);
    let pat4 = inet4_pat();
    let pat6 = inet6_pat();
    let patl = link_pat();
    let mut r: Vec<NetworkInterface> = Vec::new();
    let ghost mut done: Seq<InterfaceSpec> = Seq::empty();
    let mut cur = NetworkInterface { name: Vec::new(), ipv4: None, ipv6: None, mac: None };
    let mut idx: usize = 0;
    proof {
        assert(lv.skip(0) =~= lv);
        assert(cur@ =~= empty_iface());
    }
    while idx < lines.len()
        invariant
            lines@.len() == lv.len(),
            forall|k: int| 0 <= k < lv.len() ==> lines@[k]@ == lv[k],
            lv == lines_of(input@),
            0 <= idx <= lv.len(),
            done.len() == r@.len(),
            forall|k: int| 0 <= k < r@.len() ==> r@[k]@ == done[k],
            pat4@ == inet4_marker(),
            pat6@ == inet6_marker(),
            patl@ == link_marker(),
            interface_records(input@) == run_lines(lv.skip(idx as int), cur@, done),
        decreases lv.len() - idx,
    {
        let ghost suffix = lv.skip(idx as int);
        let ghost cur0 = cur@;
        let ghost done0 = done;
        proof {
            assert(suffix[0] == lv[idx as int]);
            assert(suffix.drop_first() =~= lv.skip(idx + 1));
        }
        let line = lines[idx].as_slice();
        // Step 1: a block-start line flushes the current record and opens a
        // fresh one.
        match split_at_first(line, 58) {
            Some((before, after)) => {
                let pre = trim(before.as_slice());
                if is_decimal(pre.as_slice()) {
                    let populated = cur.name.len() > 0 || cur.ipv4.is_some() || cur.ipv6.is_some()
                        || cur.mac.is_some();
                    if populated {
                        proof {
                            done = done.push(cur@);
                        }
                        r.push(cur);
                    }
                    let toks_after = tokens(after.as_slice());
                    let mut name: Vec<u8>;
                    if toks_after.len() > 0 {
                        name = token_copy(&toks_after, 0);
                        if name.len() > 0 && name[name.len() - 1] == 58 {
                            name.pop();
                        }
                        proof {
                            assert(name@ =~= strip_colon_tail(toks_after@[0]@));
                        }
                    } else {
                        name = Vec::new();
                    }
                    cur = NetworkInterface { name, ipv4: None, ipv6: None, mac: None };
                    proof {
                        assert(is_start_line(lv[idx as int]));
                        assert(cur@.name =~= start_name(lv[idx as int]));
                    }
                } else {
                    proof {
                        assert(!is_start_line(lv[idx as int]));
                    }
                }
            },
            None => {
                proof {
                    assert(!is_start_line(lv[idx as int]));
                }
            },
        }
        // Step 2: address markers write into the current record.
        let toks = tokens(line);
        if contains_bytes(line, pat4.as_slice()) && toks.len() >= 2 {
            cur.ipv4 = Some(token_copy(&toks, 1));
        }
        if contains_bytes(line, pat6.as_slice()) && toks.len() >= 2 {
            cur.ipv6 = Some(token_copy(&toks, 1));
        }
        if contains_bytes(line, patl.as_slice()) && toks.len() >= 2 {
            cur.mac = Some(token_copy(&toks, 1));
        }
        proof {
            let (c1, o1) = line_step(cur0, done0, lv[idx as int]);
            assert(cur@ =~= addr_step(c1, lv[idx as int]));
            assert(done =~= o1);
        }
        idx = idx + 1;
    }
    let populated = cur.name.len() > 0 || cur.ipv4.is_some() || cur.ipv6.is_some()
        || cur.mac.is_some();
    if populated {
        proof {
            done = done.push(cur@);
        }
        r.push(cur);
    }
    proof {
        assert(lv.skip(idx as int) =~= Seq::<Seq<u8>>::empty());
        assert(interface_records(input@) =~= done);
    }
    r
}

} // verus!

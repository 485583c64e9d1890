//! Parser for `/proc/cpuinfo`-style text: `key: value` lines grouped into
//! blocks by blank lines, one record per distinct physical processor
//! package.

use vstd::prelude::*;
use crate::text::{
    all_digits, bytes_copy, bytes_eq, check_digits, dec_val, find_first, has_byte,
    lemma_dec_val_nonneg, lines_of, parse_u64, split_at_first, split_lines, trim, trim_spec,
};

verus! {

/// Mathematical model of one physical processor package.
pub ghost struct CpuSocketSpec {
    pub physical_id: Seq<u8>,
    pub model: Seq<u8>,
    pub vendor_id: Seq<u8>,
    pub frequency_mhz_milli: u64,
    pub logical_cpu_count: u64,
}

/// One physical processor package: its identifier, model and vendor
/// strings (`"Unknown"` when the block lacks them), its reported frequency
/// in thousandths of a MHz (0 when unparseable), and the host's total
/// logical CPU count.
pub struct CpuSocket {
    pub physical_id: Vec<u8>,
    pub model: Vec<u8>,
    pub vendor_id: Vec<u8>,
    pub frequency_mhz_milli: u64,
    pub logical_cpu_count: u64,
}

impl View for CpuSocket {
    type V = CpuSocketSpec;

    open spec fn view(&self) -> CpuSocketSpec {
        CpuSocketSpec {
            physical_id: self.physical_id@,
            model: self.model@,
            vendor_id: self.vendor_id@,
            frequency_mhz_milli: self.frequency_mhz_milli,
            logical_cpu_count: self.logical_cpu_count,
        }
    }
}

/// The bytes of the key `"physical id"`.
pub open spec fn key_physical_id() -> Seq<u8> {
    seq![112u8, 104u8, 121u8, 115u8, 105u8, 99u8, 97u8, 108u8, 32u8, 105u8, 100u8]
}

/// The bytes of the key `"model name"`.
pub open spec fn key_model_name() -> Seq<u8> {
    seq![109u8, 111u8, 100u8, 101u8, 108u8, 32u8, 110u8, 97u8, 109u8, 101u8]
}

/// The bytes of the key `"vendor_id"`.
pub open spec fn key_vendor_id() -> Seq<u8> {
    seq![118u8, 101u8, 110u8, 100u8, 111u8, 114u8, 95u8, 105u8, 100u8]
}

/// The bytes of the key `"cpu MHz"`.
pub open spec fn key_cpu_mhz() -> Seq<u8> {
    seq![99u8, 112u8, 117u8, 32u8, 77u8, 72u8, 122u8]
}

/// The bytes of the default string `"Unknown"`.
pub open spec fn default_unknown() -> Seq<u8> {
    seq![85u8, 110u8, 107u8, 110u8, 111u8, 119u8, 110u8]
}

/// The bytes of the default frequency field `"0"`.
pub open spec fn default_zero() -> Seq<u8> {
    seq![48u8]
}

/// The binding a key has in a block: the value of its last `key: value`
/// line, as a later line for the same key replaces an earlier one.
pub open spec fn block_lookup(block: Seq<(Seq<u8>, Seq<u8>)>, key: Seq<u8>) -> Option<Seq<u8>>
    decreases block.len(),
{
    if block.len() == 0 {
        None
    } else if block.last().0 == key {
        Some(block.last().1)
    } else {
        block_lookup(block.drop_last(), key)
    }
}

/// The binding a key has in a block, or a default when the block lacks it.
pub open spec fn lookup_or(block: Seq<(Seq<u8>, Seq<u8>)>, key: Seq<u8>, dflt: Seq<u8>) -> Seq<
    u8,
> {
    match block_lookup(block, key) {
        Some(v) => v,
        None => dflt,
    }
}

/// The fractional digits of a frequency field scaled to thousandths:
/// missing digits count as zero, digits beyond the third are dropped.
pub open spec fn frac_milli(f: Seq<u8>) -> int {
    if f.len() == 0 {
        0
    } else if f.len() == 1 {
        100 * dec_val(f)
    } else if f.len() == 2 {
        10 * dec_val(f)
    } else {
        dec_val(f.take(3))
    }
}

/// The frequency a `"cpu MHz"` field denotes, in thousandths of a MHz. The
/// field must be decimal digits, optionally followed by a dot and further
/// digits; anything else, or a value whose thousandths do not fit in a
/// `u64`, counts as 0.
pub open spec fn mhz_milli_of(s: Seq<u8>) -> u64 {
    let d = find_first(s, 46);
    if 0 <= d < s.len() {
        let ip = s.take(d);
        let fp = s.skip(d + 1);
        if ip.len() > 0 && all_digits(ip) && all_digits(fp) && 1000 * dec_val(ip) + frac_milli(fp)
            <= u64::MAX {
            (1000 * dec_val(ip) + frac_milli(fp)) as u64
        } else {
            0
        }
    } else {
        if s.len() > 0 && all_digits(s) && 1000 * dec_val(s) <= u64::MAX {
            (1000 * dec_val(s)) as u64
        } else {
            0
        }
    }
}

/// Whether some record in `out` already carries this physical id.
pub open spec fn has_id(out: Seq<CpuSocketSpec>, id: Seq<u8>) -> bool {
    exists|k: int| 0 <= k < out.len() && #[trigger] out[k].physical_id == id
}

/// The record a finished block yields for a physical id.
pub open spec fn socket_of_block(block: Seq<(Seq<u8>, Seq<u8>)>, id: Seq<u8>, count: u64) -> CpuSocketSpec {
    CpuSocketSpec {
        physical_id: id,
        model: lookup_or(block, key_model_name(), default_unknown()),
        vendor_id: lookup_or(block, key_vendor_id(), default_unknown()),
        frequency_mhz_milli: mhz_milli_of(lookup_or(block, key_cpu_mhz(), default_zero())),
        logical_cpu_count: count,
    }
}

/// Flushing a finished block: a block without a `physical id` key yields
/// nothing; one whose id was seen before is discarded (the first block per
/// id wins); otherwise its record is appended.
pub open spec fn flush_block(
    out: Seq<CpuSocketSpec>,
    block: Seq<(Seq<u8>, Seq<u8>)>,
    count: u64,
) -> Seq<CpuSocketSpec> {
    match block_lookup(block, key_physical_id()) {
        Some(id) => if has_id(out, id) {
            out
        } else {
            out.push(socket_of_block(block, id, count))
        },
        None => out,
    }
}

/// One line applied to the parser state: a blank line finishes the current
/// block; a `key: value` line stores the trimmed key and value in it; any
/// other line is ignored.
pub open spec fn cpu_line_step(
    block: Seq<(Seq<u8>, Seq<u8>)>,
    out: Seq<CpuSocketSpec>,
    line: Seq<u8>,
    count: u64,
) -> (Seq<(Seq<u8>, Seq<u8>)>, Seq<CpuSocketSpec>) {
    if trim_spec(line).len() == 0 {
        (Seq::empty(), flush_block(out, block, count))
    } else {
        let c = find_first(line, 58);
        if 0 <= c {
            (block.push((trim_spec(line.take(c)), trim_spec(line.skip(c + 1)))), out)
        } else {
            (block, out)
        }
    }
}

/// Runs the parser over the remaining lines; end of input acts as one
/// final blank line, so a trailing block is flushed exactly once.
pub open spec fn run_cpu_lines(
    lines: Seq<Seq<u8>>,
    block: Seq<(Seq<u8>, Seq<u8>)>,
    out: Seq<CpuSocketSpec>,
    count: u64,
) -> Seq<CpuSocketSpec>
    decreases lines.len(),
{
    if lines.len() == 0 {
        flush_block(out, block, count)
    } else {
        let (b1, o1) = cpu_line_step(block, out, lines[0], count);
        run_cpu_lines(lines.drop_first(), b1, o1, count)
    }
}

/// What parsing a whole `/proc/cpuinfo` text yields: one record per
/// distinct physical id, in order of first appearance, each carrying the
/// host's total logical CPU count.
pub open spec fn cpu_records(input: Seq<u8>, count: u64) -> Seq<CpuSocketSpec> {
    run_cpu_lines(lines_of(input), Seq::empty(), Seq::empty(), count)
}

/// The views of the entries of an executable block.
pub open spec fn entry_views(block: Seq<(Vec<u8>, Vec<u8>)>) -> Seq<(Seq<u8>, Seq<u8>)> {
    block.map_values(|p: (Vec<u8>, Vec<u8>)| (p.0@, p.1@))
}

/// Looks a key up in the current block, last binding first.
fn block_get<'a>(block: &'a Vec<(Vec<u8>, Vec<u8>)>, key: &[u8]) -> (r: Option<&'a Vec<u8>>)
    ensures
        match r {
            Some(v) => block_lookup(entry_views(block@), key@) == Some(v@),
            None => block_lookup(entry_views(block@), key@) is None,
        },
{
    let ghost bv = entry_views(block@);
    let mut i: usize = block.len();
    proof {
        assert(bv.take(i as int) =~= bv);
    }
    while i > 0
        invariant
            0 <= i <= block@.len(),
            bv == entry_views(block@),
            bv.len() == block@.len(),
            block_lookup(bv, key@) == block_lookup(bv.take(i as int), key@),
        decreases i,
    {
        proof {
            assert(bv[i - 1] == (block@[i - 1].0@, block@[i - 1].1@));
            assert(bv.take(i as int).last() == bv[i - 1]);
            assert(bv.take(i as int).drop_last() =~= bv.take(i - 1));
        }
        if bytes_eq(block[i - 1].0.as_slice(), key) {
            return Some(&block[i - 1].1);
        }
        i = i - 1;
    }
    proof {
        assert(bv.take(0) =~= Seq::<(Seq<u8>, Seq<u8>)>::empty());
    }
    None
}

/// Builds the key `"physical id"`.
fn physical_id_key() -> (r: Vec<u8>)
    ensures
        r@ == key_physical_id(),
{
    let mut r: Vec<u8> = Vec::new();
    r.push(112);
    r.push(104);
    r.push(121);
    r.push(115);
    r.push(105);
    r.push(99);
    r.push(97);
    r.push(108);
    r.push(32);
    r.push(105);
    r.push(100);
    proof {
        assert(r@ =~= key_physical_id());
    }
    r
}

/// Builds the key `"model name"`.
fn model_name_key() -> (r: Vec<u8>)
    ensures
        r@ == key_model_name(),
{
    let mut r: Vec<u8> = Vec::new();
    r.push(109);
    r.push(111);
    r.push(100);
    r.push(101);
    r.push(108);
    r.push(32);
    r.push(110);
    r.push(97);
    r.push(109);
    r.push(101);
    proof {
        assert(r@ =~= key_model_name());
    }
    r
}

/// Builds the key `"vendor_id"`.
fn vendor_id_key() -> (r: Vec<u8>)
    ensures
        r@ == key_vendor_id(),
{
    let mut r: Vec<u8> = Vec::new();
    r.push(118);
    r.push(101);
    r.push(110);
    r.push(100);
    r.push(111);
    r.push(114);
    r.push(95);
    r.push(105);
    r.push(100);
    proof {
        assert(r@ =~= key_vendor_id());
    }
    r
}

/// Builds the key `"cpu MHz"`.
fn cpu_mhz_key() -> (r: Vec<u8>)
    ensures
        r@ == key_cpu_mhz(),
{
    let mut r: Vec<u8> = Vec::new();
    r.push(99);
    r.push(112);
    r.push(117);
    r.push(32);
    r.push(77);
    r.push(72);
    r.push(122);
    proof {
        assert(r@ =~= key_cpu_mhz());
    }
    r
}

/// Builds the default string `"Unknown"`.
fn unknown_value() -> (r: Vec<u8>)
    ensures
        r@ == default_unknown(),
{
    let mut r: Vec<u8> = Vec::new();
    r.push(85);
    r.push(110);
    r.push(107);
    r.push(110);
    r.push(111);
    r.push(119);
    r.push(110);
    proof {
        assert(r@ =~= default_unknown());
    }
    r
}

/// Reads a frequency field as thousandths of a MHz, substituting 0 for
/// anything that is not digits optionally followed by a dot and digits, or
/// that does not fit.
pub fn parse_mhz_milli(s: &[u8]) -> (r: u64)
    ensures
        r == mhz_milli_of(s@),
{
    match split_at_first(s, 46) {
        Some((ip, fp)) => {
            let ghost d = find_first(s@, 46);
            if ip.len() == 0 || !check_digits(ip.as_slice()) || !check_digits(fp.as_slice()) {
                return 0;
            }
            let whole = match parse_u64(ip.as_slice()) {
                Some(v) => v,
                None => {
                    proof {
                        lemma_frac_milli_nonneg(fp@);
                        assert(1000 * dec_val(ip@) + frac_milli(fp@) > u64::MAX);
                    }
                    return 0;
                },
            };
            let frac = frac_milli_exec(fp.as_slice());
            proof {
                lemma_dec_val_nonneg(ip@);
            }
            let scaled = match whole.checked_mul(1000) {
                Some(v) => v,
                None => {
                    proof {
                        lemma_frac_milli_nonneg(fp@);
                    }
                    return 0;
                },
            };
            match scaled.checked_add(frac) {
                Some(v) => v,
                None => 0,
            }
        },
        None => {
            if s.len() == 0 || !check_digits(s) {
                return 0;
            }
            match parse_u64(s) {
                Some(v) => {
                    proof {
                        lemma_dec_val_nonneg(s@);
                    }
                    match v.checked_mul(1000) {
                        Some(w) => w,
                        None => 0,
                    }
                },
                None => 0,
            }
        },
    }
}

proof fn lemma_frac_milli_nonneg(f: Seq<u8>)
    requires
        all_digits(f),
    ensures
        0 <= frac_milli(f) <= 999,
{
    if f.len() == 0 {
    } else if f.len() == 1 {
        assert(f.drop_last() =~= Seq::<u8>::empty());
        assert(dec_val(Seq::<u8>::empty()) == 0);
        assert(dec_val(f) == 10 * dec_val(f.drop_last()) + (f.last() - 48));
    } else if f.len() == 2 {
        lemma_dec_val_digits2(f);
    } else {
        lemma_dec_val_digits3(f.take(3));
        assert(all_digits(f.take(3)));
    }
}

proof fn lemma_dec_val_digits2(f: Seq<u8>)
    requires
        f.len() == 2,
        all_digits(f),
    ensures
        dec_val(f) == 10 * (f[0] - 48) + (f[1] - 48),
{
    assert(f.drop_last().drop_last() =~= Seq::<u8>::empty());
    assert(dec_val(Seq::<u8>::empty()) == 0);
    assert(dec_val(f.drop_last()) == 10 * dec_val(f.drop_last().drop_last()) + (f.drop_last().last()
        - 48));
    assert(dec_val(f) == 10 * dec_val(f.drop_last()) + (f.last() - 48));
}

proof fn lemma_dec_val_digits3(f: Seq<u8>)
    requires
        f.len() == 3,
        all_digits(f),
    ensures
        dec_val(f) == 100 * (f[0] - 48) + 10 * (f[1] - 48) + (f[2] - 48),
{
    assert(f.drop_last().len() == 2);
    assert(all_digits(f.drop_last()));
    lemma_dec_val_digits2(f.drop_last());
    assert(dec_val(f) == 10 * dec_val(f.drop_last()) + (f.last() - 48));
}

/// Computes `frac_milli` of an all-digit field.
fn frac_milli_exec(f: &[u8]) -> (r: u64)
    requires
        all_digits(f@),
    ensures
        r == frac_milli(f@),
        r <= 999,
{
    proof {
        lemma_frac_milli_nonneg(f@);
    }
    if f.len() == 0 {
        0
    } else if f.len() == 1 {
        proof {
            assert(f@.drop_last() =~= Seq::<u8>::empty());
        }
        100 * ((f[0] - 48) as u64)
    } else if f.len() == 2 {
        proof {
            lemma_dec_val_digits2(f@);
        }
        100 * ((f[0] - 48) as u64) + 10 * ((f[1] - 48) as u64)
    } else {
        proof {
            lemma_dec_val_digits3(f@.take(3));
            assert(f@.take(3)[0] == f@[0]);
        }
        100 * ((f[0] - 48) as u64) + 10 * ((f[1] - 48) as u64) + ((f[2] - 48) as u64)
    }
}

/// Flushes a finished block into the record list.
fn flush_exec(out: &mut Vec<CpuSocket>, block: &Vec<(Vec<u8>, Vec<u8>)>, count: u64)
    ensures
        final(out)@.len() == flush_block(socket_views(old(out)@), entry_views(block@), count).len(),
        forall|k: int|
            0 <= k < final(out)@.len() ==> #[trigger] final(out)@[k]@ == flush_block(
                socket_views(old(out)@),
                entry_views(block@),
                count,
            )[k],
        forall|k: int| 0 <= k < old(out)@.len() ==> final(out)@[k] == old(out)@[k],
{
    let ghost outv = socket_views(out@);
    let key_pid = physical_id_key();
    let id = match block_get(block, key_pid.as_slice()) {
        Some(v) => bytes_copy(v.as_slice()),
        None => {
            return ;
        },
    };
    // first block per id wins: discard when the id was seen already
    let mut k: usize = 0;
    while k < out.len()
        invariant
            0 <= k <= out@.len(),
            out@ == old(out)@,
            outv == socket_views(out@),
            block_lookup(entry_views(block@), key_physical_id()) == Some(id@),
            outv.len() == out@.len(),
            forall|j: int| 0 <= j < k ==> #[trigger] outv[j].physical_id != id@,
        decreases out@.len() - k,
    {
        proof {
            assert(outv[k as int] == out@[k as int]@);
        }
        if bytes_eq(out[k].physical_id.as_slice(), id.as_slice()) {
            proof {
                assert(outv[k as int].physical_id == id@);
                assert(has_id(outv, id@));
            }
            return ;
        }
        k = k + 1;
    }
    proof {
        assert(!has_id(outv, id@));
    }
    let key_model = model_name_key();
    let model = match block_get(block, key_model.as_slice()) {
        Some(v) => bytes_copy(v.as_slice()),
        None => unknown_value(),
    };
    let key_vendor = vendor_id_key();
    let vendor = match block_get(block, key_vendor.as_slice()) {
        Some(v) => bytes_copy(v.as_slice()),
        None => unknown_value(),
    };
    let key_mhz = cpu_mhz_key();
    let freq = match block_get(block, key_mhz.as_slice()) {
        Some(v) => parse_mhz_milli(v.as_slice()),
        None => {
            proof {
                assert(default_zero().len() == 1);
                assert(!has_byte(default_zero(), 46));
                crate::text::lemma_find_first_none(default_zero(), 46);
                assert(default_zero().drop_last() =~= Seq::<u8>::empty());
                assert(dec_val(Seq::<u8>::empty()) == 0);
                assert(dec_val(default_zero()) == 10 * dec_val(default_zero().drop_last()) + (
                default_zero().last() - 48));
            }
            0u64
        },
    };
    let sock = CpuSocket {
        physical_id: id,
        model,
        vendor_id: vendor,
        frequency_mhz_milli: freq,
        logical_cpu_count: count,
    };
    proof {
        assert(sock@ =~= socket_of_block(entry_views(block@), sock.physical_id@, count));
    }
    out.push(sock);
    proof {
        assert(socket_views(out@) =~= outv.push(sock@));
    }
}

/// Flushing a block never writes a logical CPU count other than `count`.
proof fn lemma_flush_count(out: Seq<CpuSocketSpec>, block: Seq<(Seq<u8>, Seq<u8>)>, count: u64)
    requires
        forall|k: int| 0 <= k < out.len() ==> #[trigger] out[k].logical_cpu_count == count,
    ensures
        forall|k: int|
            0 <= k < flush_block(out, block, count).len() ==> #[trigger] flush_block(
                out,
                block,
                count,
            )[k].logical_cpu_count == count,
{
}

/// Every record the parser yields carries the logical CPU count it was
/// given.
proof fn lemma_run_count(
    lines: Seq<Seq<u8>>,
    block: Seq<(Seq<u8>, Seq<u8>)>,
    out: Seq<CpuSocketSpec>,
    count: u64,
)
    requires
        forall|k: int| 0 <= k < out.len() ==> #[trigger] out[k].logical_cpu_count == count,
    ensures
        forall|k: int|
            0 <= k < run_cpu_lines(lines, block, out, count).len() ==> #[trigger] run_cpu_lines(
                lines,
                block,
                out,
                count,
            )[k].logical_cpu_count == count,
    decreases lines.len(),
{
    if lines.len() == 0 {
        lemma_flush_count(out, block, count);
    } else {
        let (b1, o1) = cpu_line_step(block, out, lines[0], count);
        assert(run_cpu_lines(lines, block, out, count) == run_cpu_lines(
            lines.drop_first(),
            b1,
            o1,
            count,
        ));
        if trim_spec(lines[0]).len() == 0 {
            lemma_flush_count(out, block, count);
            assert(o1 == flush_block(out, block, count));
        } else {
            assert(o1 == out);
        }
        assert(forall|k: int| 0 <= k < o1.len() ==> #[trigger] o1[k].logical_cpu_count == count);
        lemma_run_count(lines.drop_first(), b1, o1, count);
    }
}

/// The views of the records of an executable record list.
pub open spec fn socket_views(s: Seq<CpuSocket>) -> Seq<CpuSocketSpec> {
    s.map_values(|c: CpuSocket| c@)
}

/// Parses `/proc/cpuinfo`-style text into one record per distinct physical
/// id, in order of first appearance. `count` is the host's total logical
/// CPU count and is attached identically to every record.
pub fn parse_cpu_info(input: &[u8], count: u64) -> (r: Vec<CpuSocket>)
    ensures
        r@.len() == cpu_records(input@, count).len(),
        forall|k: int| 0 <= k < r@.len() ==> r@[k]@ == cpu_records(input@, count)[k],
        forall|k: int| 0 <= k < r@.len() ==> r@[k]@.logical_cpu_count == count,
{
    let lines = split_lines(input);
    let ghost lv = lines_of(input@);
    let mut r: Vec<CpuSocket> = Vec::new();
    let mut block: Vec<(Vec<u8>, Vec<u8>)> = Vec::new();
    let mut idx: usize = 0;
    proof {
        assert(lv.skip(0) =~= lv);
        assert(entry_views(block@) =~= Seq::<(Seq<u8>, Seq<u8>)>::empty());
        assert(socket_views(r@) =~= Seq::<CpuSocketSpec>::empty());
    }
    while idx < lines.len()
        invariant
            lines@.len() == lv.len(),
            forall|k: int| 0 <= k < lv.len() ==> lines@[k]@ == lv[k],
            lv == lines_of(input@),
            0 <= idx <= lv.len(),
            socket_views(r@).len() == r@.len(),
            cpu_records(input@, count) == run_cpu_lines(
                lv.skip(idx as int),
                entry_views(block@),
                socket_views(r@),
                count,
            ),
        decreases lv.len() - idx,
    {
        let ghost suffix = lv.skip(idx as int);
        let ghost block0 = entry_views(block@);
        let ghost out0 = socket_views(r@);
        proof {
            assert(suffix[0] == lv[idx as int]);
            assert(suffix.drop_first() =~= lv.skip(idx + 1));
        }
        let line = lines[idx].as_slice();
        let trimmed = trim(line);
        if trimmed.len() == 0 {
            let old_block = block;
            block = Vec::new();
            flush_exec(&mut r, &old_block, count);
            proof {
                assert(entry_views(block@) =~= Seq::<(Seq<u8>, Seq<u8>)>::empty());
                assert(socket_views(r@) =~= flush_block(out0, block0, count));
            }
        } else {
            match split_at_first(line, 58) {
                Some((key, value)) => {
                    let k = trim(key.as_slice());
                    let v = trim(value.as_slice());
                    block.push((k, v));
                    proof {
                        assert(entry_views(block@) =~= block0.push(
                            (
                                trim_spec(lv[idx as int].take(find_first(lv[idx as int], 58))),
                                trim_spec(lv[idx as int].skip(find_first(lv[idx as int], 58) + 1)),
                            ),
                        ));
                    }
                },
                None => {},
            }
        }
        idx = idx + 1;
    }
    flush_exec(&mut r, &block, count);
    proof {
        assert(lv.skip(idx as int) =~= Seq::<Seq<u8>>::empty());
        assert(socket_views(r@) =~= cpu_records(input@, count));
        assert(forall|k: int|
            0 <= k < r@.len() ==> #[trigger] r@[k]@ == cpu_records(input@, count)[k]);
        lemma_run_count(lines_of(input@), Seq::empty(), Seq::empty(), count);
    }
    r
}

} // verus!

//! Human-readable rendering of memory sizes: byte counts as GiB strings
//! with two decimal places.

use vstd::prelude::*;

verus! {

/// The decimal digits of a non-negative number, most significant first.
pub open spec fn dec_digits(n: int) -> Seq<u8>
    decreases n,
{
    if n < 10 {
        seq![(48 + n) as u8]
    } else {
        dec_digits(n / 10).push((48 + n % 10) as u8)
    }
}

/// A byte count in hundredths of a GiB, rounded to nearest with halves
/// rounded up.
pub open spec fn gib_hundredths(bytes: u64) -> int {
    (bytes * 100 + 536870912) / 1073741824
}

/// The bytes of the unit suffix `"GiB"`.
pub open spec fn gib_unit() -> Seq<u8> {
    seq![71u8, 105u8, 66u8]
}

/// A byte count rendered as a GiB string with two decimal places: the
/// whole GiB in decimal, a dot, the hundredths as two digits, and the unit
/// suffix.
pub open spec fn gib_string_spec(bytes: u64) -> Seq<u8> {
    let h = gib_hundredths(bytes);
    dec_digits(h / 100) + seq![46u8, (48 + (h / 10) % 10) as u8, (48 + h % 10) as u8] + gib_unit()
}

/// A used/total pair rendered as two GiB strings joined by a slash.
pub open spec fn mem_usage_spec(used: u64, total: u64) -> Seq<u8> {
    gib_string_spec(used) + seq![47u8] + gib_string_spec(total)
}

/// Renders a number in decimal.
pub fn render_u64(n: u64) -> (r: Vec<u8>)
    ensures
        r@ == dec_digits(n as int),
    decreases n,
{
    if n < 10 {
        let mut r: Vec<u8> = Vec::new();
        r.push(48 + (n as u8));
        proof {
            assert(r@ =~= dec_digits(n as int));
        }
        r
    } else {
        let mut r = render_u64(n / 10);
        r.push(48 + ((n % 10) as u8));
        proof {
            assert(r@ =~= dec_digits(n as int));
        }
        r
    }
}

/// Computes a byte count's hundredths of a GiB.
fn gib_hundredths_exec(bytes: u64) -> (h: u64)
    ensures
        h == gib_hundredths(bytes),
{
    let wide: u128 = (bytes as u128) * 100 + 536870912;
    proof {
        assert(wide < 0x400000000000000000000000);
        assert(wide / 1073741824 < 0x10000000000000000) by (nonlinear_arith)
            requires
                wide < 0x400000000000000000000000,
        ;
    }
    (wide / 1073741824) as u64
}

/// Renders a byte count as a GiB string with two decimal places, rounded
/// to the nearest hundredth with halves rounded up.
pub fn format_gib(bytes: u64) -> (r: Vec<u8>)
    ensures
        r@ == gib_string_spec(bytes),
{
    let h = gib_hundredths_exec(bytes);
    let mut r = render_u64(h / 100);
    r.push(46);
    r.push(48 + (((h / 10) % 10) as u8));
    r.push(48 + ((h % 10) as u8));
    r.push(71);
    r.push(105);
    r.push(66);
    proof {
        assert(r@ =~= gib_string_spec(bytes));
    }
    r
}

/// Renders used and total memory as `"<used>GiB/<total>GiB"` with two
/// decimal places each.
pub fn mem_usage_string(used: u64, total: u64) -> (r: Vec<u8>)
    ensures
        r@ == mem_usage_spec(used, total),
{
    let mut r = format_gib(used);
    r.push(47);
    let t = format_gib(total);
    let mut i: usize = 0;
    while i < t.len()
        invariant
            0 <= i <= t@.len(),
            r@ == gib_string_spec(used) + seq![47u8] + t@.take(i as int),
            t@ == gib_string_spec(total),
        decreases t@.len() - i,
    {
        r.push(t[i]);
        proof {
            assert(r@ =~= gib_string_spec(used) + seq![47u8] + t@.take(i + 1));
        }
        i = i + 1;
    }
    proof {
        assert(t@.take(t@.len() as int) =~= t@);
        assert(r@ =~= mem_usage_spec(used, total));
    }
    r
}

} // verus!

//! Byte-level text utilities shared by the parsers: whitespace tests,
//! searching, trimming, tokenizing and decimal parsing.

use vstd::prelude::*;

verus! {

/// ASCII whitespace: space, tab, line feed, vertical tab, form feed,
/// carriage return.
pub open spec fn is_space(b: u8) -> bool {
    b == 32 || b == 9 || b == 10 || b == 11 || b == 12 || b == 13
}

/// Runtime test for `is_space`.
pub fn is_space_byte(b: u8) -> (r: bool)
    ensures
        r == is_space(b),
{
    b == 32 || b == 9 || b == 10 || b == 11 || b == 12 || b == 13
}

/// Whether the byte `b` occurs anywhere in `s`.
pub open spec fn has_byte(s: Seq<u8>, b: u8) -> bool {
    exists|i: int| 0 <= i < s.len() && s[i] == b
}

/// The index of the first occurrence of `b` in `s`, or `None` when `b` does
/// not occur.
pub fn find_byte(s: &[u8], b: u8) -> (r: Option<usize>)
    ensures
        match r {
            Some(i) => i < s@.len() && s@[i as int] == b && forall|j: int| 0 <= j < i ==> s@[j] != b,
            None => !has_byte(s@, b),
        },
{
    let mut i: usize = 0;
    while i < s.len()
        invariant
            0 <= i <= s@.len(),
            forall|j: int| 0 <= j < i ==> s@[j] != b,
        decreases s@.len() - i,
    {
        if s[i] == b {
            return Some(i);
        }
        i = i + 1;
    }
    None
}

/// `s` with its leading ASCII whitespace removed.
pub open spec fn trim_start_spec(s: Seq<u8>) -> Seq<u8>
    decreases s.len(),
{
    if s.len() > 0 && is_space(s[0]) {
        trim_start_spec(s.drop_first())
    } else {
        s
    }
}

/// `s` with its trailing ASCII whitespace removed.
pub open spec fn trim_end_spec(s: Seq<u8>) -> Seq<u8>
    decreases s.len(),
{
    if s.len() > 0 && is_space(s[s.len() - 1]) {
        trim_end_spec(s.drop_last())
    } else {
        s
    }
}

/// `s` with both leading and trailing ASCII whitespace removed.
pub open spec fn trim_spec(s: Seq<u8>) -> Seq<u8> {
    trim_end_spec(trim_start_spec(s))
}

proof fn lemma_trim_start_skip(s: Seq<u8>, lo: int)
    requires
        0 <= lo <= s.len(),
        forall|j: int| 0 <= j < lo ==> is_space(s[j]),
        lo == s.len() || !is_space(s[lo]),
    ensures
        trim_start_spec(s) == s.skip(lo),
    decreases lo,
{
    if lo == 0 {
        assert(s.skip(0) =~= s);
    } else {
        lemma_trim_start_skip(s.drop_first(), lo - 1);
        assert(s.drop_first().skip(lo - 1) =~= s.skip(lo));
    }
}

proof fn lemma_trim_end_take(s: Seq<u8>, hi: int)
    requires
        0 <= hi <= s.len(),
        forall|j: int| hi <= j < s.len() ==> is_space(s[j]),
        hi == 0 || !is_space(s[hi - 1]),
    ensures
        trim_end_spec(s) == s.take(hi),
    decreases s.len() - hi,
{
    if hi == s.len() {
        assert(s.take(hi) =~= s);
    } else {
        lemma_trim_end_take(s.drop_last(), hi);
        assert(s.drop_last().take(hi) =~= s.take(hi));
    }
}

/// Copies the bytes `s[lo..hi]` into a fresh vector.
pub fn copy_range(s: &[u8], lo: usize, hi: usize) -> (r: Vec<u8>)
    requires
        lo <= hi <= s@.len(),
    ensures
        r@ == s@.subrange(lo as int, hi as int),
{
    let mut r: Vec<u8> = Vec::new();
    let mut i: usize = lo;
    while i < hi
        invariant
            lo <= i <= hi <= s@.len(),
            r@ == s@.subrange(lo as int, i as int),
        decreases hi - i,
    {
        r.push(s[i]);
        proof {
            assert(r@ =~= s@.subrange(lo as int, i + 1 as int));
        }
        i = i + 1;
    }
    r
}

/// Removes leading and trailing ASCII whitespace from `s`.
pub fn trim(s: &[u8]) -> (r: Vec<u8>)
    ensures
        r@ == trim_spec(s@),
{
    let mut lo: usize = 0;
    while lo < s.len() && is_space_byte(s[lo])
        invariant
            0 <= lo <= s@.len(),
            forall|j: int| 0 <= j < lo ==> is_space(s@[j]),
        decreases s@.len() - lo,
    {
        lo = lo + 1;
    }
    proof {
        lemma_trim_start_skip(s@, lo as int);
    }
    let mut hi: usize = s.len();
    while hi > lo && is_space_byte(s[hi - 1])
        invariant
            lo <= hi <= s@.len(),
            forall|j: int| hi <= j < s@.len() ==> is_space(s@[j]),
        decreases hi,
    {
        hi = hi - 1;
    }
    proof {
        assert(forall|j: int| hi - lo <= j < s@.skip(lo as int).len() ==> is_space(
            #[trigger] s@.skip(lo as int)[j],
        ));
        lemma_trim_end_take(s@.skip(lo as int), hi - lo);
        assert(s@.skip(lo as int).take(hi - lo) =~= s@.subrange(lo as int, hi as int));
    }
    copy_range(s, lo, hi)
}

/// The index of the first occurrence of `b` in `s`, or -1 when `b` does not
/// occur.
pub open spec fn find_first(s: Seq<u8>, b: u8) -> int
    decreases s.len(),
{
    if s.len() == 0 {
        -1
    } else if s[0] == b {
        0
    } else if find_first(s.drop_first(), b) < 0 {
        -1
    } else {
        1 + find_first(s.drop_first(), b)
    }
}

pub proof fn lemma_find_first_at(s: Seq<u8>, b: u8, i: int)
    requires
        0 <= i < s.len(),
        s[i] == b,
        forall|j: int| 0 <= j < i ==> s[j] != b,
    ensures
        find_first(s, b) == i,
    decreases i,
{
    if i > 0 {
        lemma_find_first_at(s.drop_first(), b, i - 1);
    }
}

pub proof fn lemma_find_first_none(s: Seq<u8>, b: u8)
    requires
        !has_byte(s, b),
    ensures
        find_first(s, b) == -1,
    decreases s.len(),
{
    if s.len() > 0 {
        assert(forall|i: int|
            0 <= i < s.drop_first().len() ==> #[trigger] s.drop_first()[i] == s[i + 1]);
        lemma_find_first_none(s.drop_first(), b);
    }
}

/// Splits `s` at the first occurrence of `b` into the part before and the
/// part after, neither side containing that occurrence. `None` when `b` does
/// not occur in `s`.
pub fn split_at_first(s: &[u8], b: u8) -> (r: Option<(Vec<u8>, Vec<u8>)>)
    ensures
        match r {
            Some(p) => {
                let n = find_first(s@, b);
                0 <= n < s@.len() && p.0@ == s@.take(n) && p.1@ == s@.skip(n + 1)
            },
            None => find_first(s@, b) == -1,
        },
{
    match find_byte(s, b) {
        Some(i) => {
            proof {
                lemma_find_first_at(s@, b, i as int);
            }
            let n = s.len();
            let before = copy_range(s, 0, i);
            let after = copy_range(s, i + 1, n);
            proof {
                assert(before@ =~= s@.take(i as int));
                assert(after@ =~= s@.skip(i + 1));
            }
            Some((before, after))
        },
        None => {
            proof {
                lemma_find_first_none(s@, b);
            }
            None
        },
    }
}

/// A line with a trailing carriage return stripped, as a line ending of
/// carriage return plus line feed leaves one.
pub open spec fn strip_cr(l: Seq<u8>) -> Seq<u8> {
    if l.len() > 0 && l.last() == 13 {
        l.drop_last()
    } else {
        l
    }
}

/// The lines of `s`: split at each line feed, with a carriage return
/// directly before a line feed stripped. A final line ending is optional; a
/// trailing bare carriage return stays part of the last line.
pub open spec fn lines_of(s: Seq<u8>) -> Seq<Seq<u8>>
    decreases s.len(),
{
    if s.len() == 0 {
        Seq::empty()
    } else {
        let n = find_first(s, 10);
        if 0 <= n < s.len() {
            seq![strip_cr(s.take(n))] + lines_of(s.skip(n + 1))
        } else {
            seq![s]
        }
    }
}

/// Splits `s` into its lines.
pub fn split_lines(s: &[u8]) -> (r: Vec<Vec<u8>>)
    ensures
        r@.len() == lines_of(s@).len(),
        forall|k: int| 0 <= k < r@.len() ==> r@[k]@ == lines_of(s@)[k],
{
    let mut r: Vec<Vec<u8>> = Vec::new();
    let ghost mut done: Seq<Seq<u8>> = Seq::empty();
    let mut i: usize = 0;
    proof {
        assert(s@.skip(0) =~= s@);
    }
    while i < s.len()
        invariant
            0 <= i <= s@.len(),
            done.len() == r@.len(),
            forall|k: int| 0 <= k < r@.len() ==> r@[k]@ == done[k],
            lines_of(s@) == done + lines_of(s@.skip(i as int)),
        decreases s@.len() - i,
    {
        let mut j: usize = i;
        while j < s.len() && s[j] != 10
            invariant
                i <= j <= s@.len(),
                forall|k: int| i <= k < j ==> s@[k] != 10,
            decreases s@.len() - j,
        {
            j = j + 1;
        }
        let ghost suffix = s@.skip(i as int);
        if j < s.len() {
            proof {
                assert(forall|k: int| 0 <= k < j - i ==> suffix[k] == s@[i + k]);
                lemma_find_first_at(suffix, 10, j - i);
            }
            let mut end = j;
            if j > i && s[j - 1] == 13 {
                end = j - 1;
            }
            let line = copy_range(s, i, end);
            proof {
                assert(suffix.take(j - i) =~= s@.subrange(i as int, j as int));
                assert(line@ =~= strip_cr(suffix.take(j - i)));
                assert(suffix.skip(j - i + 1) =~= s@.skip(j + 1));
                done = done.push(line@);
                assert(lines_of(s@) =~= done + lines_of(s@.skip(j + 1)));
            }
            r.push(line);
            i = j + 1;
        } else {
            proof {
                assert(forall|k: int| 0 <= k < suffix.len() ==> suffix[k] == s@[i + k]);
                assert(!has_byte(suffix, 10));
                lemma_find_first_none(suffix, 10);
            }
            let line = copy_range(s, i, s.len());
            proof {
                assert(line@ =~= suffix);
                done = done.push(line@);
                assert(s@.skip(s@.len() as int) =~= Seq::<u8>::empty());
                assert(lines_of(s@) =~= done + lines_of(s@.skip(s@.len() as int)));
            }
            r.push(line);
            i = s.len();
        }
    }
    proof {
        assert(s@.skip(i as int) =~= Seq::<u8>::empty());
        assert(lines_of(s@) =~= done);
    }
    r
}

/// The whitespace-separated tokens of `s`, in order of appearance.
pub open spec fn tokens_of(s: Seq<u8>) -> Seq<Seq<u8>>
    decreases s.len(),
{
    if s.len() == 0 {
        Seq::empty()
    } else if is_space(s[0]) {
        tokens_of(s.drop_first())
    } else if s.len() == 1 || is_space(s[1]) {
        seq![seq![s[0]]] + tokens_of(s.drop_first())
    } else {
        let rest = tokens_of(s.drop_first());
        seq![seq![s[0]] + rest[0]] + rest.drop_first()
    }
}

/// A maximal run of non-whitespace bytes `s[i..j]` is the next token of
/// `s.skip(i)`, followed by the tokens of `s.skip(j)`.
proof fn lemma_token_prefix(s: Seq<u8>, i: int, j: int)
    requires
        0 <= i < j <= s.len(),
        forall|k: int| i <= k < j ==> !is_space(s[k]),
        j == s.len() || is_space(s[j]),
    ensures
        tokens_of(s.skip(i)) == seq![s.subrange(i, j)] + tokens_of(s.skip(j)),
    decreases j - i,
{
    let t = s.skip(i);
    assert(t[0] == s[i]);
    if j == i + 1 {
        assert(t.drop_first() =~= s.skip(j));
        if t.len() > 1 {
            assert(t[1] == s[j]);
        }
        assert(seq![t[0]] =~= s.subrange(i, j));
        assert(tokens_of(t) =~= seq![s.subrange(i, j)] + tokens_of(s.skip(j)));
    } else {
        assert(t[1] == s[i + 1]);
        lemma_token_prefix(s, i + 1, j);
        assert(t.drop_first() =~= s.skip(i + 1));
        let rest = tokens_of(s.skip(i + 1));
        assert(rest[0] == s.subrange(i + 1, j));
        assert(rest.drop_first() == tokens_of(s.skip(j)));
        assert(seq![t[0]] + rest[0] =~= s.subrange(i, j));
        assert(tokens_of(t) =~= seq![s.subrange(i, j)] + tokens_of(s.skip(j)));
    }
}

/// Splits `s` into its whitespace-separated tokens.
pub fn tokens(s: &[u8]) -> (r: Vec<Vec<u8>>)
    ensures
        r@.len() == tokens_of(s@).len(),
        forall|k: int| 0 <= k < r@.len() ==> r@[k]@ == tokens_of(s@)[k],
{
    let mut r: Vec<Vec<u8>> = Vec::new();
    let ghost mut done: Seq<Seq<u8>> = Seq::empty();
    let mut i: usize = 0;
    proof {
        assert(s@.skip(0) =~= s@);
    }
    while i < s.len()
        invariant
            0 <= i <= s@.len(),
            done.len() == r@.len(),
            forall|k: int| 0 <= k < r@.len() ==> r@[k]@ == done[k],
            tokens_of(s@) == done + tokens_of(s@.skip(i as int)),
        decreases s@.len() - i,
    {
        if is_space_byte(s[i]) {
            proof {
                assert(s@.skip(i as int).drop_first() =~= s@.skip(i + 1));
            }
            i = i + 1;
        } else {
            let mut j: usize = i + 1;
            while j < s.len() && !is_space_byte(s[j])
                invariant
                    i < j <= s@.len(),
                    forall|k: int| i <= k < j ==> !is_space(s@[k]),
                decreases s@.len() - j,
            {
                j = j + 1;
            }
            let t = copy_range(s, i, j);
            proof {
                lemma_token_prefix(s@, i as int, j as int);
                done = done.push(t@);
            }
            r.push(t);
            i = j;
        }
    }
    proof {
        assert(s@.skip(i as int) =~= Seq::<u8>::empty());
        assert(tokens_of(s@) == done);
    }
    r
}

/// Whether `pat` occurs as a contiguous run of bytes anywhere in `s`.
pub open spec fn contains_seq(s: Seq<u8>, pat: Seq<u8>) -> bool {
    exists|i: int| 0 <= i && i + pat.len() <= s.len() && #[trigger] s.subrange(i, i + pat.len())
        == pat
}

/// Substring search: whether `pat` occurs contiguously in `s`.
pub fn contains_bytes(s: &[u8], pat: &[u8]) -> (r: bool)
    ensures
        r == contains_seq(s@, pat@),
{
    if pat.len() > s.len() {
        return false;
    }
    let mut i: usize = 0;
    while i <= s.len() - pat.len()
        invariant
            pat@.len() <= s@.len(),
            0 <= i <= s@.len() - pat@.len() + 1,
            forall|k: int| 0 <= k < i ==> #[trigger] s@.subrange(k, k + pat@.len()) != pat@,
        decreases s@.len() - pat@.len() + 1 - i,
    {
        let end = i + pat.len();
        let mut m: usize = i;
        while m < end && s[m] == pat[m - i]
            invariant
                pat@.len() <= s@.len(),
                0 <= i <= s@.len() - pat@.len(),
                end == i + pat@.len(),
                i <= m <= end,
                forall|k: int| 0 <= k < m - i ==> s@[i + k] == pat@[k],
            decreases end - m,
        {
            m = m + 1;
        }
        if m == end {
            proof {
                assert(s@.subrange(i as int, i + pat@.len()) =~= pat@);
            }
            return true;
        }
        proof {
            assert(s@.subrange(i as int, i + pat@.len())[m - i] != pat@[m - i]);
        }
        i = i + 1;
    }
    false
}

/// Copies a byte string into a fresh vector.
pub fn bytes_copy(s: &[u8]) -> (r: Vec<u8>)
    ensures
        r@ == s@,
{
    let r = copy_range(s, 0, s.len());
    proof {
        assert(r@ =~= s@);
    }
    r
}

/// Byte-for-byte equality of two byte strings.
pub fn bytes_eq(a: &[u8], b: &[u8]) -> (r: bool)
    ensures
        r == (a@ == b@),
{
    if a.len() != b.len() {
        return false;
    }
    let mut i: usize = 0;
    while i < a.len()
        invariant
            0 <= i <= a@.len(),
            a@.len() == b@.len(),
            forall|j: int| 0 <= j < i ==> a@[j] == b@[j],
        decreases a@.len() - i,
    {
        if a[i] != b[i] {
            return false;
        }
        i = i + 1;
    }
    proof {
        assert(a@ =~= b@);
    }
    true
}

/// Whether every byte of `s` is an ASCII decimal digit.
pub open spec fn all_digits(s: Seq<u8>) -> bool {
    forall|i: int| 0 <= i < s.len() ==> 48 <= #[trigger] s[i] <= 57
}

/// Runtime test for `all_digits`.
pub fn check_digits(s: &[u8]) -> (r: bool)
    ensures
        r == all_digits(s@),
{
    let mut i: usize = 0;
    while i < s.len()
        invariant
            0 <= i <= s@.len(),
            forall|j: int| 0 <= j < i ==> 48 <= #[trigger] s@[j] <= 57,
        decreases s@.len() - i,
    {
        if s[i] < 48 || s[i] > 57 {
            return false;
        }
        i = i + 1;
    }
    true
}

/// The number denoted by a sequence of ASCII decimal digits.
pub open spec fn dec_val(s: Seq<u8>) -> int
    decreases s.len(),
{
    if s.len() == 0 {
        0
    } else {
        10 * dec_val(s.drop_last()) + (s.last() - 48)
    }
}

/// Whether `s` denotes a decimal number that fits in a `u64`: non-empty, all
/// digits, value at most `u64::MAX`.
pub open spec fn valid_u64(s: Seq<u8>) -> bool {
    s.len() > 0 && all_digits(s) && dec_val(s) <= u64::MAX
}

pub proof fn lemma_dec_val_nonneg(s: Seq<u8>)
    requires
        all_digits(s),
    ensures
        dec_val(s) >= 0,
    decreases s.len(),
{
    if s.len() > 0 {
        lemma_dec_val_nonneg(s.drop_last());
    }
}

/// Appending further digits never decreases the denoted value.
proof fn lemma_dec_val_take_mono(s: Seq<u8>, k: int)
    requires
        all_digits(s),
        0 <= k <= s.len(),
    ensures
        dec_val(s.take(k)) <= dec_val(s),
    decreases s.len() - k,
{
    if k == s.len() {
        assert(s.take(k) =~= s);
    } else {
        assert(s.take(k + 1).drop_last() =~= s.take(k));
        assert(forall|i: int| 0 <= i < s.take(k).len() ==> s.take(k)[i] == s[i]);
        lemma_dec_val_nonneg(s.take(k));
        assert(dec_val(s.take(k + 1)) == 10 * dec_val(s.take(k)) + (s[k] - 48));
        lemma_dec_val_take_mono(s, k + 1);
    }
}

/// Parses `s` as an unsigned decimal number. Returns `None` when `s` is
/// empty, holds a byte that is not a digit, or denotes a value above
/// `u64::MAX`.
pub fn parse_u64(s: &[u8]) -> (r: Option<u64>)
    ensures
        match r {
            Some(v) => valid_u64(s@) && v == dec_val(s@),
            None => !valid_u64(s@),
        },
{
    if s.len() == 0 {
        return None;
    }
    let mut acc: u64 = 0;
    let mut i: usize = 0;
    proof {
        assert(s@.take(0) =~= Seq::<u8>::empty());
    }
    while i < s.len()
        invariant
            0 <= i <= s@.len(),
            all_digits(s@.take(i as int)),
            acc == dec_val(s@.take(i as int)),
        decreases s@.len() - i,
    {
        let b = s[i];
        if b < 48 || b > 57 {
            return None;
        }
        proof {
            assert(s@.take(i + 1).drop_last() =~= s@.take(i as int));
        }
        let shifted = match acc.checked_mul(10) {
            Some(v) => v,
            None => {
                proof {
                    if all_digits(s@) {
                        assert(s@.take(i + 1)[i as int] == s@[i as int]);
                        assert(dec_val(s@.take(i + 1)) > u64::MAX);
                        lemma_dec_val_take_mono(s@, i + 1);
                    }
                }
                return None;
            },
        };
        let next = match shifted.checked_add((b - 48) as u64) {
            Some(v) => v,
            None => {
                proof {
                    if all_digits(s@) {
                        assert(dec_val(s@.take(i + 1)) > u64::MAX);
                        lemma_dec_val_take_mono(s@, i + 1);
                    }
                }
                return None;
            },
        };
        proof {
            assert(forall|k: int| 0 <= k < i + 1 ==> 48 <= #[trigger] s@.take(i + 1)[k] <= 57);
        }
        acc = next;
        i = i + 1;
    }
    proof {
        assert(s@.take(i as int) =~= s@);
    }
    Some(acc)
}

/// The value a counter field takes: the denoted number when `s` is a
/// well-formed decimal that fits in a `u64`, and 0 otherwise.
pub open spec fn parsed_or_zero(s: Seq<u8>) -> u64 {
    if valid_u64(s) {
        dec_val(s) as u64
    } else {
        0
    }
}

/// Parses a counter field, substituting 0 for anything unparseable.
pub fn parse_u64_or_zero(s: &[u8]) -> (r: u64)
    ensures
        r == parsed_or_zero(s@),
{
    match parse_u64(s) {
        Some(v) => {
            proof {
                lemma_dec_val_nonneg(s@);
            }
            v
        },
        None => 0,
    }
}

} // verus!

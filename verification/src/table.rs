//! The persisted record table.
//!
//! One session's records are persisted as an ordered byte table: a header
//! row naming the three columns, then one row per record,
//! `index,seconds.fraction,rate` terminated by a newline. The fractional
//! part is exactly nine digits, so a row carries the duration in whole
//! nanoseconds. Rendering and parsing are both defined here, and parsing a
//! rendered table reproduces the records exactly.

use vstd::prelude::*;
use crate::record::ChunkRecord;

verus! {

pub const COMMA: u8 = 44;

pub const DOT: u8 = 46;

pub const NEWLINE: u8 = 10;

/// Digits of the fractional second column: one nanosecond resolution.
pub const FRAC_DIGITS: usize = 9;

/// A numeric field may carry at most this many digits; every value that
/// fits the record's fields stays well below it.
pub const MAX_FIELD_DIGITS: usize = 38;

pub open spec fn is_digit(b: u8) -> bool {
    48 <= b <= 57
}

pub open spec fn digit_byte(d: int) -> u8
    recommends
        0 <= d <= 9,
{
    (48 + d) as u8
}

pub open spec fn digit_val(b: u8) -> int {
    b - 48
}

pub open spec fn all_digits(s: Seq<u8>) -> bool {
    forall|i: int| 0 <= i < s.len() ==> is_digit(#[trigger] s[i])
}

pub open spec fn pow10(e: nat) -> nat
    decreases e,
{
    if e == 0 {
        1
    } else {
        10 * pow10((e - 1) as nat)
    }
}

/// Decimal digits of `n`, most significant first, no leading zeros.
pub open spec fn dec_bytes(n: nat) -> Seq<u8>
    decreases n,
{
    if n < 10 {
        seq![digit_byte(n as int)]
    } else {
        dec_bytes(n / 10).push(digit_byte((n % 10) as int))
    }
}

/// Decimal digits of `n` zero-padded on the left to exactly `width` digits.
pub open spec fn padded_bytes(n: nat, width: nat) -> Seq<u8>
    decreases width,
{
    if width == 0 {
        Seq::empty()
    } else {
        padded_bytes(n / 10, (width - 1) as nat).push(digit_byte((n % 10) as int))
    }
}

/// The numeric value of a digit string, most significant digit first.
pub open spec fn dec_val(s: Seq<u8>) -> int
    decreases s.len(),
{
    if s.len() == 0 {
        0
    } else {
        dec_val(s.drop_last()) * 10 + digit_val(s.last())
    }
}

/// Length of the longest run of digits at the front of `s`.
pub open spec fn digit_prefix_len(s: Seq<u8>) -> nat
    decreases s.len(),
{
    if s.len() > 0 && is_digit(s[0]) {
        (1 + digit_prefix_len(s.skip(1))) as nat
    } else {
        0
    }
}

/// The header row naming the three columns: the ASCII bytes of
/// `chunk_index,download_time_seconds,effective_data_rate_bps` and a
/// newline.
pub open spec fn header_bytes() -> Seq<u8> {
    seq![99u8, 104u8, 117u8, 110u8, 107u8, 95u8, 105u8, 110u8, 100u8, 101u8, 120u8, 44u8, 100u8, 111u8, 119u8, 110u8, 108u8, 111u8, 97u8, 100u8, 95u8, 116u8, 105u8, 109u8, 101u8, 95u8, 115u8, 101u8, 99u8, 111u8, 110u8, 100u8, 115u8, 44u8, 101u8, 102u8, 102u8, 101u8, 99u8, 116u8, 105u8, 118u8, 101u8, 95u8, 100u8, 97u8, 116u8, 97u8, 95u8, 114u8, 97u8, 116u8, 101u8, 95u8, 98u8, 112u8, 115u8, 10u8]
}

/// One record's row: `index,seconds.fraction,rate` and a newline.
pub open spec fn row_bytes(r: ChunkRecord) -> Seq<u8> {
    dec_bytes(r.index as nat) + seq![COMMA] + dec_bytes((r.duration_nanos / 1_000_000_000) as nat)
        + seq![DOT] + padded_bytes((r.duration_nanos % 1_000_000_000) as nat, FRAC_DIGITS as nat)
        + seq![COMMA] + dec_bytes(r.effective_rate_bps as nat) + seq![NEWLINE]
}

/// The rows of the records, in order.
pub open spec fn rows_bytes(records: Seq<ChunkRecord>) -> Seq<u8>
    decreases records.len(),
{
    if records.len() == 0 {
        Seq::empty()
    } else {
        row_bytes(records[0]) + rows_bytes(records.skip(1))
    }
}

/// The whole persisted table: header row first, then one row per record.
pub open spec fn table_bytes(records: Seq<ChunkRecord>) -> Seq<u8> {
    header_bytes() + rows_bytes(records)
}

// ---------------------------------------------------------------------
// Rendering
// ---------------------------------------------------------------------

/// Appends the decimal digits of `n`.
fn push_dec(out: &mut Vec<u8>, n: u128)
    ensures
        final(out)@ == old(out)@ + dec_bytes(n as nat),
    decreases n,
{
    if n < 10 {
        out.push(48 + n as u8);
        proof {
            assert(final(out)@ =~= old(out)@ + dec_bytes(n as nat));
        }
    } else {
        push_dec(out, n / 10);
        out.push(48 + (n % 10) as u8);
        proof {
            assert((n as nat) / 10 == (n / 10) as nat);
            assert(final(out)@ =~= old(out)@ + dec_bytes(n as nat));
        }
    }
}

/// Appends `n` zero-padded to exactly `width` digits.
fn push_padded(out: &mut Vec<u8>, n: u64, width: usize)
    ensures
        final(out)@ == old(out)@ + padded_bytes(n as nat, width as nat),
    decreases width,
{
    if width == 0 {
        proof {
            assert(final(out)@ =~= old(out)@ + padded_bytes(n as nat, 0));
        }
    } else {
        push_padded(out, n / 10, width - 1);
        out.push(48 + (n % 10) as u8);
        proof {
            assert((n as nat) / 10 == (n / 10) as nat);
            assert(final(out)@ =~= old(out)@ + padded_bytes(n as nat, width as nat));
        }
    }
}

/// Appends one record's row.
fn push_row(out: &mut Vec<u8>, r: &ChunkRecord)
    ensures
        final(out)@ == old(out)@ + row_bytes(*r),
{
    push_dec(out, r.index as u128);
    out.push(COMMA);
    push_dec(out, (r.duration_nanos / 1_000_000_000) as u128);
    out.push(DOT);
    push_padded(out, r.duration_nanos % 1_000_000_000, FRAC_DIGITS);
    out.push(COMMA);
    push_dec(out, r.effective_rate_bps);
    out.push(NEWLINE);
    proof {
        assert(final(out)@ =~= old(out)@ + row_bytes(*r));
    }
}

/// The header row as a vector.
#[verifier::rlimit(50)]
pub fn header_vec() -> (r: Vec<u8>)
    ensures
        r@ == header_bytes(),
{
    let mut v: Vec<u8> = Vec::new();
    v.push(99);
    v.push(104);
    v.push(117);
    v.push(110);
    v.push(107);
    v.push(95);
    v.push(105);
    v.push(110);
    v.push(100);
    v.push(101);
    v.push(120);
    v.push(44);
    v.push(100);
    v.push(111);
    v.push(119);
    v.push(110);
    v.push(108);
    v.push(111);
    v.push(97);
    v.push(100);
    v.push(95);
    v.push(116);
    v.push(105);
    v.push(109);
    v.push(101);
    v.push(95);
    v.push(115);
    v.push(101);
    v.push(99);
    v.push(111);
    v.push(110);
    v.push(100);
    v.push(115);
    v.push(44);
    v.push(101);
    v.push(102);
    v.push(102);
    v.push(101);
    v.push(99);
    v.push(116);
    v.push(105);
    v.push(118);
    v.push(101);
    v.push(95);
    v.push(100);
    v.push(97);
    v.push(116);
    v.push(97);
    v.push(95);
    v.push(114);
    v.push(97);
    v.push(116);
    v.push(101);
    v.push(95);
    v.push(98);
    v.push(112);
    v.push(115);
    v.push(10);
    proof {
        assert(v@ =~= header_bytes());
    }
    v
}

/// Appending one record appends exactly its row.
proof fn lemma_rows_bytes_push(records: Seq<ChunkRecord>, r: ChunkRecord)
    ensures
        rows_bytes(records.push(r)) == rows_bytes(records) + row_bytes(r),
    decreases records.len(),
{
    if records.len() == 0 {
        let rp = records.push(r);
        assert(rp.skip(1) =~= Seq::<ChunkRecord>::empty());
        assert(rp[0] == r);
        assert(rows_bytes(rp) == row_bytes(rp[0]) + rows_bytes(rp.skip(1)));
        assert(rows_bytes(rp.skip(1)) == Seq::<u8>::empty());
        assert(rows_bytes(records) == Seq::<u8>::empty());
        assert(rows_bytes(rp) =~= rows_bytes(records) + row_bytes(r));
    } else {
        let rp = records.push(r);
        assert(rp[0] == records[0]);
        assert(rp.skip(1) =~= records.skip(1).push(r));
        lemma_rows_bytes_push(records.skip(1), r);
        assert(rows_bytes(rp) == row_bytes(rp[0]) + rows_bytes(rp.skip(1)));
        assert(rows_bytes(records) == row_bytes(records[0]) + rows_bytes(records.skip(1)));
        assert(rows_bytes(rp) =~= rows_bytes(records) + row_bytes(r));
    }
}

/// Renders the whole table: the header row, then every record's row in
/// order.
pub fn render_table(records: &Vec<ChunkRecord>) -> (r: Vec<u8>)
    ensures
        r@ == table_bytes(records@),
{
    let mut out = header_vec();
    let mut i: usize = 0;
    while i < records.len()
        invariant
            0 <= i <= records@.len(),
            out@ == header_bytes() + rows_bytes(records@.take(i as int)),
        decreases records@.len() - i,
    {
        push_row(&mut out, &records[i]);
        proof {
            assert(records@.take(i as int + 1) =~= records@.take(i as int).push(records@[i as int]));
            lemma_rows_bytes_push(records@.take(i as int), records@[i as int]);
            assert(out@ =~= header_bytes() + rows_bytes(records@.take(i as int + 1)));
        }
        i = i + 1;
    }
    proof {
        assert(records@.take(records@.len() as int) =~= records@);
    }
    out
}

// ---------------------------------------------------------------------
// Number lemmas
// ---------------------------------------------------------------------

pub proof fn lemma_pow10_pos(e: nat)
    ensures
        pow10(e) >= 1,
    decreases e,
{
    if e > 0 {
        lemma_pow10_pos((e - 1) as nat);
    }
}

/// `10^a <= 10^b` for `a <= b`.
pub proof fn lemma_pow10_monotone(a: nat, b: nat)
    requires
        a <= b,
    ensures
        pow10(a) <= pow10(b),
    decreases b,
{
    if a < b {
        lemma_pow10_monotone(a, (b - 1) as nat);
        lemma_pow10_pos((b - 1) as nat);
    }
}

/// The rendering of `n` is a nonempty digit string.
pub proof fn lemma_dec_bytes_digits(n: nat)
    ensures
        all_digits(dec_bytes(n)),
        dec_bytes(n).len() >= 1,
    decreases n,
{
    if n < 10 {
    } else {
        lemma_dec_bytes_digits(n / 10);
        assert forall|i: int| 0 <= i < dec_bytes(n).len() implies is_digit(
            #[trigger] dec_bytes(n)[i],
        ) by {
            if i < dec_bytes(n / 10).len() {
                assert(dec_bytes(n)[i] == dec_bytes(n / 10)[i]);
            }
        }
    }
}

/// Reading the rendering of `n` back gives `n`.
pub proof fn lemma_dec_bytes_val(n: nat)
    ensures
        dec_val(dec_bytes(n)) == n,
    decreases n,
{
    if n < 10 {
        assert(dec_bytes(n).drop_last() =~= Seq::<u8>::empty());
        assert(dec_val(Seq::<u8>::empty()) == 0);
        assert(dec_bytes(n).last() == digit_byte(n as int));
    } else {
        lemma_dec_bytes_val(n / 10);
        let s = dec_bytes(n / 10);
        assert(dec_bytes(n).drop_last() =~= s);
        assert(dec_bytes(n).last() == digit_byte((n % 10) as int));
        vstd::arithmetic::div_mod::lemma_fundamental_div_mod(n as int, 10);
    }
}

/// A value below `10^w` renders to at most `w` digits.
pub proof fn lemma_dec_bytes_len(n: nat, w: nat)
    requires
        w >= 1,
        n < pow10(w),
    ensures
        dec_bytes(n).len() <= w,
    decreases n,
{
    if n < 10 {
    } else {
        assert(pow10(w) == 10 * pow10((w - 1) as nat));
        if w == 1 {
            assert(pow10(1nat) == 10);
            assert(false);
        }
        vstd::arithmetic::div_mod::lemma_multiply_divide_lt(
            n as int,
            10,
            pow10((w - 1) as nat) as int,
        );
        lemma_dec_bytes_len(n / 10, (w - 1) as nat);
    }
}

/// A zero-padded rendering has exactly `width` digits.
pub proof fn lemma_padded_digits(n: nat, width: nat)
    ensures
        all_digits(padded_bytes(n, width)),
        padded_bytes(n, width).len() == width,
    decreases width,
{
    if width > 0 {
        lemma_padded_digits(n / 10, (width - 1) as nat);
        assert forall|i: int| 0 <= i < padded_bytes(n, width).len() implies is_digit(
            #[trigger] padded_bytes(n, width)[i],
        ) by {
            if i < padded_bytes(n / 10, (width - 1) as nat).len() {
                assert(padded_bytes(n, width)[i] == padded_bytes(n / 10, (width - 1) as nat)[i]);
            }
        }
    }
}

/// Reading a zero-padded rendering back gives the value, when it fits the
/// width.
pub proof fn lemma_padded_val(n: nat, width: nat)
    requires
        n < pow10(width),
    ensures
        dec_val(padded_bytes(n, width)) == n,
    decreases width,
{
    if width == 0 {
        assert(pow10(0nat) == 1);
    } else {
        assert(pow10(width) == 10 * pow10((width - 1) as nat));
        vstd::arithmetic::div_mod::lemma_multiply_divide_lt(
            n as int,
            10,
            pow10((width - 1) as nat) as int,
        );
        lemma_padded_val(n / 10, (width - 1) as nat);
        let s = padded_bytes(n / 10, (width - 1) as nat);
        assert(padded_bytes(n, width).drop_last() =~= s);
        vstd::arithmetic::div_mod::lemma_fundamental_div_mod(n as int, 10);
    }
}



/// A digit string followed by a non-digit is exactly the digit prefix.
pub proof fn lemma_digit_prefix_exact(ds: Seq<u8>, tail: Seq<u8>)
    requires
        all_digits(ds),
        tail.len() == 0 || !is_digit(tail[0]),
    ensures
        digit_prefix_len(ds + tail) == ds.len(),
    decreases ds.len(),
{
    let s = ds + tail;
    if ds.len() == 0 {
        assert(s =~= tail);
    } else {
        assert(s[0] == ds[0]);
        assert(is_digit(ds[0]));
        assert(s.skip(1) =~= ds.skip(1) + tail);
        lemma_digit_prefix_exact(ds.skip(1), tail);
    }
}

/// If the first `m` bytes are digits, the digit prefix is at least `m`.
pub proof fn lemma_digit_prefix_at_least(s: Seq<u8>, m: int)
    requires
        0 <= m <= s.len(),
        forall|i: int| 0 <= i < m ==> is_digit(#[trigger] s[i]),
    ensures
        digit_prefix_len(s) >= m,
    decreases m,
{
    if m > 0 {
        assert(is_digit(s[0]));
        lemma_digit_prefix_at_least(s.skip(1), m - 1);
    }
}

// ---------------------------------------------------------------------
// Parsing
// ---------------------------------------------------------------------

/// Reads the digit run at the front: its value and the remainder. Fails on
/// no digit at all, or on a run too long for any field of a record.
pub open spec fn parse_field(s: Seq<u8>) -> Option<(nat, Seq<u8>)> {
    let k = digit_prefix_len(s);
    if 1 <= k <= MAX_FIELD_DIGITS {
        Some((dec_val(s.take(k as int)) as nat, s.skip(k as int)))
    } else {
        None
    }
}

/// Consumes one expected byte.
pub open spec fn expect_byte(s: Seq<u8>, b: u8) -> Option<Seq<u8>> {
    if s.len() > 0 && s[0] == b {
        Some(s.skip(1))
    } else {
        None
    }
}

/// Reads exactly nine fractional digits.
pub open spec fn parse_frac(s: Seq<u8>) -> Option<(nat, Seq<u8>)> {
    if s.len() >= FRAC_DIGITS && all_digits(s.take(FRAC_DIGITS as int)) {
        Some((dec_val(s.take(FRAC_DIGITS as int)) as nat, s.skip(FRAC_DIGITS as int)))
    } else {
        None
    }
}

/// Reads one row back into a record: fails on any malformed field and on
/// any value that does not fit the record's fields.
pub open spec fn parse_row(s: Seq<u8>) -> Option<(ChunkRecord, Seq<u8>)> {
    match parse_field(s) {
        None => None,
        Some((index, s1)) => if index > u64::MAX {
            None
        } else {
            match expect_byte(s1, COMMA) {
                None => None,
                Some(s2) => match parse_field(s2) {
                    None => None,
                    Some((secs, s3)) => match expect_byte(s3, DOT) {
                        None => None,
                        Some(s4) => match parse_frac(s4) {
                            None => None,
                            Some((frac, s5)) => match expect_byte(s5, COMMA) {
                                None => None,
                                Some(s6) => match parse_field(s6) {
                                    None => None,
                                    Some((rate, s7)) => match expect_byte(s7, NEWLINE) {
                                        None => None,
                                        Some(s8) => if secs * 1_000_000_000 + frac > u64::MAX {
                                            None
                                        } else {
                                            Some(
                                                (
                                                    ChunkRecord {
                                                        index: index as u64,
                                                        duration_nanos: (secs * 1_000_000_000
                                                            + frac) as u64,
                                                        effective_rate_bps: rate as u128,
                                                    },
                                                    s8,
                                                ),
                                            )
                                        },
                                    },
                                },
                            },
                        },
                    },
                },
            }
        },
    }
}

/// Reads rows until the input is exhausted; fails if any row is malformed.
pub open spec fn parse_rows(s: Seq<u8>) -> Option<Seq<ChunkRecord>>
    decreases s.len(),
{
    if s.len() == 0 {
        Some(Seq::empty())
    } else {
        match parse_row(s) {
            None => None,
            Some((rec, rest)) => if rest.len() < s.len() {
                match parse_rows(rest) {
                    None => None,
                    Some(t) => Some(seq![rec] + t),
                }
            } else {
                None
            },
        }
    }
}

/// Reads a whole table: the exact header row, then the rows.
pub open spec fn parse_table_spec(s: Seq<u8>) -> Option<Seq<ChunkRecord>> {
    let h = header_bytes();
    if s.len() >= h.len() && s.take(h.len() as int) == h {
        parse_rows(s.skip(h.len() as int))
    } else {
        None
    }
}

/// `10^38`, the bound that keeps every parsed field inside `u128`.
pub proof fn lemma_pow10_field_digits()
    ensures
        pow10(MAX_FIELD_DIGITS as nat) == 100_000_000_000_000_000_000_000_000_000_000_000_000,
{
    reveal_with_fuel(pow10, 40);
}

/// `10^9`, the bound of the fractional column.
pub proof fn lemma_pow10_frac_digits()
    ensures
        pow10(FRAC_DIGITS as nat) == 1_000_000_000,
{
    reveal_with_fuel(pow10, 10);
}

/// Reads the digit run at `start`, mirroring [`parse_field`] on the
/// remainder of the input.
fn scan_field(bytes: &Vec<u8>, start: usize) -> (r: Option<(u128, usize)>)
    requires
        start <= bytes@.len(),
    ensures
        match r {
            Some(v) => {
                &&& parse_field(bytes@.skip(start as int)) == Some(
                    (v.0 as nat, bytes@.skip(v.1 as int)),
                )
                &&& start < v.1 <= bytes@.len()
                &&& v.0 < 100_000_000_000_000_000_000_000_000_000_000_000_000
            },
            None => parse_field(bytes@.skip(start as int)) is None,
        },
{
    let ghost s = bytes@.skip(start as int);
    let len = bytes.len();
    let mut j = start;
    let mut acc: u128 = 0;
    proof {
        lemma_pow10_field_digits();
        assert(bytes@.subrange(start as int, start as int) =~= Seq::<u8>::empty());
    }
    while j < len && 48 <= bytes[j] && bytes[j] <= 57 && j - start < MAX_FIELD_DIGITS
        invariant
            start <= j <= len,
            len == bytes@.len(),
            j - start <= MAX_FIELD_DIGITS,
            forall|k: int| start <= k < j ==> is_digit(#[trigger] bytes@[k]),
            acc == dec_val(bytes@.subrange(start as int, j as int)),
            acc < pow10((j - start) as nat),
            pow10(MAX_FIELD_DIGITS as nat) == 100_000_000_000_000_000_000_000_000_000_000_000_000,
        decreases len - j,
    {
        let d = bytes[j] - 48;
        proof {
            lemma_pow10_monotone((j - start) as nat, (MAX_FIELD_DIGITS - 1) as nat);
            assert(pow10((j + 1 - start) as nat) == 10 * pow10((j - start) as nat));
            assert(bytes@.subrange(start as int, j as int + 1).drop_last() =~= bytes@.subrange(
                start as int,
                j as int,
            ));
            assert(bytes@.subrange(start as int, j as int + 1).last() == bytes@[j as int]);
        }
        acc = acc * 10 + d as u128;
        j = j + 1;
    }
    let ghost ds = bytes@.subrange(start as int, j as int);
    let ghost tail = bytes@.skip(j as int);
    proof {
        assert(s =~= ds + tail);
    }
    if j < len && 48 <= bytes[j] && bytes[j] <= 57 {
        proof {
            assert(forall|k: int| 0 <= k < j + 1 - start ==> is_digit(#[trigger] s[k]));
            lemma_digit_prefix_at_least(s, j + 1 - start);
        }
        return None;
    }
    proof {
        assert(tail.len() == 0 || !is_digit(tail[0]));
        lemma_digit_prefix_exact(ds, tail);
    }
    if j == start {
        return None;
    }
    proof {
        assert(s.take((j - start) as int) =~= ds);
        assert(s.skip((j - start) as int) =~= bytes@.skip(j as int));
        lemma_pow10_monotone((j - start) as nat, MAX_FIELD_DIGITS as nat);
    }
    Some((acc, j))
}

/// Reads the nine fractional digits at `start`, mirroring [`parse_frac`].
fn scan_frac(bytes: &Vec<u8>, start: usize) -> (r: Option<(u64, usize)>)
    requires
        start <= bytes@.len(),
    ensures
        match r {
            Some(v) => {
                &&& parse_frac(bytes@.skip(start as int)) == Some(
                    (v.0 as nat, bytes@.skip(v.1 as int)),
                )
                &&& v.1 == start + FRAC_DIGITS
                &&& v.1 <= bytes@.len()
                &&& v.0 < 1_000_000_000
            },
            None => parse_frac(bytes@.skip(start as int)) is None,
        },
{
    let ghost s = bytes@.skip(start as int);
    let len = bytes.len();
    if len - start < FRAC_DIGITS {
        return None;
    }
    let mut j: usize = 0;
    let mut acc: u64 = 0;
    proof {
        lemma_pow10_frac_digits();
        assert(bytes@.subrange(start as int, start as int) =~= Seq::<u8>::empty());
    }
    while j < FRAC_DIGITS
        invariant
            s == bytes@.skip(start as int),
            0 <= j <= FRAC_DIGITS,
            start + FRAC_DIGITS <= len,
            len == bytes@.len(),
            forall|k: int| start <= k < start + j ==> is_digit(#[trigger] bytes@[k]),
            acc == dec_val(bytes@.subrange(start as int, start as int + j)),
            acc < pow10(j as nat),
            pow10(FRAC_DIGITS as nat) == 1_000_000_000,
        decreases FRAC_DIGITS - j,
    {
        let b = bytes[start + j];
        if !(48 <= b && b <= 57) {
            proof {
                assert(s.take(FRAC_DIGITS as int)[j as int] == bytes@[start as int + j]);
            }
            return None;
        }
        proof {
            lemma_pow10_monotone(j as nat, (FRAC_DIGITS - 1) as nat);
            assert(pow10((j + 1) as nat) == 10 * pow10(j as nat));
            assert(bytes@.subrange(start as int, start as int + j + 1).drop_last()
                =~= bytes@.subrange(start as int, start as int + j));
            assert(bytes@.subrange(start as int, start as int + j + 1).last() == bytes@[start as int
                + j]);
        }
        acc = acc * 10 + (b - 48) as u64;
        j = j + 1;
    }
    proof {
        assert(s.take(FRAC_DIGITS as int) =~= bytes@.subrange(
            start as int,
            start as int + FRAC_DIGITS,
        ));
        assert(all_digits(s.take(FRAC_DIGITS as int)));
        assert(s.skip(FRAC_DIGITS as int) =~= bytes@.skip(start as int + FRAC_DIGITS));
    }
    Some((acc, start + FRAC_DIGITS))
}

/// Reads one row at `start`, mirroring [`parse_row`].
fn parse_row_at(bytes: &Vec<u8>, start: usize) -> (r: Option<(ChunkRecord, usize)>)
    requires
        start <= bytes@.len(),
    ensures
        match r {
            Some(v) => {
                &&& parse_row(bytes@.skip(start as int)) == Some((v.0, bytes@.skip(v.1 as int)))
                &&& start < v.1 <= bytes@.len()
            },
            None => parse_row(bytes@.skip(start as int)) is None,
        },
{
    let len = bytes.len();
    let index_field = scan_field(bytes, start);
    if index_field.is_none() {
        return None;
    }
    let (index, p1) = index_field.unwrap();
    if index > 0xffff_ffff_ffff_ffff {
        return None;
    }
    if !(p1 < len && bytes[p1] == COMMA) {
        proof {
            assert(expect_byte(bytes@.skip(p1 as int), COMMA) is None);
        }
        return None;
    }
    proof {
        assert(bytes@.skip(p1 as int).skip(1) =~= bytes@.skip(p1 as int + 1));
    }
    let secs_field = scan_field(bytes, p1 + 1);
    if secs_field.is_none() {
        return None;
    }
    let (secs, p2) = secs_field.unwrap();
    if !(p2 < len && bytes[p2] == DOT) {
        proof {
            assert(expect_byte(bytes@.skip(p2 as int), DOT) is None);
        }
        return None;
    }
    proof {
        assert(bytes@.skip(p2 as int).skip(1) =~= bytes@.skip(p2 as int + 1));
    }
    let frac_field = scan_frac(bytes, p2 + 1);
    if frac_field.is_none() {
        return None;
    }
    let (frac, p3) = frac_field.unwrap();
    if !(p3 < len && bytes[p3] == COMMA) {
        proof {
            assert(expect_byte(bytes@.skip(p3 as int), COMMA) is None);
        }
        return None;
    }
    proof {
        assert(bytes@.skip(p3 as int).skip(1) =~= bytes@.skip(p3 as int + 1));
    }
    let rate_field = scan_field(bytes, p3 + 1);
    if rate_field.is_none() {
        return None;
    }
    let (rate, p4) = rate_field.unwrap();
    if !(p4 < len && bytes[p4] == NEWLINE) {
        proof {
            assert(expect_byte(bytes@.skip(p4 as int), NEWLINE) is None);
        }
        return None;
    }
    proof {
        assert(bytes@.skip(p4 as int).skip(1) =~= bytes@.skip(p4 as int + 1));
    }
    if secs > 0xffff_ffff_ffff_ffff {
        return None;
    }
    let duration = secs * 1_000_000_000 + frac as u128;
    if duration > 0xffff_ffff_ffff_ffff {
        return None;
    }
    let rec = ChunkRecord {
        index: index as u64,
        duration_nanos: duration as u64,
        effective_rate_bps: rate,
    };
    Some((rec, p4 + 1))
}

/// Reads a whole persisted table back, mirroring [`parse_table_spec`]: the
/// exact header row, then one row per record.
pub fn parse_table(bytes: &Vec<u8>) -> (r: Option<Vec<ChunkRecord>>)
    ensures
        match r {
            Some(v) => parse_table_spec(bytes@) == Some(v@),
            None => parse_table_spec(bytes@) is None,
        },
{
    let header = header_vec();
    let hlen = header.len();
    let len = bytes.len();
    if len < hlen {
        return None;
    }
    let mut j: usize = 0;
    while j < hlen
        invariant
            0 <= j <= hlen,
            hlen <= len,
            hlen == header_bytes().len(),
            len == bytes@.len(),
            header@ == header_bytes(),
            forall|k: int| 0 <= k < j ==> bytes@[k] == header_bytes()[k],
        decreases hlen - j,
    {
        if bytes[j] != header[j] {
            proof {
                assert(bytes@.take(hlen as int)[j as int] != header_bytes()[j as int]);
            }
            return None;
        }
        j = j + 1;
    }
    proof {
        assert(bytes@.take(hlen as int) =~= header_bytes());
    }
    let mut pos: usize = hlen;
    let mut out: Vec<ChunkRecord> = Vec::new();
    while pos < len
        invariant
            hlen <= pos <= len,
            len == bytes@.len(),
            parse_rows(bytes@.skip(hlen as int)) is Some <==> parse_rows(
                bytes@.skip(pos as int),
            ) is Some,
            parse_rows(bytes@.skip(pos as int)) is Some ==> parse_rows(
                bytes@.skip(hlen as int),
            )->Some_0 == out@ + parse_rows(bytes@.skip(pos as int))->Some_0,
            parse_table_spec(bytes@) == parse_rows(bytes@.skip(hlen as int)),
        decreases len - pos,
    {
        let step = parse_row_at(bytes, pos);
        if step.is_none() {
            proof {
                assert(bytes@.skip(pos as int).len() > 0);
                assert(parse_rows(bytes@.skip(pos as int)) is None);
            }
            return None;
        }
        let (rec, next) = step.unwrap();
        proof {
            let s_cur = bytes@.skip(pos as int);
            let s_next = bytes@.skip(next as int);
            assert(s_cur.len() > 0);
            assert(parse_row(s_cur) == Some((rec, s_next)));
            assert(s_next.len() < s_cur.len());
            if parse_rows(s_next) is Some {
                assert(parse_rows(s_cur)->Some_0 == seq![rec] + parse_rows(s_next)->Some_0);
                assert(out@ + (seq![rec] + parse_rows(s_next)->Some_0) =~= (out@.push(rec))
                    + parse_rows(s_next)->Some_0);
            }
        }
        out.push(rec);
        pos = next;
    }
    proof {
        assert(bytes@.skip(len as int) =~= Seq::<u8>::empty());
        assert(parse_rows(bytes@.skip(len as int)) == Some(Seq::<ChunkRecord>::empty()));
        assert(out@ + Seq::<ChunkRecord>::empty() =~= out@);
    }
    Some(out)
}

// ---------------------------------------------------------------------
// Round trip
// ---------------------------------------------------------------------

/// Any value a record field can carry stays below this bound, so its
/// rendering never exceeds the accepted field width.
pub const FIELD_VALUE_BOUND: u128 = 100_000_000_000_000_000_000_000_000_000_000_000_000;

/// Parsing the rendering of one value, followed by a non-digit, consumes
/// exactly the rendering.
proof fn lemma_parse_field_of_dec(n: nat, tail: Seq<u8>)
    requires
        n < FIELD_VALUE_BOUND,
        tail.len() == 0 || !is_digit(tail[0]),
    ensures
        parse_field(dec_bytes(n) + tail) == Some((n, tail)),
{
    let ds = dec_bytes(n);
    let s = ds + tail;
    lemma_dec_bytes_digits(n);
    lemma_dec_bytes_val(n);
    lemma_pow10_field_digits();
    lemma_dec_bytes_len(n, MAX_FIELD_DIGITS as nat);
    lemma_digit_prefix_exact(ds, tail);
    let k = ds.len() as int;
    assert(s.take(k) =~= ds);
    assert(s.skip(k) =~= tail);
}

/// Parsing the padded rendering of a fractional value consumes exactly its
/// nine digits.
proof fn lemma_parse_frac_of_padded(n: nat, tail: Seq<u8>)
    requires
        n < 1_000_000_000,
    ensures
        parse_frac(padded_bytes(n, FRAC_DIGITS as nat) + tail) == Some((n, tail)),
{
    let ds = padded_bytes(n, FRAC_DIGITS as nat);
    let s = ds + tail;
    lemma_padded_digits(n, FRAC_DIGITS as nat);
    lemma_pow10_frac_digits();
    lemma_padded_val(n, FRAC_DIGITS as nat);
    assert(s.take(FRAC_DIGITS as int) =~= ds);
    assert(all_digits(s.take(FRAC_DIGITS as int)));
    assert(s.skip(FRAC_DIGITS as int) =~= tail);
}

/// Parsing a rendered row gives back exactly the record and the remainder.
#[verifier::rlimit(100)]
#[verifier::spinoff_prover]
proof fn lemma_parse_row_of_row(rec: ChunkRecord, tail: Seq<u8>)
    requires
        (rec.effective_rate_bps as nat) < FIELD_VALUE_BOUND,
    ensures
        parse_row(row_bytes(rec) + tail) == Some((rec, tail)),
{
    let index = rec.index as nat;
    let secs = (rec.duration_nanos / 1_000_000_000) as nat;
    let frac = (rec.duration_nanos % 1_000_000_000) as nat;
    let rate = rec.effective_rate_bps as nat;
    let a = dec_bytes(index);
    let b = dec_bytes(secs);
    let c = padded_bytes(frac, FRAC_DIGITS as nat);
    let d = dec_bytes(rate);
    let s = row_bytes(rec) + tail;

    let rest1 = seq![COMMA] + b + seq![DOT] + c + seq![COMMA] + d + seq![NEWLINE] + tail;
    assert(s =~= a + rest1);
    assert(rest1[0] == COMMA);
    lemma_parse_field_of_dec(index, rest1);
    assert(parse_field(s) == Some((index, rest1)));

    let rest2 = b + (seq![DOT] + c + seq![COMMA] + d + seq![NEWLINE] + tail);
    assert(rest1.skip(1) =~= rest2);
    assert(expect_byte(rest1, COMMA) == Some(rest2));

    let rest3 = seq![DOT] + c + seq![COMMA] + d + seq![NEWLINE] + tail;
    assert(rest2 =~= b + rest3);
    assert(rest3[0] == DOT);
    lemma_parse_field_of_dec(secs, rest3);
    assert(parse_field(rest2) == Some((secs, rest3)));

    let rest4 = c + (seq![COMMA] + d + seq![NEWLINE] + tail);
    assert(rest3.skip(1) =~= rest4);
    assert(expect_byte(rest3, DOT) == Some(rest4));

    let rest5 = seq![COMMA] + d + seq![NEWLINE] + tail;
    assert(rest4 =~= c + rest5);
    vstd::arithmetic::div_mod::lemma_mod_bound(rec.duration_nanos as int, 1_000_000_000);
    lemma_parse_frac_of_padded(frac, rest5);
    assert(parse_frac(rest4) == Some((frac, rest5)));

    let rest6 = d + (seq![NEWLINE] + tail);
    assert(rest5.skip(1) =~= rest6);
    assert(expect_byte(rest5, COMMA) == Some(rest6));

    let rest7 = seq![NEWLINE] + tail;
    assert(rest6 =~= d + rest7);
    assert(rest7[0] == NEWLINE);
    lemma_parse_field_of_dec(rate, rest7);
    assert(parse_field(rest6) == Some((rate, rest7)));

    assert(rest7.skip(1) =~= tail);
    assert(expect_byte(rest7, NEWLINE) == Some(tail));

    vstd::arithmetic::div_mod::lemma_fundamental_div_mod(rec.duration_nanos as int, 1_000_000_000);
    assert(secs * 1_000_000_000 + frac == rec.duration_nanos);
}

/// Parsing the rendered rows gives back exactly the records.
proof fn lemma_parse_rows_of_rows(records: Seq<ChunkRecord>)
    requires
        forall|i: int| 0 <= i < records.len() ==> ((#[trigger] records[i]).effective_rate_bps
            as nat) < FIELD_VALUE_BOUND,
    ensures
        parse_rows(rows_bytes(records)) == Some(records),
    decreases records.len(),
{
    if records.len() == 0 {
        assert(rows_bytes(records) == Seq::<u8>::empty());
    } else {
        let first = records[0];
        let rest = records.skip(1);
        let s = rows_bytes(records);
        assert(s == row_bytes(first) + rows_bytes(rest));
        lemma_parse_row_of_row(first, rows_bytes(rest));
        assert(parse_row(s) == Some((first, rows_bytes(rest))));
        lemma_dec_bytes_digits(first.index as nat);
        assert(row_bytes(first).len() >= 1);
        assert(rows_bytes(rest).len() < s.len());
        lemma_parse_rows_of_rows(rest);
        assert(parse_rows(s) == Some(seq![first] + rest));
        assert(seq![first] + rest =~= records);
    }
}

/// Round trip: parsing a rendered table reproduces the records exactly.
pub proof fn lemma_table_round_trip(records: Seq<ChunkRecord>)
    requires
        forall|i: int| 0 <= i < records.len() ==> ((#[trigger] records[i]).effective_rate_bps
            as nat) < FIELD_VALUE_BOUND,
    ensures
        parse_table_spec(table_bytes(records)) == Some(records),
{
    let s = table_bytes(records);
    let h = header_bytes();
    assert(s.take(h.len() as int) =~= h);
    assert(s.skip(h.len() as int) =~= rows_bytes(records));
    lemma_parse_rows_of_rows(records);
}

/// The premise of the round trip holds of every record a session can
/// produce: a well-formed record's rate lies far below the field bound.
pub proof fn lemma_session_table_round_trip(records: Seq<ChunkRecord>, chunk_size_bytes: int)
    requires
        1 <= chunk_size_bytes <= crate::config::MAX_CHUNK_SIZE_BYTES,
        forall|i: int| 0 <= i < records.len() ==> (#[trigger] records[i]).wf(chunk_size_bytes),
    ensures
        parse_table_spec(table_bytes(records)) == Some(records),
{
    assert forall|i: int| 0 <= i < records.len() implies ((#[trigger] records[i]).effective_rate_bps
        as nat) < FIELD_VALUE_BOUND by {
        crate::metrics::lemma_rate_bound(chunk_size_bytes, records[i].duration_nanos as int);
    }
    lemma_table_round_trip(records);
}

} // verus!

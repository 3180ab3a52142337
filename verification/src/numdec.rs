//! Decimal rendering and parsing of integers, the number format of the
//! credential payload. Rendering is canonical (no leading zeros, `-` for
//! negatives); parsing is proved to recover exactly what rendering produced.

use vstd::prelude::*;
use vstd::arithmetic::div_mod::lemma_fundamental_div_mod;
use vstd::arithmetic::div_mod::lemma_fundamental_div_mod_converse;

verus! {

/// Is this byte an ASCII decimal digit?
pub open spec fn spec_is_digit(b: u8) -> bool {
    48 <= b <= 57
}

/// The canonical decimal digits of a natural number, most significant first.
pub open spec fn spec_dec_digits(n: nat) -> Seq<u8>
    decreases n,
{
    if n < 10 {
        seq![(48 + n) as u8]
    } else {
        spec_dec_digits(n / 10) + seq![(48 + n % 10) as u8]
    }
}

/// The canonical decimal form of an integer: a `-` sign for negatives,
/// then the digits of the magnitude.
pub open spec fn spec_int_digits(i: int) -> Seq<u8> {
    if i < 0 {
        seq![45u8] + spec_dec_digits((-i) as nat)
    } else {
        spec_dec_digits(i as nat)
    }
}

/// Every byte of a canonical digit string is a decimal digit.
pub proof fn lemma_dec_digits_are_digits(n: nat)
    ensures
        forall|k: int| 0 <= k < spec_dec_digits(n).len() ==> spec_is_digit(
            #[trigger] spec_dec_digits(n)[k],
        ),
        spec_dec_digits(n).len() >= 1,
    decreases n,
{
    if n >= 10 {
        lemma_dec_digits_are_digits(n / 10);
    }
}

/// Folding decimal digits onto an accumulator, most significant first:
/// the value a left-to-right scan computes.
pub open spec fn spec_fold_digits(ds: Seq<u8>, acc: nat) -> nat
    decreases ds.len(),
{
    if ds.len() == 0 {
        acc
    } else {
        spec_fold_digits(ds.drop_first(), acc * 10 + (ds[0] - 48) as nat)
    }
}

/// Folding a single digit is one multiply-and-add step.
proof fn lemma_fold_one(d: u8, acc: nat)
    requires
        spec_is_digit(d),
    ensures
        spec_fold_digits(seq![d], acc) == acc * 10 + (d - 48),
{
    assert(seq![d].drop_first() =~= Seq::<u8>::empty());
    assert(spec_fold_digits(Seq::<u8>::empty(), (acc * 10 + (d - 48) as nat) as nat) == acc * 10 + (
    d - 48) as nat);
}

/// Folding distributes over concatenation.
proof fn lemma_fold_digits_concat(a: Seq<u8>, b: Seq<u8>, acc: nat)
    ensures
        spec_fold_digits(a + b, acc) == spec_fold_digits(b, spec_fold_digits(a, acc)),
    decreases a.len(),
{
    if a.len() == 0 {
        assert(a + b =~= b);
    } else {
        assert((a + b).drop_first() =~= a.drop_first() + b);
        lemma_fold_digits_concat(a.drop_first(), b, acc * 10 + (a[0] - 48) as nat);
    }
}

/// The fold result never drops below the accumulator it started from.
proof fn lemma_fold_digits_monotone(ds: Seq<u8>, acc: nat)
    ensures
        spec_fold_digits(ds, acc) >= acc,
    decreases ds.len(),
{
    if ds.len() > 0 {
        lemma_fold_digits_monotone(ds.drop_first(), acc * 10 + (ds[0] - 48) as nat);
    }
}

/// Scanning the canonical digits of `n` computes `n` back.
pub proof fn lemma_fold_dec_digits(n: nat)
    ensures
        spec_fold_digits(spec_dec_digits(n), 0) == n,
    decreases n,
{
    lemma_fold_dec_digits_acc(n, 0);
}

/// Generalization of `lemma_fold_dec_digits` over the accumulator.
proof fn lemma_fold_dec_digits_acc(n: nat, acc: nat)
    ensures
        spec_fold_digits(spec_dec_digits(n), acc) == acc * vstd::arithmetic::power::pow(
            10,
            spec_dec_digits(n).len(),
        ) + n,
    decreases n,
{
    vstd::arithmetic::power::lemma_pow_positive(10, spec_dec_digits(n).len() as nat);
    if n < 10 {
        assert(spec_dec_digits(n) == seq![(48 + n) as u8]);
        lemma_fold_one((48 + n) as u8, acc);
        vstd::arithmetic::power::lemma_pow1(10);
    } else {
        let hi = spec_dec_digits(n / 10);
        let lo = seq![(48 + n % 10) as u8];
        lemma_fold_digits_concat(hi, lo, acc);
        lemma_fold_dec_digits_acc(n / 10, acc);
        let p = vstd::arithmetic::power::pow(10, hi.len());
        // fold over hi gives acc * p + n / 10; one more digit shifts by 10
        lemma_fold_one((48 + n % 10) as u8, (acc * p + n / 10) as nat);
        vstd::arithmetic::power::lemma_pow1(10);
        vstd::arithmetic::power::lemma_pow_adds(10, hi.len() as nat, 1);
        assert((acc * p) * 10 == acc * (p * 10)) by (nonlinear_arith);
        lemma_fundamental_div_mod(n as int, 10);
        assert(spec_dec_digits(n) =~= hi + lo);
        assert(spec_fold_digits(spec_dec_digits(n), acc) == (acc * p + n / 10) * 10 + (n % 10));
        assert((acc * p + n / 10) * 10 == (acc * p) * 10 + (n / 10) * 10);
        assert(spec_dec_digits(n).len() == hi.len() + 1);
        assert(vstd::arithmetic::power::pow(10, spec_dec_digits(n).len()) == p * 10);
    }
}

/// Appends the canonical decimal digits of `n`.
pub fn push_dec_u64(out: &mut Vec<u8>, n: u64)
    ensures
        final(out)@ == old(out)@ + spec_dec_digits(n as nat),
    decreases n,
{
    if n < 10 {
        out.push(48 + n as u8);
    } else {
        push_dec_u64(out, n / 10);
        out.push(48 + (n % 10) as u8);
        assert(old(out)@ + spec_dec_digits((n / 10) as nat) + seq![(48 + (n % 10)) as u8]
            =~= old(out)@ + spec_dec_digits(n as nat));
    }
}

/// Appends the canonical decimal form of `i`, sign included.
pub fn push_dec_i64(out: &mut Vec<u8>, i: i64)
    ensures
        final(out)@ == old(out)@ + spec_int_digits(i as int),
{
    if i < 0 {
        out.push(45);
        let mag: u64 = if i == i64::MIN {
            9223372036854775808u64
        } else {
            (-i) as u64
        };
        push_dec_u64(out, mag);
        assert(old(out)@ + seq![45u8] + spec_dec_digits(mag as nat) =~= old(out)@ + (seq![45u8]
            + spec_dec_digits(mag as nat)));
    } else {
        push_dec_u64(out, i as u64);
    }
}

/// A left-to-right scan of a digit run starting at `i`, accumulating into
/// `acc`; stops at the first non-digit and refuses values past `u64::MAX`.
pub open spec fn spec_scan_u64(s: Seq<u8>, i: int, acc: u64) -> Option<(u64, int)>
    decreases s.len() - i,
{
    if i < 0 || i >= s.len() || !spec_is_digit(s[i]) {
        Some((acc, i))
    } else {
        let d = (s[i] - 48) as u64;
        if acc > (u64::MAX - d) / 10 {
            None
        } else {
            spec_scan_u64(s, i + 1, (acc * 10 + d) as u64)
        }
    }
}

/// On a canonical digit run bounded by a non-digit (or the end), the scan
/// recovers the rendered value and stops right after the run.
pub proof fn lemma_scan_dec_digits(s: Seq<u8>, i: int, n: u64)
    requires
        0 <= i,
        i + spec_dec_digits(n as nat).len() <= s.len(),
        s.subrange(i, i + spec_dec_digits(n as nat).len() as int) == spec_dec_digits(n as nat),
        i + spec_dec_digits(n as nat).len() == s.len() || !spec_is_digit(
            s[i + spec_dec_digits(n as nat).len()],
        ),
    ensures
        spec_scan_u64(s, i, 0) == Some((n, i + spec_dec_digits(n as nat).len())),
{
    lemma_fold_dec_digits(n as nat);
    lemma_dec_digits_are_digits(n as nat);
    lemma_scan_run(s, i, 0, spec_dec_digits(n as nat));
}

/// Scanning a digit run equals folding it, provided the folded value fits.
proof fn lemma_scan_run(s: Seq<u8>, i: int, acc: u64, run: Seq<u8>)
    requires
        0 <= i,
        i + run.len() <= s.len(),
        s.subrange(i, i + run.len() as int) == run,
        forall|k: int| 0 <= k < run.len() ==> spec_is_digit(#[trigger] run[k]),
        i + run.len() == s.len() || !spec_is_digit(s[i + run.len()]),
        spec_fold_digits(run, acc as nat) <= u64::MAX,
    ensures
        spec_scan_u64(s, i, acc) == Some((spec_fold_digits(run, acc as nat) as u64, i
            + run.len())),
    decreases run.len(),
{
    if run.len() == 0 {
    } else {
        assert(s[i] == run[0]);
        let d = (s[i] - 48) as u64;
        lemma_fold_digits_monotone(run.drop_first(), (acc * 10 + d) as nat);
        assert(acc * 10 + d <= u64::MAX);
        assert(acc <= (u64::MAX - d) / 10) by {
            lemma_fundamental_div_mod_converse(
                (u64::MAX - d) as int,
                10,
                ((u64::MAX - d) / 10) as int,
                ((u64::MAX - d) % 10) as int,
            );
            assert(acc * 10 <= u64::MAX - d);
            vstd::arithmetic::div_mod::lemma_div_is_ordered(
                (acc * 10) as int,
                (u64::MAX - d) as int,
                10,
            );
            vstd::arithmetic::div_mod::lemma_div_multiples_vanish(acc as int, 10);
        }
        assert(s.subrange(i + 1, i + run.len() as int) =~= run.drop_first());
        lemma_scan_run(s, i + 1, (acc * 10 + d) as u64, run.drop_first());
    }
}

/// Scans a digit run from `i`, returning the value and the position after
/// the run; `None` past `u64::MAX` or when no digit starts at `i`.
pub fn scan_u64(s: &Vec<u8>, i: usize) -> (r: Option<(u64, usize)>)
    requires
        i <= s@.len(),
    ensures
        match r {
            Some((n, j)) => Some((n, j as int)) == spec_scan_u64(s@, i as int, 0) && i < j <= s@.len()
                && spec_is_digit(s@[i as int]),
            None => spec_scan_u64(s@, i as int, 0) == None::<(u64, int)> || !(i < s@.len()
                && spec_is_digit(s@[i as int])),
        },
{
    if i >= s.len() || !(48 <= s[i] && s[i] <= 57) {
        return None;
    }
    let mut acc: u64 = 0;
    let mut j: usize = i;
    loop
        invariant
            i <= j <= s@.len(),
            i < s@.len(),
            spec_is_digit(s@[i as int]),
            spec_scan_u64(s@, i as int, 0) == spec_scan_u64(s@, j as int, acc),
        decreases s@.len() - j,
    {
        if j >= s.len() || !(48 <= s[j] && s[j] <= 57) {
            return Some((acc, j));
        }
        let d: u64 = (s[j] - 48) as u64;
        if acc > (u64::MAX - d) / 10 {
            return None;
        }
        acc = acc * 10 + d;
        j = j + 1;
    }
}

} // verus!

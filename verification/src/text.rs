//! Small verified text utilities: string equality over views and decimal
//! digit strings, used by the game-record builder's header parsing.

use vstd::prelude::*;
use vstd::string::StrSliceExecFns;

verus! {

/// `c` is one of the ten decimal digit characters.
pub open spec fn is_digit_char(c: char) -> bool {
    ('0' as u32) <= (c as u32) && (c as u32) <= ('9' as u32)
}

/// Every character of `s` is a decimal digit.
pub open spec fn all_digits(s: Seq<char>) -> bool {
    forall|i: int| 0 <= i < s.len() ==> is_digit_char(#[trigger] s[i])
}

/// The numeric value of the digit character `c`.
pub open spec fn digit_val(c: char) -> int {
    (c as u32) - ('0' as u32)
}

/// The value of `s` read as a decimal numeral (most significant digit first).
pub open spec fn dec_val(s: Seq<char>) -> int
    decreases s.len(),
{
    if s.len() == 0 {
        0
    } else {
        dec_val(s.drop_last()) * 10 + digit_val(s.last())
    }
}

/// Ten to the `n`th power.
pub open spec fn pow10(n: nat) -> int
    decreases n,
{
    if n == 0 {
        1
    } else {
        10 * pow10((n - 1) as nat)
    }
}

/// A digit string's value lies between 0 and ten to its length.
pub proof fn lemma_dec_val_bounds(s: Seq<char>)
    requires
        all_digits(s),
    ensures
        0 <= dec_val(s) < pow10(s.len()),
    decreases s.len(),
{
    if s.len() > 0 {
        assert(all_digits(s.drop_last())) by {
            assert(forall|i: int|
                0 <= i < s.len() - 1 ==> s.drop_last()[i] == #[trigger] s[i]);
        }
        lemma_dec_val_bounds(s.drop_last());
        assert(0 <= digit_val(s.last()) <= 9);
    }
}

/// Extending a digit string can only increase its value.
pub proof fn lemma_dec_val_prefix_le(s: Seq<char>, n: int)
    requires
        all_digits(s),
        0 <= n <= s.len(),
    ensures
        dec_val(s.take(n)) <= dec_val(s),
    decreases s.len(),
{
    if n < s.len() {
        assert(all_digits(s.drop_last())) by {
            assert(forall|i: int|
                0 <= i < s.len() - 1 ==> s.drop_last()[i] == #[trigger] s[i]);
        }
        assert(s.drop_last().take(n) =~= s.take(n));
        lemma_dec_val_prefix_le(s.drop_last(), n);
        lemma_dec_val_bounds(s.drop_last());
        assert(dec_val(s) == dec_val(s.drop_last()) * 10 + digit_val(s.last()));
        assert(0 <= digit_val(s.last()));
    } else {
        assert(s.take(n) =~= s);
    }
}

/// Whether two string slices hold the same characters.
pub fn str_eq(a: &str, b: &str) -> (r: bool)
    ensures
        r == (a@ == b@),
{
    let an = a.unicode_len();
    let bn = b.unicode_len();
    if an != bn {
        proof {
            assert(a@ != b@) by {
                assert(a@.len() != b@.len());
            }
        }
        return false;
    }
    let mut i: usize = 0;
    while i < an
        invariant
            i <= an,
            an == a@.len(),
            an == b@.len(),
            forall|j: int| 0 <= j < i ==> a@[j] == b@[j],
        decreases an - i,
    {
        let ca = a.get_char(i);
        let cb = b.get_char(i);
        if ca != cb {
            return false;
        }
        i += 1;
    }
    proof {
        assert(a@ =~= b@);
    }
    true
}

/// The value of the digit run `s[from..to]`, when it is one; `None` when some
/// character there is no digit.
pub fn parse_digits(s: &str, from: usize, to: usize) -> (r: Option<u32>)
    requires
        from <= to <= s@.len(),
        to - from <= 8,
    ensures
        r == (if all_digits(s@.subrange(from as int, to as int)) {
            Some(dec_val(s@.subrange(from as int, to as int)) as u32)
        } else {
            None::<u32>
        }),
{
    let ghost whole = s@.subrange(from as int, to as int);
    let mut i: usize = from;
    let mut acc: u32 = 0;
    while i < to
        invariant
            from <= i <= to <= s@.len(),
            to - from <= 8,
            whole == s@.subrange(from as int, to as int),
            all_digits(s@.subrange(from as int, i as int)),
            acc == dec_val(s@.subrange(from as int, i as int)),
            acc < pow10((i - from) as nat),
        decreases to - i,
    {
        let c = s.get_char(i);
        let cu = c as u32;
        if cu < 48 || cu > 57 {
            proof {
                assert(whole[i - from] == s@[i as int]);
                assert(!is_digit_char(whole[i - from]));
            }
            return None;
        }
        proof {
            let pre = s@.subrange(from as int, i as int);
            let ext = s@.subrange(from as int, i + 1);
            assert(ext.drop_last() =~= pre);
            assert(ext.last() == s@[i as int]);
            assert(pow10(((i + 1) - from) as nat) == 10 * pow10((i - from) as nat));
            lemma_pow10_le_8((i + 1 - from) as nat);
        }
        acc = acc * 10 + (cu - 48);
        i += 1;
    }
    proof {
        assert(s@.subrange(from as int, i as int) =~= whole);
    }
    Some(acc)
}

/// Ten to a power is at least one.
proof fn lemma_pow10_pos(n: nat)
    ensures
        pow10(n) >= 1,
    decreases n,
{
    if n > 0 {
        lemma_pow10_pos((n - 1) as nat);
    }
}

/// Ten to a power grows with the exponent.
proof fn lemma_pow10_mono(a: nat, b: nat)
    requires
        a <= b,
    ensures
        pow10(a) <= pow10(b),
    decreases b,
{
    if a < b {
        lemma_pow10_mono(a, (b - 1) as nat);
        lemma_pow10_pos((b - 1) as nat);
    }
}

/// Ten to a power of at most eight fits well below `u32::MAX`.
proof fn lemma_pow10_le_8(n: nat)
    requires
        n <= 8,
    ensures
        pow10(n) <= 100000000,
{
    lemma_pow10_mono(n, 8);
    assert(pow10(8) == 100000000) by {
        reveal_with_fuel(pow10, 9);
    }
}

} // verus!

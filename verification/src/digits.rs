//! Decimal digit runs: the value of a run of digit characters, and the
//! canonical decimal rendering of a number.  The variant grammar reads
//! positions through `digits_val`; the report renders counts through
//! `dec_str`.

use vstd::prelude::*;

verus! {

/// `c` is one of the characters `'0'` through `'9'`.
pub open spec fn is_digit_char(c: char) -> bool {
    48 <= c as u32 && c as u32 <= 57
}

/// The numeric value of a run of digit characters, most significant first.
pub open spec fn digits_val(s: Seq<char>) -> int
    decreases s.len(),
{
    if s.len() == 0 {
        0
    } else {
        10 * digits_val(s.drop_last()) + (s.last() as u32 - 48)
    }
}

/// The digit character for a value `0 <= d <= 9`.
pub open spec fn digit_char(d: int) -> char {
    ((48 + d) as u8) as char
}

/// The decimal digits of `n >= 1`, most significant first; empty for `n <= 0`.
pub open spec fn dec_digits(n: int) -> Seq<char>
    decreases n,
{
    if n <= 0 {
        Seq::empty()
    } else {
        dec_digits(n / 10).push(digit_char(n % 10))
    }
}

/// The decimal rendering of `n >= 0`: `"0"` for zero, `dec_digits` otherwise.
pub open spec fn dec_str(n: int) -> Seq<char> {
    if n == 0 {
        seq!['0']
    } else {
        dec_digits(n)
    }
}

/// A run of digit characters has a non-negative value.
pub proof fn lemma_digits_val_nonneg(s: Seq<char>)
    requires
        forall|k: int| 0 <= k < s.len() ==> is_digit_char(#[trigger] s[k]),
    ensures
        digits_val(s) >= 0,
    decreases s.len(),
{
    if s.len() > 0 {
        lemma_digits_val_nonneg(s.drop_last());
    }
}

/// Extending a digit run to the right can only increase its value.
pub proof fn lemma_digits_val_prefix(s: Seq<char>, m: int)
    requires
        0 <= m <= s.len(),
        forall|k: int| 0 <= k < s.len() ==> is_digit_char(#[trigger] s[k]),
    ensures
        digits_val(s.take(m)) <= digits_val(s),
    decreases s.len() - m,
{
    if m == s.len() {
        assert(s.take(m) =~= s);
    } else {
        lemma_digits_val_prefix(s, m + 1);
        let t = s.take(m + 1);
        assert(t.drop_last() =~= s.take(m));
        lemma_digits_val_nonneg(s.take(m));
        assert(digits_val(s.take(m)) <= digits_val(t));
    }
}

/// `dec_digits(n)` is a digit run whose value is `n`, non-empty for `n >= 1`.
pub proof fn lemma_dec_digits(n: int)
    requires
        n >= 0,
    ensures
        forall|k: int| 0 <= k < dec_digits(n).len() ==> is_digit_char(#[trigger] dec_digits(n)[k]),
        digits_val(dec_digits(n)) == n,
        n >= 1 ==> dec_digits(n).len() >= 1,
    decreases n,
{
    if n > 0 {
        lemma_dec_digits(n / 10);
        let t = dec_digits(n / 10).push(digit_char(n % 10));
        assert(t.drop_last() =~= dec_digits(n / 10));
        assert(t.last() == digit_char(n % 10));
        assert(digit_char(n % 10) as u32 == 48 + n % 10);
        assert(digits_val(t) == 10 * (n / 10) + (n % 10));
    }
}

/// `dec_str(n)` is a non-empty digit run whose value is `n`.
pub proof fn lemma_dec_str(n: int)
    requires
        n >= 0,
    ensures
        forall|k: int| 0 <= k < dec_str(n).len() ==> is_digit_char(#[trigger] dec_str(n)[k]),
        digits_val(dec_str(n)) == n,
        dec_str(n).len() >= 1,
{
    if n == 0 {
        assert(dec_str(0) =~= seq!['0']);
        assert(dec_str(0).drop_last() =~= Seq::<char>::empty());
        assert(digits_val(Seq::<char>::empty()) == 0);
        assert(seq!['0'].last() == '0');
        assert(digits_val(dec_str(0)) == 0);
        assert(is_digit_char('0'));
    } else {
        lemma_dec_digits(n);
    }
}

/// The single-character string for a digit value.
fn digit_str(d: u32) -> (r: &'static str)
    requires
        d < 10,
    ensures
        r@ =~= seq![digit_char(d as int)],
{
    proof {
        reveal_strlit("0");
        reveal_strlit("1");
        reveal_strlit("2");
        reveal_strlit("3");
        reveal_strlit("4");
        reveal_strlit("5");
        reveal_strlit("6");
        reveal_strlit("7");
        reveal_strlit("8");
        reveal_strlit("9");
    }
    match d {
        0 => "0",
        1 => "1",
        2 => "2",
        3 => "3",
        4 => "4",
        5 => "5",
        6 => "6",
        7 => "7",
        8 => "8",
        _ => "9",
    }
}

/// The decimal rendering of a count, as a fresh string.
pub fn u32_string(x: u32) -> (r: String)
    ensures
        r@ == dec_str(x as int),
    decreases x,
{
    if x < 10 {
        let s = digit_str(x).to_owned();
        proof {
            if x > 0 {
                assert(dec_digits((x as int) / 10) =~= Seq::<char>::empty());
                assert(dec_digits(x as int) =~= seq![digit_char(x as int)]);
            }
        }
        s
    } else {
        let hi = u32_string(x / 10);
        let r = hi.concat(digit_str(x % 10));
        proof {
            assert(dec_str((x / 10) as int) == dec_digits((x / 10) as int));
            assert(r@ =~= dec_digits((x / 10) as int).push(digit_char((x % 10) as int)));
        }
        r
    }
}

} // verus!

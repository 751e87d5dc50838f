//! Decimal text of unsigned integers, as the line protocol writes them.

use vstd::prelude::*;

verus! {

/// ASCII digit for a value below ten.
pub open spec fn digit(d: nat) -> u8 {
    (48 + d) as u8
}

/// Shortest decimal text of `n`: no sign, no leading zeros.
pub open spec fn decimal(n: nat) -> Seq<u8>
    decreases n,
{
    if n < 10 {
        seq![digit(n)]
    } else {
        decimal(n / 10).push(digit(n % 10))
    }
}

/// Appends the decimal text of `n` to `out`.
pub fn push_decimal(out: &mut Vec<u8>, n: u64)
    ensures
        final(out)@ == old(out)@ + decimal(n as nat),
    decreases n,
{
    if n >= 10 {
        push_decimal(out, n / 10);
    }
    out.push(48u8 + (n % 10) as u8);
    proof {
        if n >= 10 {
            assert(decimal(n as nat) == decimal((n / 10) as nat).push(digit((n % 10) as nat)));
        }
    }
    assert(out@ =~= old(out)@ + decimal(n as nat)) by {
        reveal_with_fuel(decimal, 2);
    }
}

/// An ASCII decimal digit.
pub open spec fn is_digit(b: u8) -> bool {
    48 <= b <= 57
}

/// Every byte is a decimal digit.
pub open spec fn all_digits(s: Seq<u8>) -> bool {
    forall|i: int| 0 <= i < s.len() ==> is_digit(#[trigger] s[i])
}

/// The number that a run of decimal digits spells.
pub open spec fn digits_value(s: Seq<u8>) -> nat
    decreases s.len(),
{
    if s.len() == 0 {
        0
    } else {
        digits_value(s.drop_last()) * 10 + (s.last() - 48) as nat
    }
}

/// Shortest decimal text: digits only, not empty, no leading zero.
pub open spec fn canonical(s: Seq<u8>) -> bool {
    &&& s.len() > 0
    &&& all_digits(s)
    &&& (s.len() == 1 || s[0] != 48)
}

/// The text of a number is canonical and spells that number.
pub proof fn lemma_decimal_canonical(n: nat)
    ensures
        canonical(decimal(n)),
        digits_value(decimal(n)) == n,
    decreases n,
{
    reveal_with_fuel(digits_value, 2);
    if n >= 10 {
        let d = decimal(n / 10);
        lemma_decimal_canonical(n / 10);
        assert(decimal(n).drop_last() =~= d);
        assert(decimal(n)[0] == d[0]);
        if d.len() == 1 {
            assert(d == seq![digit(n / 10)]);
        }
    }
}

/// Digits that start with a non-zero digit spell a positive number.
proof fn lemma_value_positive(s: Seq<u8>)
    requires
        s.len() > 0,
        all_digits(s),
        s[0] != 48,
    ensures
        digits_value(s) >= 1,
    decreases s.len(),
{
    if s.len() > 1 {
        assert(s.drop_last()[0] == s[0]);
        lemma_value_positive(s.drop_last());
    } else {
        reveal_with_fuel(digits_value, 2);
    }
}

/// Canonical text is the text of the number it spells.
pub proof fn lemma_canonical_decimal(s: Seq<u8>)
    requires
        canonical(s),
    ensures
        decimal(digits_value(s)) == s,
    decreases s.len(),
{
    if s.len() == 1 {
        reveal_with_fuel(digits_value, 2);
        assert(decimal(digits_value(s)) =~= s);
    } else {
        let p = s.drop_last();
        assert(p[0] == s[0]);
        lemma_canonical_decimal(p);
        lemma_value_positive(p);
        let v = digits_value(s);
        let a = digits_value(p);
        let d = (s.last() - 48) as nat;
        assert(v == a * 10 + d);
        assert(v / 10 == a && v % 10 == d) by (nonlinear_arith)
            requires
                v == a * 10 + d,
                d < 10,
        ;
        assert(decimal(v) =~= s);
    }
}

/// A longer run of digits never spells a smaller number.
pub proof fn lemma_value_prefix(s: Seq<u8>, i: int)
    requires
        all_digits(s),
        0 <= i <= s.len(),
    ensures
        digits_value(s.subrange(0, i)) <= digits_value(s),
    decreases s.len() - i,
{
    if i < s.len() {
        lemma_value_prefix(s, i + 1);
        let p = s.subrange(0, i + 1);
        assert(p.drop_last() =~= s.subrange(0, i));
        assert(digits_value(p) >= digits_value(p.drop_last())) by (nonlinear_arith)
            requires
                digits_value(p) == digits_value(p.drop_last()) * 10 + (p.last() - 48) as nat,
        ;
    } else {
        assert(s.subrange(0, i) =~= s);
    }
}

/// Whether two byte strings are equal.
pub fn bytes_eq(a: &[u8], b: &[u8]) -> (r: bool)
    ensures
        r == (a@ == b@),
{
    if a.len() != b.len() {
        return false;
    }
    let mut i: usize = 0;
    while i < a.len()
        invariant
            a@.len() == b@.len(),
            i <= a@.len(),
            forall|j: int| 0 <= j < i ==> a@[j] == b@[j],
        decreases a@.len() - i,
    {
        if a[i] != b[i] {
            return false;
        }
        i = i + 1;
    }
    assert(a@ =~= b@);
    true
}

/// The number that canonical decimal text spells, when it fits in 64 bits.
pub fn parse_decimal(line: &[u8]) -> (r: Option<u64>)
    ensures
        r == if canonical(line@) && digits_value(line@) <= u64::MAX {
            Some(digits_value(line@) as u64)
        } else {
            None::<u64>
        },
{
    if line.len() == 0 || (line.len() > 1 && line[0] == 48u8) {
        return None;
    }
    let mut v: u64 = 0;
    let mut i: usize = 0;
    while i < line.len()
        invariant
            i <= line@.len(),
            line@.len() > 0,
            line@.len() == 1 || line@[0] != 48,
            all_digits(line@.subrange(0, i as int)),
            v as nat == digits_value(line@.subrange(0, i as int)),
        decreases line@.len() - i,
    {
        let c = line[i];
        if c < 48u8 || c > 57u8 {
            assert(!is_digit(line@[i as int]));
            return None;
        }
        let d: u64 = (c - 48u8) as u64;
        let ghost p = line@.subrange(0, i as int + 1);
        assert(p.drop_last() =~= line@.subrange(0, i as int));
        assert(digits_value(p) == v * 10 + d);
        if v > (u64::MAX - d) / 10 {
            proof {
                assert(v * 10 + d > u64::MAX) by (nonlinear_arith)
                    requires
                        v > (u64::MAX - d) / 10,
                        d <= 9,
                ;
                if all_digits(line@) {
                    lemma_value_prefix(line@, i as int + 1);
                }
            }
            return None;
        }
        assert(v * 10 + d <= u64::MAX) by (nonlinear_arith)
            requires
                v <= (u64::MAX - d) / 10,
                d <= 9,
        ;
        v = v * 10 + d;
        i = i + 1;
        assert(all_digits(line@.subrange(0, i as int))) by {
            assert forall|j: int| 0 <= j < i implies is_digit(#[trigger] line@.subrange(0, i as int)[j]) by {
                if j < i - 1 {
                    assert(line@.subrange(0, i as int)[j] == line@.subrange(0, i - 1)[j]);
                }
            }
        }
    }
    assert(line@.subrange(0, i as int) =~= line@);
    Some(v)
}


} // verus!

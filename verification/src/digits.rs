use vstd::prelude::*;

verus! {

/// The decimal digit bytes (`'0'..='9'`) of `n`, most significant first,
/// with no leading zeroes.
pub open spec fn dec_digits(n: nat) -> Seq<u8>
    decreases n,
{
    if n < 10 {
        seq![(48 + n) as u8]
    } else {
        dec_digits(n / 10).push((48 + n % 10) as u8)
    }
}

/// Is `b` the byte of a decimal digit?
pub open spec fn is_digit(b: u8) -> bool {
    48 <= b <= 57
}

pub open spec fn all_digits(s: Seq<u8>) -> bool {
    forall|i: int| 0 <= i < s.len() ==> is_digit(s[i])
}

/// The number denoted by a sequence of digit bytes, most significant first.
pub open spec fn digits_val(s: Seq<u8>) -> nat
    decreases s.len(),
{
    if s.len() == 0 {
        0
    } else {
        digits_val(s.drop_last()) * 10 + (s.last() - 48) as nat
    }
}

/// Formatting a number yields digit bytes that denote it back.
pub proof fn lemma_dec_digits_val(n: nat)
    ensures
        digits_val(dec_digits(n)) == n,
        all_digits(dec_digits(n)),
        dec_digits(n).len() >= 1,
    decreases n,
{
    if n < 10 {
        let s = dec_digits(n);
        assert(s =~= seq![(48 + n) as u8]);
        assert(s.drop_last() =~= Seq::<u8>::empty());
        assert(digits_val(Seq::<u8>::empty()) == 0);
        assert(digits_val(s) == ((48 + n) as u8 - 48) as nat);
    } else {
        lemma_dec_digits_val(n / 10);
        let p = dec_digits(n / 10);
        let d = (48 + n % 10) as u8;
        assert(p.push(d).drop_last() =~= p);
        assert(p.push(d).last() == d);
        assert(digits_val(p.push(d)) == digits_val(p) * 10 + (d - 48) as nat);
        assert((d - 48) as nat == n % 10);
        assert(n / 10 * 10 + n % 10 == n) by {
            vstd::arithmetic::div_mod::lemma_fundamental_div_mod(n as int, 10);
        };
    }
}

/// Extending a digit prefix by one byte multiplies its value by ten and
/// adds the new digit.
pub proof fn lemma_digits_val_step(s: Seq<u8>, i: int)
    requires
        0 <= i < s.len(),
    ensures
        digits_val(s.subrange(0, i + 1)) == digits_val(s.subrange(0, i)) * 10 + (s[i] - 48) as nat,
{
    let p = s.subrange(0, i + 1);
    assert(p.drop_last() =~= s.subrange(0, i));
    assert(p.last() == s[i]);
}

/// With digit bytes only, a longer prefix never denotes a smaller number.
pub proof fn lemma_digits_val_mono(s: Seq<u8>, i: int, j: int)
    requires
        0 <= i <= j <= s.len(),
        all_digits(s),
    ensures
        digits_val(s.subrange(0, i)) <= digits_val(s.subrange(0, j)),
    decreases j - i,
{
    if i < j {
        lemma_digits_val_mono(s, i + 1, j);
        lemma_digits_val_step(s, i);
    }
}

/// The number denoted by a field of digit bytes, if it is one and fits in a `u64`.
pub open spec fn spec_parse_u64(s: Seq<u8>) -> Option<u64> {
    if s.len() >= 1 && all_digits(s) && digits_val(s) <= u64::MAX {
        Some(digits_val(s) as u64)
    } else {
        None
    }
}

/// Appends the decimal digits of `n` to `out`.
pub fn push_dec_digits(out: &mut Vec<u8>, n: u64)
    ensures
        final(out)@ == old(out)@ + dec_digits(n as nat),
    decreases n,
{
    if n < 10 {
        out.push(48 + n as u8);
        assert(out@ =~= old(out)@ + dec_digits(n as nat));
    } else {
        push_dec_digits(out, n / 10);
        out.push(48 + (n % 10) as u8);
        assert(out@ =~= old(out)@ + dec_digits(n as nat));
    }
}

/// Reads a whole field as an unsigned decimal number.
pub fn parse_u64_digits(s: &[u8]) -> (r: Option<u64>)
    ensures
        r == spec_parse_u64(s@),
{
    if s.len() == 0 {
        return None;
    }
    let mut acc: u64 = 0;
    let mut i: usize = 0;
    while i < s.len()
        invariant
            0 <= i <= s@.len(),
            acc == digits_val(s@.subrange(0, i as int)),
            all_digits(s@.subrange(0, i as int)),
        decreases s@.len() - i,
    {
        let b = s[i];
        if b < 48 || b > 57 {
            assert(!is_digit(s@[i as int]));
            assert(!all_digits(s@));
            return None;
        }
        let d = (b - 48) as u64;
        if acc > (u64::MAX - d) / 10 {
            proof {
                lemma_digits_val_step(s@, i as int);
                vstd::arithmetic::div_mod::lemma_fundamental_div_mod((u64::MAX - d) as int, 10);
                assert(digits_val(s@.subrange(0, i as int + 1)) > u64::MAX);
                if all_digits(s@) {
                    lemma_digits_val_mono(s@, i as int + 1, s@.len() as int);
                    assert(s@.subrange(0, s@.len() as int) =~= s@);
                }
            }
            return None;
        }
        proof {
            lemma_digits_val_step(s@, i as int);
            vstd::arithmetic::div_mod::lemma_fundamental_div_mod((u64::MAX - d) as int, 10);
            assert(all_digits(s@.subrange(0, i as int + 1)));
        }
        acc = acc * 10 + d;
        i = i + 1;
    }
    proof {
        assert(s@.subrange(0, s@.len() as int) =~= s@);
    }
    Some(acc)
}

/// A number written as exactly two digits: its tens and its ones.
pub open spec fn fmt_2d(n: nat) -> Seq<u8> {
    seq![(48 + (n / 10) % 10) as u8, (48 + n % 10) as u8]
}

/// Reads a field of exactly two digit bytes.
pub open spec fn spec_parse_2d(s: Seq<u8>) -> Option<u8> {
    if s.len() == 2 && is_digit(s[0]) && is_digit(s[1]) {
        Some((((s[0] - 48) * 10 + (s[1] - 48))) as u8)
    } else {
        None
    }
}

/// Appends `n` as exactly two digits; `n` must be below one hundred.
pub fn push_2d(out: &mut Vec<u8>, n: u8)
    requires
        n < 100,
    ensures
        final(out)@ == old(out)@ + fmt_2d(n as nat),
{
    out.push(48 + n / 10);
    out.push(48 + n % 10);
    assert(out@ =~= old(out)@ + fmt_2d(n as nat));
}

/// Reads exactly two digit bytes as a number below one hundred.
pub fn parse_2d(s: &[u8]) -> (r: Option<u8>)
    ensures
        r == spec_parse_2d(s@),
        r is Some ==> r->0 < 100,
{
    if s.len() != 2 {
        return None;
    }
    let a = s[0];
    let b = s[1];
    if a < 48 || a > 57 || b < 48 || b > 57 {
        return None;
    }
    Some((a - 48) * 10 + (b - 48))
}

/// Two-digit formatting and reading are inverse below one hundred.
pub proof fn lemma_2d_roundtrip(n: nat)
    requires
        n < 100,
    ensures
        spec_parse_2d(fmt_2d(n)) == Some(n as u8),
{
    assert(n / 10 < 10);
    assert(n / 10 % 10 == n / 10);
    assert(n / 10 * 10 + n % 10 == n) by {
        vstd::arithmetic::div_mod::lemma_fundamental_div_mod(n as int, 10);
    };
}

} // verus!

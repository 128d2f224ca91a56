use vstd::prelude::*;

verus! {

/// ASCII decimal digit.
pub open spec fn is_ascii_digit(b: u8) -> bool {
    48 <= b && b <= 57
}

/// Every byte of the sequence is an ASCII decimal digit.
pub open spec fn all_digits(s: Seq<u8>) -> bool {
    forall|i: int| 0 <= i < s.len() ==> is_ascii_digit(#[trigger] s[i])
}

/// The number a sequence of ASCII digits denotes, most significant first.
pub open spec fn digits_value(s: Seq<u8>) -> int
    decreases s.len(),
{
    if s.len() == 0 {
        0
    } else {
        digits_value(s.drop_last()) * 10 + (s.last() - 48)
    }
}

/// Ten to the `n`th.
pub open spec fn pow10(n: nat) -> int
    decreases n,
{
    if n == 0 {
        1
    } else {
        10 * pow10((n - 1) as nat)
    }
}

pub proof fn lemma_pow10_pos(n: nat)
    ensures
        pow10(n) >= 1,
    decreases n,
{
    if n > 0 {
        lemma_pow10_pos((n - 1) as nat);
    }
}

pub proof fn lemma_pow10_monotone(m: nat, n: nat)
    requires
        m <= n,
    ensures
        pow10(m) <= pow10(n),
    decreases n,
{
    if m < n {
        lemma_pow10_monotone(m, (n - 1) as nat);
        lemma_pow10_pos((n - 1) as nat);
    }
}

pub proof fn lemma_pow10_adds(m: nat, n: nat)
    ensures
        pow10(m) * pow10(n) == pow10((m + n) as nat),
    decreases n,
{
    if n == 0 {
    } else {
        lemma_pow10_adds(m, (n - 1) as nat);
        assert(pow10(m) * (10 * pow10((n - 1) as nat)) == 10 * (pow10(m) * pow10(
            (n - 1) as nat,
        ))) by (nonlinear_arith);
    }
}

/// A digit string denotes a value between zero and ten to its length.
pub proof fn lemma_digits_value_bound(s: Seq<u8>)
    requires
        all_digits(s),
    ensures
        0 <= digits_value(s) < pow10(s.len() as nat),
    decreases s.len(),
{
    if s.len() > 0 {
        let d = s.drop_last();
        assert(all_digits(d));
        lemma_digits_value_bound(d);
        let p = pow10(d.len() as nat);
        assert(digits_value(d) * 10 + 9 < p * 10) by (nonlinear_arith)
            requires
                0 <= digits_value(d) < p,
        ;
    }
}

/// Reading further digits multiplies the value read so far and adds the rest.
pub proof fn lemma_digits_value_append(a: Seq<u8>, b: Seq<u8>)
    ensures
        digits_value(a + b) == digits_value(a) * pow10(b.len() as nat) + digits_value(b),
    decreases b.len(),
{
    if b.len() == 0 {
        assert(a + b =~= a);
    } else {
        let b0 = b.drop_last();
        lemma_digits_value_append(a, b0);
        assert((a + b).drop_last() =~= a + b0);
        assert((a + b).last() == b.last());
        let va = digits_value(a);
        let p0 = pow10(b0.len() as nat);
        assert((va * p0 + digits_value(b0)) * 10 == va * (p0 * 10) + digits_value(b0) * 10)
            by (nonlinear_arith);
    }
}

/// A digit string denotes no less than any of its prefixes.
pub proof fn lemma_digits_prefix_le(a: Seq<u8>, b: Seq<u8>)
    requires
        all_digits(a),
        all_digits(b),
    ensures
        digits_value(a) <= digits_value(a + b),
    decreases b.len(),
{
    lemma_digits_value_append(a, b);
    lemma_digits_value_bound(a);
    lemma_digits_value_bound(b);
    lemma_pow10_pos(b.len() as nat);
    vstd::arithmetic::mul::lemma_mul_inequality(1, pow10(b.len() as nat), digits_value(a));
}

/// A decimal string an unsigned integer parser accepts: an optional plus
/// sign, then at least one digit.
pub open spec fn uint_str_valid(s: Seq<u8>) -> bool {
    if s.len() > 0 && s[0] == 43 {
        s.len() > 1 && all_digits(s.skip(1))
    } else {
        s.len() > 0 && all_digits(s)
    }
}

/// The value such a string denotes.
pub open spec fn uint_str_value(s: Seq<u8>) -> int {
    if s.len() > 0 && s[0] == 43 {
        digits_value(s.skip(1))
    } else {
        digits_value(s)
    }
}

/// Parses an unsigned decimal integer of at most `max`, as the standard
/// integer parsers do: an optional plus sign, then digits; anything else,
/// or a value over `max`, is rejected.
pub fn parse_uint(s: &[u8], max: u64) -> (r: Option<u64>)
    ensures
        uint_str_valid(s@) && uint_str_value(s@) <= max ==> (r matches Some(v) && v
            == uint_str_value(s@)),
        !(uint_str_valid(s@) && uint_str_value(s@) <= max) ==> r is None,
{
    let n = s.len();
    let start: usize = if n > 0 && s[0] == 43 {
        1
    } else {
        0
    };
    if n == start {
        return None;
    }
    let ghost body = s@.skip(start as int);
    proof {
        if start == 0 {
            assert(body =~= s@);
        }
    }
    let mut acc: u64 = 0;
    let mut k: usize = start;
    while k < n
        invariant
            start <= k <= n,
            start < n,
            n == s@.len(),
            start == 0 || start == 1,
            start == 1 <==> (s@.len() > 0 && s@[0] == 43),
            start == 0 ==> body == s@,
            body == s@.skip(start as int),
            all_digits(s@.subrange(start as int, k as int)),
            acc == digits_value(s@.subrange(start as int, k as int)),
            acc <= max,
        decreases n - k,
    {
        let b = s[k];
        if b < 48 || b > 57 {
            proof {
                assert(body[k - start] == s@[k as int]);
                assert(!all_digits(body));
            }
            return None;
        }
        let next: u128 = (acc as u128) * 10 + ((b - 48) as u128);
        proof {
            let pfx = s@.subrange(start as int, k as int);
            let pfx1 = s@.subrange(start as int, k as int + 1);
            assert(pfx1.drop_last() =~= pfx);
            assert(digits_value(pfx1) == next);
        }
        if next > max as u128 {
            proof {
                let pfx1 = s@.subrange(start as int, k as int + 1);
                if uint_str_valid(s@) {
                    let rest = s@.subrange(k as int + 1, n as int);
                    assert(body =~= pfx1 + rest);
                    assert(all_digits(body));
                    assert forall|i: int| 0 <= i < rest.len() implies is_ascii_digit(
                        rest[i],
                    ) by {
                        assert(rest[i] == body[k + 1 - start + i]);
                    }
                    assert forall|i: int| 0 <= i < pfx1.len() implies is_ascii_digit(
                        pfx1[i],
                    ) by {
                        assert(pfx1[i] == body[i]);
                    }
                    lemma_digits_prefix_le(pfx1, rest);
                    assert(digits_value(body) >= digits_value(pfx1));
                }
            }
            return None;
        }
        acc = next as u64;
        k = k + 1;
    }
    proof {
        assert(s@.subrange(start as int, n as int) =~= body);
    }
    Some(acc)
}

} // verus!

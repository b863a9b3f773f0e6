use vstd::prelude::*;

verus! {

pub open spec fn is_digit(b: u8) -> bool {
    0x30 <= b <= 0x39
}

/// The value of a string of decimal digits.
pub open spec fn decimal(s: Seq<u8>) -> nat
    decreases s.len(),
{
    if s.len() == 0 {
        0
    } else {
        decimal(s.drop_last()) * 10 + (s.last() - 0x30) as nat
    }
}

/// The digits of a stored high score: all of the text but an optional leading `+`.
pub open spec fn digits_of(s: Seq<u8>) -> Seq<u8> {
    if s.len() > 0 && s[0] == 0x2b {
        s.subrange(1, s.len() as int)
    } else {
        s
    }
}

/// The stored text holds an unsigned 32-bit integer in decimal.
pub open spec fn well_formed(s: Seq<u8>) -> bool {
    let d = digits_of(s);
    &&& d.len() > 0
    &&& forall|i: int| 0 <= i < d.len() ==> is_digit(#[trigger] d[i])
    &&& decimal(d) <= u32::MAX
}

/// The high score that a stored text gives: its value, or 0 where it is empty or malformed.
pub open spec fn stored_high_score(s: Seq<u8>) -> u32 {
    if well_formed(s) {
        decimal(digits_of(s)) as u32
    } else {
        0
    }
}

proof fn lemma_decimal_monotone(s: Seq<u8>, i: int)
    requires
        0 <= i <= s.len(),
        forall|k: int| 0 <= k < s.len() ==> is_digit(#[trigger] s[k]),
    ensures
        decimal(s.take(i)) <= decimal(s),
    decreases s.len() - i,
{
    if i < s.len() {
        lemma_decimal_monotone(s, i + 1);
        assert(s.take(i + 1).drop_last() =~= s.take(i));
    } else {
        assert(s.take(i) =~= s);
    }
}

/// Reads a high score from the stored text; empty or malformed text gives 0.
pub fn parse_high_score(text: &[u8]) -> (r: u32)
    ensures
        r == stored_high_score(text@),
{
    let n = text.len();
    let start: usize = if n > 0 && text[0] == 0x2b { 1 } else { 0 };
    let ghost d = digits_of(text@);
    assert(d =~= text@.subrange(start as int, n as int));
    if start == n {
        return 0;
    }
    let mut value: u64 = 0;
    let mut i: usize = start;
    while i < n
        invariant
            start <= i <= n,
            n == text@.len(),
            d == text@.subrange(start as int, n as int),
            d == digits_of(text@),
            forall|k: int| start <= k < i ==> is_digit(#[trigger] text@[k]),
            value == decimal(d.take(i - start)),
            value <= u32::MAX,
        decreases n - i,
    {
        let b = text[i];
        if b < 0x30 || b > 0x39 {
            assert(d[i - start] == text@[i as int]);
            assert(!is_digit(d[i - start]));
            return 0;
        }
        proof {
            assert(d.take(i - start + 1).drop_last() =~= d.take(i - start));
            assert(d.take(i - start + 1).last() == b);
            assert(d[i - start] == text@[i as int]);
        }
        value = value * 10 + (b - 0x30) as u64;
        if value > 0xffff_ffff {
            proof {
                if forall|k: int| 0 <= k < d.len() ==> is_digit(#[trigger] d[k]) {
                    lemma_decimal_monotone(d, i + 1 - start);
                    assert(value == decimal(d.take(i + 1 - start)));
                    assert(decimal(d) > u32::MAX);
                }
                assert(!well_formed(text@));
            }
            return 0;
        }
        i += 1;
    }
    assert(d.take(n - start) =~= d);
    value as u32
}

} // verus!

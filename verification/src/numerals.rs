//! Decimal numerals as the console reads them: a verified replacement
//! for parsing an unsigned integer out of a string, stated over the
//! string's bytes.
use vstd::prelude::*;
use vstd::string::StringSliceAdditionalSpecFns;

verus! {

/// Is `b` the code of a decimal digit?
pub open spec fn is_digit_byte(b: u8) -> bool {
    48 <= b && b <= 57
}

/// Does every byte of `s` hold a decimal digit?
pub open spec fn all_digit_bytes(s: Seq<u8>) -> bool {
    forall|i: int| 0 <= i < s.len() ==> is_digit_byte(#[trigger] s[i])
}

/// The number the digit bytes of `s` spell, most significant first.
pub open spec fn digits_value(s: Seq<u8>) -> int
    decreases s.len(),
{
    if s.len() == 0 {
        0
    } else {
        digits_value(s.drop_last()) * 10 + (s.last() - 48)
    }
}

/// The digits of a numeral: everything after one optional leading plus
/// sign.
pub open spec fn numeral_body(s: Seq<u8>) -> Seq<u8> {
    if s.len() > 0 && s[0] == 43 {
        s.subrange(1, s.len() as int)
    } else {
        s
    }
}

/// A digit string spells a number that is at least zero.
proof fn lemma_digits_value_nonneg(s: Seq<u8>)
    requires
        all_digit_bytes(s),
    ensures
        digits_value(s) >= 0,
    decreases s.len(),
{
    if s.len() > 0 {
        lemma_digits_value_nonneg(s.drop_last());
    }
}

/// A digit string spells at least as much as any of its prefixes.
proof fn lemma_digits_value_take_le(s: Seq<u8>, i: int)
    requires
        all_digit_bytes(s),
        0 <= i <= s.len(),
    ensures
        digits_value(s.take(i)) <= digits_value(s),
    decreases s.len() - i,
{
    if i == s.len() {
        assert(s.take(i) =~= s);
    } else {
        assert(s.take(i + 1).drop_last() =~= s.take(i));
        assert(forall|j: int| 0 <= j < i ==> is_digit_byte(#[trigger] s.take(i)[j]));
        lemma_digits_value_nonneg(s.take(i));
        assert(digits_value(s.take(i + 1)) == digits_value(s.take(i)) * 10 + (s[i] - 48));
        lemma_digits_value_take_le(s, i + 1);
    }
}

/// The number an unsigned decimal numeral spells: one optional plus sign,
/// then one or more digits, whose value must fit a `usize`. Anything
/// else — an empty string, a stray character, a value past the limit —
/// is refused.
#[verifier::loop_isolation(false)]
pub fn parse_usize(s: &str) -> (r: Option<usize>)
    ensures
        ({
            let b = numeral_body(s.spec_bytes());
            &&& ((r is Some) <==> (b.len() > 0 && all_digit_bytes(b) && digits_value(b)
                <= usize::MAX))
            &&& (r matches Some(v) ==> v == digits_value(b))
        }),
{
    let bytes = s.as_bytes();
    let n = bytes.len();
    let mut start: usize = 0;
    if n > 0 && bytes[0] == 43 {
        start = 1;
    }
    let ghost body = numeral_body(s.spec_bytes());
    proof {
        assert(body =~= s.spec_bytes().subrange(start as int, n as int));
    }
    if n == start {
        return None;
    }

    let mut acc: usize = 0;
    let mut i: usize = start;
    while i < n
        invariant
            start <= i <= n,
            bytes@ == s.spec_bytes(),
            n == bytes@.len(),
            body == s.spec_bytes().subrange(start as int, n as int),
            all_digit_bytes(body.take(i - start)),
            acc == digits_value(body.take(i - start)),
        decreases n - i,
    {
        let b = bytes[i];
        proof {
            assert(body[i - start] == b);
        }
        if b < 48 || b > 57 {
            return None;
        }
        let d = (b - 48) as usize;
        proof {
            vstd::arithmetic::div_mod::lemma_fundamental_div_mod(usize::MAX - d, 10);
            assert(body.take(i + 1 - start).drop_last() =~= body.take(i - start));
            lemma_digits_value_nonneg(body.take(i - start));
        }
        if acc > (usize::MAX - d) / 10 {
            proof {
                if all_digit_bytes(body) {
                    lemma_digits_value_take_le(body, i + 1 - start);
                }
            }
            return None;
        }
        acc = acc * 10 + d;
        i = i + 1;
    }
    proof {
        assert(body.take(n - start) =~= body);
    }
    Some(acc)
}

} // verus!

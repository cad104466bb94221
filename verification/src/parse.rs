use vstd::prelude::*;

verus! {

/// An ASCII decimal digit, `'0'` through `'9'`.
pub open spec fn is_digit(b: u8) -> bool {
    48 <= b <= 57
}

/// Every byte of `s` is an ASCII digit.
pub open spec fn all_digits(s: Seq<u8>) -> bool {
    forall|i: int| 0 <= i < s.len() ==> is_digit(#[trigger] s[i])
}

/// The number denoted by a sequence of ASCII digits, most significant
/// first.
pub open spec fn digits_value(s: Seq<u8>) -> int
    decreases s.len(),
{
    if s.len() == 0 {
        0
    } else {
        digits_value(s.drop_last()) * 10 + (s.last() - 48)
    }
}

/// The digit part of a guess text: everything after an optional
/// leading `'+'` sign.
pub open spec fn guess_digits(s: Seq<u8>) -> Seq<u8> {
    if s.len() > 0 && s[0] == 43 {
        s.subrange(1, s.len() as int)
    } else {
        s
    }
}

/// A guess text denotes an unsigned number: an optional `'+'`, then at
/// least one digit, with a value that fits in 32 bits.
pub open spec fn is_valid_guess_text(s: Seq<u8>) -> bool {
    &&& guess_digits(s).len() > 0
    &&& all_digits(guess_digits(s))
    &&& digits_value(guess_digits(s)) <= u32::MAX
}

/// The number a valid guess text denotes.
pub open spec fn guess_value(s: Seq<u8>) -> int {
    digits_value(guess_digits(s))
}

/// A sequence of digits denotes a non-negative number.
pub proof fn lemma_digits_value_nonneg(s: Seq<u8>)
    requires
        all_digits(s),
    ensures
        digits_value(s) >= 0,
    decreases s.len(),
{
    if s.len() > 0 {
        assert(all_digits(s.drop_last()));
        lemma_digits_value_nonneg(s.drop_last());
    }
}

/// Extending a digit string never shrinks its value.
pub proof fn lemma_digits_value_prefix(s: Seq<u8>, k: int)
    requires
        all_digits(s),
        0 <= k <= s.len(),
    ensures
        digits_value(s.take(k)) <= digits_value(s),
    decreases s.len() - k,
{
    if k == s.len() {
        assert(s.take(k) =~= s);
    } else {
        assert(s.take(k + 1).drop_last() =~= s.take(k));
        assert(s.take(k + 1).last() == s[k]);
        assert(all_digits(s.take(k)));
        lemma_digits_value_nonneg(s.take(k));
        lemma_digits_value_prefix(s, k + 1);
    }
}

/// Parse a guess text as `u32::from_str` would: an optional leading
/// `'+'`, then one or more decimal digits whose value fits in 32 bits.
/// Returns the denoted value, or `None` for anything else.
pub fn parse_guess(text: &[u8]) -> (r: Option<u32>)
    ensures
        r is Some <==> is_valid_guess_text(text@),
        r is Some ==> r->Some_0 == guess_value(text@),
{
    let n = text.len();
    let start: usize = if n > 0 && text[0] == 43 {
        1
    } else {
        0
    };
    proof {
        assert(guess_digits(text@) =~= text@.subrange(start as int, n as int));
    }
    if start >= n {
        return None;
    }
    let mut acc: u64 = 0;
    let mut i: usize = start;
    while i < n
        invariant
            start <= i <= n,
            n == text@.len(),
            all_digits(text@.subrange(start as int, i as int)),
            acc == digits_value(text@.subrange(start as int, i as int)),
            acc <= u32::MAX,
            guess_digits(text@) =~= text@.subrange(start as int, n as int),
        decreases n - i,
    {
        let b = text[i];
        if b < 48 || b > 57 {
            proof {
                assert(guess_digits(text@)[i - start] == text@[i as int]);
            }
            return None;
        }
        proof {
            assert(text@.subrange(start as int, i + 1).drop_last() =~= text@.subrange(
                start as int,
                i as int,
            ));
            assert(text@.subrange(start as int, i + 1).last() == text@[i as int]);
        }
        acc = acc * 10 + ((b - 48) as u64);
        i = i + 1;
        if acc > u32::MAX as u64 {
            proof {
                if is_valid_guess_text(text@) {
                    assert(guess_digits(text@).take(i - start) =~= text@.subrange(
                        start as int,
                        i as int,
                    ));
                    lemma_digits_value_prefix(guess_digits(text@), i - start);
                }
            }
            return None;
        }
    }
    proof {
        assert(text@.subrange(start as int, n as int) == guess_digits(text@));
    }
    Some(acc as u32)
}

} // verus!

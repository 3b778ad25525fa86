//! Octal text codec for the numeric header fields: USTAR stores every number
//! as fixed-width, zero-padded octal ASCII digits.

use vstd::prelude::*;

use crate::error::TarError;

verus! {

/// `8 ^ d`: the number of values a `d`-digit octal field can hold.
pub open spec fn pow8(d: nat) -> int
    decreases d,
{
    if d == 0 {
        1
    } else {
        8 * pow8((d - 1) as nat)
    }
}

/// `b` is an ASCII octal digit, `'0'` through `'7'`.
pub open spec fn is_oct_digit(b: u8) -> bool {
    0x30 <= b <= 0x37
}

/// Every byte of `s` is an ASCII octal digit.
pub open spec fn all_oct_digits(s: Seq<u8>) -> bool {
    forall|i: int| 0 <= i < s.len() ==> is_oct_digit(#[trigger] s[i])
}

/// The value of the big-endian octal digit string `s`.
pub open spec fn oct_val(s: Seq<u8>) -> int
    decreases s.len(),
{
    if s.len() == 0 {
        0
    } else {
        8 * oct_val(s.drop_last()) + (s.last() - 0x30)
    }
}

/// `v` written as exactly `d` zero-padded big-endian octal digits.
pub open spec fn oct_render(v: int, d: nat) -> Seq<u8>
    decreases d,
{
    if d == 0 {
        Seq::empty()
    } else {
        oct_render(v / 8, (d - 1) as nat).push((0x30 + v % 8) as u8)
    }
}

/// The last byte of an octal text field is dropped (it is a NUL terminator)
/// and the rest must be octal digits whose value fits the machine word.
pub open spec fn oct_parse_ok(s: Seq<u8>) -> bool {
    &&& s.len() >= 2
    &&& all_oct_digits(s.drop_last())
    &&& oct_val(s.drop_last()) <= usize::MAX
}

pub proof fn lemma_pow8_pos(d: nat)
    ensures
        pow8(d) >= 1,
    decreases d,
{
    if d > 0 {
        lemma_pow8_pos((d - 1) as nat);
    }
}

/// A rendered number is all octal digits of the requested width.
pub proof fn lemma_oct_render_digits(v: int, d: nat)
    requires
        v >= 0,
    ensures
        oct_render(v, d).len() == d,
        all_oct_digits(oct_render(v, d)),
    decreases d,
{
    if d > 0 {
        lemma_oct_render_digits(v / 8, (d - 1) as nat);
        let r = oct_render(v, d);
        assert forall|i: int| 0 <= i < d implies is_oct_digit(#[trigger] r[i]) by {
            if i < d - 1 {
                assert(r[i] == oct_render(v / 8, (d - 1) as nat)[i]);
            }
        }
    }
}

/// Rendering then reading back an in-range value is the identity.
pub proof fn lemma_oct_val_render(v: int, d: nat)
    requires
        0 <= v < pow8(d),
    ensures
        oct_val(oct_render(v, d)) == v,
    decreases d,
{
    if d == 0 {
    } else {
        assert(v / 8 < pow8((d - 1) as nat)) by {
            assert(v < 8 * pow8((d - 1) as nat));
        };
        lemma_oct_val_render(v / 8, (d - 1) as nat);
        let r = oct_render(v, d);
        assert(r.drop_last() =~= oct_render(v / 8, (d - 1) as nat));
        assert(r.last() == (0x30 + v % 8) as u8);
    }
}

/// Two distinct in-range values never render to the same digits.
pub proof fn lemma_oct_render_injective(a: int, b: int, d: nat)
    requires
        0 <= a < pow8(d),
        0 <= b < pow8(d),
        a != b,
    ensures
        oct_render(a, d) != oct_render(b, d),
{
    lemma_oct_val_render(a, d);
    lemma_oct_val_render(b, d);
}

/// A string of `n` octal digits holds a value below `8 ^ n`.
pub proof fn lemma_oct_val_bound(s: Seq<u8>)
    requires
        all_oct_digits(s),
    ensures
        0 <= oct_val(s) < pow8(s.len()),
    decreases s.len(),
{
    if s.len() > 0 {
        assert forall|i: int| 0 <= i < s.len() - 1 implies is_oct_digit(
            #[trigger] s.drop_last()[i],
        ) by {
            assert(s.drop_last()[i] == s[i]);
        }
        lemma_oct_val_bound(s.drop_last());
        assert(is_oct_digit(s.last()));
    }
}

/// Reading more digits never shrinks the value.
pub proof fn lemma_oct_val_prefix_le(s: Seq<u8>, i: int)
    requires
        all_oct_digits(s),
        0 <= i <= s.len(),
    ensures
        oct_val(s.take(i)) <= oct_val(s),
    decreases s.len(),
{
    if i < s.len() {
        assert forall|k: int| 0 <= k < s.len() - 1 implies is_oct_digit(
            #[trigger] s.drop_last()[k],
        ) by {
            assert(s.drop_last()[k] == s[k]);
        }
        assert(s.take(i) =~= s.drop_last().take(i));
        lemma_oct_val_prefix_le(s.drop_last(), i);
        lemma_oct_val_bound(s.drop_last());
        assert(is_oct_digit(s.last()));
        assert(oct_val(s) >= 8 * oct_val(s.drop_last()) + 0);
    } else {
        assert(s.take(i) =~= s);
    }
}

/// Writes `input` as exactly `digits` zero-padded octal digit characters.
pub fn dec_to_oct(input: usize, digits: usize) -> (r: Vec<u8>)
    requires
        input < pow8(digits as nat),
    ensures
        r@ == oct_render(input as int, digits as nat),
        r@.len() == digits,
    decreases digits,
{
    proof {
        lemma_oct_render_digits(input as int, digits as nat);
    }
    if digits == 0 {
        Vec::new()
    } else {
        proof {
            assert((input as int) / 8 < pow8((digits - 1) as nat)) by {
                assert(input < 8 * pow8((digits - 1) as nat));
            };
        }
        let mut r = dec_to_oct(input / 8, digits - 1);
        r.push(0x30u8 + (input % 8) as u8);
        r
    }
}

/// Reads an octal text field: all bytes but the final NUL terminator must be
/// octal digits. Fails with `EncodingFailure` on any other shape, or when the
/// value does not fit the machine word.
pub fn oct_to_dec(input: &Vec<u8>) -> (r: Result<usize, TarError>)
    ensures
        r is Ok <==> oct_parse_ok(input@),
        r is Ok ==> r->Ok_0 == oct_val(input@.drop_last()),
        r is Err ==> r->Err_0 == TarError::EncodingFailure,
{
    let n = input.len();
    if n < 2 {
        return Err(TarError::EncodingFailure);
    }
    let digits = n - 1;
    let ghost s = input@.drop_last();
    let mut i: usize = 0;
    while i < digits
        invariant
            i <= digits,
            digits == input@.len() - 1,
            s == input@.drop_last(),
            forall|k: int| 0 <= k < i ==> is_oct_digit(#[trigger] s[k]),
        decreases digits - i,
    {
        let b = input[i];
        assert(s[i as int] == b);
        if b < 0x30 || b > 0x37 {
            assert(!is_oct_digit(s[i as int]));
            return Err(TarError::EncodingFailure);
        }
        i = i + 1;
    }
    assert(all_oct_digits(s));
    let mut val: usize = 0;
    let mut j: usize = 0;
    while j < digits
        invariant
            j <= digits,
            digits == input@.len() - 1,
            s == input@.drop_last(),
            all_oct_digits(s),
            val == oct_val(s.take(j as int)),
        decreases digits - j,
    {
        assert(is_oct_digit(input@[j as int])) by {
            assert(input@[j as int] == s[j as int]);
        };
        let d = input[j] - 0x30;
        if val > (usize::MAX - d as usize) / 8 {
            proof {
                let t = s.take(j + 1);
                assert(t.drop_last() =~= s.take(j as int));
                assert(t.last() == s[j as int]);
                assert(oct_val(t) == 8 * (val as int) + d);
                assert(8 * (val as int) + d > usize::MAX) by {
                    assert(val > (usize::MAX - d as usize) / 8);
                };
                lemma_oct_val_prefix_le(s, j + 1);
                assert(oct_val(s) > usize::MAX);
                assert(!oct_parse_ok(input@));
            }
            return Err(TarError::EncodingFailure);
        }
        proof {
            let t = s.take(j + 1);
            assert(t.drop_last() =~= s.take(j as int));
            assert(t.last() == s[j as int]);
            assert(8 * (val as int) + d <= usize::MAX) by {
                assert(val <= (usize::MAX - d as usize) / 8);
            };
        }
        val = val * 8 + d as usize;
        j = j + 1;
    }
    assert(s.take(digits as int) =~= s);
    Ok(val)
}

} // verus!

//! Fixed-width binary numerals.

use vstd::prelude::*;
use vstd::string::StringExecFns;

verus! {

/// The character that writes one binary digit.
pub open spec fn bit_char(bit: nat) -> char {
    if bit == 0 {
        '0'
    } else {
        '1'
    }
}

/// `value` written in base two with exactly `width` digits, the most
/// significant first. Digits beyond `width` are cut off; a short number is
/// padded with zeros on the left.
pub open spec fn binary(value: nat, width: nat) -> Seq<char>
    decreases width,
{
    if width == 0 {
        Seq::empty()
    } else {
        binary(value / 2, (width - 1) as nat).push(bit_char(value % 2))
    }
}

/// A numeral of `width` digits has `width` characters, each `0` or `1`.
pub proof fn lemma_binary_shape(value: nat, width: nat)
    ensures
        binary(value, width).len() == width,
        forall|i: int|
            0 <= i < width ==> {
                ||| #[trigger] binary(value, width)[i] == '0'
                ||| binary(value, width)[i] == '1'
            },
    decreases width,
{
    if width > 0 {
        lemma_binary_shape(value / 2, (width - 1) as nat);
    }
}

/// Appends `value` to `out` as a binary numeral of `width` digits.
pub fn append_binary(out: &mut String, value: usize, width: usize)
    ensures
        final(out)@ == old(out)@ + binary(value as nat, width as nat),
    decreases width,
{
    if width > 0 {
        append_binary(out, value / 2, width - 1);
        proof {
            reveal_strlit("0");
            reveal_strlit("1");
        }
        if value % 2 == 0 {
            out.append("0");
        } else {
            out.append("1");
        }
        assert(out@ =~= old(out)@ + binary(value as nat, width as nat));
    }
}

} // verus!

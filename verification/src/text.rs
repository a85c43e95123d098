//! Operations on text that the line parser is built from: comments, blanks,
//! fields between separators, and decimal numerals.

use itertools::Itertools;
use vstd::prelude::*;

verus! {

/// `<str as PartialEq>::eq`, the `==` of string slices, is believed to hold
/// of two slices exactly where they have the same characters in the same
/// order.
pub assume_specification[ <str as PartialEq>::eq ](a: &str, b: &str) -> (same: bool)
    ensures
        same == (a@ == b@),
;

/// The characters of `s`, in order.
pub fn chars_of(s: &str) -> (chars: Vec<char>)
    ensures
        chars@ == s@,
{
    let mut chars: Vec<char> = Vec::new();
    for c in it: s.chars()
        invariant
            it.seq() == s@,
            chars@ == s@.take(it.index() as int),
    {
        chars.push(c);
    }
    chars
}

/// Whether `c` is white space: a character with Unicode's `White_Space`
/// property.
pub open spec fn is_space(c: char) -> bool {
    let n = c as u32;
    ||| 0x09 <= n <= 0x0D
    ||| n == 0x20
    ||| n == 0x85
    ||| n == 0xA0
    ||| n == 0x1680
    ||| 0x2000 <= n <= 0x200A
    ||| n == 0x2028
    ||| n == 0x2029
    ||| n == 0x202F
    ||| n == 0x205F
    ||| n == 0x3000
}

/// Tells whether `c` is white space.
pub fn is_whitespace(c: char) -> (space: bool)
    ensures
        space == is_space(c),
{
    let n: u32 = c as u32;
    (0x09 <= n && n <= 0x0D) || n == 0x20 || n == 0x85 || n == 0xA0 || n == 0x1680 || (0x2000 <= n
        && n <= 0x200A) || n == 0x2028 || n == 0x2029 || n == 0x202F || n == 0x205F || n == 0x3000
}

/// Whether a comment mark, two slashes, stands at position `i` of `s`.
pub open spec fn comment_at(s: Seq<char>, i: int) -> bool {
    0 <= i && i + 1 < s.len() && s[i] == '/' && s[i + 1] == '/'
}

/// The position of the first comment mark at or after `i`, or the length of
/// `s` where there is none.
pub open spec fn comment_from(s: Seq<char>, i: int) -> int
    decreases s.len() - i,
{
    if i < 0 || i + 1 >= s.len() {
        s.len() as int
    } else if comment_at(s, i) {
        i
    } else {
        comment_from(s, i + 1)
    }
}

/// Where the comment of a line starts: at its first comment mark, or at its
/// end where it has none.
pub open spec fn comment_start(s: Seq<char>) -> int {
    comment_from(s, 0)
}

/// `comment_from` finds the least position of a comment mark from `i` on.
pub proof fn lemma_comment_from(s: Seq<char>, i: int)
    requires
        0 <= i <= s.len(),
    ensures
        i <= comment_from(s, i) <= s.len(),
        comment_from(s, i) < s.len() ==> comment_at(s, comment_from(s, i)),
        forall|j: int| i <= j < comment_from(s, i) ==> !comment_at(s, j),
    decreases s.len() - i,
{
    if i + 1 < s.len() && !comment_at(s, i) {
        lemma_comment_from(s, i + 1);
    }
}

/// Finds where the comment of a line starts.
pub fn find_comment(chars: &Vec<char>) -> (start: usize)
    ensures
        start == comment_start(chars@),
        start <= chars.len(),
{
    let n: usize = chars.len();
    let mut i: usize = 0;
    while n - i >= 2
        invariant
            n == chars.len(),
            i <= n,
            comment_start(chars@) == comment_from(chars@, i as int),
        decreases n - i,
    {
        if chars[i] == '/' && chars[i + 1] == '/' {
            return i;
        }
        i += 1;
    }
    n
}

/// `s` without the white space it begins with.
pub open spec fn trim_start(s: Seq<char>) -> Seq<char>
    decreases s.len(),
{
    if s.len() > 0 && is_space(s.first()) {
        trim_start(s.drop_first())
    } else {
        s
    }
}

/// `s` without the white space it ends with.
pub open spec fn trim_end(s: Seq<char>) -> Seq<char>
    decreases s.len(),
{
    if s.len() > 0 && is_space(s.last()) {
        trim_end(s.drop_last())
    } else {
        s
    }
}

/// `s` without the white space around it.
pub open spec fn trim(s: Seq<char>) -> Seq<char> {
    trim_end(trim_start(s))
}

/// Finds the part of the first `end` characters that is left when the white
/// space around it is taken away: the characters from `bounds.0` up to, not
/// including, `bounds.1`.
pub fn trim_bounds(chars: &Vec<char>, end: usize) -> (bounds: (usize, usize))
    requires
        end <= chars.len(),
    ensures
        bounds.0 <= bounds.1 <= end,
        chars@.subrange(bounds.0 as int, bounds.1 as int) == trim(chars@.take(end as int)),
{
    let mut lo: usize = 0;
    while lo < end && is_whitespace(chars[lo])
        invariant
            lo <= end <= chars.len(),
            trim_start(chars@.take(end as int)) == trim_start(
                chars@.subrange(lo as int, end as int),
            ),
        decreases end - lo,
    {
        assert(chars@.subrange(lo as int, end as int).drop_first() =~= chars@.subrange(
            lo as int + 1,
            end as int,
        ));
        lo += 1;
    }
    assert(chars@.take(end as int) =~= chars@.subrange(0, end as int));
    let mut hi: usize = end;
    while lo < hi && is_whitespace(chars[hi - 1])
        invariant
            lo <= hi <= end <= chars.len(),
            trim(chars@.take(end as int)) == trim_end(chars@.subrange(lo as int, hi as int)),
        decreases hi - lo,
    {
        assert(chars@.subrange(lo as int, hi as int).drop_last() =~= chars@.subrange(
            lo as int,
            hi as int - 1,
        ));
        hi -= 1;
    }
    (lo, hi)
}

/// Whether `s` is blank: it holds white space only, or nothing.
pub open spec fn is_blank(s: Seq<char>) -> bool {
    forall|i: int| 0 <= i < s.len() ==> is_space(#[trigger] s[i])
}

/// `trim_start` takes away the longest beginning of white space: the result
/// is what stands from the first character on that is no white space.
pub proof fn lemma_trim_start(s: Seq<char>) -> (k: int)
    ensures
        0 <= k <= s.len(),
        trim_start(s) == s.skip(k),
        is_blank(s.take(k)),
        k < s.len() ==> !is_space(s[k]),
    decreases s.len(),
{
    if s.len() > 0 && is_space(s.first()) {
        let k = lemma_trim_start(s.drop_first());
        assert(s.drop_first().skip(k) =~= s.skip(k + 1));
        assert forall|i: int| 0 <= i < k + 1 implies is_space(#[trigger] s.take(k + 1)[i]) by {
            if i > 0 {
                assert(s.take(k + 1)[i] == s.drop_first().take(k)[i - 1]);
            }
        }
        k + 1
    } else {
        assert(s.skip(0) =~= s);
        0
    }
}

/// `trim_end` takes away the longest end of white space: the result is what
/// stands up to the last character that is no white space.
pub proof fn lemma_trim_end(s: Seq<char>) -> (k: int)
    ensures
        0 <= k <= s.len(),
        trim_end(s) == s.take(k),
        is_blank(s.skip(k)),
        k > 0 ==> !is_space(s[k - 1]),
    decreases s.len(),
{
    if s.len() > 0 && is_space(s.last()) {
        let k = lemma_trim_end(s.drop_last());
        assert(s.drop_last().take(k) =~= s.take(k));
        assert forall|i: int| 0 <= i < s.len() - k implies is_space(#[trigger] s.skip(k)[i]) by {
            if i < s.len() - k - 1 {
                assert(s.skip(k)[i] == s.drop_last().skip(k)[i]);
            }
        }
        k
    } else {
        assert(s.take(s.len() as int) =~= s);
        s.len() as int
    }
}

/// Nothing is left of a text without the white space around it exactly where
/// the text is blank.
pub proof fn lemma_trim_blank(s: Seq<char>)
    ensures
        trim(s).len() == 0 <==> is_blank(s),
{
    let from = lemma_trim_start(s);
    let rest = s.skip(from);
    let to = lemma_trim_end(rest);
    if trim(s).len() == 0 {
        if from < s.len() {
            assert(rest.skip(0)[0] == s[from]);
        }
        assert forall|i: int| 0 <= i < s.len() implies is_space(#[trigger] s[i]) by {
            assert(s[i] == s.take(from)[i]);
        }
    }
    if is_blank(s) {
        if from < s.len() {
            assert(is_space(s[from]));
        }
    }
}

/// The comment of a line with a comment mark behind its code starts at that
/// mark, where the code holds no comment mark and does not end in a slash
/// (which would make a mark with the slash behind it).
pub proof fn lemma_comment_after_code(code: Seq<char>, comment: Seq<char>)
    requires
        comment_start(code) == code.len(),
        code.len() == 0 || code.last() != '/',
    ensures
        comment_start(code + seq!['/', '/'] + comment) == code.len(),
{
    let line = code + seq!['/', '/'] + comment;
    lemma_comment_from(code, 0);
    lemma_comment_from(line, 0);
    assert(comment_at(line, code.len() as int));
    assert forall|i: int| 0 <= i < code.len() implies !comment_at(line, i) by {
        if i + 1 < code.len() {
            assert(!comment_at(code, i));
            assert(line[i] == code[i] && line[i + 1] == code[i + 1]);
        } else {
            assert(line[i] == code.last());
        }
    }
}

/// The fields of `s` that the character `separator` separates, in order. A
/// text without the separator is one field; two separators side by side have
/// an empty field between them, and so has a separator at either end of the
/// text beside it.
pub open spec fn split(s: Seq<char>, separator: char) -> Seq<Seq<char>>
    decreases s.len(),
{
    if s.len() == 0 {
        seq![Seq::empty()]
    } else {
        let rest = split(s.drop_first(), separator);
        if s.first() == separator {
            seq![Seq::empty()] + rest
        } else {
            rest.update(0, seq![s.first()] + rest[0])
        }
    }
}

/// The text that fields make when a separator is put between them.
pub open spec fn join(fields: Seq<Seq<char>>, separator: char) -> Seq<char>
    decreases fields.len(),
{
    if fields.len() == 0 {
        Seq::empty()
    } else if fields.len() == 1 {
        fields[0]
    } else {
        fields[0] + seq![separator] + join(fields.drop_first(), separator)
    }
}

/// A text without the separator is one field.
pub proof fn lemma_split_one_field(s: Seq<char>, separator: char)
    requires
        !s.contains(separator),
    ensures
        split(s, separator) == seq![s],
    decreases s.len(),
{
    if s.len() == 0 {
        assert(s =~= Seq::<char>::empty());
    } else {
        let rest = s.drop_first();
        assert(s[0] != separator);
        assert forall|i: int| 0 <= i < rest.len() implies rest[i] != separator by {
            assert(rest[i] == s[i + 1]);
        }
        lemma_split_one_field(rest, separator);
        assert(seq![s.first()] + rest =~= s);
        assert(seq![rest].update(0, s) =~= seq![s]);
    }
}

/// The first field of a text is what stands before its first separator, and
/// the others are the fields of what stands behind it.
pub proof fn lemma_split_first_field(first: Seq<char>, separator: char, rest: Seq<char>)
    requires
        !first.contains(separator),
    ensures
        split(first + seq![separator] + rest, separator) == seq![first] + split(rest, separator),
    decreases first.len(),
{
    let s = first + seq![separator] + rest;
    if first.len() == 0 {
        assert(s.drop_first() =~= rest);
        assert(first =~= Seq::<char>::empty());
    } else {
        let shorter = first.drop_first();
        assert(first[0] != separator);
        assert forall|i: int| 0 <= i < shorter.len() implies shorter[i] != separator by {
            assert(shorter[i] == first[i + 1]);
        }
        lemma_split_first_field(shorter, separator, rest);
        assert(s.drop_first() =~= shorter + seq![separator] + rest);
        assert(seq![first.first()] + shorter =~= first);
        assert((seq![shorter] + split(rest, separator)).update(0, first) =~= seq![first] + split(
            rest,
            separator,
        ));
    }
}

/// A text has at least one field. Its fields hold no separator, and make the
/// text again when the separator is put between them.
pub proof fn lemma_split_join(s: Seq<char>, separator: char)
    ensures
        split(s, separator).len() >= 1,
        forall|i: int|
            0 <= i < split(s, separator).len() ==> !(#[trigger] split(s, separator)[i]).contains(
                separator,
            ),
        join(split(s, separator), separator) == s,
    decreases s.len(),
{
    let fields = split(s, separator);
    if s.len() == 0 {
        assert(join(fields, separator) =~= s);
    } else {
        let rest = split(s.drop_first(), separator);
        lemma_split_join(s.drop_first(), separator);
        if s.first() == separator {
            assert(fields.drop_first() =~= rest);
            assert(join(fields, separator) =~= s);
            assert forall|i: int| 0 <= i < fields.len() implies !(#[trigger] fields[i]).contains(
                separator,
            ) by {
                if i > 0 {
                    assert(fields[i] == rest[i - 1]);
                }
            }
        } else {
            let head = seq![s.first()] + rest[0];
            assert(fields[0] == head);
            assert(!rest[0].contains(separator));
            assert forall|k: int| 0 <= k < head.len() implies head[k] != separator by {
                if k > 0 {
                    assert(head[k] == rest[0][k - 1]);
                }
            }
            assert forall|i: int| 0 <= i < fields.len() implies !(#[trigger] fields[i]).contains(
                separator,
            ) by {
                if i > 0 {
                    assert(fields[i] == rest[i]);
                }
            }
            if rest.len() == 1 {
                assert(join(fields, separator) =~= s);
            } else {
                assert(fields.drop_first() =~= rest.drop_first());
                assert(join(fields, separator) =~= seq![s.first()] + join(rest, separator));
                assert(seq![s.first()] + s.drop_first() =~= s);
            }
        }
    }
}

/// Cuts `s` at every `separator`: `str::split` with a character as the
/// pattern, gathered by itertools' `collect_vec` into a vector. The contract
/// claims that the fields come in order, that each is the text between two
/// separators (or an end of `s`), and that there is one more field than
/// there are separators.
#[verifier::external_body]
pub(crate) fn split_fields<'a>(s: &'a str, separator: char) -> (fields: Vec<&'a str>)
    ensures
        fields@.len() == split(s@, separator).len(),
        forall|i: int|
            0 <= i < fields@.len() ==> (#[trigger] fields@[i])@ == split(s@, separator)[i],
{
    s.split(separator).collect_vec()
}

/// Whether `c` is one of the decimal digits `0` to `9`.
pub open spec fn is_digit(c: char) -> bool {
    '0' <= c <= '9'
}

/// The number that a decimal digit stands for.
pub open spec fn digit_value(c: char) -> nat {
    (c as u32 - '0' as u32) as nat
}

/// The number that a text of decimal digits writes.
pub open spec fn decimal_value(digits: Seq<char>) -> nat
    decreases digits.len(),
{
    if digits.len() == 0 {
        0
    } else {
        10 * decimal_value(digits.drop_last()) + digit_value(digits.last())
    }
}

/// Whether `text` consists of decimal digits only.
pub open spec fn all_digits(text: Seq<char>) -> bool {
    forall|i: int| 0 <= i < text.len() ==> is_digit(#[trigger] text[i])
}

/// `text` without the plus sign that it may begin with.
pub open spec fn without_sign(text: Seq<char>) -> Seq<char> {
    if text.len() > 0 && text.first() == '+' {
        text.drop_first()
    } else {
        text
    }
}

/// The number that `text` writes, where it is a numeral of sixteen bits: one
/// or more decimal digits, after a plus sign or none, whose value is at most
/// 65535. Leading zeros are allowed.
pub open spec fn decimal_u16(text: Seq<char>) -> Option<u16> {
    let digits = without_sign(text);
    if digits.len() > 0 && all_digits(digits) && decimal_value(digits) <= u16::MAX {
        Some(decimal_value(digits) as u16)
    } else {
        None
    }
}

/// A numeral is worth at least as much as any of its beginnings.
pub proof fn lemma_decimal_value_grows(digits: Seq<char>, n: int)
    requires
        0 <= n <= digits.len(),
    ensures
        decimal_value(digits.take(n)) <= decimal_value(digits),
    decreases digits.len(),
{
    if n < digits.len() {
        lemma_decimal_value_grows(digits.drop_last(), n);
        assert(digits.drop_last().take(n) =~= digits.take(n));
    } else {
        assert(digits.take(n) =~= digits);
    }
}

/// Reads the characters from `from` up to `to` as a numeral of sixteen bits.
pub fn parse_u16(chars: &Vec<char>, from: usize, to: usize) -> (number: Option<u16>)
    requires
        from <= to <= chars.len(),
    ensures
        number == decimal_u16(chars@.subrange(from as int, to as int)),
{
    let ghost text = chars@.subrange(from as int, to as int);
    let start: usize = if from < to && chars[from] == '+' {
        from + 1
    } else {
        from
    };
    let ghost digits = chars@.subrange(start as int, to as int);
    assert(digits =~= without_sign(text));
    if start == to {
        return None;
    }
    let mut value: u32 = 0;
    let mut i: usize = start;
    while i < to
        invariant
            start <= i <= to <= chars.len(),
            from <= start < to,
            digits == chars@.subrange(start as int, to as int),
            digits == without_sign(chars@.subrange(from as int, to as int)),
            all_digits(digits.take(i - start)),
            value == decimal_value(digits.take(i - start)),
            value <= u16::MAX,
        decreases to - i,
    {
        let c: char = chars[i];
        assert(c == digits[i - start]);
        if !('0' <= c && c <= '9') {
            return None;
        }
        let digit: u32 = c as u32 - '0' as u32;
        assert(digits.take(i - start + 1).drop_last() =~= digits.take(i - start));
        assert(digits.take(i - start + 1).last() == c);
        value = 10 * value + digit;
        if value > 0xFFFF {
            proof {
                lemma_decimal_value_grows(digits, i - start + 1);
            }
            return None;
        }
        i += 1;
    }
    assert(digits.take(i - start) =~= digits);
    Some(value as u16)
}

} // verus!

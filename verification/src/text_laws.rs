//! What holds of trimming, splitting, joining and cutting texts, and of numbers as text.
use vstd::prelude::*;

use crate::number;
use crate::text;

verus! {

/// Only the capital letters of ASCII change when a text is put in lower case, each to the small letter
/// 32 places on; every other character stays, and no character comes or goes.
pub proof fn only_ascii_capitals_are_lowered(s: Seq<char>, i: int)
    requires
        0 <= i < s.len(),
    ensures
        text::lower_text(s).len() == s.len(),
        65 <= s[i] as u32 <= 90 ==> text::lower_text(s)[i] as u32 == s[i] as u32 + 32,
        !(65 <= s[i] as u32 <= 90) ==> text::lower_text(s)[i] == s[i],
{
}

/// Trimming takes away whitespace at both ends, all of it and nothing else: what is left is a part of
/// the text, with whitespace alone before and after it and none at its own ends.
pub proof fn trimming_takes_only_whitespace_at_the_ends(s: Seq<char>)
    ensures
        exists|from: int, to: int| #[trigger]
            s.subrange(from, to) == text::trimmed(s) && 0 <= from <= to <= s.len() && (forall|i: int|
                0 <= i < from || to <= i < s.len() ==> text::is_white(#[trigger] s[i])) && (from < to
                ==> !text::is_white(s[from]) && !text::is_white(s[to - 1])),
{
    text::lemma_trim_start(s);
    let t = text::trim_start(s);
    text::lemma_trim_end(t);
    let from = s.len() - t.len();
    let to = from + text::trim_end(t).len();
    assert(s.subrange(from, to) =~= text::trimmed(s));
    assert forall|i: int| 0 <= i < from || to <= i < s.len() implies text::is_white(
        #[trigger] s[i],
    ) by {
        if to <= i {
            assert(t[i - from] == s[i]);
        }
    }
    if from < to {
        assert(t[0] == s[from]);
        assert(text::trim_end(t).last() == s[to - 1]);
    }
}

/// A text ends in another exactly where it is something followed by that.
pub proof fn endings_are_what_comes_last(s: Seq<char>, tail: Seq<char>)
    ensures
        text::ends_in(s, tail) <==> exists|head: Seq<char>| s == #[trigger] (head + tail),
{
    if text::ends_in(s, tail) {
        let head = s.take(s.len() - tail.len());
        assert(s =~= head + tail);
    }
    if exists|head: Seq<char>| s == #[trigger] (head + tail) {
        let head = choose|head: Seq<char>| s == #[trigger] (head + tail);
        assert(s.skip(s.len() - tail.len()) =~= tail);
    }
}

/// One more copy of an ending makes no difference to what is left without it, and a text that does not
/// end in it stays as it is.
pub proof fn endings_are_taken_away_one_by_one(s: Seq<char>, tail: Seq<char>)
    requires
        tail.len() > 0,
    ensures
        text::without_tails(s + tail, tail) == text::without_tails(s, tail),
        (forall|head: Seq<char>| s != #[trigger] (head + tail)) ==> text::without_tails(s, tail)
            == s,
{
    let longer = s + tail;
    assert(longer.skip(longer.len() - tail.len()) =~= tail);
    assert(longer.take(longer.len() - tail.len()) =~= s);
    endings_are_what_comes_last(s, tail);
}

/// Joining is what comes of putting the separator between each two parts: nothing of no parts, a part
/// of itself, and of two lists of parts what comes of each, with one separator between them.
pub proof fn joining_goes_part_by_part(a: Seq<Seq<char>>, b: Seq<Seq<char>>, sep: Seq<char>)
    ensures
        text::joined(Seq::<Seq<char>>::empty(), sep) == Seq::<char>::empty(),
        a.len() == 1 ==> text::joined(a, sep) == a[0],
        a.len() > 0 && b.len() > 0 ==> text::joined(a + b, sep) == text::joined(a, sep) + sep
            + text::joined(b, sep),
    decreases b.len(),
{
    if a.len() > 0 && b.len() > 0 {
        let all = a + b;
        assert(all.drop_last() =~= a + b.drop_last());
        assert(all.last() == b.last());
        if b.len() == 1 {
            assert(a + b.drop_last() =~= a);
        } else {
            joining_goes_part_by_part(a, b.drop_last(), sep);
            assert(text::joined(a, sep) + sep + text::joined(b.drop_last(), sep) + sep + b.last()
                =~= text::joined(a, sep) + sep + (text::joined(b.drop_last(), sep) + sep
                + b.last()));
        }
    }
}

proof fn lemma_trim_start_of_sum(a: Seq<char>, x: Seq<char>)
    ensures
        text::trim_start(a).len() == 0 ==> text::trim_start(a + x) == text::trim_start(x),
        text::trim_start(a).len() > 0 ==> text::trim_start(a + x) == text::trim_start(a) + x,
    decreases a.len(),
{
    if a.len() == 0 {
        assert(a + x =~= x);
    } else if text::is_white(a[0]) {
        assert((a + x).drop_first() =~= a.drop_first() + x);
        lemma_trim_start_of_sum(a.drop_first(), x);
    }
}

proof fn lemma_word_len_of_sum(t: Seq<char>, x: Seq<char>)
    requires
        x.len() > 0,
        text::is_white(x[0]),
    ensures
        text::word_len(t + x) == text::word_len(t),
    decreases t.len(),
{
    if t.len() == 0 {
        assert(t + x =~= x);
    } else if !text::is_white(t[0]) {
        assert((t + x).drop_first() =~= t.drop_first() + x);
        lemma_word_len_of_sum(t.drop_first(), x);
    }
}

/// Words are what whitespace parts: a text without whitespace is one word, or none where it is empty,
/// and two texts with whitespace between them have the words of the one and then those of the other.
pub proof fn whitespace_parts_words(a: Seq<char>, space: char, b: Seq<char>)
    requires
        text::is_white(space),
    ensures
        a.len() == 0 ==> text::words(a) == Seq::<Seq<char>>::empty(),
        a.len() > 0 && (forall|i: int| 0 <= i < a.len() ==> !text::is_white(#[trigger] a[i]))
            ==> text::words(a) == seq![a],
        text::words(a + seq![space] + b) == text::words(a) + text::words(b),
    decreases a.len(),
{
    let x = seq![space] + b;
    let all = a + seq![space] + b;
    assert(all =~= a + x);
    text::lemma_trim_start(a);
    let t = text::trim_start(a);
    lemma_trim_start_of_sum(a, x);
    if a.len() == 0 {
        assert(text::words(a) =~= Seq::<Seq<char>>::empty());
    }
    if t.len() == 0 {
        assert(x.drop_first() =~= b);
        assert(text::trim_start(x) == text::trim_start(b));
        assert(text::words(all) == text::words(b));
        assert(text::words(a) =~= Seq::<Seq<char>>::empty());
        assert(text::words(a) + text::words(b) =~= text::words(b));
    } else {
        text::lemma_word_len(t);
        lemma_word_len_of_sum(t, x);
        let n = text::word_len(t) as int;
        let rest = t.skip(n);
        assert(n > 0);
        assert((t + x).take(n) =~= t.take(n));
        assert((t + x).skip(n) =~= rest + seq![space] + b);
        whitespace_parts_words(rest, space, b);
        assert(seq![t.take(n)] + (text::words(rest) + text::words(b)) =~= (seq![t.take(n)]
            + text::words(rest)) + text::words(b));
    }
    if a.len() > 0 && (forall|i: int| 0 <= i < a.len() ==> !text::is_white(#[trigger] a[i])) {
        assert(!text::is_white(a[0]));
        assert(t =~= a);
        text::lemma_word_len(a);
        let n = text::word_len(a) as int;
        if n < a.len() {
            assert(text::is_white(a[n]));
        }
        assert(a.take(n) =~= a);
        assert(text::words(a.skip(n)) =~= Seq::<Seq<char>>::empty());
        assert(text::words(a) =~= seq![a]);
    }
}

proof fn lemma_longer_takes_more(s: Seq<char>, m: int, n: int)
    requires
        0 <= m <= n <= s.len(),
    ensures
        text::byte_len(s.take(m)) <= text::byte_len(s.take(n)),
    decreases m,
{
    if m > 0 {
        text::lemma_byte_len_step(s.take(m));
        text::lemma_byte_len_step(s.take(n));
        assert(s.take(m).drop_first() =~= s.drop_first().take(m - 1));
        assert(s.take(n).drop_first() =~= s.drop_first().take(n - 1));
        lemma_longer_takes_more(s.drop_first(), m - 1, n - 1);
    } else {
        assert(s.take(0) =~= Seq::<char>::empty());
        assert(vstd::utf8::encode_utf8(Seq::<char>::empty()).len() == 0);
    }
}

/// A text is cut to the longest part from its start on that takes no more bytes of UTF-8 than allowed:
/// any longer part takes more.
pub proof fn texts_are_cut_to_the_longest_part_that_fits(s: Seq<char>, limit: nat, longer: int)
    requires
        text::prefix_within(s, limit as int).len() < longer <= s.len(),
    ensures
        text::prefix_within(s, limit as int).is_prefix_of(s),
        vstd::utf8::encode_utf8(text::prefix_within(s, limit as int)).len() <= limit,
        vstd::utf8::encode_utf8(s.take(longer)).len() > limit,
{
    text::lemma_prefix_within(s, limit as int);
    let n = text::fitting(s, limit as int) as int;
    assert(text::prefix_within(s, limit as int).len() == n);
    lemma_longer_takes_more(s, n + 1, longer);
}

/// A text that takes no more bytes of UTF-8 than allowed is not cut, and no text takes more than allowed
/// once it is cut.
pub proof fn texts_that_fit_are_not_cut(s: Seq<char>, limit: nat)
    ensures
        vstd::utf8::encode_utf8(text::prefix_within(s, limit as int)).len() <= limit,
        vstd::utf8::encode_utf8(s).len() <= limit ==> text::prefix_within(s, limit as int) == s,
{
    text::lemma_prefix_within(s, limit as int);
}

/// Decimal text puts the last digit behind the text of all digits before it, and a number below ten is
/// the one character that many places after `0`.
pub proof fn decimal_text_goes_digit_by_digit(n: nat, d: nat)
    requires
        d < 10,
    ensures
        number::decimal_text(d).len() == 1,
        number::decimal_text(d)[0] as u32 == 48 + d,
        n > 0 ==> number::decimal_text(10 * n + d) == number::decimal_text(n)
            + number::decimal_text(d),
{
    assert((10 * n + d) / 10 == n && (10 * n + d) % 10 == d) by (nonlinear_arith)
        requires
            d < 10,
    ;
    if n > 0 {
        assert(number::decimal_text(10 * n + d) =~= number::decimal_text(n)
            + number::decimal_text(d));
    }
}

/// Whether a text is one or more ASCII digits.
pub open spec fn is_digits(s: Seq<char>) -> bool {
    s.len() > 0 && forall|i: int| 0 <= i < s.len() ==> '0' <= #[trigger] s[i] <= '9'
}

/// Digits are read one by one: a digit alone is its own number, and a digit more makes ten times the
/// number and the digit, as long as that fits in 64 bits.
pub proof fn digits_are_read_one_by_one(s: Seq<char>, c: char)
    requires
        is_digits(s),
        '0' <= c <= '9',
    ensures
        number::number_in(seq![c]) == Some((c as u32 - 48) as u64),
        number::number_in(s.push(c)) == match number::number_in(s) {
            None => None,
            Some(v) => if 10 * v + (c as u32 - 48) <= u64::MAX {
                Some((10 * v + (c as u32 - 48)) as u64)
            } else {
                None
            },
        },
{
    let one = seq![c];
    assert(text::is_digit(c));
    assert(number::unsigned_part(one) == one);
    assert(number::all_digits(one));
    assert(one.drop_last() =~= Seq::<char>::empty());
    assert(number::digits_value(one.drop_last()) == 0);
    assert(number::digits_value(one) == c as u32 - 48);
    let longer = s.push(c);
    assert('0' <= s[0] <= '9');
    assert(longer[0] == s[0]);
    assert(number::unsigned_part(s) == s);
    assert(number::unsigned_part(longer) == longer);
    assert(number::all_digits(s)) by {
        assert forall|i: int| 0 <= i < s.len() implies text::is_digit(#[trigger] s[i]) by {
            assert('0' <= s[i] <= '9');
        }
    }
    assert(number::all_digits(longer)) by {
        assert forall|i: int| 0 <= i < longer.len() implies text::is_digit(
            #[trigger] longer[i],
        ) by {
            if i < s.len() {
                assert(longer[i] == s[i]);
            }
        }
    }
    assert(longer.drop_last() =~= s);
    assert(longer.last() == c);
}

/// A number may have one plus sign before its digits, which makes no difference. What is no digits, with
/// or without such a sign, is no number.
pub proof fn only_digits_are_numbers(s: Seq<char>)
    ensures
        is_digits(s) ==> number::number_in(seq!['+'] + s) == number::number_in(s),
        !is_digits(s) && !(s.len() > 0 && s[0] == '+' && is_digits(s.drop_first()))
            ==> number::number_in(s) is None,
{
    let signed = seq!['+'] + s;
    assert(signed.drop_first() =~= s);
    if is_digits(s) {
        assert('0' <= s[0] <= '9');
        assert(s[0] != '+');
        assert(number::unsigned_part(signed) == s);
        assert(number::unsigned_part(s) == s);
    }
    let d = number::unsigned_part(s);
    if number::number_in(s) is Some {
        assert(is_digits(d)) by {
            assert forall|i: int| 0 <= i < d.len() implies '0' <= #[trigger] d[i] <= '9' by {
                assert(text::is_digit(d[i]));
            }
        }
    }
}

} // verus!

//! Text as sequences of characters: classification, trimming, case, words.
use vstd::prelude::*;

verus! {

/// `String::push` of std: the character is appended to the text.
pub assume_specification[ String::push ](s: &mut String, c: char)
    ensures
        final(s)@ == old(s)@.push(c),
;

/// The characters with the Unicode property `White_Space`.
pub open spec fn is_white(c: char) -> bool {
    ||| '\u{9}' <= c <= '\u{d}'
    ||| c == ' '
    ||| c == '\u{85}'
    ||| c == '\u{a0}'
    ||| c == '\u{1680}'
    ||| '\u{2000}' <= c <= '\u{200a}'
    ||| c == '\u{2028}'
    ||| c == '\u{2029}'
    ||| c == '\u{202f}'
    ||| c == '\u{205f}'
    ||| c == '\u{3000}'
}

/// The characters of the Unicode category `Cc`.
pub open spec fn is_control_char(c: char) -> bool {
    c <= '\u{1f}' || '\u{7f}' <= c <= '\u{9f}'
}

/// A decimal digit of ASCII.
pub open spec fn is_digit(c: char) -> bool {
    '0' <= c <= '9'
}

/// The lower-case form of an ASCII letter; any other character is its own.
pub open spec fn lower(c: char) -> char {
    if 'A' <= c <= 'Z' {
        ((c as u32) + 32) as char
    } else {
        c
    }
}

/// A text with its ASCII letters in lower case.
pub open spec fn lower_text(s: Seq<char>) -> Seq<char> {
    s.map_values(|c: char| lower(c))
}

/// A text without the whitespace at its start.
pub open spec fn trim_start(s: Seq<char>) -> Seq<char>
    decreases s.len(),
{
    if s.len() > 0 && is_white(s[0]) {
        trim_start(s.drop_first())
    } else {
        s
    }
}

/// A text without the whitespace at its end.
pub open spec fn trim_end(s: Seq<char>) -> Seq<char>
    decreases s.len(),
{
    if s.len() > 0 && is_white(s.last()) {
        trim_end(s.drop_last())
    } else {
        s
    }
}

/// A text without the whitespace around it.
pub open spec fn trimmed(s: Seq<char>) -> Seq<char> {
    trim_end(trim_start(s))
}

/// Whether `s` ends in `tail`.
pub open spec fn ends_in(s: Seq<char>, tail: Seq<char>) -> bool {
    tail.len() <= s.len() && s.skip(s.len() - tail.len()) == tail
}

/// A text with every copy of `tail` at its end taken away.
pub open spec fn without_tails(s: Seq<char>, tail: Seq<char>) -> Seq<char>
    decreases s.len(),
{
    if tail.len() > 0 && ends_in(s, tail) {
        without_tails(s.take(s.len() - tail.len()), tail)
    } else {
        s
    }
}

/// The parts one after another, with `sep` between each two.
pub open spec fn joined(parts: Seq<Seq<char>>, sep: Seq<char>) -> Seq<char>
    decreases parts.len(),
{
    if parts.len() == 0 {
        Seq::empty()
    } else if parts.len() == 1 {
        parts[0]
    } else {
        joined(parts.drop_last(), sep) + sep + parts.last()
    }
}

/// The number of characters before the first whitespace.
pub open spec fn word_len(s: Seq<char>) -> nat
    decreases s.len(),
{
    if s.len() == 0 || is_white(s[0]) {
        0
    } else {
        1 + word_len(s.drop_first())
    }
}

/// The words of a text: its longest runs without whitespace, in order.
pub open spec fn words(s: Seq<char>) -> Seq<Seq<char>>
    decreases s.len(),
{
    let t = trim_start(s);
    proof {
        lemma_trim_start(s);
        lemma_word_len(t);
    }
    if t.len() == 0 {
        Seq::empty()
    } else {
        seq![t.take(word_len(t) as int)] + words(t.skip(word_len(t) as int))
    }
}

/// The number of bytes that UTF-8 spends on a character.
pub open spec fn width(c: char) -> nat {
    if (c as u32) < 0x80 {
        1
    } else if (c as u32) < 0x800 {
        2
    } else if (c as u32) < 0x10000 {
        3
    } else {
        4
    }
}

/// The number of bytes of a text in UTF-8.
pub open spec fn byte_len(s: Seq<char>) -> nat {
    vstd::utf8::encode_utf8(s).len()
}

/// How many characters from the start of `s` fit in `limit` bytes.
pub open spec fn fitting(s: Seq<char>, limit: int) -> nat
    decreases s.len(),
{
    if s.len() == 0 || width(s[0]) > limit {
        0
    } else {
        1 + fitting(s.drop_first(), limit - width(s[0]))
    }
}

/// The longest prefix of `s` that takes at most `limit` bytes.
pub open spec fn prefix_within(s: Seq<char>, limit: int) -> Seq<char> {
    s.take(fitting(s, limit) as int)
}

/// What is left after trimming at the start is a suffix that begins with no whitespace.
pub proof fn lemma_trim_start(s: Seq<char>)
    ensures
        trim_start(s).len() <= s.len(),
        trim_start(s) == s.skip(s.len() - trim_start(s).len()),
        trim_start(s).len() > 0 ==> !is_white(trim_start(s)[0]),
        forall|i: int| 0 <= i < s.len() - trim_start(s).len() ==> is_white(#[trigger] s[i]),
    decreases s.len(),
{
    if s.len() > 0 && is_white(s[0]) {
        let t = s.drop_first();
        lemma_trim_start(t);
        assert forall|i: int| 0 <= i < s.len() - trim_start(s).len() implies is_white(
            #[trigger] s[i],
        ) by {
            if i > 0 {
                assert(t[i - 1] == s[i]);
            }
        }
    }
}

/// What is left after trimming at the end is a prefix that ends in no whitespace.
pub proof fn lemma_trim_end(s: Seq<char>)
    ensures
        trim_end(s).len() <= s.len(),
        trim_end(s) == s.take(trim_end(s).len() as int),
        trim_end(s).len() > 0 ==> !is_white(trim_end(s).last()),
        forall|i: int| trim_end(s).len() <= i < s.len() ==> is_white(#[trigger] s[i]),
    decreases s.len(),
{
    if s.len() > 0 && is_white(s.last()) {
        let t = s.drop_last();
        lemma_trim_end(t);
        assert forall|i: int| trim_end(s).len() <= i < s.len() implies is_white(
            #[trigger] s[i],
        ) by {
            if i < s.len() - 1 {
                assert(t[i] == s[i]);
            }
        }
    }
}

/// The first word has no whitespace in it, and ends at whitespace or with the text.
pub proof fn lemma_word_len(s: Seq<char>)
    ensures
        word_len(s) <= s.len(),
        word_len(s) < s.len() ==> is_white(s[word_len(s) as int]),
        forall|i: int| 0 <= i < word_len(s) ==> !is_white(#[trigger] s[i]),
    decreases s.len(),
{
    if s.len() > 0 && !is_white(s[0]) {
        let t = s.drop_first();
        lemma_word_len(t);
        assert forall|i: int| 0 <= i < word_len(s) implies !is_white(#[trigger] s[i]) by {
            if i > 0 {
                assert(t[i - 1] == s[i]);
            }
        }
    }
}

/// The trimmed text is the one found by its bounds: whitespace outside, none at the rims.
proof fn lemma_trimmed_by_bounds(s: Seq<char>, from: int, to: int)
    requires
        0 <= from <= to <= s.len(),
        forall|i: int| 0 <= i < from ==> is_white(#[trigger] s[i]),
        forall|i: int| to <= i < s.len() ==> is_white(#[trigger] s[i]),
        from < to ==> !is_white(s[from]) && !is_white(s[to - 1]),
        from == to ==> to == s.len(),
    ensures
        trimmed(s) == s.subrange(from, to),
{
    lemma_trim_start(s);
    let t = trim_start(s);
    let cut = s.len() - t.len();
    assert(cut == from) by {
        if cut < from {
            assert(t[0] == s[cut]);
        }
        if from < cut {
            assert(is_white(s[from]));
        }
    }
    assert(t == s.skip(from));
    lemma_trim_end(t);
    let e = trim_end(t).len();
    assert(e == to - from) by {
        if e < to - from {
            assert(t[to - from - 1] == s[to - 1]);
            assert(is_white(t[to - from - 1]));
        }
        if to - from < e {
            assert(t[e - 1] == s[from + e - 1]);
        }
    }
    assert(t.take(e as int) == s.subrange(from, to));
}

/// UTF-8 spends on a text the sum of what it spends on its characters.
pub proof fn lemma_byte_len_step(s: Seq<char>)
    requires
        s.len() > 0,
    ensures
        byte_len(s) == width(s[0]) + byte_len(s.drop_first()),
{
    vstd::utf8::char_is_scalar(s[0]);
}

/// The prefix that fits takes at most `limit` bytes, and one character more would not fit.
pub proof fn lemma_prefix_within(s: Seq<char>, limit: int)
    requires
        0 <= limit,
    ensures
        fitting(s, limit) <= s.len(),
        byte_len(prefix_within(s, limit)) <= limit,
        fitting(s, limit) < s.len() ==> byte_len(s.take(fitting(s, limit) as int + 1)) > limit,
        byte_len(s) <= limit ==> prefix_within(s, limit) == s,
    decreases s.len(),
{
    let n = fitting(s, limit);
    if s.len() == 0 {
        assert(prefix_within(s, limit) == s);
    } else {
        lemma_byte_len_step(s);
        let t = s.drop_first();
        if width(s[0]) > limit {
            let one = s.take(1);
            lemma_byte_len_step(one);
            assert(one.drop_first() =~= Seq::<char>::empty());
            assert(prefix_within(s, limit) =~= Seq::<char>::empty());
        } else {
            let rest = limit - width(s[0]);
            lemma_prefix_within(t, rest);
            let p = s.take(n as int);
            lemma_byte_len_step(p);
            assert(p.drop_first() =~= prefix_within(t, rest));
            if n < s.len() {
                let q = s.take(n as int + 1);
                lemma_byte_len_step(q);
                assert(q.drop_first() =~= t.take(fitting(t, rest) as int + 1));
            }
            if byte_len(s) <= limit {
                assert(prefix_within(s, limit) =~= s);
            }
        }
    }
}

/// Whether a character is whitespace.
pub fn is_whitespace(c: char) -> (r: bool)
    ensures
        r == is_white(c),
{
    ('\u{9}' <= c && c <= '\u{d}') || c == ' ' || c == '\u{85}' || c == '\u{a0}' || c == '\u{1680}'
        || ('\u{2000}' <= c && c <= '\u{200a}') || c == '\u{2028}' || c == '\u{2029}' || c
        == '\u{202f}' || c == '\u{205f}' || c == '\u{3000}'
}

/// Whether a character is a control character.
pub fn is_control(c: char) -> (r: bool)
    ensures
        r == is_control_char(c),
{
    c <= '\u{1f}' || ('\u{7f}' <= c && c <= '\u{9f}')
}

/// Whether a character is an ASCII digit.
pub fn is_ascii_digit(c: char) -> (r: bool)
    ensures
        r == is_digit(c),
{
    '0' <= c && c <= '9'
}

/// The characters of a text.
pub fn chars_of(s: &str) -> (r: Vec<char>)
    ensures
        r@ == s@,
{
    let mut out: Vec<char> = Vec::new();
    for c in it: s.chars()
        invariant
            out@ == it.seq().take(it.index()),
            it.seq() == s@,
    {
        out.push(c);
    }
    out
}

/// The text made of the characters from `from` up to `to`.
pub fn text_of(chars: &Vec<char>, from: usize, to: usize) -> (r: String)
    requires
        from <= to <= chars@.len(),
    ensures
        r@ == chars@.subrange(from as int, to as int),
{
    let mut out: String = String::new();
    let mut i: usize = from;
    while i < to
        invariant
            from <= i <= to <= chars@.len(),
            out@ == chars@.subrange(from as int, i as int),
        decreases to - i,
    {
        out.push(chars[i]);
        i += 1;
    }
    out
}

/// Whether two texts are the same.
pub fn same_text(a: &str, b: &str) -> (r: bool)
    ensures
        r == (a@ == b@),
{
    let left: Vec<char> = chars_of(a);
    let right: Vec<char> = chars_of(b);
    if left.len() != right.len() {
        return false;
    }
    let mut i: usize = 0;
    while i < left.len()
        invariant
            i <= left@.len(),
            left@.len() == right@.len(),
            left@.take(i as int) == right@.take(i as int),
            left@ == a@,
            right@ == b@,
        decreases left@.len() - i,
    {
        if left[i] != right[i] {
            return false;
        }
        i += 1;
    }
    assert(left@.take(i as int) == left@);
    assert(right@.take(i as int) == right@);
    true
}

/// A text with its ASCII letters in lower case.
pub fn to_ascii_lowercase(s: &str) -> (r: String)
    ensures
        r@ == lower_text(s@),
{
    let mut out: String = String::new();
    for c in it: s.chars()
        invariant
            out@ == lower_text(it.seq().take(it.index())),
            it.seq() == s@,
    {
        let l: char = lower_char(c);
        out.push(l);
        assert(it.seq().take(it.index() + 1) == it.seq().take(it.index()).push(c));
    }
    assert(s@.take(s@.len() as int) == s@);
    out
}

/// The text without the whitespace around it.
pub fn trim(s: &str) -> (r: String)
    ensures
        r@ == trimmed(s@),
{
    let chars: Vec<char> = chars_of(s);
    let mut from: usize = 0;
    while from < chars.len() && is_whitespace(chars[from])
        invariant
            from <= chars@.len(),
            forall|i: int| 0 <= i < from ==> is_white(#[trigger] chars@[i]),
        decreases chars@.len() - from,
    {
        from += 1;
    }
    let mut to: usize = chars.len();
    while from < to && is_whitespace(chars[to - 1])
        invariant
            from <= to <= chars@.len(),
            from < chars@.len() ==> !is_white(chars@[from as int]),
            from == to ==> to == chars@.len(),
            forall|i: int| to <= i < chars@.len() ==> is_white(#[trigger] chars@[i]),
        decreases to,
    {
        to -= 1;
    }
    proof {
        lemma_trimmed_by_bounds(chars@, from as int, to as int);
    }
    text_of(&chars, from, to)
}

/// Whether a text ends in another.
pub fn ends_with(s: &str, tail: &str) -> (r: bool)
    ensures
        r == ends_in(s@, tail@),
{
    let chars: Vec<char> = chars_of(s);
    let end: Vec<char> = chars_of(tail);
    assert(chars@.take(chars@.len() as int) =~= s@);
    ends_at(&chars, chars.len(), &end)
}

/// Whether the first `to` characters end in `tail`.
fn ends_at(chars: &Vec<char>, to: usize, tail: &Vec<char>) -> (r: bool)
    requires
        to <= chars@.len(),
    ensures
        r == ends_in(chars@.take(to as int), tail@),
{
    if tail.len() > to {
        return false;
    }
    let start: usize = to - tail.len();
    let mut i: usize = 0;
    while i < tail.len()
        invariant
            i <= tail@.len(),
            start + tail@.len() == to <= chars@.len(),
            forall|k: int| 0 <= k < i ==> chars@[start + k] == #[trigger] tail@[k],
        decreases tail@.len() - i,
    {
        if chars[start + i] != tail[i] {
            assert(chars@.take(to as int).skip(start as int)[i as int] == chars@[start + i]);
            return false;
        }
        i += 1;
    }
    assert(chars@.take(to as int).skip(start as int) =~= tail@);
    true
}

/// The text with every copy of a non-empty `tail` at its end taken away.
pub fn trim_end_matches(s: &str, tail: &str) -> (r: String)
    ensures
        r@ == without_tails(s@, tail@),
{
    let chars: Vec<char> = chars_of(s);
    let end: Vec<char> = chars_of(tail);
    let mut to: usize = chars.len();
    assert(chars@.take(to as int) =~= s@);
    while end.len() > 0 && ends_at(&chars, to, &end)
        invariant
            to <= chars@.len(),
            end@ == tail@,
            without_tails(s@, tail@) == without_tails(chars@.take(to as int), tail@),
        decreases to,
    {
        assert(chars@.take(to as int).take(to - end@.len()) =~= chars@.take(to - end@.len()));
        to -= end.len();
    }
    assert(chars@.subrange(0, to as int) =~= chars@.take(to as int));
    text_of(&chars, 0, to)
}

/// The parts one after another, with `sep` between each two.
pub fn join(parts: &Vec<String>, sep: &str) -> (r: String)
    ensures
        r@ == joined(parts.deep_view(), sep@),
{
    let mut out: String = String::new();
    let mut i: usize = 0;
    while i < parts.len()
        invariant
            i <= parts@.len(),
            out@ == joined(parts.deep_view().take(i as int), sep@),
        decreases parts@.len() - i,
    {
        proof {
            let done = parts.deep_view().take(i + 1);
            assert(done.drop_last() =~= parts.deep_view().take(i as int));
            assert(done.last() == parts@[i as int]@);
        }
        if i > 0 {
            out = out.concat(sep);
        }
        out = out.concat(parts[i].as_str());
        i += 1;
    }
    assert(parts.deep_view().take(i as int) =~= parts.deep_view());
    out
}

/// The words of a text, in order.
pub fn split_whitespace(s: &str) -> (r: Vec<String>)
    ensures
        r.deep_view() == words(s@),
{
    let chars: Vec<char> = chars_of(s);
    let mut out: Vec<String> = Vec::new();
    let mut at: usize = 0;
    assert(chars@.skip(0) =~= s@);
    assert(out.deep_view() + words(s@) =~= words(s@));
    loop
        invariant
            at <= chars@.len(),
            out.deep_view() + words(chars@.skip(at as int)) == words(s@),
        ensures
            out.deep_view() == words(s@),
        decreases chars@.len() - at,
    {
        let ghost rest = chars@.skip(at as int);
        let mut from: usize = at;
        proof {
            lemma_trim_start(rest);
        }
        while from < chars.len() && is_whitespace(chars[from])
            invariant
                at <= from <= chars@.len(),
                rest == chars@.skip(at as int),
                trim_start(rest).len() <= chars@.len() - from,
                trim_start(rest) == rest.skip(rest.len() - trim_start(rest).len()),
                trim_start(rest).len() > 0 ==> !is_white(trim_start(rest)[0]),
            decreases chars@.len() - from,
        {
            proof {
                if trim_start(rest).len() == chars@.len() - from {
                    assert(trim_start(rest)[0] == chars@[from as int]);
                }
            }
            from += 1;
        }
        let ghost t = trim_start(rest);
        proof {
            if t.len() < chars@.len() - from {
                assert(rest[from - at] == chars@[from as int]);
                lemma_trim_start(rest);
            }
            assert(t =~= chars@.skip(from as int));
            lemma_word_len(t);
        }
        if from == chars.len() {
            assert(out.deep_view() + words(rest) =~= out.deep_view());
            break;
        }
        let mut to: usize = from;
        while to < chars.len() && !is_whitespace(chars[to])
            invariant
                from <= to <= from + word_len(t) <= chars@.len(),
                t == chars@.skip(from as int),
                word_len(t) < t.len() ==> is_white(t[word_len(t) as int]),
                forall|i: int| 0 <= i < word_len(t) ==> !is_white(#[trigger] t[i]),
            decreases chars@.len() - to,
        {
            assert(t[to - from] == chars@[to as int]);
            to += 1;
        }
        proof {
            if to - from < word_len(t) {
                assert(t[to - from] == chars@[to as int]);
            }
            assert(t.take(word_len(t) as int) =~= chars@.subrange(from as int, to as int));
            assert(t.skip(word_len(t) as int) =~= chars@.skip(to as int));
        }
        let ghost before = out.deep_view();
        let word: String = text_of(&chars, from, to);
        out.push(word);
        proof {
            assert(out.deep_view() =~= before.push(word@));
            assert(before + (seq![word@] + words(chars@.skip(to as int))) =~= out.deep_view()
                + words(chars@.skip(to as int)));
        }
        at = to;
    }
    out
}

fn char_width(c: char) -> (r: usize)
    ensures
        r == width(c),
{
    let code: u32 = c as u32;
    if code < 0x80 {
        1
    } else if code < 0x800 {
        2
    } else if code < 0x10000 {
        3
    } else {
        4
    }
}

/// The longest prefix of a text that takes at most `limit` bytes.
pub fn truncate_to(s: &str, limit: usize) -> (r: String)
    ensures
        r@ == prefix_within(s@, limit as int),
{
    let chars: Vec<char> = chars_of(s);
    let mut to: usize = 0;
    let mut left: usize = limit;
    assert(chars@.skip(0) =~= s@);
    while to < chars.len() && char_width(chars[to]) <= left
        invariant
            to <= chars@.len(),
            fitting(s@, limit as int) == to + fitting(chars@.skip(to as int), left as int),
        decreases chars@.len() - to,
    {
        assert(chars@.skip(to as int).drop_first() =~= chars@.skip(to + 1));
        left -= char_width(chars[to]);
        to += 1;
    }
    assert(chars@.subrange(0, to as int) =~= s@.take(to as int));
    text_of(&chars, 0, to)
}

fn lower_char(c: char) -> (r: char)
    ensures
        r == lower(c),
{
    if 'A' <= c && c <= 'Z' {
        ((c as u8) + 32u8) as char
    } else {
        c
    }
}

} // verus!

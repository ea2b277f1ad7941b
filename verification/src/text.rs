//! Small operations on text that the rest of the library shares.

use vstd::prelude::*;
use vstd::utf8::*;
use vstd::string::*;

verus! {

/// Tells whether two string slices hold the same characters.
pub fn same_text(a: &str, b: &str) -> (r: bool)
    ensures
        r == (a@ == b@),
{
    let x = a.as_bytes();
    let y = b.as_bytes();
    proof {
        encode_utf8_decode_utf8(a@);
        encode_utf8_decode_utf8(b@);
    }
    if x.len() != y.len() {
        return false;
    }
    let mut i: usize = 0;
    while i < x.len()
        invariant
            i <= x.len(),
            x.len() == y.len(),
            x@ == encode_utf8(a@),
            y@ == encode_utf8(b@),
            forall|j: int| 0 <= j < i ==> x@[j] == y@[j],
        decreases x.len() - i,
    {
        if x[i] != y[i] {
            return false;
        }
        i += 1;
    }
    assert(x@ =~= y@);
    true
}

/// White space, as Unicode defines it (the property `White_Space`).
pub open spec fn white_space(c: char) -> bool {
    let n = c as u32;
    ||| 0x09 <= n <= 0x0d
    ||| n == 0x20
    ||| n == 0x85
    ||| n == 0xa0
    ||| n == 0x1680
    ||| 0x2000 <= n <= 0x200a
    ||| n == 0x2028
    ||| n == 0x2029
    ||| n == 0x202f
    ||| n == 0x205f
    ||| n == 0x3000
}

/// A control character, as Unicode defines it (the general category `Cc`).
pub open spec fn control(c: char) -> bool {
    let n = c as u32;
    n <= 0x1f || 0x7f <= n <= 0x9f
}

/// Tells whether `c` is white space.
pub fn is_space(c: char) -> (r: bool)
    ensures
        r == white_space(c),
{
    let n = c as u32;
    (0x09 <= n && n <= 0x0d) || n == 0x20 || n == 0x85 || n == 0xa0 || n == 0x1680 || (0x2000 <= n
        && n <= 0x200a) || n == 0x2028 || n == 0x2029 || n == 0x202f || n == 0x205f || n == 0x3000
}

/// Tells whether `c` is a control character.
pub fn is_control(c: char) -> (r: bool)
    ensures
        r == control(c),
{
    let n = c as u32;
    n <= 0x1f || (0x7f <= n && n <= 0x9f)
}

/// The characters of a string slice, one by one.
pub fn chars_of(s: &str) -> (r: Vec<char>)
    ensures
        r@ == s@,
{
    let mut r: Vec<char> = Vec::new();
    for c in it: s.chars()
        invariant
            r@ == it.seq().take(it.index() as int),
            it.seq() == s@,
    {
        proof {
            assert(it.seq().take(it.index() + 1) =~= it.seq().take(it.index() as int).push(c));
        }
        r.push(c);
    }
    assert(r@ =~= s@);
    r
}

/// `s` without the white space at its start.
pub open spec fn trim_start(s: Seq<char>) -> Seq<char>
    decreases s.len(),
{
    if s.len() > 0 && white_space(s.first()) {
        trim_start(s.drop_first())
    } else {
        s
    }
}

/// `s` without the white space at its end.
pub open spec fn trim_end(s: Seq<char>) -> Seq<char>
    decreases s.len(),
{
    if s.len() > 0 && white_space(s.last()) {
        trim_end(s.drop_last())
    } else {
        s
    }
}

/// `s` without the white space at either end.
pub open spec fn trimmed(s: Seq<char>) -> Seq<char> {
    trim_end(trim_start(s))
}

/// Trimming the start drops exactly the leading run of white space.
pub proof fn lemma_trim_start(s: Seq<char>, a: int)
    requires
        0 <= a <= s.len(),
        forall|i: int| 0 <= i < a ==> white_space(s[i]),
        a < s.len() ==> !white_space(s[a]),
    ensures
        trim_start(s) == s.skip(a),
    decreases a,
{
    if a == 0 {
        assert(s.skip(0) =~= s);
    } else {
        lemma_trim_start(s.drop_first(), a - 1);
        assert(s.drop_first().skip(a - 1) =~= s.skip(a));
    }
}

/// Trimming the end drops exactly the trailing run of white space.
pub proof fn lemma_trim_end(s: Seq<char>, b: int)
    requires
        0 <= b <= s.len(),
        forall|i: int| b <= i < s.len() ==> white_space(s[i]),
        b > 0 ==> !white_space(s[b - 1]),
    ensures
        trim_end(s) == s.take(b),
    decreases s.len() - b,
{
    if b == s.len() {
        assert(s.take(b) =~= s);
    } else {
        lemma_trim_end(s.drop_last(), b);
        assert(s.drop_last().take(b) =~= s.take(b));
    }
}

/// A text has at most as many characters as its UTF-8 form has bytes.
pub proof fn lemma_chars_within_bytes(s: Seq<char>)
    ensures
        s.len() <= encode_utf8(s).len(),
    decreases s.len(),
{
    if s.len() > 0 {
        lemma_chars_within_bytes(s.drop_first());
    }
}

/// The slice without the white space at either end.
pub fn trim(s: &str) -> (r: &str)
    ensures
        r@ == trimmed(s@),
{
    let bytes = s.as_bytes().len();
    proof {
        lemma_chars_within_bytes(s@);
    }
    let mut start: usize = 0;
    let mut end: usize = 0;
    let mut i: usize = 0;
    for c in it: s.chars()
        invariant
            it.seq() == s@,
            i == it.index(),
            start <= i,
            end <= i,
            forall|j: int| 0 <= j < start ==> white_space(s@[j]),
            start < i ==> !white_space(s@[start as int]) && start < end,
            start == i ==> end == 0,
            forall|j: int| end <= j < i ==> white_space(s@[j]),
            end > 0 ==> !white_space(s@[end - 1]),
            s@.len() <= bytes,
    {
        if !is_space(c) {
            end = i + 1;
        } else if start == i {
            start = i + 1;
        }
        i += 1;
    }
    if end == 0 {
        proof {
            lemma_trim_start(s@, s@.len() as int);
            assert(trimmed(s@) =~= s@.subrange(0, 0));
        }
        s.substring_char(0, 0)
    } else {
        proof {
            lemma_trim_start(s@, start as int);
            lemma_trim_end(s@.skip(start as int), end - start);
            assert(s@.skip(start as int).take(end - start) =~= s@.subrange(
                start as int,
                end as int,
            ));
        }
        s.substring_char(start, end)
    }
}

/// The UTF-8 form of two texts in a row is the two UTF-8 forms in a row.
pub proof fn lemma_encode_concat(a: Seq<char>, b: Seq<char>)
    ensures
        encode_utf8(a + b) == encode_utf8(a) + encode_utf8(b),
    decreases a.len(),
{
    if a.len() == 0 {
        assert(a + b =~= b);
        assert(encode_utf8(a) + encode_utf8(b) =~= encode_utf8(b));
    } else {
        lemma_encode_concat(a.drop_first(), b);
        assert((a + b).drop_first() =~= a.drop_first() + b);
        assert(encode_scalar(a[0] as u32) + (encode_utf8(a.drop_first()) + encode_utf8(b))
            =~= encode_utf8(a) + encode_utf8(b));
    }
}

/// The UTF-8 form of a text of one character.
pub proof fn lemma_encode_one(c: char)
    ensures
        encode_utf8(seq![c]) == encode_scalar(c as u32),
{
    assert(seq![c].drop_first() =~= Seq::<char>::empty());
    assert(encode_scalar(c as u32) + encode_utf8(Seq::<char>::empty()) =~= encode_scalar(c as u32));
}

/// The masked parts of a scalar value fit a byte.
proof fn lemma_low_bits(n: u32)
    by (bit_vector)
    ensures
        n & 0x7f <= 0x7f,
        n & 0x3f <= 0x3f,
        (n >> 6) & 0x1f <= 0x1f,
        (n >> 6) & 0x3f <= 0x3f,
        (n >> 12) & 0x0f <= 0x0f,
        (n >> 12) & 0x3f <= 0x3f,
        (n >> 18) & 0x07 <= 0x07,
{
}

/// Appends the UTF-8 form of one character.
pub fn push_utf8(out: &mut Vec<u8>, c: char)
    ensures
        final(out)@ == old(out)@ + encode_scalar(c as u32),
{
    let n = c as u32;
    proof {
        lemma_low_bits(n);
        char_is_scalar(c);
    }
    if n <= 0x7f {
        out.push((n & 0x7f) as u8);
        assert(out@ =~= old(out)@ + encode_scalar(n));
    } else if n <= 0x7ff {
        out.push(0xc0 | ((n >> 6) & 0x1f) as u8);
        out.push(0x80 | (n & 0x3f) as u8);
        assert(out@ =~= old(out)@ + encode_scalar(n));
    } else if n <= 0xffff {
        out.push(0xe0 | ((n >> 12) & 0x0f) as u8);
        out.push(0x80 | ((n >> 6) & 0x3f) as u8);
        out.push(0x80 | (n & 0x3f) as u8);
        assert(out@ =~= old(out)@ + encode_scalar(n));
    } else {
        out.push(0xf0 | ((n >> 18) & 0x07) as u8);
        out.push(0x80 | ((n >> 12) & 0x3f) as u8);
        out.push(0x80 | ((n >> 6) & 0x3f) as u8);
        out.push(0x80 | (n & 0x3f) as u8);
        assert(out@ =~= old(out)@ + encode_scalar(n));
    }
}

/// Appends the UTF-8 form of a text.
pub fn push_text(out: &mut Vec<u8>, text: &Vec<char>)
    ensures
        final(out)@ == old(out)@ + encode_utf8(text@),
{
    let mut i: usize = 0;
    assert(old(out)@ + encode_utf8(text@.take(0)) =~= old(out)@);
    while i < text.len()
        invariant
            i <= text.len(),
            out@ == old(out)@ + encode_utf8(text@.take(i as int)),
        decreases text.len() - i,
    {
        proof {
            let head = text@.take(i as int);
            assert(text@.take(i + 1) =~= head + seq![text@[i as int]]);
            lemma_encode_concat(head, seq![text@[i as int]]);
            lemma_encode_one(text@[i as int]);
            assert(old(out)@ + encode_utf8(head) + encode_scalar(text@[i as int] as u32) =~= old(
                out,
            )@ + (encode_utf8(head) + encode_scalar(text@[i as int] as u32)));
        }
        push_utf8(out, text[i]);
        i += 1;
    }
    assert(text@.take(i as int) =~= text@);
}

/// Tells whether a text is the same as a string slice.
pub fn text_is(text: &Vec<char>, s: &str) -> (r: bool)
    ensures
        r == (text@ == s@),
{
    let mut i: usize = 0;
    for c in it: s.chars()
        invariant
            it.seq() == s@,
            i == it.index(),
            i <= text.len(),
            text@.take(i as int) == s@.take(i as int),
    {
        if i >= text.len() || text[i] != c {
            assert(text@ != s@) by {
                if text@ == s@ {
                    assert(text@[i as int] == s@[i as int]);
                }
            }
            return false;
        }
        proof {
            assert(text@.take(i + 1) =~= text@.take(i as int).push(text@[i as int]));
            assert(s@.take(i + 1) =~= s@.take(i as int).push(s@[i as int]));
        }
        i += 1;
    }
    assert(s@.take(i as int) =~= s@);
    if i == text.len() {
        assert(text@.take(i as int) =~= text@);
        true
    } else {
        false
    }
}

/// The run of characters at the start of `s` that are no white space.
pub open spec fn first_word(s: Seq<char>) -> Seq<char>
    decreases s.len(),
{
    if s.len() == 0 || white_space(s.first()) {
        Seq::empty()
    } else {
        seq![s.first()] + first_word(s.drop_first())
    }
}

/// Words in a row with one space between each two.
pub open spec fn joined(ws: Seq<Seq<char>>) -> Seq<char>
    decreases ws.len(),
{
    if ws.len() == 0 {
        Seq::empty()
    } else if ws.len() == 1 {
        ws.first()
    } else {
        joined(ws.drop_last()) + seq![' '] + ws.last()
    }
}

/// The texts that a vector of words holds.
pub open spec fn word_views(v: Seq<Vec<char>>) -> Seq<Seq<char>> {
    v.map_values(|w: Vec<char>| w@)
}

/// The first word is a prefix, and ends at the text's end or at white space.
pub proof fn lemma_first_word(s: Seq<char>)
    ensures
        first_word(s).len() <= s.len(),
        first_word(s) == s.take(first_word(s).len() as int),
        s.len() > 0 && !white_space(s.first()) ==> first_word(s).len() > 0,
    decreases s.len(),
{
    if s.len() > 0 && !white_space(s.first()) {
        lemma_first_word(s.drop_first());
        let n = first_word(s.drop_first()).len() as int;
        assert(seq![s.first()] + s.drop_first().take(n) =~= s.take(n + 1));
    } else {
        assert(s.take(0) =~= Seq::<char>::empty());
    }
}

/// The words of a text: its longest runs of characters that are no white
/// space, in their order.
pub open spec fn words(s: Seq<char>) -> Seq<Seq<char>>
    decreases s.len(),
{
    if s.len() == 0 {
        Seq::empty()
    } else if white_space(s.first()) {
        words(s.drop_first())
    } else {
        proof {
            lemma_first_word(s);
        }
        seq![first_word(s)] + words(s.skip(first_word(s).len() as int))
    }
}

/// A run of characters that are no white space, up to the text's end or to
/// white space, is the first word.
pub proof fn lemma_first_word_is(s: Seq<char>, n: int)
    requires
        0 <= n <= s.len(),
        forall|i: int| 0 <= i < n ==> !white_space(s[i]),
        n < s.len() ==> white_space(s[n]),
    ensures
        first_word(s) == s.take(n),
    decreases n,
{
    if n == 0 {
        assert(s.take(0) =~= Seq::<char>::empty());
    } else {
        lemma_first_word_is(s.drop_first(), n - 1);
        assert(seq![s.first()] + s.drop_first().take(n - 1) =~= s.take(n));
    }
}

/// Splits a text into its words.
pub fn split_words(text: &Vec<char>) -> (r: Vec<Vec<char>>)
    ensures
        word_views(r@) == words(text@),
{
    let mut r: Vec<Vec<char>> = Vec::new();
    let mut i: usize = 0;
    assert(text@.skip(0) =~= text@);
    assert(word_views(r@) + words(text@.skip(0)) =~= words(text@));
    while i < text.len()
        invariant
            i <= text.len(),
            words(text@) == word_views(r@) + words(text@.skip(i as int)),
        decreases text.len() - i,
    {
        let ghost rest = text@.skip(i as int);
        if is_space(text[i]) {
            assert(rest.drop_first() =~= text@.skip(i + 1));
            i += 1;
        } else {
            let mut word: Vec<char> = Vec::new();
            let start = i;
            while i < text.len() && !is_space(text[i])
                invariant
                    start <= i <= text.len(),
                    word@ == text@.subrange(start as int, i as int),
                    forall|j: int| start <= j < i ==> !white_space(text@[j]),
                decreases text.len() - i,
            {
                word.push(text[i]);
                assert(word@ =~= text@.subrange(start as int, i + 1));
                i += 1;
            }
            proof {
                lemma_first_word_is(rest, i - start);
                assert(rest.take(i - start) =~= word@);
                assert(rest.skip(i - start) =~= text@.skip(i as int));
                let before = word_views(r@);
                assert(word_views(r@.push(word)) =~= before.push(word@));
                assert(before + (seq![word@] + words(text@.skip(i as int))) =~= before.push(word@)
                    + words(text@.skip(i as int)));
            }
            r.push(word);
        }
    }
    assert(text@.skip(i as int) =~= Seq::<char>::empty());
    assert(word_views(r@) + Seq::<Seq<char>>::empty() =~= word_views(r@));
    r
}

} // verus!

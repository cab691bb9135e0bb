//! Texts as sequences of characters: searching, trimming, splitting, joining, replacing, and
//! the bytes that they take up.
use vstd::prelude::*;
use vstd::slice::slice_subrange;
#[allow(unused_imports)]
use vstd::utf8::{decode_utf8, encode_scalar, encode_utf8, valid_utf8};

verus! {

/// `String::push` appends one character at the end of the text.
pub assume_specification[ String::push ](s: &mut String, ch: char)
    ensures
        final(s)@ == old(s)@.push(ch),
;

/// The texts that a sequence of strings holds.
pub open spec fn texts(strings: Seq<String>) -> Seq<Seq<char>> {
    Seq::new(strings.len(), |i: int| strings[i]@)
}

/// The characters of a text, one by one.
pub fn chars_of(text: &str) -> (chars: Vec<char>)
    ensures
        chars@ == text@,
{
    let mut chars: Vec<char> = Vec::new();
    for c in iter: text.chars()
        invariant
            chars@ == iter.seq().take(iter.index()),
            iter.seq() == text@,
    {
        chars.push(c);
    }
    chars
}

/// The text made of the given characters.
pub fn text_of(chars: &[char]) -> (text: String)
    ensures
        text@ == chars@,
{
    let mut text = String::new();
    for i in 0..chars.len()
        invariant
            text@ == chars@.take(i as int),
    {
        text.push(chars[i]);
    }
    text
}

/// Whether two texts hold the same characters.
pub fn same_text(left: &str, right: &str) -> (same: bool)
    ensures
        same == (left@ == right@),
{
    left.to_owned() == right.to_owned()
}

// ---------------------------------------------------------------------------
// Searching
// ---------------------------------------------------------------------------

/// The property of being the character `c`.
pub open spec fn is_char(c: char) -> spec_fn(char) -> bool {
    |x: char| x == c
}

/// The index of the first character with property `p`, or the length when there is none.
pub open spec fn first_where(s: Seq<char>, p: spec_fn(char) -> bool) -> int
    decreases s.len(),
{
    if s.len() == 0 {
        0
    } else if p(s[0]) {
        0
    } else {
        1 + first_where(s.drop_first(), p)
    }
}

/// The index of the last character with property `p`, or -1 when there is none.
pub open spec fn last_where(s: Seq<char>, p: spec_fn(char) -> bool) -> int
    decreases s.len(),
{
    if s.len() == 0 {
        -1
    } else if p(s.last()) {
        s.len() - 1
    } else {
        last_where(s.drop_last(), p)
    }
}

/// `first_where` is the one index before which no character has the property and at
/// which, unless it is the length, one does.
pub proof fn lemma_first_where(s: Seq<char>, p: spec_fn(char) -> bool)
    ensures
        0 <= first_where(s, p) <= s.len(),
        forall|j: int| 0 <= j < first_where(s, p) ==> !p(#[trigger] s[j]),
        first_where(s, p) < s.len() ==> p(s[first_where(s, p)]),
        first_where(s, p) == s.len() <==> forall|j: int| 0 <= j < s.len() ==> !p(#[trigger] s[j]),
    decreases s.len(),
{
    if s.len() > 0 && !p(s[0]) {
        let t = s.drop_first();
        lemma_first_where(t, p);
        assert forall|j: int| 0 <= j < first_where(s, p) implies !p(#[trigger] s[j]) by {
            if j > 0 {
                assert(t[j - 1] == s[j]);
            }
        }
    }
}

/// An index that splits a text the way `first_where` does is `first_where`.
pub proof fn lemma_first_where_is(s: Seq<char>, p: spec_fn(char) -> bool, k: int)
    requires
        0 <= k <= s.len(),
        forall|j: int| 0 <= j < k ==> !p(#[trigger] s[j]),
        k < s.len() ==> p(s[k]),
    ensures
        first_where(s, p) == k,
{
    lemma_first_where(s, p);
    let f = first_where(s, p);
    if f < k {
        assert(!p(s[f]));
    } else if k < f {
        assert(!p(s[k]));
    }
}

/// `last_where` is the one index after which no character has the property and at which,
/// unless it is -1, one does.
pub proof fn lemma_last_where(s: Seq<char>, p: spec_fn(char) -> bool)
    ensures
        -1 <= last_where(s, p) < s.len(),
        forall|j: int| last_where(s, p) < j < s.len() ==> !p(#[trigger] s[j]),
        last_where(s, p) >= 0 ==> p(s[last_where(s, p)]),
    decreases s.len(),
{
    if s.len() > 0 && !p(s.last()) {
        let t = s.drop_last();
        lemma_last_where(t, p);
        assert forall|j: int| last_where(s, p) < j < s.len() implies !p(#[trigger] s[j]) by {
            if j < s.len() - 1 {
                assert(t[j] == s[j]);
            }
        }
        if last_where(t, p) >= 0 {
            assert(t[last_where(t, p)] == s[last_where(t, p)]);
        }
    }
}

/// An index that splits a text the way `last_where` does is `last_where`.
pub proof fn lemma_last_where_is(s: Seq<char>, p: spec_fn(char) -> bool, k: int)
    requires
        -1 <= k < s.len(),
        forall|j: int| k < j < s.len() ==> !p(#[trigger] s[j]),
        k >= 0 ==> p(s[k]),
    ensures
        last_where(s, p) == k,
{
    lemma_last_where(s, p);
    let f = last_where(s, p);
    if f > k {
        assert(!p(s[f]));
    } else if k > f {
        assert(!p(s[k]));
    }
}

/// The index of the first `c` at or after `start`, or the length.
pub fn find_char(chars: &[char], start: usize, c: char) -> (index: usize)
    requires
        start <= chars@.len(),
    ensures
        index == start + first_where(chars@.skip(start as int), is_char(c)),
        start <= index <= chars@.len(),
        index < chars@.len() ==> chars@[index as int] == c,
        forall|j: int| start <= j < index ==> chars@[j] != c,
{
    let mut i: usize = start;
    while i < chars.len() && chars[i] != c
        invariant
            start <= i <= chars@.len(),
            forall|j: int| start <= j < i ==> chars@[j] != c,
        decreases chars@.len() - i,
    {
        i += 1;
    }
    proof {
        lemma_first_where_is(chars@.skip(start as int), is_char(c), i - start);
    }
    i
}

/// The index of the last `c`, when there is one.
pub fn find_last_char(chars: &[char], c: char) -> (index: Option<usize>)
    ensures
        match index {
            Some(i) => last_where(chars@, is_char(c)) == i && i < chars@.len(),
            None => last_where(chars@, is_char(c)) == -1,
        },
{
    let mut i: usize = chars.len();
    while i > 0
        invariant
            i <= chars@.len(),
            forall|j: int| i <= j < chars@.len() ==> chars@[j] != c,
        decreases i,
    {
        i -= 1;
        if chars[i] == c {
            proof {
                lemma_last_where_is(chars@, is_char(c), i as int);
            }
            return Some(i);
        }
    }
    proof {
        lemma_last_where_is(chars@, is_char(c), -1);
    }
    None
}

/// Whether a text starts with another.
pub open spec fn starts_with(s: Seq<char>, prefix: Seq<char>) -> bool {
    prefix.is_prefix_of(s)
}

/// Whether a text ends with another.
pub open spec fn ends_with(s: Seq<char>, suffix: Seq<char>) -> bool {
    suffix.is_suffix_of(s)
}

/// Whether `chars` starts with `prefix`.
pub fn has_prefix(chars: &[char], prefix: &str) -> (found: bool)
    ensures
        found == starts_with(chars@, prefix@),
{
    let wanted = chars_of(prefix);
    if chars.len() < wanted.len() {
        return false;
    }
    let mut i: usize = 0;
    while i < wanted.len()
        invariant
            wanted@ == prefix@,
            wanted@.len() <= chars@.len(),
            i <= wanted@.len(),
            forall|j: int| 0 <= j < i ==> chars@[j] == wanted@[j],
        decreases wanted@.len() - i,
    {
        if chars[i] != wanted[i] {
            assert(chars@.subrange(0, wanted@.len() as int)[i as int] != wanted@[i as int]);
            return false;
        }
        i += 1;
    }
    assert(chars@.subrange(0, wanted@.len() as int) =~= wanted@);
    true
}

/// Whether `chars` ends with `suffix`.
pub fn has_suffix(chars: &[char], suffix: &str) -> (found: bool)
    ensures
        found == ends_with(chars@, suffix@),
{
    let wanted = chars_of(suffix);
    if chars.len() < wanted.len() {
        return false;
    }
    let total: usize = chars.len();
    let base: usize = total - wanted.len();
    let mut i: usize = 0;
    while i < wanted.len()
        invariant
            wanted@ == suffix@,
            total == chars@.len(),
            base + wanted@.len() == total,
            i <= wanted@.len(),
            forall|j: int| 0 <= j < i ==> chars@[base + j] == wanted@[j],
        decreases wanted@.len() - i,
    {
        if chars[base + i] != wanted[i] {
            assert(chars@.subrange(base as int, chars@.len() as int)[i as int] != wanted@[i as int]);
            return false;
        }
        i += 1;
    }
    assert(chars@.subrange(base as int, chars@.len() as int) =~= wanted@);
    true
}

// ---------------------------------------------------------------------------
// White space
// ---------------------------------------------------------------------------

/// The characters with Unicode's `White_Space` property.
pub open spec fn is_white_space(c: char) -> bool {
    ||| '\u{9}' <= c <= '\u{d}'
    ||| c == ' '
    ||| c == '\u{85}'
    ||| c == '\u{a0}'
    ||| c == '\u{1680}'
    ||| '\u{2000}' <= c <= '\u{200a}'
    ||| c == '\u{2028}'
    ||| c == '\u{2029}'
    ||| c == '\u{202f}'
    ||| c == '\u{205f}'
    ||| c == '\u{3000}'
}

/// `is_white_space` as a property.
pub open spec fn white() -> spec_fn(char) -> bool {
    |c: char| is_white_space(c)
}

/// The negation of `is_white_space` as a property.
pub open spec fn not_white() -> spec_fn(char) -> bool {
    |c: char| !is_white_space(c)
}

/// Whether `c` is white space.
pub fn char_is_white(c: char) -> (white: bool)
    ensures
        white == is_white_space(c),
{
    ('\u{9}' <= c && c <= '\u{d}') || c == ' ' || c == '\u{85}' || c == '\u{a0}' || c == '\u{1680}'
        || ('\u{2000}' <= c && c <= '\u{200a}') || c == '\u{2028}' || c == '\u{2029}' || c
        == '\u{202f}' || c == '\u{205f}' || c == '\u{3000}'
}

/// A text without its leading white space.
pub open spec fn trim_start(s: Seq<char>) -> Seq<char> {
    s.skip(first_where(s, not_white()))
}

/// A text without its trailing white space.
pub open spec fn trim_end(s: Seq<char>) -> Seq<char> {
    s.take(last_where(s, not_white()) + 1)
}

/// A text without its leading and trailing white space.
pub open spec fn trim(s: Seq<char>) -> Seq<char> {
    trim_end(trim_start(s))
}

/// The index of the first character at or after `start` that is white space (`wanted`) or
/// is not (`!wanted`).
pub fn find_white(chars: &[char], start: usize, wanted: bool) -> (index: usize)
    requires
        start <= chars@.len(),
    ensures
        start <= index <= chars@.len(),
        index == start + first_where(
            chars@.skip(start as int),
            if wanted {
                white()
            } else {
                not_white()
            },
        ),
{
    let mut i: usize = start;
    while i < chars.len() && char_is_white(chars[i]) != wanted
        invariant
            start <= i <= chars@.len(),
            forall|j: int| start <= j < i ==> is_white_space(chars@[j]) != wanted,
        decreases chars@.len() - i,
    {
        i += 1;
    }
    proof {
        let p = if wanted {
            white()
        } else {
            not_white()
        };
        lemma_first_where_is(chars@.skip(start as int), p, i - start);
    }
    i
}

/// The part of `chars` between its leading and its trailing white space.
pub fn trimmed(chars: &[char]) -> (inner: &[char])
    ensures
        inner@ == trim(chars@),
{
    let start = find_white(chars, 0, false);
    assert(chars@.skip(0) =~= chars@);
    let total: usize = chars.len();
    let mut end: usize = total;
    while end > start && char_is_white(chars[end - 1])
        invariant
            start <= end <= total,
            total == chars@.len(),
            forall|j: int| end <= j < total ==> is_white_space(chars@[j]),
        decreases end,
    {
        end -= 1;
    }
    proof {
        let s = trim_start(chars@);
        assert(s =~= chars@.skip(start as int));
        lemma_last_where_is(s, not_white(), end - start - 1);
        assert(s.take(end - start) =~= chars@.subrange(start as int, end as int));
    }
    slice_subrange(chars, start, end)
}

/// The words of a text: its longest stretches without white space, in order.
pub open spec fn words(s: Seq<char>) -> Seq<Seq<char>>
    decreases s.len(),
{
    let t = trim_start(s);
    let end = first_where(t, white());
    if t.len() == 0 {
        Seq::empty()
    } else {
        proof {
            lemma_trim_start(s);
        }
        seq![t.take(end)] + words(t.skip(end))
    }
}

/// What is left of a text without its leading white space is no longer than the text and
/// starts with a word, unless it is empty.
pub proof fn lemma_trim_start(s: Seq<char>)
    ensures
        trim_start(s).len() <= s.len(),
        trim_start(s).len() > 0 ==> !is_white_space(trim_start(s)[0]) && first_where(
            trim_start(s),
            white(),
        ) > 0 && first_where(trim_start(s), white()) <= trim_start(s).len(),
{
    lemma_first_where(s, not_white());
    let t = trim_start(s);
    if t.len() > 0 {
        assert(t[0] == s[first_where(s, not_white())]);
        lemma_first_where(t, white());
    }
}

/// The words of `chars`, as texts.
pub fn words_of(chars: &[char]) -> (found: Vec<String>)
    ensures
        texts(found@) == words(chars@),
{
    let mut found: Vec<String> = Vec::new();
    let total: usize = chars.len();
    let mut start: usize = 0;
    assert(chars@.skip(0) =~= chars@);
    assert(texts(found@) + words(chars@.skip(0)) =~= words(chars@));
    while start < total
        invariant
            start <= total,
            total == chars@.len(),
            texts(found@) + words(chars@.skip(start as int)) == words(chars@),
        decreases total - start,
    {
        let begin = find_white(chars, start, false);
        let end = find_white(chars, begin, true);
        let ghost rest = chars@.skip(start as int);
        let ghost t = trim_start(rest);
        proof {
            lemma_trim_start(rest);
            assert(t =~= chars@.skip(begin as int));
        }
        if begin == total {
            proof {
                assert(words(rest) =~= Seq::<Seq<char>>::empty());
                assert(words(chars@.skip(total as int)) =~= Seq::<Seq<char>>::empty()) by {
                    lemma_trim_start(chars@.skip(total as int));
                }
            }
            start = total;
        } else {
            let ghost before = texts(found@);
            found.push(text_of(slice_subrange(chars, begin, end)));
            proof {
                assert(t.take(end - begin) =~= chars@.subrange(begin as int, end as int));
                assert(t.skip(end - begin) =~= chars@.skip(end as int));
                assert(words(rest) == seq![t.take(end - begin)] + words(t.skip(end - begin)));
                assert(texts(found@) =~= before.push(chars@.subrange(begin as int, end as int)));
                assert(texts(found@) + words(chars@.skip(end as int)) =~= before + words(rest));
            }
            start = end;
        }
    }
    proof {
        lemma_trim_start(chars@.skip(total as int));
        assert(words(chars@.skip(total as int)) =~= Seq::<Seq<char>>::empty());
        assert(texts(found@) =~= words(chars@));
    }
    found
}

// ---------------------------------------------------------------------------
// Splitting
// ---------------------------------------------------------------------------

/// The pieces of a text between the occurrences of `separator`.
pub open spec fn split(s: Seq<char>, separator: char) -> Seq<Seq<char>>
    decreases s.len(),
{
    let i = first_where(s, is_char(separator));
    if i == s.len() {
        seq![s]
    } else {
        proof {
            lemma_first_where(s, is_char(separator));
        }
        seq![s.take(i)] + split(s.skip(i + 1), separator)
    }
}

/// The pieces of `chars` between the occurrences of `separator`, as texts.
pub fn split_of(chars: &[char], separator: char) -> (pieces: Vec<String>)
    ensures
        texts(pieces@) == split(chars@, separator),
        pieces@.len() > 0,
{
    let mut pieces: Vec<String> = Vec::new();
    let total: usize = chars.len();
    let mut start: usize = 0;
    let mut end: usize = find_char(chars, 0, separator);
    assert(chars@.skip(0) =~= chars@);
    assert(texts(pieces@) + split(chars@.skip(0), separator) =~= split(chars@, separator));
    while end < total
        invariant
            start <= end <= total,
            total == chars@.len(),
            end == start + first_where(chars@.skip(start as int), is_char(separator)),
            texts(pieces@) + split(chars@.skip(start as int), separator) == split(chars@, separator),
        decreases total - start,
    {
        let ghost rest = chars@.skip(start as int);
        let ghost before = texts(pieces@);
        pieces.push(text_of(slice_subrange(chars, start, end)));
        proof {
            assert(rest.take(end - start) =~= chars@.subrange(start as int, end as int));
            assert(rest.skip(end - start + 1) =~= chars@.skip(end + 1));
            assert(texts(pieces@) =~= before.push(chars@.subrange(start as int, end as int)));
            assert(texts(pieces@) + split(chars@.skip(end + 1), separator) =~= before + split(
                rest,
                separator,
            ));
        }
        start = end + 1;
        end = find_char(chars, start, separator);
    }
    let ghost rest = chars@.skip(start as int);
    let ghost before = texts(pieces@);
    pieces.push(text_of(slice_subrange(chars, start, total)));
    proof {
        assert(rest =~= chars@.subrange(start as int, total as int));
        assert(split(rest, separator) =~= seq![rest]);
        assert(texts(pieces@) =~= before.push(rest));
        assert(texts(pieces@) =~= split(chars@, separator));
    }
    pieces
}

/// A text without one trailing carriage return.
pub open spec fn strip_carriage_return(s: Seq<char>) -> Seq<char> {
    if s.len() > 0 && s.last() == '\r' {
        s.drop_last()
    } else {
        s
    }
}

/// The lines of a text. A line ends at a line feed, or at a carriage return with a line
/// feed behind it, and does not hold its ending; the last line needs none.
pub open spec fn lines(s: Seq<char>) -> Seq<Seq<char>>
    decreases s.len(),
{
    let i = first_where(s, is_char('\n'));
    if s.len() == 0 {
        Seq::empty()
    } else if i == s.len() {
        seq![s]
    } else {
        proof {
            lemma_first_where(s, is_char('\n'));
        }
        seq![strip_carriage_return(s.take(i))] + lines(s.skip(i + 1))
    }
}

/// The lines of `chars`, as texts.
pub fn lines_of(chars: &[char]) -> (found: Vec<String>)
    ensures
        texts(found@) == lines(chars@),
{
    let mut found: Vec<String> = Vec::new();
    let total: usize = chars.len();
    let mut start: usize = 0;
    assert(chars@.skip(0) =~= chars@);
    assert(texts(found@) + lines(chars@.skip(0)) =~= lines(chars@));
    while start < total
        invariant
            start <= total,
            total == chars@.len(),
            texts(found@) + lines(chars@.skip(start as int)) == lines(chars@),
        decreases total - start,
    {
        let end = find_char(chars, start, '\n');
        let ghost rest = chars@.skip(start as int);
        let ghost before = texts(found@);
        if end == total {
            found.push(text_of(slice_subrange(chars, start, total)));
            proof {
                assert(rest =~= chars@.subrange(start as int, total as int));
                assert(lines(rest) =~= seq![rest]);
                assert(texts(found@) =~= before.push(rest));
                assert(lines(chars@.skip(total as int)) =~= Seq::<Seq<char>>::empty());
                assert(texts(found@) + lines(chars@.skip(total as int)) =~= before + lines(rest));
            }
            start = total;
        } else {
            let stop: usize = if end > start && chars[end - 1] == '\r' {
                end - 1
            } else {
                end
            };
            found.push(text_of(slice_subrange(chars, start, stop)));
            proof {
                let piece = rest.take(end - start);
                assert(piece =~= chars@.subrange(start as int, end as int));
                assert(strip_carriage_return(piece) =~= chars@.subrange(start as int, stop as int));
                assert(rest.skip(end - start + 1) =~= chars@.skip(end + 1));
                assert(texts(found@) =~= before.push(strip_carriage_return(piece)));
                assert(texts(found@) + lines(chars@.skip(end + 1)) =~= before + lines(rest));
            }
            start = end + 1;
        }
    }
    proof {
        assert(lines(chars@.skip(total as int)) =~= Seq::<Seq<char>>::empty());
        assert(texts(found@) =~= lines(chars@));
    }
    found
}

// ---------------------------------------------------------------------------
// Letter case
// ---------------------------------------------------------------------------

/// The lower-case form of an ASCII letter; any other character as it is.
pub open spec fn ascii_lower(c: char) -> char {
    if 'A' <= c <= 'Z' {
        (c as u32 + 32) as char
    } else {
        c
    }
}

/// A text with its ASCII letters in lower case.
pub open spec fn ascii_lowercase(s: Seq<char>) -> Seq<char> {
    s.map_values(|c: char| ascii_lower(c))
}

/// Whether `c` is an ASCII letter or digit.
pub open spec fn is_ascii_alphanumeric(c: char) -> bool {
    ||| 'a' <= c <= 'z'
    ||| 'A' <= c <= 'Z'
    ||| '0' <= c <= '9'
}

/// The lower-case form of `c`, when it is an ASCII letter.
pub fn lower_char(c: char) -> (lower: char)
    ensures
        lower == ascii_lower(c),
{
    if 'A' <= c && c <= 'Z' {
        (c as u8 + 32) as char
    } else {
        c
    }
}

/// Whether `c` is an ASCII letter or digit.
pub fn char_is_alphanumeric(c: char) -> (yes: bool)
    ensures
        yes == is_ascii_alphanumeric(c),
{
    ('a' <= c && c <= 'z') || ('A' <= c && c <= 'Z') || ('0' <= c && c <= '9')
}

/// `chars` with its ASCII letters in lower case.
pub fn lower_of(chars: &[char]) -> (lower: Vec<char>)
    ensures
        lower@ == ascii_lowercase(chars@),
{
    let mut lower: Vec<char> = Vec::new();
    for i in 0..chars.len()
        invariant
            lower@ == ascii_lowercase(chars@.take(i as int)),
    {
        lower.push(lower_char(chars[i]));
        assert(ascii_lowercase(chars@.take(i + 1)) =~= ascii_lowercase(chars@.take(i as int)).push(
            ascii_lower(chars@[i as int]),
        ));
    }
    assert(chars@.take(chars@.len() as int) =~= chars@);
    lower
}

/// A name for the Unicode lower-case form of a text.
pub uninterp spec fn lowercase(s: Seq<char>) -> Seq<char>;

/// `str::to_lowercase` gives the lower-case form of a text by Unicode's rules. The form is a
/// function of the text alone; which characters it holds is left unsaid.
pub assume_specification[ str::to_lowercase ](s: &str) -> (lower: String)
    ensures
        lower@ == lowercase(s@),
;

// ---------------------------------------------------------------------------
// Bytes
// ---------------------------------------------------------------------------

/// The number of bytes that a text takes up in UTF-8.
pub open spec fn byte_len(s: Seq<char>) -> nat {
    encode_utf8(s).len()
}

/// Two texts one after the other take up the bytes of the one and then those of the other.
pub proof fn lemma_encode_concat(a: Seq<char>, b: Seq<char>)
    ensures
        encode_utf8(a + b) == encode_utf8(a) + encode_utf8(b),
    decreases a.len(),
{
    if a.len() == 0 {
        assert(a + b =~= b);
        assert(encode_utf8(a) + encode_utf8(b) =~= encode_utf8(b));
    } else {
        lemma_encode_concat(a.drop_first(), b);
        assert((a + b).drop_first() =~= a.drop_first() + b);
        assert(encode_utf8(a + b) =~= encode_utf8(a) + encode_utf8(b));
    }
}

/// A character takes up one to four bytes behind those of the text before it.
pub proof fn lemma_byte_len_push(s: Seq<char>, c: char)
    ensures
        byte_len(s.push(c)) == byte_len(s) + encode_scalar(c as u32).len(),
        1 <= encode_scalar(c as u32).len() <= 4,
{
    assert(s.push(c) =~= s + seq![c]);
    lemma_encode_concat(s, seq![c]);
    assert(seq![c].drop_first() =~= Seq::<char>::empty());
    reveal_with_fuel(encode_utf8, 2);
    vstd::utf8::char_is_scalar(c);
}

/// The number of bytes that a text takes up in UTF-8.
pub fn bytes_in(text: &str) -> (count: usize)
    ensures
        count == byte_len(text@),
{
    text.as_bytes().len()
}

/// The number of bytes that a character takes up in UTF-8.
pub fn char_bytes(c: char) -> (count: usize)
    ensures
        count == encode_scalar(c as u32).len(),
{
    proof {
        vstd::utf8::char_is_scalar(c);
    }
    if c as u32 <= 0x7f {
        1
    } else if c as u32 <= 0x7ff {
        2
    } else if c as u32 <= 0xffff {
        3
    } else {
        4
    }
}

/// The longest start of a text that takes up at most `max` bytes.
pub open spec fn fitting(s: Seq<char>, max: nat) -> Seq<char>
    decreases s.len(),
{
    if s.len() == 0 || byte_len(s) <= max {
        s
    } else {
        fitting(s.drop_last(), max)
    }
}

/// A shorter start of a text takes up fewer bytes.
proof fn lemma_byte_len_take(s: Seq<char>, n: int)
    requires
        0 <= n <= s.len(),
    ensures
        byte_len(s.take(n)) <= byte_len(s),
{
    assert(s =~= s.take(n) + s.skip(n));
    lemma_encode_concat(s.take(n), s.skip(n));
}

proof fn lemma_fitting(s: Seq<char>, max: nat, n: int)
    requires
        0 <= n <= s.len(),
        byte_len(s.take(n)) <= max,
        n < s.len() ==> byte_len(s.take(n + 1)) > max,
    ensures
        fitting(s, max) == s.take(n),
    decreases s.len(),
{
    if n == s.len() {
        assert(s.take(n) =~= s);
    } else {
        lemma_byte_len_take(s, n + 1);
        let t = s.drop_last();
        assert(t.take(n) =~= s.take(n));
        if n < t.len() {
            assert(t.take(n + 1) =~= s.take(n + 1));
        }
        lemma_fitting(t, max, n);
    }
}

/// The longest start of a text that takes up at most `max_bytes` bytes, and whether anything
/// was left out.
pub fn truncate_utf8(value: &str, max_bytes: usize) -> (cut: (String, bool))
    ensures
        cut.0@ == fitting(value@, max_bytes as nat),
        cut.1 == (byte_len(value@) > max_bytes),
{
    if bytes_in(value) <= max_bytes {
        return (value.to_owned(), false);
    }
    let chars = chars_of(value);
    let mut start = String::new();
    let mut used: usize = 0;
    let mut i: usize = 0;
    assert(chars@.take(0) =~= Seq::<char>::empty());
    while i < chars.len()
        invariant
            chars@ == value@,
            i <= chars@.len(),
            start@ == chars@.take(i as int),
            used == byte_len(chars@.take(i as int)),
            used <= max_bytes,
            byte_len(value@) > max_bytes,
        decreases chars@.len() - i,
    {
        let c = chars[i];
        let more = char_bytes(c);
        proof {
            lemma_byte_len_push(chars@.take(i as int), c);
            assert(chars@.take(i + 1) =~= chars@.take(i as int).push(c));
        }
        if more > max_bytes - used {
            proof {
                lemma_fitting(value@, max_bytes as nat, i as int);
            }
            return (start, true);
        }
        start.push(c);
        used += more;
        i += 1;
    }
    proof {
        assert(chars@.take(i as int) =~= value@);
    }
    (start, true)
}

/// A text that is cut is a start of the text, fits, and could not be longer.
pub proof fn law_cut_text_fits(s: Seq<char>, max: nat)
    ensures
        byte_len(fitting(s, max)) <= max,
        fitting(s, max).len() <= s.len(),
        fitting(s, max) == s.take(fitting(s, max).len() as int),
        fitting(s, max).len() < s.len() ==> byte_len(s.take(fitting(s, max).len() as int + 1))
            > max,
        byte_len(s) <= max ==> fitting(s, max) == s,
    decreases s.len(),
{
    if s.len() > 0 && byte_len(s) > max {
        let t = s.drop_last();
        law_cut_text_fits(t, max);
        let n = fitting(s, max).len() as int;
        assert(t.take(n) =~= s.take(n));
        if n < t.len() {
            assert(t.take(n + 1) =~= s.take(n + 1));
        } else {
            assert(s.take(n + 1) =~= s);
        }
    } else {
        assert(s.take(s.len() as int) =~= s);
    }
}

/// A name for the text that some bytes stand for where those that are no UTF-8 are replaced.
pub uninterp spec fn utf8_lossy(bytes: Seq<u8>) -> Seq<char>;

/// `String::from_utf8_lossy` reads bytes as UTF-8 and puts U+FFFD in place of those that are
/// none. The text is a function of the bytes, and that of valid UTF-8 is what it encodes;
/// which bytes are replaced together is left unsaid.
#[verifier::external_body]
pub(crate) fn lossy_text(bytes: &[u8]) -> (text: String)
    ensures
        text@ == utf8_lossy(bytes@),
        valid_utf8(bytes@) ==> text@ == decode_utf8(bytes@),
{
    String::from_utf8_lossy(bytes).into_owned()
}

// ---------------------------------------------------------------------------
// Joining
// ---------------------------------------------------------------------------

/// Texts one after the other with a separator between each two.
pub open spec fn joined(parts: Seq<Seq<char>>, separator: Seq<char>) -> Seq<char>
    decreases parts.len(),
{
    if parts.len() == 0 {
        Seq::empty()
    } else if parts.len() == 1 {
        parts[0]
    } else {
        joined(parts.drop_last(), separator) + separator + parts.last()
    }
}

// ---------------------------------------------------------------------------
// Taking away and replacing
// ---------------------------------------------------------------------------

/// The property of being another character than two given ones.
pub open spec fn neither(a: char, b: char) -> spec_fn(char) -> bool {
    |c: char| c != a && c != b
}

/// A text without the occurrences of a character at its start.
pub open spec fn without_leading(s: Seq<char>, c: char) -> Seq<char> {
    s.skip(first_where(s, neither(c, c)))
}

/// A text without the occurrences of two characters at its end.
pub open spec fn without_trailing(s: Seq<char>, a: char, b: char) -> Seq<char> {
    s.take(last_where(s, neither(a, b)) + 1)
}

/// A text without the occurrences of `c` at its start.
pub fn strip_leading(chars: &[char], c: char) -> (rest: &[char])
    ensures
        rest@ == without_leading(chars@, c),
{
    let total: usize = chars.len();
    let mut start: usize = 0;
    while start < total && chars[start] == c
        invariant
            start <= total,
            total == chars@.len(),
            forall|j: int| 0 <= j < start ==> chars@[j] == c,
        decreases total - start,
    {
        start += 1;
    }
    proof {
        lemma_first_where_is(chars@, neither(c, c), start as int);
        assert(chars@.subrange(start as int, total as int) =~= chars@.skip(start as int));
    }
    slice_subrange(chars, start, total)
}

/// A text without the occurrences of `a` and `b` at its end.
pub fn strip_trailing(chars: &[char], a: char, b: char) -> (rest: &[char])
    ensures
        rest@ == without_trailing(chars@, a, b),
{
    let total: usize = chars.len();
    let mut end: usize = total;
    while end > 0 && (chars[end - 1] == a || chars[end - 1] == b)
        invariant
            end <= total,
            total == chars@.len(),
            forall|j: int| end <= j < total ==> chars@[j] == a || chars@[j] == b,
        decreases end,
    {
        end -= 1;
    }
    proof {
        lemma_last_where_is(chars@, neither(a, b), end - 1);
        assert(chars@.subrange(0, end as int) =~= chars@.take(end as int));
    }
    slice_subrange(chars, 0, end)
}

/// A text with another text in place of each occurrence of a character.
pub open spec fn replaced(s: Seq<char>, from: char, to: Seq<char>) -> Seq<char>
    decreases s.len(),
{
    if s.len() == 0 {
        Seq::empty()
    } else {
        replaced(s.drop_last(), from, to) + if s.last() == from {
            to
        } else {
            seq![s.last()]
        }
    }
}

/// A text with `to` in place of each `from`.
pub fn replace_char(text: &str, from: char, to: &str) -> (result: String)
    ensures
        result@ == replaced(text@, from, to@),
{
    let chars = chars_of(text);
    let mut result = String::new();
    let mut i: usize = 0;
    assert(chars@.take(0) =~= Seq::<char>::empty());
    while i < chars.len()
        invariant
            i <= chars@.len(),
            result@ == replaced(chars@.take(i as int), from, to@),
        decreases chars@.len() - i,
    {
        proof {
            let upto = chars@.take(i + 1);
            assert(upto.drop_last() =~= chars@.take(i as int));
            assert(upto.last() == chars@[i as int]);
        }
        if chars[i] == from {
            result.append(to);
        } else {
            result.push(chars[i]);
        }
        i += 1;
        assert(result@ =~= replaced(chars@.take(i as int), from, to@));
    }
    assert(chars@.take(i as int) =~= text@);
    result
}

/// The rest of the first of some lines that start with `prefix`, behind it.
pub open spec fn after_prefix(found: Seq<Seq<char>>, prefix: Seq<char>) -> Option<Seq<char>>
    decreases found.len(),
{
    if found.len() == 0 {
        None
    } else if starts_with(found[0], prefix) {
        Some(found[0].skip(prefix.len() as int))
    } else {
        after_prefix(found.drop_first(), prefix)
    }
}

/// The rest of the first line of a text that starts with `prefix`, behind it.
pub fn line_after_prefix(text: &str, prefix: &str) -> (rest: Option<Vec<char>>)
    ensures
        match rest {
            Some(rest) => after_prefix(lines(text@), prefix@) == Some(rest@),
            None => after_prefix(lines(text@), prefix@) is None,
        },
{
    let chars = chars_of(text);
    let found = lines_of(chars.as_slice());
    let wanted = chars_of(prefix);
    let ghost all = texts(found@);
    let mut i: usize = 0;
    assert(all.skip(0) =~= all);
    while i < found.len()
        invariant
            i <= found@.len(),
            all == texts(found@),
            all == lines(text@),
            wanted@ == prefix@,
            after_prefix(all, prefix@) == after_prefix(all.skip(i as int), prefix@),
        decreases found@.len() - i,
    {
        let line = chars_of(found[i].as_str());
        proof {
            assert(all.skip(i as int)[0] == line@);
            assert(all.skip(i as int).drop_first() =~= all.skip(i + 1));
        }
        if has_prefix(line.as_slice(), prefix) {
            let total: usize = line.len();
            let cut: usize = wanted.len();
            assert(line@.subrange(cut as int, total as int) =~= line@.skip(cut as int));
            return Some(vstd::slice::slice_to_vec(slice_subrange(line.as_slice(), cut, total)));
        }
        i += 1;
    }
    None
}

// ---------------------------------------------------------------------------
// What these notions amount to
// ---------------------------------------------------------------------------

/// White space is what Unicode calls so: among the ASCII characters the tab, the line feed, the
/// vertical tab, the form feed, the carriage return and the blank.
pub proof fn law_white_space(c: char)
    ensures
        c <= '\u{7f}' ==> (is_white_space(c) <==> c == '\t' || c == '\n' || c == '\u{b}' || c
            == '\u{c}' || c == '\r' || c == ' '),
        c > '\u{7f}' ==> (is_white_space(c) <==> c == '\u{85}' || c == '\u{a0}' || c == '\u{1680}'
            || ('\u{2000}' <= c <= '\u{200a}') || c == '\u{2028}' || c == '\u{2029}' || c
            == '\u{202f}' || c == '\u{205f}' || c == '\u{3000}'),
{
}

/// A trimmed text is the text between its leading and its trailing white space: it starts and
/// ends with other characters, unless it is empty, and nothing but white space was left out.
pub proof fn law_trim(s: Seq<char>)
    ensures
        exists|i: int, j: int|
            {
                &&& 0 <= i <= j <= s.len()
                &&& trim(s) == #[trigger] s.subrange(i, j)
                &&& forall|k: int| 0 <= k < i ==> is_white_space(#[trigger] s[k])
                &&& forall|k: int| j <= k < s.len() ==> is_white_space(#[trigger] s[k])
                &&& i < j ==> !is_white_space(s[i]) && !is_white_space(s[j - 1])
            },
{
    let i = first_where(s, not_white());
    lemma_first_where(s, not_white());
    let t = trim_start(s);
    assert(t =~= s.skip(i));
    let last = last_where(t, not_white());
    lemma_last_where(t, not_white());
    let j = i + last + 1;
    assert(trim(s) =~= s.subrange(i, j));
    assert forall|k: int| 0 <= k < i implies is_white_space(#[trigger] s[k]) by {
        assert(!not_white()(s[k]));
    }
    assert forall|k: int| j <= k < s.len() implies is_white_space(#[trigger] s[k]) by {
        assert(t[k - i] == s[k]);
        assert(!not_white()(t[k - i]));
    }
    if i < j {
        assert(not_white()(s[i]));
        assert(t[last] == s[j - 1]);
    }
}

/// A text trims to nothing exactly if it holds nothing but white space.
pub proof fn law_blank_text(s: Seq<char>)
    ensures
        trim(s).len() == 0 <==> forall|k: int| 0 <= k < s.len() ==> is_white_space(#[trigger] s[k]),
{
    law_trim(s);
    let (i, j) = choose|i: int, j: int|
        {
            &&& 0 <= i <= j <= s.len()
            &&& trim(s) == #[trigger] s.subrange(i, j)
            &&& forall|k: int| 0 <= k < i ==> is_white_space(#[trigger] s[k])
            &&& forall|k: int| j <= k < s.len() ==> is_white_space(#[trigger] s[k])
            &&& i < j ==> !is_white_space(s[i]) && !is_white_space(s[j - 1])
        };
    if trim(s).len() == 0 {
        assert forall|k: int| 0 <= k < s.len() implies is_white_space(#[trigger] s[k]) by {
            assert(k < i || j <= k);
        }
    } else {
        assert(!is_white_space(s[i]));
    }
}

/// The words of a text are what stands between its white space: white space at the start adds
/// none, and a stretch without white space is a word of its own, up to the next white space or
/// the end.
pub proof fn law_words(word: Seq<char>, space: char, rest: Seq<char>)
    requires
        word.len() > 0,
        forall|k: int| 0 <= k < word.len() ==> !is_white_space(#[trigger] word[k]),
        is_white_space(space),
    ensures
        words(Seq::empty()) == Seq::<Seq<char>>::empty(),
        words(seq![space] + rest) == words(rest),
        words(word) == seq![word],
        words(word.push(space) + rest) == seq![word] + words(rest),
{
    let none = Seq::<char>::empty();
    lemma_trim_start(none);
    assert(trim_start(none) =~= none);
    let led = seq![space] + rest;
    lemma_first_where(rest, not_white());
    let n = first_where(rest, not_white());
    assert forall|k: int| 0 <= k < n + 1 implies !not_white()(#[trigger] led[k]) by {
        if k > 0 {
            assert(led[k] == rest[k - 1]);
        }
    }
    if n < rest.len() {
        assert(led[n + 1] == rest[n]);
    }
    lemma_first_where_is(led, not_white(), n + 1);
    assert(trim_start(led) =~= trim_start(rest));
    lemma_first_where_is(word, not_white(), 0);
    assert(trim_start(word) =~= word);
    lemma_first_where_is(word, white(), word.len() as int);
    assert(word.take(word.len() as int) =~= word);
    assert(word.skip(word.len() as int) =~= none);
    assert(words(none) =~= Seq::<Seq<char>>::empty());
    assert(words(word) == seq![trim_start(word).take(word.len() as int)] + words(
        trim_start(word).skip(word.len() as int),
    ));
    assert(words(word) =~= seq![word]);
    let whole = word.push(space) + rest;
    assert(whole[0] == word[0]);
    lemma_first_where_is(whole, not_white(), 0);
    assert(trim_start(whole) =~= whole);
    assert forall|k: int| 0 <= k < word.len() implies !white()(#[trigger] whole[k]) by {
        assert(whole[k] == word[k]);
    }
    assert(whole[word.len() as int] == space);
    lemma_first_where_is(whole, white(), word.len() as int);
    assert(whole.take(word.len() as int) =~= word);
    assert(whole.skip(word.len() as int) =~= led);
    assert(words(whole) == seq![trim_start(whole).take(word.len() as int)] + words(
        trim_start(whole).skip(word.len() as int),
    ));
    assert(words(led) == words(rest));
}

/// A text splits at each separator: a text without one is a single piece, and before a separator
/// ends a piece.
pub proof fn law_split(piece: Seq<char>, separator: char, rest: Seq<char>)
    requires
        forall|k: int| 0 <= k < piece.len() ==> #[trigger] piece[k] != separator,
    ensures
        split(piece, separator) == seq![piece],
        split(piece.push(separator) + rest, separator) == seq![piece] + split(rest, separator),
{
    lemma_first_where_is(piece, is_char(separator), piece.len() as int);
    let whole = piece.push(separator) + rest;
    let n = piece.len() as int;
    assert(whole[n] == separator);
    assert forall|k: int| 0 <= k < n implies !is_char(separator)(#[trigger] whole[k]) by {
        assert(whole[k] == piece[k]);
    }
    lemma_first_where_is(whole, is_char(separator), n);
    assert(whole.take(n) =~= piece);
    assert(whole.skip(n + 1) =~= rest);
}

/// A line ends at a line feed, and loses one carriage return before it; the last line needs no
/// line feed and keeps what it holds; there is no empty line behind a last line feed.
pub proof fn law_lines(line: Seq<char>, rest: Seq<char>)
    requires
        forall|k: int| 0 <= k < line.len() ==> #[trigger] line[k] != '\n',
    ensures
        lines(Seq::empty()) == Seq::<Seq<char>>::empty(),
        line.len() > 0 ==> lines(line) == seq![line],
        line.len() == 0 || line.last() != '\r' ==> lines(line.push('\n') + rest) == seq![line]
            + lines(rest),
        lines(line.push('\r').push('\n') + rest) == seq![line] + lines(rest),
{
    lemma_first_where_is(line, is_char('\n'), line.len() as int);
    let n = line.len() as int;
    let whole = line.push('\n') + rest;
    assert(whole[n] == '\n');
    assert forall|k: int| 0 <= k < n implies !is_char('\n')(#[trigger] whole[k]) by {
        assert(whole[k] == line[k]);
    }
    lemma_first_where_is(whole, is_char('\n'), n);
    assert(whole.take(n) =~= line);
    assert(whole.skip(n + 1) =~= rest);
    let long = line.push('\r').push('\n') + rest;
    assert(long[n + 1] == '\n');
    assert forall|k: int| 0 <= k < n + 1 implies !is_char('\n')(#[trigger] long[k]) by {
        if k < n {
            assert(long[k] == line[k]);
        }
    }
    lemma_first_where_is(long, is_char('\n'), n + 1);
    assert(long.take(n + 1) =~= line.push('\r'));
    assert(line.push('\r').drop_last() =~= line);
    assert(long.skip(n + 2) =~= rest);
}

/// Replacing goes character by character: the one that is replaced becomes the other text, and
/// any other stays.
pub proof fn law_replaced(s: Seq<char>, c: char, from: char, to: Seq<char>)
    ensures
        replaced(Seq::empty(), from, to) == Seq::<char>::empty(),
        replaced(s.push(from), from, to) == replaced(s, from, to) + to,
        c != from ==> replaced(s.push(c), from, to) == replaced(s, from, to).push(c),
{
    assert(s.push(from).drop_last() =~= s);
    assert(s.push(c).drop_last() =~= s);
    if c != from {
        assert(replaced(s.push(c), from, to) =~= replaced(s, from, to).push(c));
    }
}

/// Replacing in two texts one behind the other is replacing in each.
pub proof fn lemma_replaced_concat(a: Seq<char>, b: Seq<char>, from: char, to: Seq<char>)
    ensures
        replaced(a + b, from, to) == replaced(a, from, to) + replaced(b, from, to),
    decreases b.len(),
{
    if b.len() == 0 {
        assert(a + b =~= a);
        assert(replaced(a, from, to) + replaced(b, from, to) =~= replaced(a, from, to));
    } else {
        lemma_replaced_concat(a, b.drop_last(), from, to);
        assert((a + b).drop_last() =~= a + b.drop_last());
        assert(replaced(a + b, from, to) =~= replaced(a, from, to) + replaced(b, from, to));
    }
}

/// Joined texts stand one behind the other with the separator between each two, and nothing
/// before the first or behind the last.
pub proof fn law_joined(parts: Seq<Seq<char>>, part: Seq<char>, separator: Seq<char>)
    ensures
        joined(Seq::empty(), separator) == Seq::<char>::empty(),
        joined(seq![part], separator) == part,
        parts.len() > 0 ==> joined(parts.push(part), separator) == joined(parts, separator)
            + separator + part,
{
    assert(parts.push(part).drop_last() =~= parts);
}

/// What is left of a text without a character at its start, or without two at its end, does not
/// start with that one or end with those, and nothing else was left out.
pub proof fn law_stripped(s: Seq<char>, a: char, b: char)
    ensures
        exists|i: int|
            {
                &&& 0 <= i <= s.len()
                &&& without_leading(s, a) == #[trigger] s.skip(i)
                &&& forall|k: int| 0 <= k < i ==> #[trigger] s[k] == a
                &&& i < s.len() ==> s[i] != a
            },
        exists|j: int|
            {
                &&& 0 <= j <= s.len()
                &&& without_trailing(s, a, b) == #[trigger] s.take(j)
                &&& forall|k: int| j <= k < s.len() ==> #[trigger] s[k] == a || s[k] == b
                &&& j > 0 ==> s[j - 1] != a && s[j - 1] != b
            },
{
    let i = first_where(s, neither(a, a));
    lemma_first_where(s, neither(a, a));
    assert(without_leading(s, a) == s.skip(i));
    assert forall|k: int| 0 <= k < i implies #[trigger] s[k] == a by {
        assert(!neither(a, a)(s[k]));
    }
    let j = last_where(s, neither(a, b)) + 1;
    lemma_last_where(s, neither(a, b));
    assert(without_trailing(s, a, b) == s.take(j));
    assert forall|k: int| j <= k < s.len() implies #[trigger] s[k] == a || s[k] == b by {
        assert(!neither(a, b)(s[k]));
    }
}

/// The first line with a prefix is found, and what follows the prefix in it.
pub proof fn law_first_line_with_prefix(
    before: Seq<Seq<char>>,
    line: Seq<char>,
    behind: Seq<Seq<char>>,
    prefix: Seq<char>,
)
    requires
        forall|i: int| 0 <= i < before.len() ==> !prefix.is_prefix_of(#[trigger] before[i]),
    ensures
        after_prefix(before, prefix) is None,
        after_prefix(before + seq![prefix + line] + behind, prefix) == Some(line),
    decreases before.len(),
{
    let found = prefix + line;
    let all = before + seq![found] + behind;
    if before.len() == 0 {
        assert(all[0] == found);
        assert(found.subrange(0, prefix.len() as int) =~= prefix);
        assert(found.skip(prefix.len() as int) =~= line);
    } else {
        assert(!prefix.is_prefix_of(before[0]));
        assert forall|i: int| 0 <= i < before.drop_first().len() implies !prefix.is_prefix_of(
            #[trigger] before.drop_first()[i],
        ) by {
            assert(before.drop_first()[i] == before[i + 1]);
        }
        law_first_line_with_prefix(before.drop_first(), line, behind, prefix);
        assert(all[0] == before[0]);
        assert(all.drop_first() =~= before.drop_first() + seq![found] + behind);
    }
}

/// A letter and its capital have the same lower-case form, and any other character is its own.
pub proof fn law_ascii_lower(c: char)
    ensures
        'A' <= c <= 'Z' ==> ascii_lower(c) as u32 == c as u32 + 32,
        !('A' <= c <= 'Z') ==> ascii_lower(c) == c,
        ascii_lower(ascii_lower(c)) == ascii_lower(c),
        is_ascii_alphanumeric(c) <==> ('a' <= c <= 'z') || ('A' <= c <= 'Z') || ('0' <= c <= '9'),
{
}

/// Strings are taken one by one, each as its characters.
pub proof fn law_texts(strings: Seq<String>, i: int)
    ensures
        texts(strings).len() == strings.len(),
        0 <= i < strings.len() ==> texts(strings)[i] == strings[i]@,
{
}

/// A text starts with another if that stands at its front, and ends with it if at its end.
pub proof fn law_start_and_end(start: Seq<char>, s: Seq<char>, end: Seq<char>)
    ensures
        starts_with(start + s, start),
        ends_with(s + end, end),
        starts_with(s, start) ==> s.len() >= start.len() && s.take(start.len() as int) == start,
        ends_with(s, end) ==> s.len() >= end.len() && s.skip(s.len() - end.len()) == end,
{
    assert((start + s).subrange(0, start.len() as int) =~= start);
    assert((s + end).subrange(s.len() as int, (s + end).len() as int) =~= end);
    if starts_with(s, start) {
        assert(s.take(start.len() as int) =~= s.subrange(0, start.len() as int));
    }
    if ends_with(s, end) {
        assert(s.skip(s.len() - end.len()) =~= s.subrange(s.len() - end.len(), s.len() as int));
    }
}

} // verus!

//! Strings as sequences of characters: equality, UTF-8, and fields between separators.
use vstd::prelude::*;
use vstd::string::*;
use vstd::utf8::*;

verus! {

/// The characters of `s`, in order.
pub fn chars_of(s: &str) -> (v: Vec<char>)
    ensures
        v@ == s@,
{
    let mut v: Vec<char> = Vec::new();
    for c in it: s.chars()
        invariant
            v@ == it.seq().take(it.index()),
    {
        v.push(c);
    }
    v
}

/// Whether two strings hold the same characters.
pub fn str_eq(a: &str, b: &str) -> (r: bool)
    ensures
        r == (a@ == b@),
{
    let x = a.as_bytes();
    let y = b.as_bytes();
    proof {
        encode_utf8_decode_utf8(a@);
        encode_utf8_decode_utf8(b@);
    }
    if x.len() != y.len() {
        return false;
    }
    let mut i: usize = 0;
    while i < x.len()
        invariant
            i <= x.len(),
            x.len() == y.len(),
            x@ == encode_utf8(a@),
            y@ == encode_utf8(b@),
            forall|j: int| 0 <= j < i ==> x@[j] == y@[j],
        decreases x.len() - i,
    {
        if x[i] != y[i] {
            return false;
        }
        i += 1;
    }
    assert(x@ =~= y@);
    true
}

/// The text that `bytes` encode, where they are UTF-8.
pub open spec fn text_of(bytes: Seq<u8>) -> Option<Seq<char>> {
    if valid_utf8(bytes) {
        Some(decode_utf8(bytes))
    } else {
        None
    }
}

/// `core::str::from_utf8`: the bytes as a string slice where they are valid
/// UTF-8, and nothing where they are not. The slice returned is the input,
/// so its characters are those that the bytes encode.
#[verifier::external_body]
fn str_from_utf8(bytes: &[u8]) -> (r: Option<&str>)
    ensures
        r is Some <==> valid_utf8(bytes@),
        r matches Some(s) ==> s@ == decode_utf8(bytes@),
{
    core::str::from_utf8(bytes).ok()
}

/// Validates `bytes` as UTF-8 and returns them as an owned string.
pub fn decode_text(bytes: &[u8]) -> (r: Option<String>)
    ensures
        match (r, text_of(bytes@)) {
            (Some(s), Some(t)) => s@ == t,
            (None, None) => true,
            _ => false,
        },
{
    match str_from_utf8(bytes) {
        Some(s) => Some(s.to_owned()),
        None => None,
    }
}

/// The index of the first `c` in `s`, or the length of `s` where there is none.
pub open spec fn find_first<T>(s: Seq<T>, c: T) -> int
    decreases s.len(),
{
    if s.len() == 0 {
        0
    } else if s[0] == c {
        0
    } else {
        1 + find_first(s.skip(1), c)
    }
}

/// The fields of `s` between occurrences of `sep`: one more than there are
/// separators, each possibly empty.
pub open spec fn split_spec(s: Seq<char>, sep: char) -> Seq<Seq<char>>
    decreases s.len(),
{
    let i = find_first(s, sep);
    if 0 <= i < s.len() {
        seq![s.take(i)] + split_spec(s.skip(i + 1), sep)
    } else {
        seq![s]
    }
}

/// `find_first` is within bounds, passes over no `c`, and stops at one.
pub proof fn lemma_find_first<T>(s: Seq<T>, c: T)
    ensures
        0 <= find_first(s, c) <= s.len(),
        forall|j: int| 0 <= j < find_first(s, c) ==> s[j] != c,
        find_first(s, c) < s.len() ==> s[find_first(s, c)] == c,
    decreases s.len(),
{
    if s.len() > 0 && s[0] != c {
        lemma_find_first(s.skip(1), c);
        assert forall|j: int| 0 <= j < find_first(s, c) implies s[j] != c by {
            if j > 0 {
                assert(s[j] == s.skip(1)[j - 1]);
            }
        }
    }
}

/// The first position that holds `c` after a run without it is what `find_first` finds.
pub proof fn lemma_find_first_is<T>(s: Seq<T>, c: T, k: int)
    requires
        0 <= k <= s.len(),
        forall|j: int| 0 <= j < k ==> s[j] != c,
        k < s.len() ==> s[k] == c,
    ensures
        find_first(s, c) == k,
    decreases s.len(),
{
    if s.len() > 0 && k > 0 {
        assert(s[0] != c);
        assert forall|j: int| 0 <= j < k - 1 implies s.skip(1)[j] != c by {
            assert(s.skip(1)[j] == s[j + 1]);
        }
        lemma_find_first_is(s.skip(1), c, k - 1);
    }
}

/// The first position of `c` in `s`, or the length of `s` where there is none.
pub fn position_of_byte(s: &[u8], c: u8) -> (r: usize)
    ensures
        r == find_first(s@, c),
        r <= s@.len(),
        r < s@.len() ==> s@[r as int] == c,
        forall|j: int| 0 <= j < r ==> s@[j] != c,
{
    proof {
        lemma_find_first(s@, c);
    }
    let mut i: usize = 0;
    while i < s.len()
        invariant
            i <= s@.len(),
            forall|j: int| 0 <= j < i ==> s@[j] != c,
        decreases s.len() - i,
    {
        if s[i] == c {
            proof {
                lemma_find_first_is(s@, c, i as int);
            }
            return i;
        }
        i += 1;
    }
    proof {
        lemma_find_first_is(s@, c, i as int);
    }
    i
}

/// A string without a separator is its own single field.
pub proof fn lemma_split_single(field: Seq<char>, sep: char)
    requires
        forall|i: int| 0 <= i < field.len() ==> field[i] != sep,
    ensures
        split_spec(field, sep) == seq![field],
{
    lemma_find_first_is(field, sep, field.len() as int);
}

/// A field without a separator, a separator and a rest split into the field and the
/// fields of the rest.
pub proof fn lemma_split_first(field: Seq<char>, rest: Seq<char>, sep: char)
    requires
        forall|i: int| 0 <= i < field.len() ==> field[i] != sep,
    ensures
        split_spec(field + seq![sep] + rest, sep) == seq![field] + split_spec(rest, sep),
{
    let s = field + seq![sep] + rest;
    lemma_find_first_is(s, sep, field.len() as int);
    assert(s.take(field.len() as int) =~= field);
    assert(s.skip(field.len() as int + 1) =~= rest);
}

/// The first position of `c` in `s`, or the length of `s` where there is none.
pub fn position_of(s: &[char], c: char) -> (r: usize)
    ensures
        r == find_first(s@, c),
        r <= s@.len(),
        r < s@.len() ==> s@[r as int] == c,
        forall|j: int| 0 <= j < r ==> s@[j] != c,
{
    proof {
        lemma_find_first(s@, c);
    }
    let mut i: usize = 0;
    while i < s.len()
        invariant
            i <= s@.len(),
            forall|j: int| 0 <= j < i ==> s@[j] != c,
        decreases s.len() - i,
    {
        if s[i] == c {
            proof {
                lemma_find_first_is(s@, c, i as int);
            }
            return i;
        }
        i += 1;
    }
    proof {
        lemma_find_first_is(s@, c, i as int);
    }
    i
}

/// Whether `ranges` cut `fields` out of `chars`, one range for each field.
pub open spec fn ranges_cut(chars: Seq<char>, ranges: Seq<(usize, usize)>, fields: Seq<Seq<char>>) -> bool {
    &&& ranges.len() == fields.len()
    &&& forall|i: int|
        0 <= i < ranges.len() ==> {
            &&& (#[trigger] ranges[i]).0 <= ranges[i].1 <= chars.len()
            &&& chars.subrange(ranges[i].0 as int, ranges[i].1 as int) == fields[i]
        }
}

/// Splits `chars` at every `sep`; each range returned is one field.
pub fn split(chars: &[char], sep: char) -> (r: Vec<(usize, usize)>)
    ensures
        ranges_cut(chars@, r@, split_spec(chars@, sep)),
{
    let mut ranges: Vec<(usize, usize)> = Vec::new();
    let ghost mut done: Seq<Seq<char>> = Seq::empty();
    let mut start: usize = 0;
    let mut i: usize = 0;
    assert(chars@.skip(0) =~= chars@);
    while i < chars.len()
        invariant
            start <= i <= chars@.len(),
            forall|j: int| start <= j < i ==> chars@[j] != sep,
            ranges_cut(chars@, ranges@, done),
            split_spec(chars@, sep) == done + split_spec(chars@.skip(start as int), sep),
        decreases chars.len() - i,
    {
        if chars[i] == sep {
            proof {
                let rest = chars@.skip(start as int);
                lemma_find_first_is(rest, sep, i - start);
                assert(rest.take(i - start) =~= chars@.subrange(start as int, i as int));
                assert(rest.skip(i - start + 1) =~= chars@.skip(i + 1));
                assert(done + (seq![rest.take(i - start)] + split_spec(chars@.skip(i + 1), sep))
                    =~= done.push(rest.take(i - start)) + split_spec(chars@.skip(i + 1), sep));
                done = done.push(rest.take(i - start));
            }
            ranges.push((start, i));
            start = i + 1;
        }
        i += 1;
    }
    proof {
        let rest = chars@.skip(start as int);
        lemma_find_first_is(rest, sep, rest.len() as int);
        assert(rest =~= chars@.subrange(start as int, chars@.len() as int));
        assert(done + seq![rest] =~= done.push(rest));
        done = done.push(rest);
    }
    ranges.push((start, chars.len()));
    ranges
}

/// Whether `c` is white space: a space, a tab, a line break or another of the
/// characters that Unicode counts as white space.
pub open spec fn is_whitespace(c: char) -> bool {
    ||| c == ' '
    ||| ('\u{9}' <= c && c <= '\u{d}')
    ||| c == '\u{85}'
    ||| c == '\u{a0}'
    ||| c == '\u{1680}'
    ||| ('\u{2000}' <= c && c <= '\u{200a}')
    ||| c == '\u{2028}'
    ||| c == '\u{2029}'
    ||| c == '\u{202f}'
    ||| c == '\u{205f}'
    ||| c == '\u{3000}'
}

/// Whether `c` is white space.
pub fn whitespace(c: char) -> (r: bool)
    ensures
        r == is_whitespace(c),
{
    c == ' ' || (c >= '\u{9}' && c <= '\u{d}') || c == '\u{85}' || c == '\u{a0}' || c == '\u{1680}' || (c
        >= '\u{2000}' && c <= '\u{200a}') || c == '\u{2028}' || c == '\u{2029}' || c == '\u{202f}' || c
        == '\u{205f}' || c == '\u{3000}'
}

/// How many characters stand at the front of `s` before its first white space.
pub open spec fn word_len(s: Seq<char>) -> int
    decreases s.len(),
{
    if s.len() == 0 || is_whitespace(s[0]) {
        0
    } else {
        1 + word_len(s.skip(1))
    }
}

/// The words of `s`: the longest runs of characters that are not white space, in their
/// order. White space at the front, at the end and between the words is passed over,
/// however much there is of it.
pub open spec fn words(s: Seq<char>) -> Seq<Seq<char>>
    decreases s.len(),
{
    if s.len() == 0 {
        Seq::empty()
    } else if is_whitespace(s[0]) {
        words(s.skip(1))
    } else {
        let n = word_len(s);
        if 0 < n <= s.len() {
            seq![s.take(n)] + words(s.skip(n))
        } else {
            Seq::empty()
        }
    }
}

/// A run without white space that ends at white space or at the end is what
/// `word_len` measures.
pub proof fn lemma_word_len_is(s: Seq<char>, k: int)
    requires
        0 <= k <= s.len(),
        forall|j: int| 0 <= j < k ==> !is_whitespace(s[j]),
        k < s.len() ==> is_whitespace(s[k]),
    ensures
        word_len(s) == k,
    decreases s.len(),
{
    if k > 0 {
        assert(!is_whitespace(s[0]));
        assert forall|j: int| 0 <= j < k - 1 implies !is_whitespace(s.skip(1)[j]) by {
            assert(s.skip(1)[j] == s[j + 1]);
        }
        lemma_word_len_is(s.skip(1), k - 1);
    }
}

/// White space at the front adds no word.
pub proof fn lemma_words_after_blank(blank: Seq<char>, rest: Seq<char>)
    requires
        forall|j: int| 0 <= j < blank.len() ==> is_whitespace(blank[j]),
    ensures
        words(blank + rest) == words(rest),
    decreases blank.len(),
{
    if blank.len() == 0 {
        assert(blank + rest =~= rest);
    } else {
        let s = blank + rest;
        assert(is_whitespace(s[0])) by {
            assert(s[0] == blank[0]);
        }
        assert(s.skip(1) =~= blank.skip(1) + rest);
        assert forall|j: int| 0 <= j < blank.skip(1).len() implies is_whitespace(blank.skip(1)[j]) by {
            assert(blank.skip(1)[j] == blank[j + 1]);
        }
        lemma_words_after_blank(blank.skip(1), rest);
    }
}

/// A word at the front, which what follows does not lengthen, is the first word.
pub proof fn lemma_words_first(word: Seq<char>, rest: Seq<char>)
    requires
        word.len() > 0,
        forall|j: int| 0 <= j < word.len() ==> !is_whitespace(word[j]),
        rest.len() > 0 ==> is_whitespace(rest[0]),
    ensures
        words(word + rest) == seq![word] + words(rest),
{
    let s = word + rest;
    assert forall|j: int| 0 <= j < word.len() implies !is_whitespace(s[j]) by {
        assert(s[j] == word[j]);
    }
    if rest.len() > 0 {
        assert(s[word.len() as int] == rest[0]);
    }
    lemma_word_len_is(s, word.len() as int);
    assert(s.take(word.len() as int) =~= word);
    assert(s.skip(word.len() as int) =~= rest);
}

/// Cuts `chars` into its words; each range returned is one word.
pub fn split_words(chars: &[char]) -> (r: Vec<(usize, usize)>)
    ensures
        ranges_cut(chars@, r@, words(chars@)),
{
    let mut ranges: Vec<(usize, usize)> = Vec::new();
    let ghost mut done: Seq<Seq<char>> = Seq::empty();
    let mut i: usize = 0;
    assert(chars@.skip(0) =~= chars@);
    while i < chars.len()
        invariant
            i <= chars@.len(),
            ranges_cut(chars@, ranges@, done),
            words(chars@) == done + words(chars@.skip(i as int)),
        decreases chars.len() - i,
    {
        let ghost rest = chars@.skip(i as int);
        if whitespace(chars[i]) {
            assert(rest.skip(1) =~= chars@.skip(i + 1));
            i += 1;
        } else {
            let start = i;
            while i < chars.len() && !whitespace(chars[i])
                invariant
                    start <= i <= chars@.len(),
                    forall|j: int| start <= j < i ==> !is_whitespace(chars@[j]),
                decreases chars.len() - i,
            {
                i += 1;
            }
            proof {
                lemma_word_len_is(rest, i - start);
                assert(rest.take(i - start) =~= chars@.subrange(start as int, i as int));
                assert(rest.skip(i - start) =~= chars@.skip(i as int));
                assert(done + (seq![rest.take(i - start)] + words(chars@.skip(i as int))) =~= done.push(
                    rest.take(i - start),
                ) + words(chars@.skip(i as int)));
                done = done.push(rest.take(i - start));
            }
            ranges.push((start, i));
        }
    }
    assert(chars@.skip(i as int) =~= Seq::<char>::empty());
    assert(done + Seq::<Seq<char>>::empty() =~= done);
    ranges
}

} // verus!

//! Character sequences: classes of characters, trimming, searching, splitting and numbers.
//!
//! A text is modelled by the sequence of its characters. Executable functions work on `&[char]`
//! and are stated over the same sequences.
use vstd::prelude::*;
use vstd::slice::slice_subrange;

verus! {

/// `String::push` appends one character and leaves the rest of the text as it was.
pub assume_specification [ String::push ](string: &mut String, c: char)
    ensures
        final(string)@ == old(string)@.push(c),
;

// ---------------------------------------------------------------------------------------------
// Classes of characters

/// The characters with the Unicode property `White_Space`.
pub open spec fn is_space(c: char) -> bool {
    ||| '\u{9}' <= c && c <= '\u{d}'
    ||| c == ' '
    ||| c == '\u{85}'
    ||| c == '\u{a0}'
    ||| c == '\u{1680}'
    ||| '\u{2000}' <= c && c <= '\u{200a}'
    ||| c == '\u{2028}'
    ||| c == '\u{2029}'
    ||| c == '\u{202f}'
    ||| c == '\u{205f}'
    ||| c == '\u{3000}'
}

pub fn space(c: char) -> (r: bool)
    ensures
        r == is_space(c),
{
    ('\u{9}' <= c && c <= '\u{d}') || c == ' ' || c == '\u{85}' || c == '\u{a0}' || c
        == '\u{1680}' || ('\u{2000}' <= c && c <= '\u{200a}') || c == '\u{2028}' || c == '\u{2029}'
        || c == '\u{202f}' || c == '\u{205f}' || c == '\u{3000}'
}

/// The control characters of Unicode (general category `Cc`).
pub open spec fn is_control(c: char) -> bool {
    c <= '\u{1f}' || ('\u{7f}' <= c && c <= '\u{9f}')
}

pub fn control(c: char) -> (r: bool)
    ensures
        r == is_control(c),
{
    c <= '\u{1f}' || ('\u{7f}' <= c && c <= '\u{9f}')
}

pub open spec fn is_digit(c: char) -> bool {
    '0' <= c && c <= '9'
}

pub fn digit(c: char) -> (r: bool)
    ensures
        r == is_digit(c),
{
    '0' <= c && c <= '9'
}

/// An ASCII hexadecimal digit of either case.
pub open spec fn is_hex_digit(c: char) -> bool {
    is_digit(c) || ('a' <= c && c <= 'f') || ('A' <= c && c <= 'F')
}

pub fn hex_digit(c: char) -> (r: bool)
    ensures
        r == is_hex_digit(c),
{
    digit(c) || ('a' <= c && c <= 'f') || ('A' <= c && c <= 'F')
}

pub open spec fn is_ascii_alphanumeric(c: char) -> bool {
    is_digit(c) || ('a' <= c && c <= 'z') || ('A' <= c && c <= 'Z')
}

pub fn ascii_alphanumeric(c: char) -> (r: bool)
    ensures
        r == is_ascii_alphanumeric(c),
{
    digit(c) || ('a' <= c && c <= 'z') || ('A' <= c && c <= 'Z')
}

/// The lower-case form of an ASCII letter; any other character stays as it is.
pub open spec fn lower_char(c: char) -> char {
    if 'A' <= c && c <= 'Z' {
        ((c as u8) + 32) as u8 as char
    } else {
        c
    }
}

pub fn to_lower(c: char) -> (r: char)
    ensures
        r == lower_char(c),
{
    if 'A' <= c && c <= 'Z' {
        ((c as u8) + 32) as char
    } else {
        c
    }
}

/// A text with every ASCII letter in lower case.
pub open spec fn lower(s: Seq<char>) -> Seq<char> {
    Seq::new(s.len(), |i: int| lower_char(s[i]))
}

pub fn lowered(s: &[char]) -> (r: Vec<char>)
    ensures
        r@ == lower(s@),
{
    let mut out: Vec<char> = Vec::new();
    let mut i: usize = 0;
    while i < s.len()
        invariant
            i <= s@.len(),
            out@ == lower(s@).take(i as int),
        decreases s@.len() - i,
    {
        out.push(to_lower(s[i]));
        i += 1;
    }
    out
}

// ---------------------------------------------------------------------------------------------
// Texts and their characters

/// The characters of a text, in order.
pub fn chars_of(text: &str) -> (chars: Vec<char>)
    ensures
        chars@ == text@,
{
    let mut chars: Vec<char> = Vec::new();
    for c in it: text.chars()
        invariant
            chars@ == it.seq().take(it.index() as int),
            it.seq() == text@,
    {
        chars.push(c);
    }
    chars
}

/// The text made of the given characters.
pub fn text_of(chars: &[char]) -> (text: String)
    ensures
        text@ == chars@,
{
    let mut text = String::new();
    let mut i: usize = 0;
    while i < chars.len()
        invariant
            i <= chars@.len(),
            text@ == chars@.take(i as int),
        decreases chars@.len() - i,
    {
        text.push(chars[i]);
        i += 1;
    }
    text
}

/// Appends characters to a text.
pub fn append_chars(text: &mut String, chars: &[char])
    ensures
        final(text)@ == old(text)@ + chars@,
{
    let mut i: usize = 0;
    while i < chars.len()
        invariant
            i <= chars@.len(),
            text@ == old(text)@ + chars@.take(i as int),
        decreases chars@.len() - i,
    {
        text.push(chars[i]);
        i += 1;
    }
}

/// Whether two runs of characters are the same.
pub fn same_chars(a: &[char], b: &[char]) -> (r: bool)
    ensures
        r == (a@ == b@),
{
    if a.len() != b.len() {
        return false;
    }
    let mut i: usize = 0;
    while i < a.len()
        invariant
            i <= a@.len(),
            a@.len() == b@.len(),
            forall|j: int| 0 <= j < i ==> a@[j] == b@[j],
        decreases a@.len() - i,
    {
        if a[i] != b[i] {
            return false;
        }
        i += 1;
    }
    assert(a@ =~= b@);
    true
}

/// Whether a run of characters spells the given text.
pub fn spells(chars: &[char], text: &str) -> (r: bool)
    ensures
        r == (chars@ == text@),
{
    let other = chars_of(text);
    same_chars(chars, &other)
}

/// Whether two texts are the same.
pub fn same_text(a: &str, b: &str) -> (r: bool)
    ensures
        r == (a@ == b@),
{
    let left = chars_of(a);
    spells(&left, b)
}

/// Whether every character of a text satisfies a class.
pub open spec fn all_in(s: Seq<char>, class: spec_fn(char) -> bool) -> bool {
    forall|i: int| 0 <= i < s.len() ==> class(#[trigger] s[i])
}

pub fn all_digits(s: &[char]) -> (r: bool)
    ensures
        r == all_in(s@, |c: char| is_digit(c)),
{
    let mut i: usize = 0;
    while i < s.len()
        invariant
            i <= s@.len(),
            forall|j: int| 0 <= j < i ==> is_digit(#[trigger] s@[j]),
        decreases s@.len() - i,
    {
        if !digit(s[i]) {
            assert(!is_digit(s@[i as int]));
            return false;
        }
        i += 1;
    }
    true
}

// ---------------------------------------------------------------------------------------------
// Trimming

/// A text without its leading white space.
pub open spec fn trim_front(s: Seq<char>) -> Seq<char>
    decreases s.len(),
{
    if s.len() > 0 && is_space(s[0]) {
        trim_front(s.skip(1))
    } else {
        s
    }
}

/// A text without its trailing white space.
pub open spec fn trim_back(s: Seq<char>) -> Seq<char>
    decreases s.len(),
{
    if s.len() > 0 && is_space(s.last()) {
        trim_back(s.drop_last())
    } else {
        s
    }
}

/// A text without white space at either end.
pub open spec fn trim(s: Seq<char>) -> Seq<char> {
    trim_back(trim_front(s))
}

pub fn trimmed_front(s: &[char]) -> (r: &[char])
    ensures
        r@ == trim_front(s@),
{
    let mut i: usize = 0;
    assert(s@.skip(0) =~= s@);
    while i < s.len() && space(s[i])
        invariant
            i <= s@.len(),
            trim_front(s@) == trim_front(s@.skip(i as int)),
        decreases s@.len() - i,
    {
        assert(s@.skip(i as int).skip(1) =~= s@.skip(i + 1));
        i += 1;
    }
    let r = slice_subrange(s, i, s.len());
    assert(r@ =~= s@.skip(i as int));
    r
}

pub fn trimmed_back(s: &[char]) -> (r: &[char])
    ensures
        r@ == trim_back(s@),
{
    let mut n: usize = s.len();
    assert(s@.take(n as int) =~= s@);
    while n > 0 && space(s[n - 1])
        invariant
            n <= s@.len(),
            trim_back(s@) == trim_back(s@.take(n as int)),
        decreases n,
    {
        assert(s@.take(n as int).drop_last() =~= s@.take(n - 1));
        n -= 1;
    }
    let r = slice_subrange(s, 0, n);
    assert(r@ =~= s@.take(n as int));
    r
}

pub fn trimmed(s: &[char]) -> (r: &[char])
    ensures
        r@ == trim(s@),
{
    trimmed_back(trimmed_front(s))
}

/// What `trim_front` leaves is a suffix that does not begin with white space.
pub proof fn lemma_trim_front(s: Seq<char>)
    ensures
        trim_front(s).len() <= s.len(),
        trim_front(s) == s.skip(s.len() - trim_front(s).len()),
        trim_front(s).len() > 0 ==> !is_space(trim_front(s)[0]),
        forall|i: int|
            0 <= i < s.len() - trim_front(s).len() ==> is_space(#[trigger] s[i]),
    decreases s.len(),
{
    if s.len() > 0 && is_space(s[0]) {
        lemma_trim_front(s.skip(1));
        let t = trim_front(s);
        assert(s.skip(1).skip(s.skip(1).len() - t.len()) =~= s.skip(s.len() - t.len()));
        assert forall|i: int| 0 <= i < s.len() - t.len() implies is_space(#[trigger] s[i]) by {
            if i > 0 {
                assert(s[i] == s.skip(1)[i - 1]);
            }
        }
    } else {
        assert(s.skip(0) =~= s);
    }
}

/// What `trim_back` leaves is a prefix that does not end with white space.
pub proof fn lemma_trim_back(s: Seq<char>)
    ensures
        trim_back(s).len() <= s.len(),
        trim_back(s) == s.take(trim_back(s).len() as int),
        trim_back(s).len() > 0 ==> !is_space(trim_back(s).last()),
    decreases s.len(),
{
    if s.len() > 0 && is_space(s.last()) {
        lemma_trim_back(s.drop_last());
        let t = trim_back(s);
        assert(s.drop_last().take(t.len() as int) =~= s.take(t.len() as int));
    } else {
        assert(s.take(s.len() as int) =~= s);
    }
}

/// A text with no white space at its ends is its own trimmed form.
pub proof fn lemma_trim_fixed(s: Seq<char>)
    requires
        s.len() > 0 ==> !is_space(s[0]) && !is_space(s.last()),
    ensures
        trim(s) == s,
{
}

/// Trimming leaves no white space at either end.
pub proof fn lemma_trim_ends(s: Seq<char>)
    ensures
        trim(s).len() <= s.len(),
        trim(s).len() > 0 ==> !is_space(trim(s)[0]) && !is_space(trim(s).last()),
        forall|i: int| 0 <= i < trim(s).len() ==> s.contains(#[trigger] trim(s)[i]),
{
    lemma_trim_front(s);
    lemma_trim_back(trim_front(s));
    let f = trim_front(s);
    let t = trim(s);
    assert forall|i: int| 0 <= i < t.len() implies s.contains(#[trigger] t[i]) by {
        assert(t[i] == f[i]);
        assert(f[i] == s[s.len() - f.len() + i]);
    }
}

/// White space around a text that does not begin or end with white space is trimmed away.
pub proof fn lemma_trim_padding(front: Seq<char>, s: Seq<char>, back: Seq<char>)
    requires
        all_in(front, |c: char| is_space(c)),
        all_in(back, |c: char| is_space(c)),
        s.len() > 0 ==> !is_space(s[0]) && !is_space(s.last()),
    ensures
        trim(front + s + back) == s,
    decreases front.len() + back.len(),
{
    let whole = front + s + back;
    if front.len() > 0 {
        assert(is_space(front[0]));
        assert(whole[0] == front[0]);
        let rest = front.skip(1);
        assert forall|i: int| 0 <= i < rest.len() implies is_space(#[trigger] rest[i]) by {
            assert(is_space(front[i + 1]));
        }
        assert(whole.skip(1) =~= rest + s + back);
        lemma_trim_padding(rest, s, back);
    } else if s.len() == 0 {
        assert(whole =~= back);
        lemma_trim_blank(back);
    } else if back.len() > 0 {
        assert(is_space(back[back.len() - 1]));
        assert(whole.last() == back.last());
        assert(whole[0] == s[0]);
        let rest = back.drop_last();
        assert forall|i: int| 0 <= i < rest.len() implies is_space(#[trigger] rest[i]) by {
            assert(is_space(back[i]));
        }
        assert(whole.drop_last() =~= front + s + rest);
        assert((front + s + rest)[0] == s[0]);
        lemma_trim_padding(front, s, rest);
        assert(trim_front(whole) == whole);
        assert(trim_front(front + s + rest) == front + s + rest);
    } else {
        assert(whole =~= s);
        lemma_trim_fixed(s);
    }
}

/// A text of white space alone is trimmed to nothing.
pub proof fn lemma_trim_blank(s: Seq<char>)
    requires
        all_in(s, |c: char| is_space(c)),
    ensures
        trim(s) == Seq::<char>::empty(),
    decreases s.len(),
{
    if s.len() > 0 {
        assert(is_space(s[0]));
        let rest = s.skip(1);
        assert forall|i: int| 0 <= i < rest.len() implies is_space(#[trigger] rest[i]) by {
            assert(is_space(s[i + 1]));
        }
        lemma_trim_blank(rest);
        assert(trim_front(s) == trim_front(rest));
    } else {
        assert(s =~= Seq::<char>::empty());
    }
}

/// Trimming twice is the same as trimming once.
pub proof fn law_trim_is_idempotent(s: Seq<char>)
    ensures
        trim(trim(s)) == trim(s),
{
    lemma_trim_ends(s);
    lemma_trim_fixed(trim(s));
}

// ---------------------------------------------------------------------------------------------
// Searching

/// Where `c` first stands in `s`, at `start` or later.
pub open spec fn index_from(s: Seq<char>, c: char, start: int) -> Option<int>
    decreases s.len() - start,
{
    if start >= s.len() {
        None
    } else if s[start] == c {
        Some(start)
    } else {
        index_from(s, c, start + 1)
    }
}

/// Where `c` first stands in `s`.
pub open spec fn first_index(s: Seq<char>, c: char) -> Option<int> {
    index_from(s, c, 0)
}

/// Where `c` last stands in `s`.
pub open spec fn last_index(s: Seq<char>, c: char) -> Option<int>
    decreases s.len(),
{
    if s.len() == 0 {
        None
    } else if s.last() == c {
        Some(s.len() - 1)
    } else {
        last_index(s.drop_last(), c)
    }
}

pub proof fn lemma_index_from(s: Seq<char>, c: char, start: int)
    requires
        0 <= start,
    ensures
        match index_from(s, c, start) {
            Some(i) => start <= i < s.len() && s[i] == c && forall|j: int|
                start <= j < i ==> #[trigger] s[j] != c,
            None => forall|j: int| start <= j < s.len() ==> #[trigger] s[j] != c,
        },
    decreases s.len() - start,
{
    if start < s.len() && s[start] != c {
        lemma_index_from(s, c, start + 1);
    }
}

pub proof fn lemma_last_index(s: Seq<char>, c: char)
    ensures
        match last_index(s, c) {
            Some(i) => 0 <= i < s.len() && s[i] == c && forall|j: int|
                i < j < s.len() ==> #[trigger] s[j] != c,
            None => forall|j: int| 0 <= j < s.len() ==> #[trigger] s[j] != c,
        },
    decreases s.len(),
{
    if s.len() > 0 && s.last() != c {
        lemma_last_index(s.drop_last(), c);
        assert forall|j: int| 0 <= j < s.len() - 1 implies #[trigger] s[j] == s.drop_last()[j] by {}
    }
}

/// The first place of `c` is the only place before which `c` does not stand.
pub proof fn lemma_first_index_is(s: Seq<char>, c: char, at: int)
    requires
        0 <= at < s.len(),
        s[at] == c,
        forall|j: int| 0 <= j < at ==> #[trigger] s[j] != c,
    ensures
        first_index(s, c) == Some(at),
{
    lemma_index_from(s, c, 0);
}

/// The last place of `c` is the only place after which `c` does not stand.
pub proof fn lemma_last_index_is(s: Seq<char>, c: char, at: int)
    requires
        0 <= at < s.len(),
        s[at] == c,
        forall|j: int| at < j < s.len() ==> #[trigger] s[j] != c,
    ensures
        last_index(s, c) == Some(at),
{
    lemma_last_index(s, c);
}

pub fn position_of(s: &[char], c: char) -> (r: Option<usize>)
    ensures
        match r {
            Some(i) => first_index(s@, c) == Some(i as int),
            None => first_index(s@, c) is None,
        },
{
    let mut i: usize = 0;
    while i < s.len()
        invariant
            i <= s@.len(),
            first_index(s@, c) == index_from(s@, c, i as int),
        decreases s@.len() - i,
    {
        if s[i] == c {
            return Some(i);
        }
        i += 1;
    }
    None
}

pub fn last_position_of(s: &[char], c: char) -> (r: Option<usize>)
    ensures
        match r {
            Some(i) => last_index(s@, c) == Some(i as int) && i < s@.len(),
            None => last_index(s@, c) is None,
        },
{
    let mut n: usize = s.len();
    assert(s@.take(n as int) =~= s@);
    while n > 0
        invariant
            n <= s@.len(),
            last_index(s@, c) == last_index(s@.take(n as int), c),
        decreases n,
    {
        if s[n - 1] == c {
            return Some(n - 1);
        }
        assert(s@.take(n as int).drop_last() =~= s@.take(n - 1));
        n -= 1;
    }
    None
}

/// Whether `pattern` stands in `s` at position `at`.
pub open spec fn occurs_at(s: Seq<char>, pattern: Seq<char>, at: int) -> bool {
    0 <= at && at + pattern.len() <= s.len() && s.subrange(at, at + pattern.len()) == pattern
}

/// Whether `pattern` stands anywhere in `s`.
pub open spec fn has_text(s: Seq<char>, pattern: Seq<char>) -> bool {
    exists|at: int| occurs_at(s, pattern, at)
}

/// Where `pattern` first stands in `s`, at `start` or later.
pub open spec fn find_from(s: Seq<char>, pattern: Seq<char>, start: int) -> Option<int>
    decreases s.len() - start,
{
    if start + pattern.len() > s.len() {
        None
    } else if occurs_at(s, pattern, start) {
        Some(start)
    } else if start >= s.len() {
        None
    } else {
        find_from(s, pattern, start + 1)
    }
}

/// Where `pattern` first stands in `s`.
pub open spec fn find_text(s: Seq<char>, pattern: Seq<char>) -> Option<int> {
    find_from(s, pattern, 0)
}

pub proof fn lemma_find_from(s: Seq<char>, pattern: Seq<char>, start: int)
    requires
        0 <= start,
    ensures
        match find_from(s, pattern, start) {
            Some(i) => start <= i && occurs_at(s, pattern, i) && forall|j: int|
                start <= j < i ==> !(#[trigger] occurs_at(s, pattern, j)),
            None => forall|j: int| start <= j ==> !(#[trigger] occurs_at(s, pattern, j)),
        },
    decreases s.len() - start,
{
    if start + pattern.len() <= s.len() && !occurs_at(s, pattern, start) && start < s.len() {
        lemma_find_from(s, pattern, start + 1);
    }
}

/// The search finds a place exactly where the text has the pattern, and the first one.
pub proof fn lemma_find_text(s: Seq<char>, pattern: Seq<char>)
    ensures
        has_text(s, pattern) <==> find_text(s, pattern) is Some,
        find_text(s, pattern) matches Some(i) ==> occurs_at(s, pattern, i) && forall|j: int|
            0 <= j < i ==> !(#[trigger] occurs_at(s, pattern, j)),
{
    lemma_find_from(s, pattern, 0);
}

fn matches_at(s: &[char], pattern: &[char], at: usize) -> (r: bool)
    requires
        at + pattern@.len() <= s@.len(),
    ensures
        r == occurs_at(s@, pattern@, at as int),
{
    let total: usize = s.len();
    assert(at + pattern@.len() <= total);
    same_chars(slice_subrange(s, at, at + pattern.len()), pattern)
}

pub fn position_of_text(s: &[char], pattern: &[char]) -> (r: Option<usize>)
    ensures
        match r {
            Some(i) => find_text(s@, pattern@) == Some(i as int) && i + pattern@.len() <= s@.len(),
            None => find_text(s@, pattern@) is None,
        },
{
    if pattern.len() > s.len() {
        return None;
    }
    let last: usize = s.len() - pattern.len();
    let mut i: usize = 0;
    while i < last
        invariant
            i <= last,
            last == s@.len() - pattern@.len(),
            find_text(s@, pattern@) == find_from(s@, pattern@, i as int),
        decreases last - i,
    {
        if matches_at(s, pattern, i) {
            return Some(i);
        }
        i += 1;
    }
    if matches_at(s, pattern, last) {
        return Some(last);
    }
    assert(find_from(s@, pattern@, last + 1) is None);
    None
}

pub fn includes(s: &[char], pattern: &[char]) -> (r: bool)
    ensures
        r == has_text(s@, pattern@),
{
    proof {
        lemma_find_text(s@, pattern@);
    }
    position_of_text(s, pattern).is_some()
}

/// A text with the first occurrence of `from` replaced by `to`.
pub open spec fn replace_first(s: Seq<char>, from: Seq<char>, to: Seq<char>) -> Seq<char> {
    match find_text(s, from) {
        Some(i) => s.take(i) + to + s.skip(i + from.len()),
        None => s,
    }
}

pub fn replaced_first(s: &[char], from: &[char], to: &[char]) -> (r: Vec<char>)
    ensures
        r@ == replace_first(s@, from@, to@),
{
    let mut out: Vec<char> = Vec::new();
    match position_of_text(s, from) {
        Some(i) => {
            let total: usize = s.len();
            assert(i + from@.len() <= total);
            push_all(&mut out, slice_subrange(s, 0, i));
            push_all(&mut out, to);
            push_all(&mut out, slice_subrange(s, i + from.len(), s.len()));
            assert(out@ =~= replace_first(s@, from@, to@));
        },
        None => {
            push_all(&mut out, s);
            assert(out@ =~= s@);
        },
    }
    out
}

/// Appends characters to a run of characters.
pub fn push_all(out: &mut Vec<char>, more: &[char])
    ensures
        final(out)@ == old(out)@ + more@,
{
    let mut i: usize = 0;
    while i < more.len()
        invariant
            i <= more@.len(),
            out@ == old(out)@ + more@.take(i as int),
        decreases more@.len() - i,
    {
        out.push(more[i]);
        i += 1;
    }
}

pub open spec fn begins_with(s: Seq<char>, prefix: Seq<char>) -> bool {
    occurs_at(s, prefix, 0)
}

pub open spec fn finishes_with(s: Seq<char>, suffix: Seq<char>) -> bool {
    occurs_at(s, suffix, s.len() - suffix.len())
}

pub fn starts_with(s: &[char], prefix: &[char]) -> (r: bool)
    ensures
        r == begins_with(s@, prefix@),
{
    prefix.len() <= s.len() && matches_at(s, prefix, 0)
}

pub fn ends_with(s: &[char], suffix: &[char]) -> (r: bool)
    ensures
        r == finishes_with(s@, suffix@),
{
    suffix.len() <= s.len() && matches_at(s, suffix, s.len() - suffix.len())
}

// ---------------------------------------------------------------------------------------------
// Splitting

/// The pieces of a text between the occurrences of `c`.
pub open spec fn split(s: Seq<char>, c: char) -> Seq<Seq<char>>
    decreases s.len(),
{
    match first_index(s, c) {
        Some(i) => if 0 <= i < s.len() {
            seq![s.take(i)] + split(s.skip(i + 1), c)
        } else {
            seq![s]
        },
        None => seq![s],
    }
}

/// How many characters stand before the first white space.
pub open spec fn word_length(s: Seq<char>) -> nat
    decreases s.len(),
{
    if s.len() == 0 || is_space(s[0]) {
        0
    } else {
        1 + word_length(s.skip(1))
    }
}

/// The words of a text: its longest runs without white space.
pub open spec fn words(s: Seq<char>) -> Seq<Seq<char>>
    decreases s.len(),
{
    let t = trim_front(s);
    proof {
        lemma_trim_front(s);
        lemma_word_length(t);
    }
    if t.len() == 0 || word_length(t) == 0 {
        seq![]
    } else {
        seq![t.take(word_length(t) as int)] + words(t.skip(word_length(t) as int))
    }
}

pub proof fn lemma_word_length(s: Seq<char>)
    ensures
        word_length(s) <= s.len(),
        forall|i: int| 0 <= i < word_length(s) ==> !is_space(#[trigger] s[i]),
        word_length(s) < s.len() ==> is_space(s[word_length(s) as int]),
    decreases s.len(),
{
    if s.len() > 0 && !is_space(s[0]) {
        lemma_word_length(s.skip(1));
        assert forall|i: int| 0 <= i < word_length(s) implies !is_space(#[trigger] s[i]) by {
            if i > 0 {
                assert(s[i] == s.skip(1)[i - 1]);
            }
        }
    }
}

/// The word length is the place of the first white space.
pub proof fn lemma_word_length_is(s: Seq<char>, n: nat)
    requires
        n <= s.len(),
        forall|i: int| 0 <= i < n ==> !is_space(#[trigger] s[i]),
        n < s.len() ==> is_space(s[n as int]),
    ensures
        word_length(s) == n,
{
    lemma_word_length(s);
}

/// The first word of a text ends where its white space begins.
pub proof fn lemma_words_first(word: Seq<char>, rest: Seq<char>)
    requires
        word.len() > 0,
        all_in(word, |c: char| !is_space(c)),
        rest.len() > 0 ==> is_space(rest[0]),
    ensures
        words(word + rest) == seq![word] + words(rest),
{
    let s = word + rest;
    assert(!is_space(word[0]));
    assert(trim_front(s) == s);
    assert forall|i: int| 0 <= i < word.len() implies !is_space(#[trigger] s[i]) by {
        assert(!is_space(word[i]));
    }
    lemma_word_length_is(s, word.len());
    assert(s.take(word.len() as int) =~= word);
    assert(s.skip(word.len() as int) =~= rest);
}

/// White space in front of the first word does not count.
pub proof fn lemma_words_space(c: char, rest: Seq<char>)
    requires
        is_space(c),
    ensures
        words(seq![c] + rest) == words(rest),
{
    let s = seq![c] + rest;
    assert(s.skip(1) =~= rest);
    assert(trim_front(s) == trim_front(rest));
}

pub fn split_words(s: &[char]) -> (r: Vec<Vec<char>>)
    ensures
        r@.len() == words(s@).len(),
        forall|i: int| 0 <= i < r@.len() ==> (#[trigger] r@[i])@ == words(s@)[i],
{
    let mut out: Vec<Vec<char>> = Vec::new();
    let mut rest: &[char] = s;
    let ghost mut done: Seq<Seq<char>> = seq![];
    assert(done + words(s@) =~= words(s@));
    loop
        invariant_except_break
            words(s@) == done + words(rest@),
            out@.len() == done.len(),
            forall|i: int| 0 <= i < out@.len() ==> (#[trigger] out@[i])@ == done[i],
        ensures
            words(s@) == done,
            out@.len() == done.len(),
            forall|i: int| 0 <= i < out@.len() ==> (#[trigger] out@[i])@ == done[i],
        decreases rest@.len(),
    {
        let t = trimmed_front(rest);
        proof {
            lemma_trim_front(rest@);
            lemma_word_length(t@);
        }
        if t.len() == 0 {
            assert(done + words(rest@) =~= done);
            break;
        }
        let mut n: usize = 0;
        while n < t.len() && !space(t[n])
            invariant
                n <= t@.len(),
                forall|i: int| 0 <= i < n ==> !is_space(#[trigger] t@[i]),
            decreases t@.len() - n,
        {
            n += 1;
        }
        proof {
            lemma_word_length_is(t@, n as nat);
        }
        let mut word: Vec<char> = Vec::new();
        push_all(&mut word, slice_subrange(t, 0, n));
        assert(word@ =~= t@.take(n as int));
        let next = slice_subrange(t, n, t.len());
        proof {
            assert(next@ =~= t@.skip(n as int));
            let head = seq![t@.take(n as int)];
            assert(words(rest@) == head + words(next@));
            assert(done + (head + words(next@)) =~= done.push(word@) + words(next@));
            done = done.push(word@);
        }
        out.push(word);
        rest = next;
    }
    out
}

pub fn split_on(s: &[char], c: char) -> (r: Vec<Vec<char>>)
    ensures
        r@.len() == split(s@, c).len(),
        forall|i: int| 0 <= i < r@.len() ==> (#[trigger] r@[i])@ == split(s@, c)[i],
{
    let mut out: Vec<Vec<char>> = Vec::new();
    let mut rest: &[char] = s;
    let ghost mut done: Seq<Seq<char>> = seq![];
    assert(done + split(s@, c) =~= split(s@, c));
    loop
        invariant_except_break
            split(s@, c) == done + split(rest@, c),
            out@.len() == done.len(),
            forall|i: int| 0 <= i < out@.len() ==> (#[trigger] out@[i])@ == done[i],
        ensures
            split(s@, c) == done,
            out@.len() == done.len(),
            forall|i: int| 0 <= i < out@.len() ==> (#[trigger] out@[i])@ == done[i],
        decreases rest@.len(),
    {
        proof {
            lemma_index_from(rest@, c, 0);
        }
        let mut piece: Vec<char> = Vec::new();
        match position_of(rest, c) {
            Some(i) => {
                let total: usize = rest.len();
                assert(i < total);
                push_all(&mut piece, slice_subrange(rest, 0, i));
                assert(piece@ =~= rest@.take(i as int));
                let next = slice_subrange(rest, i + 1, rest.len());
                proof {
                    assert(next@ =~= rest@.skip(i + 1));
                    assert(done + (seq![piece@] + split(next@, c)) =~= done.push(piece@) + split(
                        next@,
                        c,
                    ));
                    done = done.push(piece@);
                }
                out.push(piece);
                rest = next;
            },
            None => {
                push_all(&mut piece, rest);
                assert(piece@ =~= rest@);
                proof {
                    assert(done + seq![rest@] =~= done.push(piece@));
                    done = done.push(piece@);
                }
                out.push(piece);
                break;
            },
        }
    }
    out
}

/// A text without the separator is its own single piece.
pub proof fn lemma_split_single(s: Seq<char>, c: char)
    requires
        !s.contains(c),
    ensures
        split(s, c) == seq![s],
{
    lemma_index_from(s, c, 0);
}

// ---------------------------------------------------------------------------------------------
// Numbers

pub open spec fn digit_char(d: nat) -> char {
    ((48 + d) as u8) as char
}

/// The decimal digits of a number, without leading zeros.
pub open spec fn decimal(n: nat) -> Seq<char>
    decreases n,
{
    if n < 10 {
        seq![digit_char(n)]
    } else {
        decimal(n / 10).push(digit_char(n % 10))
    }
}

pub fn decimal_text(n: u128) -> (r: String)
    ensures
        r@ == decimal(n as nat),
    decreases n,
{
    if n < 10 {
        let mut text = String::new();
        text.push((48u8 + (n as u8)) as char);
        assert(text@ =~= decimal(n as nat));
        text
    } else {
        let mut text = decimal_text(n / 10);
        text.push((48u8 + ((n % 10) as u8)) as char);
        text
    }
}

/// The number that a run of decimal digits stands for.
pub open spec fn digits_value(s: Seq<char>) -> nat
    decreases s.len(),
{
    if s.len() == 0 {
        0
    } else {
        (digits_value(s.drop_last()) * 10 + (s.last() as int - 48)) as nat
    }
}

/// The digits of a number's text: one leading plus sign is allowed.
pub open spec fn unsigned_digits(s: Seq<char>) -> Seq<char> {
    if s.len() > 0 && s[0] == '+' {
        s.skip(1)
    } else {
        s
    }
}

/// The number that a text stands for: one or more decimal digits, after at most one plus sign,
/// whose value is at most `max`.
pub open spec fn parse_number(s: Seq<char>, max: nat) -> Option<nat> {
    let digits = unsigned_digits(s);
    if digits.len() > 0 && all_in(digits, |c: char| is_digit(c)) && digits_value(digits) <= max {
        Some(digits_value(digits))
    } else {
        None
    }
}

/// The digits at the front of a text.
pub open spec fn leading_digits(s: Seq<char>) -> Seq<char>
    decreases s.len(),
{
    if s.len() == 0 || !is_digit(s[0]) {
        seq![]
    } else {
        seq![s[0]] + leading_digits(s.skip(1))
    }
}

/// Why a text stands for no number of at most `max`: it is empty, its digits get too large, or
/// something in it is no digit.
pub open spec fn number_problem(s: Seq<char>, max: nat) -> Seq<char> {
    if s.len() == 0 {
        "cannot parse integer from empty string"@
    } else if digits_value(leading_digits(unsigned_digits(s))) > max {
        "number too large to fit in target type"@
    } else {
        "invalid digit found in string"@
    }
}

/// Tells why a text stands for no number of at most `max`.
pub fn number_problem_of(s: &[char], max: u64) -> (r: &'static str)
    ensures
        r@ == number_problem(s@, max as nat),
{
    if s.len() == 0 {
        return "cannot parse integer from empty string";
    }
    let body = if s[0] == '+' {
        slice_subrange(s, 1, s.len())
    } else {
        s
    };
    assert(body@ =~= unsigned_digits(s@));
    let mut n: usize = 0;
    assert(body@.skip(0) =~= body@);
    assert(body@.take(0) + leading_digits(body@) =~= leading_digits(body@));
    while n < body.len() && digit(body[n])
        invariant
            n <= body@.len(),
            all_in(body@.take(n as int), |c: char| is_digit(c)),
            leading_digits(body@) == body@.take(n as int) + leading_digits(body@.skip(n as int)),
        decreases body@.len() - n,
    {
        proof {
            let rest = body@.skip(n as int);
            assert(rest.skip(1) =~= body@.skip(n + 1));
            assert(body@.take(n as int) + (seq![rest[0]] + leading_digits(rest.skip(1)))
                =~= body@.take(n + 1) + leading_digits(rest.skip(1)));
        }
        n += 1;
    }
    let front = slice_subrange(body, 0, n);
    proof {
        assert(front@ =~= body@.take(n as int));
        assert(leading_digits(body@.skip(n as int)) =~= seq![]);
        assert(leading_digits(body@) =~= front@);
    }
    if n == 0 {
        return "invalid digit found in string";
    }
    assert(is_digit(front@[0]));
    match number_of(front, max) {
        None => "number too large to fit in target type",
        Some(_) => "invalid digit found in string",
    }
}

pub proof fn lemma_digits_value_grows(s: Seq<char>, n: int)
    requires
        0 <= n <= s.len(),
        all_in(s, |c: char| is_digit(c)),
    ensures
        digits_value(s.take(n)) <= digits_value(s),
    decreases s.len(),
{
    if n == s.len() {
        assert(s.take(n) =~= s);
    } else {
        assert(is_digit(s[s.len() - 1]));
        assert(s.drop_last().take(n) =~= s.take(n));
        assert forall|i: int| 0 <= i < s.len() - 1 implies is_digit(
            #[trigger] s.drop_last()[i],
        ) by {
            assert(is_digit(s[i]));
        }
        lemma_digits_value_grows(s.drop_last(), n);
    }
}

pub fn number_of(s: &[char], max: u64) -> (r: Option<u64>)
    ensures
        match r {
            Some(n) => parse_number(s@, max as nat) == Some(n as nat),
            None => parse_number(s@, max as nat) is None,
        },
{
    let digits = if s.len() > 0 && s[0] == '+' {
        slice_subrange(s, 1, s.len())
    } else {
        s
    };
    assert(digits@ =~= unsigned_digits(s@));
    if digits.len() == 0 || !all_digits(digits) {
        return None;
    }
    let mut value: u64 = 0;
    let mut i: usize = 0;
    while i < digits.len()
        invariant
            i <= digits@.len(),
            digits@ == unsigned_digits(s@),
            digits@.len() > 0,
            all_in(digits@, |c: char| is_digit(c)),
            value == digits_value(digits@.take(i as int)),
            value <= max,
        decreases digits@.len() - i,
    {
        assert(is_digit(digits@[i as int]));
        let d: u64 = ((digits[i] as u8) - 48u8) as u64;
        proof {
            assert(digits@.take(i + 1).drop_last() =~= digits@.take(i as int));
            assert(digits_value(digits@.take(i + 1)) == value * 10 + d);
            lemma_digits_value_grows(digits@, i + 1);
        }
        if value > max / 10 || d > max || value * 10 > max - d {
            return None;
        }
        value = value * 10 + d;
        i += 1;
    }
    assert(digits@.take(i as int) =~= digits@);
    Some(value)
}

/// The decimal text of a number is made of digits and is not empty.
pub proof fn lemma_decimal_digits(n: nat)
    ensures
        decimal(n).len() > 0,
        all_in(decimal(n), |c: char| is_digit(c)),
        digits_value(decimal(n)) == n,
    decreases n,
{
    reveal_with_fuel(digits_value, 2);
    if n >= 10 {
        lemma_decimal_digits(n / 10);
        assert(decimal(n).drop_last() =~= decimal(n / 10));
        assert forall|i: int| 0 <= i < decimal(n).len() implies is_digit(
            #[trigger] decimal(n)[i],
        ) by {
            if i < decimal(n).len() - 1 {
                assert(is_digit(decimal(n / 10)[i]));
            }
        }
    }
}

/// A number that was written down is read back.
pub proof fn law_decimal_is_read_back(n: nat, max: nat)
    requires
        n <= max,
    ensures
        parse_number(decimal(n), max) == Some(n),
{
    lemma_decimal_digits(n);
    assert(is_digit(decimal(n)[0]));
}

/// Different numbers have different texts.
pub proof fn law_decimal_is_injective(a: nat, b: nat)
    requires
        decimal(a) == decimal(b),
    ensures
        a == b,
{
    lemma_decimal_digits(a);
    lemma_decimal_digits(b);
}

/// A power of ten.
pub open spec fn ten_to(k: nat) -> nat
    decreases k,
{
    if k == 0 {
        1
    } else {
        10 * ten_to((k - 1) as nat)
    }
}

/// A number below a power of ten has at most so many digits.
pub proof fn lemma_decimal_length(n: nat, k: nat)
    requires
        k > 0,
        n < ten_to(k),
    ensures
        decimal(n).len() <= k,
    decreases k,
{
    if n >= 10 {
        assert(k > 1) by {
            reveal_with_fuel(ten_to, 2);
        }
        lemma_decimal_length(n / 10, (k - 1) as nat);
    }
}

/// A number of 64 bits has at most twenty digits.
pub proof fn lemma_decimal_length_of_u64(n: nat)
    requires
        n <= u64::MAX,
    ensures
        0 < decimal(n).len() <= 20,
{
    reveal_with_fuel(ten_to, 21);
    lemma_decimal_length(n, 20);
    lemma_decimal_digits(n);
}

// ---------------------------------------------------------------------------------------------
// Lines

/// The lines of a text, each with its line feed; the last one may lack it.
pub open spec fn lines(s: Seq<char>) -> Seq<Seq<char>>
    decreases s.len(),
{
    if s.len() == 0 {
        seq![]
    } else {
        match first_index(s, '\n') {
            Some(i) => if 0 <= i < s.len() {
                seq![s.take(i + 1)] + lines(s.skip(i + 1))
            } else {
                seq![s]
            },
            None => seq![s],
        }
    }
}

/// The first line of a text ends at the first line feed.
pub proof fn lemma_lines_first(line: Seq<char>, rest: Seq<char>)
    requires
        line.len() > 0,
        line.last() == '\n',
        !line.drop_last().contains('\n'),
    ensures
        lines(line + rest) == seq![line] + lines(rest),
{
    let s = line + rest;
    let n = line.len() - 1;
    assert forall|j: int| 0 <= j < n implies #[trigger] s[j] != '\n' by {
        assert(line.drop_last().contains(line.drop_last()[j]));
    }
    lemma_first_index_is(s, '\n', n);
    assert(s.take(n + 1) =~= line);
    assert(s.skip(n + 1) =~= rest);
}

pub fn split_lines(text: &str) -> (r: Vec<String>)
    ensures
        r@.len() == lines(text@).len(),
        forall|i: int| 0 <= i < r@.len() ==> (#[trigger] r@[i])@ == lines(text@)[i],
{
    let chars = chars_of(text);
    let mut out: Vec<String> = Vec::new();
    let mut rest: &[char] = &chars;
    let ghost mut done: Seq<Seq<char>> = seq![];
    assert(done + lines(text@) =~= lines(text@));
    while rest.len() > 0
        invariant
            lines(text@) == done + lines(rest@),
            out@.len() == done.len(),
            forall|i: int| 0 <= i < out@.len() ==> (#[trigger] out@[i])@ == done[i],
        decreases rest@.len(),
    {
        proof {
            lemma_index_from(rest@, '\n', 0);
        }
        let end: usize = match position_of(rest, '\n') {
            Some(i) => i + 1,
            None => rest.len(),
        };
        let line = text_of(slice_subrange(rest, 0, end));
        let next = slice_subrange(rest, end, rest.len());
        proof {
            assert(line@ =~= rest@.take(end as int));
            assert(next@ =~= rest@.skip(end as int));
            if end == rest@.len() {
                assert(line@ =~= rest@);
                assert(lines(next@) =~= seq![]);
            }
            assert(lines(rest@) =~= seq![line@] + lines(next@));
            assert(done + (seq![line@] + lines(next@)) =~= done.push(line@) + lines(next@));
            done = done.push(line@);
        }
        out.push(line);
        rest = next;
    }
    assert(done + lines(rest@) =~= done);
    out
}

// ---------------------------------------------------------------------------------------------
// Laws

/// The blank, the tab and the ends of lines are white space; nothing that can be seen of ASCII is,
/// nor is it a control character.
pub proof fn law_visible_characters_are_no_space(c: char)
    ensures
        c == ' ' || c == '\t' || c == '\n' || c == '\r' ==> is_space(c),
        '!' <= c <= '~' ==> !is_space(c) && !is_control(c),
        c < ' ' || c == '\u{7f}' ==> is_control(c),
        'a' <= c <= 'z' || 'A' <= c <= 'Z' || '0' <= c <= '9' <==> is_ascii_alphanumeric(c),
        '0' <= c <= '9' <==> is_digit(c),
        '0' <= c <= '9' || 'a' <= c <= 'f' || 'A' <= c <= 'F' <==> is_hex_digit(c),
{
}

/// Lower case keeps every character in its place; it changes the capital letters of ASCII, each to
/// the small letter that stands thirty-two places behind it, and nothing else.
pub proof fn law_lower_case_changes_capitals_only(s: Seq<char>, i: int)
    requires
        0 <= i < s.len(),
    ensures
        lower(s).len() == s.len(),
        'A' <= s[i] <= 'Z' ==> lower(s)[i] as int == s[i] as int + 32,
        !('A' <= s[i] <= 'Z') ==> lower(s)[i] == s[i],
{
}

/// Trimming takes off the white space around a text and nothing else.
pub proof fn law_trim_takes_off_white_space_only(front: Seq<char>, s: Seq<char>, back: Seq<char>)
    requires
        all_in(front, |c: char| is_space(c)),
        all_in(back, |c: char| is_space(c)),
        s.len() > 0 ==> !is_space(s[0]) && !is_space(s.last()),
    ensures
        trim(front + s + back) == s,
        trim(s) == s,
        trim_back(s + back) == s,
{
    lemma_trim_padding(front, s, back);
    lemma_trim_fixed(s);
    lemma_trim_back_padding(s, back);
}

/// White space behind a text that does not end with white space is trimmed away.
pub proof fn lemma_trim_back_padding(s: Seq<char>, back: Seq<char>)
    requires
        all_in(back, |c: char| is_space(c)),
        s.len() > 0 ==> !is_space(s.last()),
    ensures
        trim_back(s + back) == s,
    decreases back.len(),
{
    if back.len() > 0 {
        assert(is_space(back[back.len() - 1]));
        let rest = back.drop_last();
        assert forall|i: int| 0 <= i < rest.len() implies is_space(#[trigger] rest[i]) by {
            assert(is_space(back[i]));
        }
        assert((s + back).drop_last() =~= s + rest);
        lemma_trim_back_padding(s, rest);
    } else {
        assert(s + back =~= s);
    }
}

/// Some pieces with a character between each two of them.
pub open spec fn joined_by(pieces: Seq<Seq<char>>, c: char) -> Seq<char>
    decreases pieces.len(),
{
    if pieces.len() == 0 {
        seq![]
    } else if pieces.len() == 1 {
        pieces[0]
    } else {
        pieces[0].push(c) + joined_by(pieces.skip(1), c)
    }
}

/// Splitting loses nothing: the pieces, with the separator between them, are the text, and no piece
/// holds the separator.
pub proof fn law_splitting_is_undone_by_joining(s: Seq<char>, c: char)
    ensures
        split(s, c).len() > 0,
        joined_by(split(s, c), c) == s,
        forall|i: int| 0 <= i < split(s, c).len() ==> !(#[trigger] split(s, c)[i]).contains(c),
    decreases s.len(),
{
    lemma_index_from(s, c, 0);
    let pieces = split(s, c);
    match first_index(s, c) {
        Some(i) => {
            let rest = s.skip(i + 1);
            law_splitting_is_undone_by_joining(rest, c);
            assert(pieces.skip(1) =~= split(rest, c));
            assert(s.take(i).push(c) + rest =~= s);
            assert forall|p: int| 0 <= p < pieces.len() implies !(#[trigger] pieces[p]).contains(
                c,
            ) by {
                if p > 0 {
                    assert(pieces[p] == split(rest, c)[p - 1]);
                }
            }
        },
        None => {},
    }
}

/// Pieces that do not hold the separator are split as they were joined.
pub proof fn law_joining_is_undone_by_splitting(pieces: Seq<Seq<char>>, c: char)
    requires
        pieces.len() > 0,
        forall|i: int| 0 <= i < pieces.len() ==> !(#[trigger] pieces[i]).contains(c),
    ensures
        split(joined_by(pieces, c), c) == pieces,
    decreases pieces.len(),
{
    let s = joined_by(pieces, c);
    if pieces.len() == 1 {
        lemma_split_single(s, c);
        assert(pieces =~= seq![s]);
    } else {
        let rest = pieces.skip(1);
        assert forall|i: int| 0 <= i < rest.len() implies !(#[trigger] rest[i]).contains(c) by {
            assert(rest[i] == pieces[i + 1]);
        }
        law_joining_is_undone_by_splitting(rest, c);
        let n = pieces[0].len() as int;
        assert(s[n] == c);
        assert forall|j: int| 0 <= j < n implies #[trigger] s[j] != c by {
            assert(s[j] == pieces[0][j]);
            assert(pieces[0].contains(pieces[0][j]));
        }
        lemma_first_index_is(s, c, n);
        assert(s.take(n) =~= pieces[0]);
        assert(s.skip(n + 1) =~= joined_by(rest, c));
        assert(split(s, c) =~= pieces);
    }
}

/// A text begins with what stands at its front, and finishes with what stands at its back.
pub proof fn law_fronts_and_backs_are_recognised(front: Seq<char>, back: Seq<char>)
    ensures
        begins_with(front + back, front),
        finishes_with(front + back, back),
{
    let s = front + back;
    assert(s.subrange(0, front.len() as int) =~= front);
    assert(s.subrange(s.len() - back.len(), s.len() as int) =~= back);
}

/// What a text begins or finishes with stands there.
pub proof fn law_recognised_fronts_and_backs_stand_there(s: Seq<char>, part: Seq<char>)
    ensures
        begins_with(s, part) ==> s == part + s.skip(part.len() as int),
        finishes_with(s, part) ==> s == s.take(s.len() - part.len()) + part,
        has_text(s, part) ==> exists|i: int|
            0 <= i <= s.len() - part.len() && s == #[trigger] s.take(i) + part + s.skip(
                i + part.len(),
            ),
{
    if begins_with(s, part) {
        assert(s =~= s.subrange(0, part.len() as int) + s.skip(part.len() as int));
    }
    if finishes_with(s, part) {
        assert(s =~= s.take(s.len() - part.len()) + s.subrange(
            s.len() - part.len(),
            s.len() as int,
        ));
    }
    if has_text(s, part) {
        let i = choose|i: int| occurs_at(s, part, i);
        assert(s =~= s.take(i) + s.subrange(i, i + part.len()) + s.skip(i + part.len()));
    }
}

/// A replacement exchanges the first place at which a text stands, and keeps what stands in front
/// of it and behind it; where the text does not stand, nothing changes.
pub proof fn law_replacement_keeps_the_rest(
    front: Seq<char>,
    from: Seq<char>,
    back: Seq<char>,
    to: Seq<char>,
)
    ensures
        (forall|j: int|
            0 <= j < front.len() ==> !#[trigger] occurs_at(front + from + back, from, j))
            ==> replace_first(front + from + back, from, to) == front + to + back,
        !has_text(front, from) ==> replace_first(front, from, to) == front,
{
    let s = front + from + back;
    let n = front.len() as int;
    lemma_find_text(s, from);
    lemma_find_text(front, from);
    assert(s.subrange(n, n + from.len()) =~= from);
    assert(occurs_at(s, from, n));
    if forall|j: int| 0 <= j < n ==> !#[trigger] occurs_at(s, from, j) {
        let i = find_text(s, from)->0;
        assert(i == n) by {
            if i < n {
                assert(occurs_at(s, from, i));
            }
        }
        assert(s.take(n) =~= front);
        assert(s.skip(n + from.len()) =~= back);
    }
}

/// Words are what stands between white space: a text that is made of words, with white space
/// between each two of them, has those words.
pub proof fn law_words_are_separated_by_space(word: Seq<char>, blank: char, rest: Seq<char>)
    requires
        word.len() > 0,
        all_in(word, |c: char| !is_space(c)),
        is_space(blank),
    ensures
        words(word) == seq![word],
        words(word + (seq![blank] + rest)) == seq![word] + words(rest),
        words(seq![blank] + rest) == words(rest),
{
    let none: Seq<char> = seq![];
    lemma_words_first(word, none);
    assert(word + none =~= word);
    assert(words(none) =~= seq![]);
    assert(words(word) =~= seq![word]);
    lemma_words_first(word, seq![blank] + rest);
    lemma_words_space(blank, rest);
}

/// A number is read digit by digit: one more digit makes it ten times as large, and adds the digit.
pub proof fn law_number_is_read_digit_by_digit(s: Seq<char>, d: char, max: nat)
    requires
        all_in(s, |c: char| is_digit(c)),
        is_digit(d),
    ensures
        parse_number(seq![d], max) == if d as int - 48 <= max {
            Some((d as int - 48) as nat)
        } else {
            None
        },
        s.len() > 0 ==> parse_number(s.push(d), max) == match parse_number(s, max) {
            Some(n) => if n * 10 + (d as int - 48) <= max {
                Some((n * 10 + (d as int - 48)) as nat)
            } else {
                None
            },
            None => None,
        },
        s.len() > 0 ==> parse_number(seq!['+'] + s, max) == parse_number(s, max),
{
    reveal_with_fuel(digits_value, 2);
    let one = seq![d];
    assert(one.drop_last() =~= seq![]);
    assert(unsigned_digits(one) == one);
    assert(all_in(one, |c: char| is_digit(c)));
    if s.len() > 0 {
        let more = s.push(d);
        assert(is_digit(s[0]));
        assert(more[0] == s[0]);
        assert(more.drop_last() =~= s);
        assert forall|i: int| 0 <= i < more.len() implies is_digit(#[trigger] more[i]) by {
            if i < s.len() {
                assert(is_digit(s[i]));
            }
        }
        let signed = seq!['+'] + s;
        assert(signed.skip(1) =~= s);
    }
}

/// A text with anything but digits, after a plus sign at most, is no number; nor is a text without
/// digits.
pub proof fn law_other_texts_are_no_numbers(s: Seq<char>, i: int, max: nat)
    ensures
        0 <= i < s.len() && !is_digit(s[i]) && (i > 0 || s[i] != '+') ==> parse_number(s, max)
            is None,
        s.len() == 0 || (s.len() == 1 && s[0] == '+') ==> parse_number(s, max) is None,
{
    if 0 <= i < s.len() && !is_digit(s[i]) && (i > 0 || s[i] != '+') {
        let digits = unsigned_digits(s);
        if s[0] == '+' {
            assert(digits[i - 1] == s[i]);
        } else {
            assert(digits[i] == s[i]);
        }
    }
}

/// A number is written without leading zeros, and one more digit is written behind it.
pub proof fn law_decimal_is_written_digit_by_digit(n: nat, d: nat)
    requires
        d < 10,
    ensures
        decimal(d).len() == 1,
        decimal(d)[0] as int == 48 + d,
        n > 0 ==> decimal(n * 10 + d) == decimal(n) + decimal(d),
{
    if n > 0 {
        let m = n * 10 + d;
        assert(m / 10 == n && m % 10 == d);
        assert(decimal(m) =~= decimal(n) + decimal(d));
    }
}

proof fn lemma_joined_push(pieces: Seq<Seq<char>>, piece: Seq<char>, c: char)
    requires
        pieces.len() > 0,
    ensures
        joined_by(pieces.push(piece), c) == joined_by(pieces, c).push(c) + piece,
    decreases pieces.len(),
{
    let more = pieces.push(piece);
    if pieces.len() == 1 {
        assert(more.skip(1) =~= seq![piece]);
        assert(joined_by(more.skip(1), c) == piece);
    } else {
        lemma_joined_push(pieces.skip(1), piece, c);
        assert(more.skip(1) =~= pieces.skip(1).push(piece));
        assert(joined_by(more, c) =~= joined_by(pieces, c).push(c) + piece);
    }
}

/// A separator and a piece behind a text add that piece to the others.
pub proof fn law_last_piece_is_split_off(s: Seq<char>, c: char, piece: Seq<char>)
    requires
        !piece.contains(c),
    ensures
        split(s.push(c) + piece, c) == split(s, c).push(piece),
{
    law_splitting_is_undone_by_joining(s, c);
    let pieces = split(s, c).push(piece);
    lemma_joined_push(split(s, c), piece, c);
    assert forall|i: int| 0 <= i < pieces.len() implies !(#[trigger] pieces[i]).contains(c) by {
        if i < split(s, c).len() {
            assert(pieces[i] == split(s, c)[i]);
        }
    }
    law_joining_is_undone_by_splitting(pieces, c);
}

/// Trimming leaves nothing exactly of white space.
pub proof fn law_only_blanks_are_trimmed_to_nothing(s: Seq<char>)
    ensures
        trim(s).len() == 0 <==> forall|i: int| 0 <= i < s.len() ==> is_space(#[trigger] s[i]),
{
    if forall|i: int| 0 <= i < s.len() ==> is_space(#[trigger] s[i]) {
        lemma_trim_blank(s);
    }
    if trim(s).len() == 0 {
        let f = trim_front(s);
        lemma_trim_front(s);
        if f.len() > 0 {
            lemma_trim_back_keeps_front(f);
        }
        lemma_nothing_left_of_blanks(s);
    }
}

proof fn lemma_trim_back_keeps_front(s: Seq<char>)
    requires
        s.len() > 0,
        !is_space(s[0]),
    ensures
        trim_back(s).len() > 0,
    decreases s.len(),
{
    if is_space(s.last()) {
        assert(s.len() > 1);
        lemma_trim_back_keeps_front(s.drop_last());
    }
}

proof fn lemma_nothing_left_of_blanks(s: Seq<char>)
    requires
        trim_front(s).len() == 0,
    ensures
        forall|i: int| 0 <= i < s.len() ==> is_space(#[trigger] s[i]),
    decreases s.len(),
{
    if s.len() > 0 {
        lemma_nothing_left_of_blanks(s.skip(1));
        assert forall|i: int| 0 <= i < s.len() implies is_space(#[trigger] s[i]) by {
            if i > 0 {
                assert(s[i] == s.skip(1)[i - 1]);
            }
        }
    }
}

/// The white space of Unicode is white space, and nothing else; control characters are those of
/// Unicode, too.
pub proof fn law_white_space_is_that_of_unicode(c: char)
    ensures
        is_space(c) <==> (9 <= c as int <= 13 || c as int == 32 || c as int == 133 || c as int == 160
            || c as int == 5_760 || 8_192 <= c as int <= 8_202 || c as int == 8_232 || c as int
            == 8_233 || c as int == 8_239 || c as int == 8_287 || c as int == 12_288),
        is_control(c) <==> (c as int <= 31 || 127 <= c as int <= 159),
{
}

/// A line ends with its line feed, and what follows begins the next one; only the last line may have
/// none.
pub proof fn law_lines_end_with_line_feeds(line: Seq<char>, rest: Seq<char>)
    requires
        !line.contains('\n'),
    ensures
        lines(line.push('\n') + rest) == seq![line.push('\n')] + lines(rest),
        line.len() > 0 ==> lines(line) == seq![line],
        lines(Seq::<char>::empty()).len() == 0,
{
    let s = line.push('\n') + rest;
    let n = line.len() as int;
    assert(s[n] == '\n');
    assert forall|j: int| 0 <= j < n implies #[trigger] s[j] != '\n' by {
        assert(s[j] == line[j]);
        assert(line.contains(line[j]));
    }
    lemma_first_index_is(s, '\n', n);
    assert(s.take(n + 1) =~= line.push('\n'));
    assert(s.skip(n + 1) =~= rest);
    lemma_index_from(line, '\n', 0);
    if first_index(line, '\n') is Some {
        assert(line.contains(line[first_index(line, '\n')->0]));
    }
}

} // verus!

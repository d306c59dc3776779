//! Text as a sequence of characters: case, trimming, searching, splitting and words.

use vstd::prelude::*;
use vstd::slice::*;
use vstd::string::*;
use vstd::utf8::*;

verus! {

/// The classes of characters that the trimming functions remove.
#[derive(Clone, Copy)]
pub enum CharClass {
    /// Unicode white space.
    WhiteSpace,
    /// What may stand between a spoken phrase and the text after it: `,`, `.` and blank.
    Separator,
    /// What may stand between a wake word and the command: a separator or a line feed.
    CommandSeparator,
    /// Anything that is not a letter.
    NonAlphabetic,
}

/// The characters with the Unicode property White_Space.
pub open spec fn is_white_space(c: char) -> bool {
    let u = c as u32;
    ||| 0x09 <= u <= 0x0d
    ||| u == 0x20
    ||| u == 0x85
    ||| u == 0xa0
    ||| u == 0x1680
    ||| 0x2000 <= u <= 0x200a
    ||| u == 0x2028
    ||| u == 0x2029
    ||| u == 0x202f
    ||| u == 0x205f
    ||| u == 0x3000
}

/// `char::is_whitespace`: true exactly of the characters with the property White_Space.
pub assume_specification[ char::is_whitespace ](c: char) -> (b: bool)
    ensures
        b == is_white_space(c),
;

/// Whether a character is a letter of the Danish alphabet that ASCII lacks.
pub open spec fn is_danish_letter(c: char) -> bool {
    c == 'æ' || c == 'ø' || c == 'å' || c == 'Æ' || c == 'Ø' || c == 'Å'
}

/// Whether a character is an ASCII character or a letter of the Danish alphabet.
pub open spec fn is_common(c: char) -> bool {
    c <= '\u{7f}' || is_danish_letter(c)
}

/// Whether a character other than the common ones has the Unicode property Alphabetic, as
/// `char::is_alphabetic` tells.
pub uninterp spec fn other_alphabetic(c: char) -> bool;

/// Whether a character is a letter: it has the Unicode property Alphabetic.
pub open spec fn alphabetic(c: char) -> bool {
    if is_common(c) {
        'a' <= c <= 'z' || 'A' <= c <= 'Z' || is_danish_letter(c)
    } else {
        other_alphabetic(c)
    }
}

/// `char::is_alphabetic`: whether the character has the property Alphabetic. Of the ASCII
/// characters exactly the letters have it, and so do the Danish letters.
pub assume_specification[ char::is_alphabetic ](c: char) -> (b: bool)
    ensures
        is_common(c) ==> b == ('a' <= c <= 'z' || 'A' <= c <= 'Z' || is_danish_letter(c)),
        !is_common(c) ==> b == other_alphabetic(c),
;

/// The lowercase of a common character.
pub open spec fn common_lower(c: char) -> char {
    if 'A' <= c <= 'Z' {
        (c as u32 + 32) as char
    } else if c == 'Æ' {
        'æ'
    } else if c == 'Ø' {
        'ø'
    } else if c == 'Å' {
        'å'
    } else {
        c
    }
}

/// The lowercase of a character other than the common ones, as `char::to_lowercase` yields it.
pub uninterp spec fn other_lower(c: char) -> Seq<char>;

/// The lowercase of a character.
pub open spec fn lower_char(c: char) -> Seq<char> {
    if is_common(c) {
        seq![common_lower(c)]
    } else {
        other_lower(c)
    }
}

/// `char::to_lowercase`, collected: the lowercase mapping of the character. The capitals of ASCII and
/// of the Danish letters have their small letters, and the other common characters have themselves.
#[verifier::external_body]
pub(crate) fn lower_chars(c: char) -> (res: Vec<char>)
    ensures
        is_common(c) ==> res@ == seq![common_lower(c)],
        !is_common(c) ==> res@ == other_lower(c),
{
    c.to_lowercase().collect()
}

/// The lowercase of a text: that of its characters, one after the other. The place of a character in
/// its word does not matter.
pub open spec fn lowercase(s: Seq<char>) -> Seq<char>
    decreases s.len(),
{
    if s.len() == 0 {
        Seq::empty()
    } else {
        lower_char(s[0]) + lowercase(s.drop_first())
    }
}

/// The lowercase of a text, as `str::to_lowercase` gives it.
pub uninterp spec fn written_lowercase(s: Seq<char>) -> Seq<char>;

/// `str::to_lowercase`: the lowercase of the text, in which the form of a letter may depend on its
/// place in the word. That of common characters does not.
pub assume_specification[ str::to_lowercase ](s: &str) -> (res: String)
    ensures
        res@ == written_lowercase(s@),
        (forall|i: int| 0 <= i < s@.len() ==> is_common(#[trigger] s@[i])) ==> res@ == lowercase(
            s@,
        ),
;

/// The uppercase of a common character.
pub open spec fn common_upper(c: char) -> char {
    if 'a' <= c <= 'z' {
        (c as u32 - 32) as char
    } else if c == 'æ' {
        'Æ'
    } else if c == 'ø' {
        'Ø'
    } else if c == 'å' {
        'Å'
    } else {
        c
    }
}

/// The uppercase of a character other than the common ones, as `char::to_uppercase` yields it.
pub uninterp spec fn other_upper(c: char) -> Seq<char>;

/// The uppercase of a character.
pub open spec fn uppercase(c: char) -> Seq<char> {
    if is_common(c) {
        seq![common_upper(c)]
    } else {
        other_upper(c)
    }
}

/// `char::to_uppercase`, collected: the uppercase mapping of the character, one character or more.
/// The small letters of ASCII and of the Danish letters have their capitals, and the other common
/// characters have themselves.
#[verifier::external_body]
pub(crate) fn uppercase_chars(c: char) -> (res: Vec<char>)
    ensures
        is_common(c) ==> res@ == seq![common_upper(c)],
        !is_common(c) ==> res@ == other_upper(c),
        res@.len() >= 1,
{
    c.to_uppercase().collect()
}

/// `String::push`: appends one character.
pub assume_specification[ String::push ](s: &mut String, c: char)
    ensures
        final(s)@ == old(s)@.push(c),
;

/// The text of some bytes, as `String::from_utf8_lossy` decodes them.
pub uninterp spec fn utf8_text(bytes: Seq<u8>) -> Seq<char>;

/// `String::from_utf8_lossy`: the characters that the bytes encode in UTF-8, with replacement
/// characters for what is not UTF-8. Bytes that are valid UTF-8 are decoded as they stand.
#[verifier::external_body]
pub(crate) fn decode_lossy(bytes: &[u8]) -> (res: String)
    ensures
        res@ == utf8_text(bytes@),
        valid_utf8(bytes@) ==> res@ == decode_utf8(bytes@),
{
    String::from_utf8_lossy(bytes).into_owned()
}

/// The characters of a text.
pub fn chars_of(s: &str) -> (res: Vec<char>)
    ensures
        res@ == s@,
{
    let mut res: Vec<char> = Vec::new();
    for c in it: s.chars()
        invariant
            it.seq() == s@,
            res@ == s@.take(it.index()),
    {
        res.push(c);
    }
    res
}

/// The text of some characters.
pub fn text_of(chars: &[char]) -> (res: String)
    ensures
        res@ == chars@,
{
    let mut res = String::new();
    let mut i: usize = 0;
    while i < chars.len()
        invariant
            i <= chars@.len(),
            res@ == chars@.take(i as int),
        decreases chars@.len() - i,
    {
        res.push(chars[i]);
        i += 1;
    }
    assert(chars@.take(i as int) == chars@);
    res
}


// ── Lowercase ──────────────────────────────────────────────────────────

/// The lowercase of a text.
pub fn lower(s: &str) -> (res: String)
    ensures
        res@ == lowercase(s@),
{
    let chars = chars_of(s);
    let mut res = String::new();
    let mut i: usize = 0;
    assert(s@.skip(0) =~= s@);
    while i < chars.len()
        invariant
            i <= chars@.len(),
            chars@ == s@,
            res@ + lowercase(s@.skip(i as int)) =~= lowercase(s@),
        decreases chars@.len() - i,
    {
        let part = lower_chars(chars[i]);
        let part = text_of(part.as_slice());
        assert(s@.skip(i as int).drop_first() =~= s@.skip(i as int + 1));
        res.append(part.as_str());
        i += 1;
    }
    res
}

/// What follows the characters of `s` to which the first `n` characters of its lowercase belong.
pub open spec fn after_lower(s: Seq<char>, n: int) -> Seq<char>
    decreases s.len(),
{
    if n <= 0 || s.len() == 0 {
        s
    } else {
        after_lower(s.drop_first(), n - lower_char(s[0]).len())
    }
}

/// The characters of `s` whose lowercase lies within the first `n` characters of its lowercase.
pub open spec fn before_lower(s: Seq<char>, n: int) -> Seq<char>
    decreases s.len(),
{
    if s.len() == 0 || n < lower_char(s[0]).len() {
        Seq::empty()
    } else {
        seq![s[0]] + before_lower(s.drop_first(), n - lower_char(s[0]).len())
    }
}

/// The index of the character that follows those to which the first `n` characters of the lowercase
/// belong.
pub fn index_after_lower(s: &[char], n: usize) -> (k: usize)
    ensures
        k <= s@.len(),
        after_lower(s@, n as int) == s@.skip(k as int),
{
    let mut k: usize = 0;
    let mut left: usize = n;
    assert(s@.skip(0) =~= s@);
    while left > 0 && k < s.len()
        invariant
            k <= s@.len(),
            after_lower(s@.skip(k as int), left as int) == after_lower(s@, n as int),
        decreases s@.len() - k,
    {
        let width = lower_chars(s[k]).len();
        proof {
            let rest = s@.skip(k as int + 1);
            assert(s@.skip(k as int).drop_first() =~= rest);
            assert(after_lower(s@.skip(k as int), left as int) == after_lower(rest, left - width));
            assert(left <= width ==> after_lower(rest, left - width) == rest);
        }
        left = if left > width {
            left - width
        } else {
            0
        };
        k += 1;
    }
    k
}

/// The number of characters whose lowercase lies within the first `n` characters of the lowercase.
pub fn index_before_lower(s: &[char], n: usize) -> (k: usize)
    ensures
        k <= s@.len(),
        before_lower(s@, n as int) == s@.take(k as int),
{
    let mut k: usize = 0;
    let mut left: usize = n;
    assert(s@.skip(0) =~= s@);
    assert(s@.take(0) =~= Seq::empty());
    while k < s.len()
        invariant
            k <= s@.len(),
            s@.take(k as int) + before_lower(s@.skip(k as int), left as int) =~= before_lower(
                s@,
                n as int,
            ),
        decreases s@.len() - k,
    {
        let width = lower_chars(s[k]).len();
        if left < width {
            assert(before_lower(s@.skip(k as int), left as int) =~= Seq::empty());
            return k;
        }
        assert(s@.skip(k as int).drop_first() =~= s@.skip(k as int + 1));
        assert(s@.take(k as int + 1) =~= s@.take(k as int) + seq![s@[k as int]]);
        left -= width;
        k += 1;
    }
    k
}

/// What follows is a suffix, and a shorter one where anything was cut off.
pub proof fn lemma_after_lower(s: Seq<char>, n: int)
    ensures
        after_lower(s, n).len() <= s.len(),
        n > 0 && s.len() > 0 ==> after_lower(s, n).len() < s.len(),
        after_lower(s, n) == s.skip(s.len() - after_lower(s, n).len()),
    decreases s.len(),
{
    if n <= 0 || s.len() == 0 {
        assert(s.skip(0) =~= s);
    } else {
        let t = s.drop_first();
        lemma_after_lower(t, n - lower_char(s[0]).len());
        let r = after_lower(s, n);
        assert(t.skip(t.len() - r.len()) =~= s.skip(s.len() - r.len()));
    }
}

/// The lowercase of two texts, one after the other.
pub proof fn lemma_lowercase_concat(a: Seq<char>, b: Seq<char>)
    ensures
        lowercase(a + b) == lowercase(a) + lowercase(b),
    decreases a.len(),
{
    if a.len() == 0 {
        assert(a + b =~= b);
        assert(lowercase(a) + lowercase(b) =~= lowercase(b));
    } else {
        assert((a + b).drop_first() =~= a.drop_first() + b);
        lemma_lowercase_concat(a.drop_first(), b);
        assert(lowercase(a + b) =~= lowercase(a) + lowercase(b));
    }
}

/// Whether a text is its own lowercase: it has only common characters, and none is a capital.
pub open spec fn is_lower_text(s: Seq<char>) -> bool {
    forall|i: int|
        0 <= i < s.len() ==> is_common(#[trigger] s[i]) && common_lower(s[i]) == s[i]
}

/// A text in lowercase letters is its own lowercase.
pub proof fn lemma_lower_text(s: Seq<char>)
    requires
        is_lower_text(s),
    ensures
        lowercase(s) == s,
    decreases s.len(),
{
    if s.len() > 0 {
        let t = s.drop_first();
        assert forall|i: int| 0 <= i < t.len() implies is_common(#[trigger] t[i]) && common_lower(
            t[i],
        ) == t[i] by {
            assert(t[i] == s[i + 1]);
        }
        lemma_lower_text(t);
        assert(is_common(s[0]));
        assert(seq![s[0]] + t =~= s);
    }
}

/// Cutting a text off at the lowercase of its first part leaves the second, where the first part ends
/// in a common character.
pub proof fn lemma_after_lower_concat(a: Seq<char>, b: Seq<char>)
    requires
        a.len() > 0 ==> is_common(a.last()),
    ensures
        after_lower(a + b, lowercase(a).len() as int) == b,
    decreases a.len(),
{
    if a.len() == 0 {
        assert(a + b =~= b);
    } else {
        let t = a.drop_first();
        assert((a + b).drop_first() =~= t + b);
        if t.len() > 0 {
            assert(t.last() == a.last());
            lemma_lowercase_last(a);
        }
        lemma_after_lower_concat(t, b);
    }
}

proof fn lemma_lowercase_last(a: Seq<char>)
    requires
        a.len() > 0,
        is_common(a.last()),
    ensures
        lowercase(a).len() > 0,
    decreases a.len(),
{
    if a.len() > 1 {
        lemma_lowercase_last(a.drop_first());
    }
}

/// What lies within the lowercase of the first part of a text is that part, where the second starts
/// with a common character.
pub proof fn lemma_before_lower_concat(a: Seq<char>, b: Seq<char>)
    requires
        b.len() > 0 ==> is_common(b[0]),
    ensures
        before_lower(a + b, lowercase(a).len() as int) == a,
    decreases a.len(),
{
    if a.len() == 0 {
        assert(a + b =~= b);
        assert(before_lower(b, 0) =~= a);
    } else {
        assert((a + b).drop_first() =~= a.drop_first() + b);
        lemma_before_lower_concat(a.drop_first(), b);
        assert(seq![a[0]] + a.drop_first() =~= a);
    }
}

// ── Trimming ───────────────────────────────────────────────────────────

/// Whether `c` belongs to `class`.
pub open spec fn in_class(c: char, class: CharClass) -> bool {
    match class {
        CharClass::WhiteSpace => is_white_space(c),
        CharClass::Separator => c == ',' || c == '.' || c == ' ',
        CharClass::CommandSeparator => c == ',' || c == '.' || c == ' ' || c == '\n',
        CharClass::NonAlphabetic => !alphabetic(c),
    }
}

/// `s` without its longest prefix of characters of `class`.
pub open spec fn trimmed_start(s: Seq<char>, class: CharClass) -> Seq<char>
    decreases s.len(),
{
    if s.len() > 0 && in_class(s[0], class) {
        trimmed_start(s.drop_first(), class)
    } else {
        s
    }
}

/// `s` without its longest suffix of characters of `class`.
pub open spec fn trimmed_end(s: Seq<char>, class: CharClass) -> Seq<char>
    decreases s.len(),
{
    if s.len() > 0 && in_class(s.last(), class) {
        trimmed_end(s.drop_last(), class)
    } else {
        s
    }
}

/// `s` without the characters of `class` at either end.
pub open spec fn trimmed(s: Seq<char>, class: CharClass) -> Seq<char> {
    trimmed_end(trimmed_start(s, class), class)
}

/// `s` without white space at either end.
pub open spec fn stripped(s: Seq<char>) -> Seq<char> {
    trimmed(s, CharClass::WhiteSpace)
}

/// Trimming the start leaves a suffix that does not start with a character of the class.
pub proof fn lemma_trimmed_start(s: Seq<char>, class: CharClass)
    ensures
        trimmed_start(s, class).len() <= s.len(),
        trimmed_start(s, class) == s.skip(s.len() - trimmed_start(s, class).len()),
        trimmed_start(s, class).len() > 0 ==> !in_class(trimmed_start(s, class)[0], class),
        forall|i: int|
            0 <= i < s.len() - trimmed_start(s, class).len() ==> in_class(#[trigger] s[i], class),
    decreases s.len(),
{
    if s.len() > 0 && in_class(s[0], class) {
        let t = s.drop_first();
        lemma_trimmed_start(t, class);
        let k = t.len() - trimmed_start(t, class).len();
        assert(t.skip(k) =~= s.skip(k + 1));
        assert forall|i: int| 0 <= i < k + 1 implies in_class(#[trigger] s[i], class) by {
            if i > 0 {
                assert(s[i] == t[i - 1]);
            }
        }
    } else {
        assert(s.skip(0) =~= s);
    }
}

/// Trimming the end leaves a prefix that does not end with a character of the class.
pub proof fn lemma_trimmed_end(s: Seq<char>, class: CharClass)
    ensures
        trimmed_end(s, class).len() <= s.len(),
        trimmed_end(s, class) == s.take(trimmed_end(s, class).len() as int),
        trimmed_end(s, class).len() > 0 ==> !in_class(trimmed_end(s, class).last(), class),
        forall|i: int|
            trimmed_end(s, class).len() <= i < s.len() ==> in_class(#[trigger] s[i], class),
    decreases s.len(),
{
    if s.len() > 0 && in_class(s.last(), class) {
        let t = s.drop_last();
        lemma_trimmed_end(t, class);
        let k = trimmed_end(t, class).len() as int;
        assert(t.take(k) =~= s.take(k));
        assert forall|i: int| k <= i < s.len() implies in_class(#[trigger] s[i], class) by {
            if i < s.len() - 1 {
                assert(s[i] == t[i]);
            }
        }
    } else {
        assert(s.take(s.len() as int) =~= s);
    }
}

/// Trimming the end of two texts trims the second, where the first does not end in a character of the
/// class.
pub proof fn lemma_trimmed_end_concat(a: Seq<char>, b: Seq<char>, class: CharClass)
    requires
        a.len() > 0,
        !in_class(a.last(), class),
    ensures
        trimmed_end(a + b, class) == a + trimmed_end(b, class),
    decreases b.len(),
{
    if b.len() == 0 {
        assert(a + b =~= a);
        assert(a + trimmed_end(b, class) =~= a);
    } else {
        assert((a + b).last() == b.last());
        assert((a + b).drop_last() =~= a + b.drop_last());
        lemma_trimmed_end_concat(a, b.drop_last(), class);
    }
}

/// Whether `c` belongs to `class`.
pub fn class_has(c: char, class: CharClass) -> (b: bool)
    ensures
        b == in_class(c, class),
{
    match class {
        CharClass::WhiteSpace => c.is_whitespace(),
        CharClass::Separator => c == ',' || c == '.' || c == ' ',
        CharClass::CommandSeparator => c == ',' || c == '.' || c == ' ' || c == '\n',
        CharClass::NonAlphabetic => !c.is_alphabetic(),
    }
}

/// Drops the characters of `class` from the start.
pub fn trim_start(s: &[char], class: CharClass) -> (res: &[char])
    ensures
        res@ == trimmed_start(s@, class),
{
    let mut i: usize = 0;
    assert(s@.skip(0) =~= s@);
    while i < s.len() && class_has(s[i], class)
        invariant
            i <= s@.len(),
            trimmed_start(s@.skip(i as int), class) == trimmed_start(s@, class),
        decreases s@.len() - i,
    {
        assert(s@.skip(i as int).drop_first() =~= s@.skip(i as int + 1));
        i += 1;
    }
    assert(s@.subrange(i as int, s@.len() as int) =~= s@.skip(i as int));
    slice_subrange(s, i, s.len())
}

/// Drops the characters of `class` from the end.
pub fn trim_end(s: &[char], class: CharClass) -> (res: &[char])
    ensures
        res@ == trimmed_end(s@, class),
{
    let mut n: usize = s.len();
    assert(s@.take(n as int) =~= s@);
    while n > 0 && class_has(s[n - 1], class)
        invariant
            n <= s@.len(),
            trimmed_end(s@.take(n as int), class) == trimmed_end(s@, class),
        decreases n,
    {
        assert(s@.take(n as int).drop_last() =~= s@.take(n as int - 1));
        n -= 1;
    }
    assert(s@.subrange(0, n as int) =~= s@.take(n as int));
    slice_subrange(s, 0, n)
}

/// Drops the characters of `class` from both ends.
pub fn trim(s: &[char], class: CharClass) -> (res: &[char])
    ensures
        res@ == trimmed(s@, class),
{
    trim_end(trim_start(s, class), class)
}

/// The text without white space at either end.
pub fn strip(s: &str) -> (res: String)
    ensures
        res@ == stripped(s@),
{
    let chars = chars_of(s);
    text_of(trim(chars.as_slice(), CharClass::WhiteSpace))
}

// ── Searching ──────────────────────────────────────────────────────────

/// Whether `needle` stands in `hay` at index `i`.
pub open spec fn occurs_at(hay: Seq<char>, needle: Seq<char>, i: int) -> bool {
    &&& 0 <= i
    &&& i + needle.len() <= hay.len()
    &&& hay.subrange(i, i + needle.len()) == needle
}

/// Whether `needle` stands anywhere in `hay`.
pub open spec fn occurs(hay: Seq<char>, needle: Seq<char>) -> bool {
    exists|i: int| occurs_at(hay, needle, i)
}

/// Whether one of `needles` stands anywhere in `hay`.
pub open spec fn occurs_any(hay: Seq<char>, needles: Seq<Seq<char>>) -> bool {
    exists|i: int| 0 <= i < needles.len() && occurs(hay, #[trigger] needles[i])
}

/// The least index from `i` on at which `needle` stands in `hay`.
pub open spec fn find_from(hay: Seq<char>, needle: Seq<char>, i: int) -> Option<int>
    decreases hay.len() - i + 1,
{
    if i + needle.len() > hay.len() {
        None
    } else if occurs_at(hay, needle, i) {
        Some(i)
    } else {
        find_from(hay, needle, i + 1)
    }
}

/// The index of the first occurrence of `needle` in `hay`.
pub open spec fn find(hay: Seq<char>, needle: Seq<char>) -> Option<int> {
    find_from(hay, needle, 0)
}

proof fn lemma_find_from(hay: Seq<char>, needle: Seq<char>, i: int)
    requires
        0 <= i,
    ensures
        find_from(hay, needle, i) matches Some(k) ==> i <= k && occurs_at(hay, needle, k)
            && forall|j: int| i <= j < k ==> !occurs_at(hay, needle, j),
        find_from(hay, needle, i) is None ==> forall|j: int| i <= j ==> !occurs_at(hay, needle, j),
    decreases hay.len() - i + 1,
{
    if i + needle.len() > hay.len() {
    } else if occurs_at(hay, needle, i) {
    } else {
        lemma_find_from(hay, needle, i + 1);
    }
}

/// `find` gives the first occurrence, and gives none exactly where there is none.
pub proof fn lemma_find(hay: Seq<char>, needle: Seq<char>)
    ensures
        find(hay, needle) matches Some(k) ==> occurs_at(hay, needle, k) && forall|j: int|
            j < k ==> !occurs_at(hay, needle, j),
        find(hay, needle) is Some <==> occurs(hay, needle),
{
    lemma_find_from(hay, needle, 0);
}

/// What stands after `head`, and not before its own end, is found after `head`.
pub proof fn lemma_find_after(head: Seq<char>, needle: Seq<char>, tail: Seq<char>)
    requires
        needle.len() > 0,
        !occurs(head + needle.drop_last(), needle),
    ensures
        find(head + needle + tail, needle) == Some(head.len() as int),
{
    let hay = head + needle + tail;
    let short = head + needle.drop_last();
    let k = head.len() as int;
    assert(hay.subrange(k, k + needle.len()) =~= needle);
    assert(occurs_at(hay, needle, k));
    lemma_find(hay, needle);
    let start = find(hay, needle)->0;
    if start < k {
        assert(short.subrange(start, start + needle.len()) =~= hay.subrange(
            start,
            start + needle.len(),
        ));
        assert(occurs_at(short, needle, start));
    }
}

/// Whether two texts are the same.
pub fn same_text(a: &str, b: &str) -> (res: bool)
    ensures
        res == (a@ == b@),
{
    let x = chars_of(a);
    let y = chars_of(b);
    if x.len() != y.len() {
        return false;
    }
    let n: usize = x.len();
    let mut i: usize = 0;
    while i < n
        invariant
            i <= n,
            n == x@.len(),
            n == y@.len(),
            x@ == a@,
            y@ == b@,
            forall|j: int| 0 <= j < i ==> x@[j] == y@[j],
        decreases n - i,
    {
        if x[i] != y[i] {
            return false;
        }
        i += 1;
    }
    assert(x@ =~= y@);
    true
}

/// Whether `needle` stands in `hay` at index `i`.
pub fn stands_at(hay: &[char], needle: &[char], i: usize) -> (res: bool)
    requires
        i <= hay@.len(),
    ensures
        res == occurs_at(hay@, needle@, i as int),
{
    let n: usize = hay.len();
    if needle.len() > n - i {
        return false;
    }
    let mut j: usize = 0;
    while j < needle.len()
        invariant
            j <= needle@.len(),
            i + needle@.len() <= n,
            n == hay@.len(),
            forall|k: int| 0 <= k < j ==> hay@[i + k] == needle@[k],
        decreases needle@.len() - j,
    {
        if hay[i + j] != needle[j] {
            assert(hay@.subrange(i as int, i + needle@.len())[j as int] != needle@[j as int]);
            return false;
        }
        j += 1;
    }
    assert(hay@.subrange(i as int, i + needle@.len()) =~= needle@);
    true
}

/// Whether `hay` starts with `prefix`.
pub fn starts_with(hay: &[char], prefix: &[char]) -> (res: bool)
    ensures
        res == occurs_at(hay@, prefix@, 0),
{
    stands_at(hay, prefix, 0)
}

/// The index of the first occurrence of `needle` in `hay`.
pub fn find_text(hay: &[char], needle: &[char]) -> (res: Option<usize>)
    ensures
        find(hay@, needle@) == (match res {
            Some(k) => Some(k as int),
            None => None,
        }),
        res matches Some(k) ==> k + needle@.len() <= hay@.len() <= usize::MAX,
{
    let mut i: usize = 0;
    while i <= hay.len() && needle.len() <= hay.len() - i
        invariant
            i <= hay@.len() + 1,
            find(hay@, needle@) == find_from(hay@, needle@, i as int),
        decreases hay@.len() + 1 - i,
    {
        if stands_at(hay, needle, i) {
            return Some(i);
        }
        if i == hay.len() {
            assert(find_from(hay@, needle@, i as int + 1) is None);
            return None;
        }
        i += 1;
    }
    None
}

/// Whether `needle` stands anywhere in `hay`.
pub fn contains_text(hay: &str, needle: &str) -> (res: bool)
    ensures
        res == occurs(hay@, needle@),
{
    let h = chars_of(hay);
    let n = chars_of(needle);
    proof {
        lemma_find(hay@, needle@);
    }
    find_text(h.as_slice(), n.as_slice()).is_some()
}

/// The contents of a sequence of texts.
pub open spec fn views(v: Seq<&str>) -> Seq<Seq<char>> {
    v.map_values(|t: &str| t@)
}

/// The contents of a sequence of owned texts.
pub open spec fn texts(v: Seq<String>) -> Seq<Seq<char>> {
    v.map_values(|t: String| t@)
}

/// Whether one of `needles` stands anywhere in `hay`.
pub fn contains_any(hay: &str, needles: &[&str]) -> (res: bool)
    ensures
        res == occurs_any(hay@, views(needles@)),
{
    let mut i: usize = 0;
    while i < needles.len()
        invariant
            i <= needles@.len(),
            forall|j: int| 0 <= j < i ==> !occurs(hay@, #[trigger] views(needles@)[j]),
        decreases needles@.len() - i,
    {
        let needle = needles[i];
        assert(views(needles@)[i as int] == needle@);
        if contains_text(hay, needle) {
            return true;
        }
        i += 1;
    }
    false
}

/// Whether `s` is one of `options`.
pub fn is_one_of(s: &str, options: &[&str]) -> (res: bool)
    ensures
        res == views(options@).contains(s@),
{
    let mut i: usize = 0;
    while i < options.len()
        invariant
            i <= options@.len(),
            forall|j: int| 0 <= j < i ==> #[trigger] views(options@)[j] != s@,
        decreases options@.len() - i,
    {
        assert(views(options@)[i as int] == options@[i as int]@);
        if same_text(s, options[i]) {
            return true;
        }
        i += 1;
    }
    false
}

/// The content of a text that may be missing.
pub open spec fn opt(o: Option<String>) -> Option<Seq<char>> {
    match o {
        Some(t) => Some(t@),
        None => None,
    }
}

/// The content of a borrowed text that may be missing.
pub open spec fn opt_str(o: Option<&str>) -> Option<Seq<char>> {
    match o {
        Some(t) => Some(t@),
        None => None,
    }
}

/// An owned copy of a text that may be missing.
pub fn own(o: Option<&str>) -> (res: Option<String>)
    ensures
        opt(res) == opt_str(o),
{
    match o {
        Some(t) => Some(t.to_owned()),
        None => None,
    }
}

/// A text that may be missing, borrowed.
pub fn lend(o: &Option<String>) -> (res: Option<&str>)
    ensures
        opt_str(res) == opt(*o),
{
    match o {
        Some(t) => Some(t.as_str()),
        None => None,
    }
}

/// The text without white space around it, where anything is left of it.
pub open spec fn substance(o: Option<Seq<char>>) -> Option<Seq<char>> {
    match o {
        Some(t) => if stripped(t).len() > 0 {
            Some(stripped(t))
        } else {
            None
        },
        None => None,
    }
}

/// A text without white space around it, where anything is left of it.
pub fn non_blank(o: Option<&str>) -> (res: Option<String>)
    ensures
        opt(res) == substance(opt_str(o)),
{
    match o {
        Some(t) => {
            let t = strip(t);
            if t.as_str().is_empty() {
                None
            } else {
                Some(t)
            }
        },
        None => None,
    }
}

/// The index, from `i` on, of the first of `phrases` that `s` starts with.
pub open spec fn leading_phrase(s: Seq<char>, phrases: Seq<Seq<char>>, i: int) -> Option<int>
    decreases phrases.len() - i,
{
    if i >= phrases.len() {
        None
    } else if occurs_at(s, phrases[i], 0) {
        Some(i)
    } else {
        leading_phrase(s, phrases, i + 1)
    }
}

/// The phrase that a text starts with is one of them, and there is none only where the text starts
/// with none of them.
pub proof fn lemma_leading_phrase(s: Seq<char>, phrases: Seq<Seq<char>>, i: int)
    requires
        0 <= i,
    ensures
        leading_phrase(s, phrases, i) matches Some(j) ==> i <= j < phrases.len() && occurs_at(
            s,
            phrases[j],
            0,
        ),
        leading_phrase(s, phrases, i) is None ==> forall|j: int|
            i <= j < phrases.len() ==> !occurs_at(s, #[trigger] phrases[j], 0),
    decreases phrases.len() - i,
{
    if i < phrases.len() && !occurs_at(s, phrases[i], 0) {
        lemma_leading_phrase(s, phrases, i + 1);
    }
}

/// Whether no phrase starts with another one.
pub open spec fn prefix_free(phrases: Seq<Seq<char>>) -> bool {
    forall|i: int, j: int|
        #![trigger phrases[i], phrases[j]]
        0 <= i < phrases.len() && 0 <= j < phrases.len() && i != j ==> !occurs_at(
            phrases[i],
            phrases[j],
            0,
        )
}

/// Where no phrase starts with another one, a text starts with at most one of them.
pub proof fn lemma_only_leading_phrase(s: Seq<char>, phrases: Seq<Seq<char>>, j: int)
    requires
        prefix_free(phrases),
        0 <= j < phrases.len(),
        occurs_at(s, phrases[j], 0),
    ensures
        leading_phrase(s, phrases, 0) == Some(j),
{
    lemma_leading_phrase(s, phrases, 0);
    let i = leading_phrase(s, phrases, 0)->0;
    if i != j {
        let a = phrases[i];
        let b = phrases[j];
        assert(s.subrange(0, a.len() as int) == a && s.subrange(0, b.len() as int) == b);
        if a.len() >= b.len() {
            assert(a.subrange(0, b.len() as int) =~= s.subrange(0, b.len() as int));
            assert(occurs_at(a, b, 0));
        } else {
            assert(b.subrange(0, a.len() as int) =~= s.subrange(0, a.len() as int));
            assert(occurs_at(b, a, 0));
        }
    }
}

/// The index, from `i` on, of the first of `phrases` that stands anywhere in `s`.
pub open spec fn occurring_phrase(s: Seq<char>, phrases: Seq<Seq<char>>, i: int) -> Option<int>
    decreases phrases.len() - i,
{
    if i >= phrases.len() {
        None
    } else if occurs(s, phrases[i]) {
        Some(i)
    } else {
        occurring_phrase(s, phrases, i + 1)
    }
}

/// The index of the first of `phrases` that `s` starts with.
pub fn find_leading_phrase(s: &str, phrases: &[&str]) -> (res: Option<usize>)
    ensures
        leading_phrase(s@, views(phrases@), 0) == (match res {
            Some(j) => Some(j as int),
            None => None,
        }),
        res matches Some(j) ==> j < phrases@.len() && occurs_at(s@, phrases@[j as int]@, 0),
{
    let chars = chars_of(s);
    let mut i: usize = 0;
    while i < phrases.len()
        invariant
            i <= phrases@.len(),
            chars@ == s@,
            leading_phrase(s@, views(phrases@), 0) == leading_phrase(
                s@,
                views(phrases@),
                i as int,
            ),
        decreases phrases@.len() - i,
    {
        let phrase = chars_of(phrases[i]);
        assert(views(phrases@)[i as int] == phrase@);
        if starts_with(chars.as_slice(), phrase.as_slice()) {
            return Some(i);
        }
        i += 1;
    }
    None
}

/// The index of the first of `phrases` that stands anywhere in `s`.
pub fn find_occurring_phrase(s: &str, phrases: &[&str]) -> (res: Option<usize>)
    ensures
        occurring_phrase(s@, views(phrases@), 0) == (match res {
            Some(j) => Some(j as int),
            None => None,
        }),
        res matches Some(j) ==> j < phrases@.len() && occurs(s@, phrases@[j as int]@),
{
    let mut i: usize = 0;
    while i < phrases.len()
        invariant
            i <= phrases@.len(),
            occurring_phrase(s@, views(phrases@), 0) == occurring_phrase(
                s@,
                views(phrases@),
                i as int,
            ),
        decreases phrases@.len() - i,
    {
        let phrase = phrases[i];
        assert(views(phrases@)[i as int] == phrase@);
        if contains_text(s, phrase) {
            return Some(i);
        }
        i += 1;
    }
    None
}

// ── UTF-8 lengths ──────────────────────────────────────────────────────

/// The number of bytes of a character in UTF-8.
pub open spec fn char_width(c: char) -> nat {
    let u = c as u32;
    if u < 0x80 {
        1
    } else if u < 0x800 {
        2
    } else if u < 0x10000 {
        3
    } else {
        4
    }
}

/// The number of bytes of a text in UTF-8.
pub open spec fn byte_len(s: Seq<char>) -> nat
    decreases s.len(),
{
    if s.len() == 0 {
        0
    } else {
        char_width(s[0]) + byte_len(s.drop_first())
    }
}

/// `byte_len` is the length of the UTF-8 encoding.
pub proof fn lemma_byte_len_encoding(s: Seq<char>)
    ensures
        byte_len(s) == encode_utf8(s).len(),
    decreases s.len(),
{
    if s.len() > 0 {
        lemma_byte_len_encoding(s.drop_first());
        char_is_scalar(s[0]);
    }
}

/// The number of bytes of a text in UTF-8.
pub fn utf8_len(s: &str) -> (n: usize)
    ensures
        n == byte_len(s@),
{
    proof {
        lemma_byte_len_encoding(s@);
    }
    s.as_bytes().len()
}

// ── Words ──────────────────────────────────────────────────────────────

/// The number of characters before the first white space.
pub open spec fn word_len(s: Seq<char>) -> nat
    decreases s.len(),
{
    if s.len() > 0 && !is_white_space(s[0]) {
        1 + word_len(s.drop_first())
    } else {
        0
    }
}

pub proof fn lemma_word_len(s: Seq<char>)
    ensures
        word_len(s) <= s.len(),
        s.len() > 0 && !is_white_space(s[0]) ==> word_len(s) > 0,
        forall|i: int| 0 <= i < word_len(s) ==> !is_white_space(#[trigger] s[i]),
        word_len(s) < s.len() ==> is_white_space(s[word_len(s) as int]),
    decreases s.len(),
{
    if s.len() > 0 && !is_white_space(s[0]) {
        let t = s.drop_first();
        lemma_word_len(t);
        assert forall|i: int| 0 <= i < word_len(s) implies !is_white_space(#[trigger] s[i]) by {
            if i > 0 {
                assert(s[i] == t[i - 1]);
            }
        }
        if word_len(s) < s.len() {
            assert(s[word_len(s) as int] == t[word_len(t) as int]);
        }
    }
}

/// The words of `s`: its longest runs of characters that are not white space, in order.
pub open spec fn words(s: Seq<char>) -> Seq<Seq<char>>
    decreases s.len(),
    via words_decreases
{
    let t = trimmed_start(s, CharClass::WhiteSpace);
    if t.len() == 0 {
        Seq::empty()
    } else {
        seq![t.take(word_len(t) as int)] + words(t.skip(word_len(t) as int))
    }
}

#[via_fn]
proof fn words_decreases(s: Seq<char>) {
    let t = trimmed_start(s, CharClass::WhiteSpace);
    lemma_trimmed_start(s, CharClass::WhiteSpace);
    lemma_word_len(t);
}

/// A word: at least one character and no white space.
pub open spec fn is_word(w: Seq<char>) -> bool {
    w.len() > 0 && forall|i: int| 0 <= i < w.len() ==> !is_white_space(#[trigger] w[i])
}

/// The texts of `parts` with `sep` between each two of them.
pub open spec fn join(parts: Seq<Seq<char>>, sep: Seq<char>) -> Seq<char>
    decreases parts.len(),
{
    if parts.len() == 0 {
        Seq::empty()
    } else if parts.len() == 1 {
        parts[0]
    } else {
        parts[0] + sep + join(parts.drop_first(), sep)
    }
}

/// Every element of `words(s)` is a word.
pub proof fn lemma_words(s: Seq<char>)
    ensures
        forall|i: int| 0 <= i < words(s).len() ==> is_word(#[trigger] words(s)[i]),
    decreases s.len(),
{
    let t = trimmed_start(s, CharClass::WhiteSpace);
    lemma_trimmed_start(s, CharClass::WhiteSpace);
    lemma_word_len(t);
    if t.len() > 0 {
        let w = t.take(word_len(t) as int);
        let rest = words(t.skip(word_len(t) as int));
        lemma_words(t.skip(word_len(t) as int));
        assert forall|i: int| 0 <= i < words(s).len() implies is_word(#[trigger] words(s)[i]) by {
            if i > 0 {
                assert(words(s)[i] == rest[i - 1]);
            } else {
                assert(words(s)[0] == w);
            }
        }
    }
}

/// Joining one more part appends the separator and that part.
pub proof fn lemma_join_push(parts: Seq<Seq<char>>, sep: Seq<char>, last: Seq<char>)
    ensures
        parts.len() == 0 ==> join(parts.push(last), sep) == last,
        parts.len() > 0 ==> join(parts.push(last), sep) == join(parts, sep) + sep + last,
    decreases parts.len(),
{
    if parts.len() > 0 {
        lemma_join_push(parts.drop_first(), sep, last);
        assert(parts.push(last).drop_first() =~= parts.drop_first().push(last));
        if parts.len() == 1 {
            assert(parts.push(last).drop_first() =~= seq![last]);
            assert(join(parts.push(last), sep) =~= parts[0] + sep + last);
        } else {
            assert(join(parts.push(last), sep) =~= join(parts, sep) + sep + last);
        }
    }
}

proof fn lemma_word_len_prefix(w: Seq<char>, rest: Seq<char>)
    requires
        forall|i: int| 0 <= i < w.len() ==> !is_white_space(#[trigger] w[i]),
        rest.len() > 0 ==> is_white_space(rest[0]),
    ensures
        word_len(w + rest) == w.len(),
    decreases w.len(),
{
    if w.len() == 0 {
        assert(w + rest =~= rest);
    } else {
        assert((w + rest).drop_first() =~= w.drop_first() + rest);
        assert forall|i: int| 0 <= i < w.drop_first().len() implies !is_white_space(
            #[trigger] w.drop_first()[i],
        ) by {
            assert(w.drop_first()[i] == w[i + 1]);
        }
        lemma_word_len_prefix(w.drop_first(), rest);
        assert((w + rest)[0] == w[0]);
    }
}

/// Splitting words that were joined by blanks gives the words back.
pub proof fn lemma_words_of_join(ws: Seq<Seq<char>>)
    requires
        forall|i: int| 0 <= i < ws.len() ==> is_word(#[trigger] ws[i]),
    ensures
        words(join(ws, seq![' '])) == ws,
    decreases ws.len(),
{
    let sep = seq![' '];
    let s = join(ws, sep);
    if ws.len() == 0 {
        assert(words(s) =~= ws);
    } else {
        let w = ws[0];
        assert(is_word(w));
        let tail = if ws.len() == 1 {
            Seq::<char>::empty()
        } else {
            sep + join(ws.drop_first(), sep)
        };
        assert(s =~= w + tail);
        assert(s[0] == w[0]);
        lemma_word_len_prefix(w, tail);
        assert(s.take(w.len() as int) =~= w);
        assert(s.skip(w.len() as int) =~= tail);
        let more = ws.drop_first();
        assert forall|i: int| 0 <= i < more.len() implies is_word(#[trigger] more[i]) by {
            assert(more[i] == ws[i + 1]);
        }
        lemma_words_of_join(more);
        assert(trimmed_start(s, CharClass::WhiteSpace) == s);
        assert(words(s) == seq![w] + words(tail));
        if ws.len() > 1 {
            let rest = join(more, sep);
            assert(tail.drop_first() =~= rest);
            assert(trimmed_start(tail, CharClass::WhiteSpace) == trimmed_start(
                rest,
                CharClass::WhiteSpace,
            ));
            assert(words(tail) == words(rest));
        } else {
            assert(more.len() == 0);
            assert(words(tail) =~= more);
        }
        assert(seq![w] + more =~= ws);
    }
}

/// The words of a text.
pub fn split_words(s: &[char]) -> (res: Vec<String>)
    ensures
        texts(res@) == words(s@),
{
    let mut res: Vec<String> = Vec::new();
    let mut rest: &[char] = s;
    loop
        invariant
            texts(res@) + words(rest@) == words(s@),
        ensures
            texts(res@) == words(s@),
        decreases rest@.len(),
    {
        let ghost before = rest@;
        let t = trim_start(rest, CharClass::WhiteSpace);
        proof {
            lemma_trimmed_start(rest@, CharClass::WhiteSpace);
            lemma_word_len(t@);
        }
        if t.len() == 0 {
            assert(texts(res@) + words(rest@) =~= texts(res@));
            break;
        }
        let mut n: usize = 0;
        assert(t@.skip(0) =~= t@);
        while n < t.len() && !t[n].is_whitespace()
            invariant
                n <= t@.len(),
                word_len(t@) == n + word_len(t@.skip(n as int)),
            decreases t@.len() - n,
        {
            assert(t@.skip(n as int).drop_first() =~= t@.skip(n as int + 1));
            n += 1;
        }
        let w = text_of(slice_subrange(t, 0, n));
        let ghost held = res@;
        res.push(w);
        rest = slice_subrange(t, n, t.len());
        proof {
            assert(w@ =~= t@.take(n as int));
            assert(rest@ =~= t@.skip(n as int));
            assert(texts(res@) =~= texts(held).push(w@));
            assert(texts(res@) + words(rest@) =~= texts(held) + (seq![w@] + words(rest@)));
        }
    }
    res
}

/// The texts with `sep` between each two of them.
pub fn join_texts(parts: &Vec<String>, sep: &str) -> (res: String)
    ensures
        res@ == join(texts(parts@), sep@),
{
    let mut res = String::new();
    let mut i: usize = 0;
    while i < parts.len()
        invariant
            i <= parts@.len(),
            res@ == join(texts(parts@).take(i as int), sep@),
        decreases parts@.len() - i,
    {
        proof {
            let all = texts(parts@);
            assert(all.take(i as int + 1) =~= all.take(i as int).push(parts@[i as int]@));
            lemma_join_push(all.take(i as int), sep@, parts@[i as int]@);
        }
        if i > 0 {
            res.append(sep);
        }
        res.append(parts[i].as_str());
        proof {
            if i == 0 {
                assert(texts(parts@).take(0).len() == 0);
                assert(res@ =~= parts@[0]@);
            }
        }
        i += 1;
    }
    assert(texts(parts@).take(i as int) =~= texts(parts@));
    res
}

// ── Splitting at a character ───────────────────────────────────────────

/// The parts of `s` between the occurrences of `c`. There is one part more than there are
/// occurrences.
pub open spec fn split_on(s: Seq<char>, c: char) -> Seq<Seq<char>>
    decreases s.len(),
    via split_on_decreases
{
    match find(s, seq![c]) {
        None => seq![s],
        Some(k) => seq![s.take(k)] + split_on(s.skip(k + 1), c),
    }
}

#[via_fn]
proof fn split_on_decreases(s: Seq<char>, c: char) {
    lemma_find(s, seq![c]);
}

/// `find` of a single character tells where it first stands.
pub proof fn lemma_find_char(s: Seq<char>, c: char)
    ensures
        find(s, seq![c]) matches Some(k) ==> 0 <= k < s.len() && s[k] == c && forall|j: int|
            0 <= j < k ==> #[trigger] s[j] != c,
        find(s, seq![c]) is None <==> !s.contains(c),
{
    lemma_find(s, seq![c]);
    assert forall|j: int| 0 <= j < s.len() implies (occurs_at(s, seq![c], j) <==> #[trigger] s[j]
        == c) by {
        if s[j] == c {
            assert(s.subrange(j, j + 1) =~= seq![c]);
        } else {
            assert(s.subrange(j, j + 1)[0] == s[j]);
        }
    }
    if let Some(k) = find(s, seq![c]) {
        assert(occurs_at(s, seq![c], k));
        assert(s.contains(s[k]));
    } else if s.contains(c) {
        let j = choose|j: int| 0 <= j < s.len() && s[j] == c;
        assert(occurs_at(s, seq![c], j));
    }
}

/// A text splits at the first occurrence of the character.
pub proof fn lemma_split_on_first(head: Seq<char>, c: char, tail: Seq<char>)
    requires
        !head.contains(c),
    ensures
        split_on(head + seq![c] + tail, c) == seq![head] + split_on(tail, c),
{
    let s = head + seq![c] + tail;
    lemma_find_char(s, c);
    assert(s[head.len() as int] == c);
    assert(s.contains(c));
    let k = find(s, seq![c])->0;
    if k < head.len() {
        assert(s[k] == head[k]);
        assert(head.contains(head[k]));
    }
    if k > head.len() {
        assert(s[head.len() as int] != c);
    }
    assert(s.take(k) =~= head);
    assert(s.skip(k + 1) =~= tail);
}

/// A text without the character is its only part.
pub proof fn lemma_split_on_none(s: Seq<char>, c: char)
    requires
        !s.contains(c),
    ensures
        split_on(s, c) == seq![s],
{
    lemma_find_char(s, c);
}

/// The parts of a text between the occurrences of a character.
pub fn split_at_char(s: &[char], c: char) -> (res: Vec<String>)
    ensures
        texts(res@) == split_on(s@, c),
{
    let needle: [char; 1] = [c];
    assert(needle@ =~= seq![c]);
    let mut res: Vec<String> = Vec::new();
    let mut rest: &[char] = s;
    loop
        invariant_except_break
            texts(res@) + split_on(rest@, c) == split_on(s@, c),
        invariant
            needle@ == seq![c],
        ensures
            texts(res@) == split_on(s@, c),
        decreases rest@.len(),
    {
        let ghost held = res@;
        let n: usize = rest.len();
        match find_text(rest, needle.as_slice()) {
            None => {
                let part = text_of(rest);
                res.push(part);
                assert(texts(res@) =~= texts(held) + seq![rest@]);
                break;
            },
            Some(k) => {
                let part = text_of(slice_subrange(rest, 0, k));
                let next = slice_subrange(rest, k + 1, n);
                res.push(part);
                proof {
                    assert(part@ =~= rest@.take(k as int));
                    assert(next@ =~= rest@.skip(k + 1));
                    assert(texts(res@) =~= texts(held).push(part@));
                    assert(texts(res@) + split_on(next@, c) =~= texts(held) + (seq![part@]
                        + split_on(next@, c)));
                }
                rest = next;
            },
        }
    }
    res
}

// ── Laws ───────────────────────────────────────────────────────────────

/// Joining is determined by this: nothing joins to nothing, a single part to itself, and two runs of
/// parts to what each of them joins to, with the separator between.
pub proof fn law_join(a: Seq<Seq<char>>, b: Seq<Seq<char>>, sep: Seq<char>)
    ensures
        a.len() == 0 ==> join(a, sep) == Seq::<char>::empty(),
        a.len() == 1 ==> join(a, sep) == a[0],
        a.len() > 0 && b.len() > 0 ==> join(a + b, sep) == join(a, sep) + sep + join(b, sep),
    decreases a.len(),
{
    if a.len() == 1 && b.len() > 0 {
        assert((a + b).drop_first() =~= b);
    } else if a.len() > 1 && b.len() > 0 {
        assert((a + b).drop_first() =~= a.drop_first() + b);
        law_join(a.drop_first(), b, sep);
        assert(join(a + b, sep) =~= join(a, sep) + sep + join(b, sep));
    }
}

/// Every part stands in what the parts join to.
pub proof fn law_joined_parts_stand(parts: Seq<Seq<char>>, sep: Seq<char>, i: int)
    requires
        0 <= i < parts.len(),
    ensures
        occurs(join(parts, sep), parts[i]),
{
    let a = parts.take(i);
    let b = parts.skip(i + 1);
    let x = seq![parts[i]];
    assert(parts =~= a + x + b);
    let mut head = Seq::<char>::empty();
    if a.len() > 0 {
        law_join(a, x, sep);
        head = join(a, sep) + sep;
    } else {
        assert(a + x =~= x);
    }
    assert(join(a + x, sep) =~= head + parts[i]);
    let mut tail = Seq::<char>::empty();
    if b.len() > 0 {
        law_join(a + x, b, sep);
        tail = sep + join(b, sep);
    } else {
        assert(a + x + b =~= a + x);
    }
    assert(join(parts, sep) =~= head + parts[i] + tail);
    law_occurs_between(head, parts[i], tail);
}

/// What stands between two texts stands in the whole.
pub proof fn law_occurs_between(a: Seq<char>, needle: Seq<char>, b: Seq<char>)
    ensures
        occurs(a + needle + b, needle),
        occurs_at(a + needle + b, needle, a.len() as int),
{
    let k = a.len() as int;
    assert((a + needle + b).subrange(k, k + needle.len()) =~= needle);
    assert(occurs_at(a + needle + b, needle, k));
}

/// What stands in a part of a text stands in the text.
pub proof fn law_occurs_within(hay: Seq<char>, inner: Seq<char>, needle: Seq<char>)
    requires
        occurs(hay, inner),
        occurs(inner, needle),
    ensures
        occurs(hay, needle),
{
    let i = choose|i: int| occurs_at(hay, inner, i);
    let j = choose|j: int| occurs_at(inner, needle, j);
    assert(hay.subrange(i, i + inner.len()).subrange(j, j + needle.len()) =~= hay.subrange(
        i + j,
        i + j + needle.len(),
    ));
    assert(occurs_at(hay, needle, i + j));
}

/// The words of a text are determined by this: no text has no words, a text without white space has
/// itself, and white space parts the words before it from those after it.
pub proof fn law_words(a: Seq<char>, c: char, b: Seq<char>)
    requires
        is_white_space(c),
    ensures
        a.len() == 0 ==> words(a) == Seq::<Seq<char>>::empty(),
        is_word(a) ==> words(a) == seq![a],
        words(a + seq![c] + b) == words(a) + words(b),
    decreases a.len(),
{
    let s = a + seq![c] + b;
    let white = CharClass::WhiteSpace;
    if a.len() == 0 {
        assert(s[0] == c);
        assert(s.drop_first() =~= b);
        assert(trimmed_start(s, white) == trimmed_start(b, white));
        assert(words(a) =~= Seq::empty());
        assert(words(s) =~= words(a) + words(b));
    } else if is_white_space(a[0]) {
        assert(s[0] == a[0]);
        assert(s.drop_first() =~= a.drop_first() + seq![c] + b);
        assert(trimmed_start(s, white) == trimmed_start(s.drop_first(), white));
        assert(trimmed_start(a, white) == trimmed_start(a.drop_first(), white));
        law_words(a.drop_first(), c, b);
    } else {
        let n = word_len(a) as int;
        let w = a.take(n);
        let rest = a.skip(n);
        lemma_word_len(a);
        assert(rest.len() > 0 ==> rest[0] == a[n]);
        assert(s =~= w + (rest + seq![c] + b));
        assert((rest + seq![c] + b)[0] == if rest.len() > 0 {
            rest[0]
        } else {
            c
        });
        lemma_word_len_prefix(w, rest + seq![c] + b);
        assert(s[0] == a[0]);
        assert(s.take(n) =~= w);
        assert(s.skip(n) =~= rest + seq![c] + b);
        law_words(rest, c, b);
        assert(words(s) =~= words(a) + words(b));
        if is_word(a) {
            if n < a.len() {
                assert(!is_white_space(a[n]));
            }
            assert(w =~= a);
            assert(words(rest) =~= Seq::empty());
            assert(words(a) =~= seq![a]);
        }
    }
}

/// Dropping characters of a class that stand before a text drops them all.
proof fn lemma_trimmed_start_skips(a: Seq<char>, s: Seq<char>, class: CharClass)
    requires
        forall|i: int| 0 <= i < a.len() ==> in_class(#[trigger] a[i], class),
    ensures
        trimmed_start(a + s, class) == trimmed_start(s, class),
    decreases a.len(),
{
    if a.len() == 0 {
        assert(a + s =~= s);
    } else {
        let t = a.drop_first();
        assert forall|i: int| 0 <= i < t.len() implies in_class(#[trigger] t[i], class) by {
            assert(t[i] == a[i + 1]);
        }
        lemma_trimmed_start_skips(t, s, class);
        assert((a + s).drop_first() =~= t + s);
        assert((a + s)[0] == a[0]);
    }
}

/// Trimming takes away exactly the characters of the class at either end: what stands between them and
/// neither starts nor ends with such a character is left.
pub proof fn law_trimmed(a: Seq<char>, t: Seq<char>, b: Seq<char>, class: CharClass)
    requires
        forall|i: int| 0 <= i < a.len() ==> in_class(#[trigger] a[i], class),
        forall|i: int| 0 <= i < b.len() ==> in_class(#[trigger] b[i], class),
        t.len() > 0 ==> !in_class(t[0], class) && !in_class(t.last(), class),
    ensures
        trimmed(a + t + b, class) == t,
        t.len() > 0 ==> trimmed_start(a + t + b, class) == t + b,
        t.len() > 0 ==> trimmed_end(a + t + b, class) == a + t,
{
    assert(a + t + b =~= a + (t + b));
    lemma_trimmed_start_skips(a, t + b, class);
    lemma_trimmed_end(b, class);
    let r = trimmed_end(b, class);
    if r.len() > 0 {
        assert(r.last() == b[r.len() - 1]);
    }
    assert(r =~= Seq::empty());
    if t.len() > 0 {
        assert((t + b)[0] == t[0]);
        lemma_trimmed_end_concat(t, b, class);
        assert(t + r =~= t);
        assert((a + t).last() == t.last());
        lemma_trimmed_end_concat(a + t, b, class);
        assert(a + t + r =~= a + t);
    } else {
        assert(t + b =~= b);
        assert(b + Seq::<char>::empty() =~= b);
        lemma_trimmed_start_skips(b, Seq::empty(), class);
        assert(trimmed(a + t + b, class) =~= t);
    }
}

/// A text has substance exactly where it has a character that is no white space, and its substance is
/// the part from the first to the last of them.
pub proof fn law_substance(s: Seq<char>)
    ensures
        substance(None) is None,
        substance(Some(s)) is Some <==> exists|i: int|
            0 <= i < s.len() && !is_white_space(#[trigger] s[i]),
        substance(Some(s)) matches Some(t) ==> t.len() > 0 && occurs(s, t) && !is_white_space(t[0])
            && !is_white_space(t.last()),
{
    let white = CharClass::WhiteSpace;
    let u = trimmed_start(s, white);
    let t = stripped(s);
    lemma_trimmed_start(s, white);
    lemma_trimmed_end(u, white);
    if t.len() > 0 {
        let k = s.len() - u.len();
        assert(t[0] == u[0] && u[0] == s[k]);
        assert(!is_white_space(s[k]));
        assert(s.subrange(k, k + t.len()) =~= t);
        assert(occurs_at(s, t, k));
    } else {
        if u.len() > 0 {
            assert(u[0] == s[s.len() - u.len()]);
            assert(in_class(u[0], white));
        }
        assert forall|i: int| 0 <= i < s.len() implies is_white_space(#[trigger] s[i]) by {
            assert(in_class(s[i], white));
        }
    }
}

/// Stripping a text leaves nothing exactly where it has no substance, and stripping once more changes
/// nothing.
pub proof fn law_stripped(s: Seq<char>)
    ensures
        stripped(s).len() == 0 <==> substance(Some(s)) is None,
        stripped(stripped(s)) == stripped(s),
        occurs(s, stripped(s)),
{
    law_substance(s);
    let e = Seq::<char>::empty();
    let t = stripped(s);
    assert(e + t + e =~= t);
    law_trimmed(e, t, e, CharClass::WhiteSpace);
    if t.len() == 0 {
        assert(s.subrange(0, 0) =~= t);
        assert(occurs_at(s, t, 0));
    }
}

/// The lowercase of a single character: capitals of ASCII and of the Danish letters become small,
/// other common characters stay.
pub proof fn law_lowercase_of_char(c: char)
    ensures
        'A' <= c <= 'Z' ==> lowercase(seq![c]) == seq![(c as u32 + 32) as char],
        c == 'Æ' ==> lowercase(seq![c]) == seq!['æ'],
        c == 'Ø' ==> lowercase(seq![c]) == seq!['ø'],
        c == 'Å' ==> lowercase(seq![c]) == seq!['å'],
        is_common(c) && !('A' <= c <= 'Z' || c == 'Æ' || c == 'Ø' || c == 'Å') ==> lowercase(
            seq![c],
        ) == seq![c],
        !is_common(c) ==> lowercase(seq![c]) == other_lower(c),
{
    assert(lowercase(seq![c].drop_first()) =~= Seq::empty());
    assert(lowercase(seq![c]) =~= lower_char(c));
}

/// The phrase that a text starts with is the first of those with which it does.
pub proof fn law_leading_phrase(s: Seq<char>, phrases: Seq<Seq<char>>, j: int)
    requires
        0 <= j < phrases.len(),
        occurs_at(s, phrases[j], 0),
        forall|i: int| 0 <= i < j ==> !occurs_at(s, #[trigger] phrases[i], 0),
    ensures
        leading_phrase(s, phrases, 0) == Some(j),
{
    lemma_leading_phrase_from(s, phrases, 0, j);
}

proof fn lemma_leading_phrase_from(s: Seq<char>, phrases: Seq<Seq<char>>, i: int, j: int)
    requires
        0 <= i <= j < phrases.len(),
        occurs_at(s, phrases[j], 0),
        forall|k: int| 0 <= k < j ==> !occurs_at(s, #[trigger] phrases[k], 0),
    ensures
        leading_phrase(s, phrases, i) == Some(j),
    decreases j - i,
{
    if i < j {
        assert(!occurs_at(s, phrases[i], 0));
        lemma_leading_phrase_from(s, phrases, i + 1, j);
    }
}

/// The phrase that stands in a text is the first of those that do, and there is one exactly where one
/// of them does.
pub proof fn law_occurring_phrase(s: Seq<char>, phrases: Seq<Seq<char>>)
    ensures
        occurring_phrase(s, phrases, 0) is Some <==> occurs_any(s, phrases),
        occurring_phrase(s, phrases, 0) matches Some(j) ==> 0 <= j < phrases.len() && occurs(
            s,
            phrases[j],
        ) && forall|i: int| 0 <= i < j ==> !occurs(s, #[trigger] phrases[i]),
{
    lemma_occurring_phrase_from(s, phrases, 0);
}

proof fn lemma_occurring_phrase_from(s: Seq<char>, phrases: Seq<Seq<char>>, i: int)
    requires
        0 <= i,
    ensures
        occurring_phrase(s, phrases, i) matches Some(j) ==> i <= j < phrases.len() && occurs(
            s,
            phrases[j],
        ) && forall|k: int| i <= k < j ==> !occurs(s, #[trigger] phrases[k]),
        occurring_phrase(s, phrases, i) is None ==> forall|k: int|
            i <= k < phrases.len() ==> !occurs(s, #[trigger] phrases[k]),
    decreases phrases.len() - i,
{
    if i < phrases.len() && !occurs(s, phrases[i]) {
        lemma_occurring_phrase_from(s, phrases, i + 1);
    }
}

/// A text that is put together again from the parts into which a character splits it is the text, and
/// no part holds the character.
pub proof fn law_split_on(s: Seq<char>, c: char)
    ensures
        split_on(s, c).len() > 0,
        join(split_on(s, c), seq![c]) == s,
        forall|i: int| 0 <= i < split_on(s, c).len() ==> !(#[trigger] split_on(s, c)[i]).contains(c),
    decreases s.len(),
{
    lemma_find_char(s, c);
    match find(s, seq![c]) {
        None => {},
        Some(k) => {
            let head = s.take(k);
            let tail = s.skip(k + 1);
            law_split_on(tail, c);
            let rest = split_on(tail, c);
            let all = split_on(s, c);
            assert(all =~= seq![head] + rest);
            law_join(seq![head], rest, seq![c]);
            assert(join(all, seq![c]) =~= s);
            assert forall|i: int| 0 <= i < all.len() implies !(#[trigger] all[i]).contains(c) by {
                if i > 0 {
                    assert(all[i] == rest[i - 1]);
                } else if head.contains(c) {
                    let j = choose|j: int| 0 <= j < head.len() && head[j] == c;
                    assert(s[j] == c);
                }
            }
        },
    }
}

/// White space around a text does not change its words.
pub proof fn law_words_of_stripped(s: Seq<char>)
    ensures
        words(stripped(s)) == words(s),
{
    let white = CharClass::WhiteSpace;
    let t = trimmed_start(s, white);
    lemma_trimmed_start(s, white);
    assert(trimmed_start(t, white) == t);
    assert(words(t) == words(s));
    lemma_words_of_trimmed_end(t);
}

proof fn lemma_words_of_trimmed_end(s: Seq<char>)
    ensures
        words(trimmed_end(s, CharClass::WhiteSpace)) == words(s),
    decreases s.len(),
{
    if s.len() > 0 && is_white_space(s.last()) {
        let e = Seq::<char>::empty();
        lemma_words_of_trimmed_end(s.drop_last());
        law_words(s.drop_last(), s.last(), e);
        law_words(e, s.last(), e);
        assert(s =~= s.drop_last() + seq![s.last()] + e);
        assert(words(s.drop_last()) + words(e) =~= words(s.drop_last()));
    }
}

/// What has no white space at its ends is still there when the text around it is stripped.
pub proof fn law_stripping_keeps(s: Seq<char>, part: Seq<char>)
    requires
        occurs(s, part),
        part.len() > 0,
        !is_white_space(part[0]),
        !is_white_space(part.last()),
    ensures
        occurs(stripped(s), part),
{
    let white = CharClass::WhiteSpace;
    let k = choose|k: int| occurs_at(s, part, k);
    let u = trimmed_start(s, white);
    let t = stripped(s);
    lemma_trimmed_start(s, white);
    lemma_trimmed_end(u, white);
    let a = s.len() - u.len();
    let whole = s.subrange(k, k + part.len());
    assert(whole[0] == s[k] && whole[part.len() - 1] == s[k + part.len() - 1]);
    if k < a {
        assert(in_class(s[k], white));
    }
    let last = k + part.len() - 1 - a;
    if last >= t.len() {
        assert(u[last] == s[k + part.len() - 1]);
        assert(in_class(u[last], white));
    }
    assert(t.subrange(k - a, k - a + part.len()) =~= whole);
    assert(occurs_at(t, part, k - a));
}

/// Where a character stands, it parts what splits before it from what splits after it.
pub proof fn law_split_on_parts(a: Seq<char>, c: char, b: Seq<char>)
    ensures
        split_on(a + seq![c] + b, c) == split_on(a, c) + split_on(b, c),
        !a.contains(c) ==> split_on(a, c) == seq![a],
    decreases a.len(),
{
    lemma_find_char(a, c);
    match find(a, seq![c]) {
        None => {
            lemma_split_on_first(a, c, b);
        },
        Some(k) => {
            let head = a.take(k);
            let tail = a.skip(k + 1);
            if head.contains(c) {
                let j = choose|j: int| 0 <= j < head.len() && head[j] == c;
                assert(a[j] == c);
            }
            assert(a.contains(a[k]));
            assert(a + seq![c] + b =~= head + seq![c] + (tail + seq![c] + b));
            lemma_split_on_first(head, c, tail + seq![c] + b);
            law_split_on_parts(tail, c, b);
            assert(split_on(a + seq![c] + b, c) =~= split_on(a, c) + split_on(b, c));
        },
    }
}

} // verus!

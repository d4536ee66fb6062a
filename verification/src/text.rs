//! Character-level text utilities with specifications over `Seq<char>`.
//!
//! Strings are handled as sequences of characters. The operations of `str`
//! that the rest of the library needs (prefix and infix tests, counting and
//! replacing occurrences, splitting into words and lines, trimming) are
//! written here as verified loops against short spec functions. The Unicode
//! `White_Space` property is a short list of code points, stated and tested
//! here; Unicode case mapping is taken from std through trusted wrappers whose
//! results are named.

use vstd::prelude::*;

verus! {

// ---------------------------------------------------------------------------
// Names for what std computes from Unicode tables.
// ---------------------------------------------------------------------------
/// What `str::to_lowercase` returns for a string that is not all ASCII.
pub uninterp spec fn unicode_lowercase(s: Seq<char>) -> Seq<char>;

/// Every character is ASCII.
pub open spec fn all_ascii(s: Seq<char>) -> bool {
    forall|i: int| 0 <= i < s.len() ==> (s[i] as u32) < 0x80
}

/// What `str::to_lowercase` returns for a string with the given characters:
/// on ASCII text its ASCII lowercase (Unicode lowercases `A` to `Z` to `a` to
/// `z` and leaves every other ASCII character as it is), else
/// `unicode_lowercase`.
#[verifier::opaque]
pub open spec fn lowercase(s: Seq<char>) -> Seq<char> {
    if all_ascii(s) {
        ascii_lower_seq(s)
    } else {
        unicode_lowercase(s)
    }
}

/// The Unicode `White_Space` property, which `char::is_whitespace` tests:
/// tab through carriage return, space, next line, no-break space, ogham space
/// mark, en quad through hair space, line and paragraph separators, narrow
/// no-break space, medium mathematical space and ideographic space.
pub open spec fn white_space(c: char) -> bool {
    let n = c as u32;
    ||| 0x9 <= n <= 0xD
    ||| n == 0x20
    ||| n == 0x85
    ||| n == 0xA0
    ||| n == 0x1680
    ||| 0x2000 <= n <= 0x200A
    ||| n == 0x2028
    ||| n == 0x2029
    ||| n == 0x202F
    ||| n == 0x205F
    ||| n == 0x3000
}

/// Whether `char::is_uppercase` holds of a character.
pub uninterp spec fn upper_case(c: char) -> bool;

/// Calls `str::to_lowercase`. The result is `lowercase` of the argument's
/// characters: the ASCII lowercase for ASCII text (std points to
/// `to_lowercase` for lowercasing ASCII characters as well as the others),
/// else the named `unicode_lowercase`; nothing more is claimed of Unicode
/// case mapping.
#[verifier::external_body]
pub(crate) fn str_to_lowercase(s: &str) -> (r: String)
    ensures
        r@ == lowercase(s@),
        all_ascii(s@) ==> r@ == ascii_lower_seq(s@),
        !all_ascii(s@) ==> r@ == unicode_lowercase(s@),
{
    s.to_lowercase()
}

/// Whether the character has the Unicode `White_Space` property (what
/// `char::is_whitespace` returns).
pub(crate) fn char_is_whitespace(c: char) -> (r: bool)
    ensures
        r == white_space(c),
{
    let n = c as u32;
    (0x9 <= n && n <= 0xD) || n == 0x20 || n == 0x85 || n == 0xA0 || n == 0x1680 || (0x2000 <= n && n <= 0x200A)
        || n == 0x2028 || n == 0x2029 || n == 0x202F || n == 0x205F || n == 0x3000
}

/// Calls `char::is_uppercase`; the result is named `upper_case`.
#[verifier::external_body]
pub(crate) fn char_is_uppercase(c: char) -> (r: bool)
    ensures
        r == upper_case(c),
{
    c.is_uppercase()
}

/// Calls `String::push`, which appends one character.
#[verifier::external_body]
pub(crate) fn push_char(s: &mut String, c: char)
    ensures
        final(s)@ == old(s)@.push(c),
{
    s.push(c);
}

/// What `format!("{:?}", s)` writes for a string with these characters: the
/// string in double quotes, with escapes.
pub uninterp spec fn debug_str(s: Seq<char>) -> Seq<char>;

/// Formats a string with `Debug` (quoted and escaped); the result is named
/// `debug_str`.
#[verifier::external_body]
pub(crate) fn quoted(s: &str) -> (r: String)
    ensures
        r@ == debug_str(s@),
{
    format!("{:?}", s)
}

/// What `format!("{:?}", v)` writes for a list of strings with these
/// characters: `[`, each string as `debug_str` writes it, separated by `, `,
/// then `]`.
pub open spec fn debug_str_list(v: Seq<Seq<char>>) -> Seq<char> {
    "["@ + join_seqs(v.map_values(|s: Seq<char>| debug_str(s)), ", "@) + "]"@
}

/// Formats a list of strings with `Debug` (the `Debug` of a slice lists its
/// entries, each with its own `Debug`, between brackets and separated by
/// `, `); the result is `debug_str_list` of the strings' characters.
#[verifier::external_body]
pub(crate) fn quoted_list(v: &Vec<String>) -> (r: String)
    ensures
        r@ == debug_str_list(v@.map_values(|x: String| x@)),
{
    format!("{:?}", v)
}

// ---------------------------------------------------------------------------
// Specifications.
// ---------------------------------------------------------------------------
/// `needle` occurs in `hay` starting at index `i`.
pub open spec fn occurs_at(hay: Seq<char>, needle: Seq<char>, i: int) -> bool {
    0 <= i && i + needle.len() <= hay.len() && hay.subrange(i, i + needle.len()) == needle
}

/// `needle` occurs somewhere in `hay` (what `str::contains` tests).
pub open spec fn has_infix(hay: Seq<char>, needle: Seq<char>) -> bool {
    exists|i: int| occurs_at(hay, needle, i)
}

/// Number of non-overlapping occurrences of a non-empty `pat`, found from the
/// left (what `str::matches(..).count()` returns).
pub open spec fn count_matches(hay: Seq<char>, pat: Seq<char>) -> nat
    decreases hay.len(),
{
    if pat.len() == 0 || hay.len() < pat.len() {
        0
    } else if pat.is_prefix_of(hay) {
        1 + count_matches(hay.skip(pat.len() as int), pat)
    } else {
        count_matches(hay.drop_first(), pat)
    }
}

/// Every non-overlapping occurrence of a non-empty `from`, found from the left,
/// replaced by `to` (what `str::replace` returns).
pub open spec fn replace_all(s: Seq<char>, from: Seq<char>, to: Seq<char>) -> Seq<char>
    decreases s.len(),
{
    if from.len() == 0 || s.len() == 0 {
        s
    } else if from.is_prefix_of(s) {
        to + replace_all(s.skip(from.len() as int), from, to)
    } else {
        seq![s[0]] + replace_all(s.drop_first(), from, to)
    }
}

/// Every occurrence of character `a` replaced by `b`.
pub open spec fn replace_char_spec(s: Seq<char>, a: char, b: char) -> Seq<char> {
    s.map_values(|c: char| if c == a { b } else { c })
}

/// ASCII lowercase of one character (what `char::to_ascii_lowercase` returns).
pub open spec fn ascii_lower(c: char) -> char {
    if 'A' <= c && c <= 'Z' {
        ((c as u32) + 32) as char
    } else {
        c
    }
}

/// ASCII lowercase of every character (what `str::to_ascii_lowercase` returns).
pub open spec fn ascii_lower_seq(s: Seq<char>) -> Seq<char> {
    s.map_values(|c: char| ascii_lower(c))
}

/// Equality up to ASCII case (what `str::eq_ignore_ascii_case` tests).
pub open spec fn eq_ignore_ascii(a: Seq<char>, b: Seq<char>) -> bool {
    ascii_lower_seq(a) == ascii_lower_seq(b)
}


// ---------------------------------------------------------------------------
// Conversions.
// ---------------------------------------------------------------------------
/// Copies the characters of a string slice into a vector.
pub fn chars_of(s: &str) -> (v: Vec<char>)
    ensures
        v@ == s@,
{
    let mut v: Vec<char> = Vec::new();
    for c in it: s.chars()
        invariant
            v@ == it.seq().take(it.index() as int),
            it.seq() == s@,
    {
        v.push(c);
    }
    v
}

/// Builds a string from a sequence of characters.
pub fn string_of(v: &Vec<char>) -> (s: String)
    ensures
        s@ == v@,
{
    let mut s = String::new();
    let mut i: usize = 0;
    while i < v.len()
        invariant
            i <= v.len(),
            s@ == v@.take(i as int),
        decreases v.len() - i,
    {
        push_char(&mut s, v[i]);
        assert(v@.take(i + 1) == v@.take(i as int).push(v@[i as int]));
        i += 1;
    }
    assert(v@.take(v.len() as int) == v@);
    s
}

/// Appends the characters of `v` to `out`.
pub fn push_chars(out: &mut Vec<char>, v: &Vec<char>)
    ensures
        final(out)@ == old(out)@ + v@,
{
    let mut i: usize = 0;
    while i < v.len()
        invariant
            i <= v.len(),
            out@ == old(out)@ + v@.take(i as int),
        decreases v.len() - i,
    {
        out.push(v[i]);
        assert(v@.take(i + 1) == v@.take(i as int).push(v@[i as int]));
        i += 1;
    }
    assert(v@.take(v.len() as int) == v@);
}

/// Appends the characters of `s` to `out`.
pub fn push_str_chars(out: &mut Vec<char>, s: &str)
    ensures
        final(out)@ == old(out)@ + s@,
{
    let v = chars_of(s);
    push_chars(out, &v);
}

/// The characters of `lowercase(s)`.
pub fn lower_chars(s: &Vec<char>) -> (r: Vec<char>)
    ensures
        r@ == lowercase(s@),
{
    let st = string_of(s);
    let l = str_to_lowercase(st.as_str());
    chars_of(l.as_str())
}

// ---------------------------------------------------------------------------
// Comparisons.
// ---------------------------------------------------------------------------
/// Whether two character sequences are equal.
pub fn chars_eq(a: &Vec<char>, b: &Vec<char>) -> (r: bool)
    ensures
        r == (a@ == b@),
{
    if a.len() != b.len() {
        return false;
    }
    let mut i: usize = 0;
    while i < a.len()
        invariant
            i <= a.len(),
            a.len() == b.len(),
            a@.take(i as int) == b@.take(i as int),
        decreases a.len() - i,
    {
        if a[i] != b[i] {
            assert(a@[i as int] != b@[i as int]);
            return false;
        }
        assert(a@.take(i + 1) == a@.take(i as int).push(a@[i as int]));
        assert(b@.take(i + 1) == b@.take(i as int).push(b@[i as int]));
        i += 1;
    }
    assert(a@.take(a.len() as int) == a@);
    assert(b@.take(b.len() as int) == b@);
    true
}

/// Whether `needle` occurs in `hay` at index `i`.
pub fn occurs_at_exec(hay: &Vec<char>, needle: &Vec<char>, i: usize) -> (r: bool)
    ensures
        r == occurs_at(hay@, needle@, i as int),
{
    if i > hay.len() || needle.len() > hay.len() - i {
        return false;
    }
    let mut j: usize = 0;
    while j < needle.len()
        invariant
            j <= needle.len(),
            i + needle.len() <= hay.len(),
            forall|k: int| 0 <= k < j ==> hay@[i + k] == needle@[k],
        decreases needle.len() - j,
    {
        if hay[i + j] != needle[j] {
            assert(hay@.subrange(i as int, i + needle.len())[j as int] != needle@[j as int]);
            return false;
        }
        j += 1;
    }
    assert(hay@.subrange(i as int, i + needle.len()) =~= needle@);
    true
}

/// Whether `p` is a prefix of `s` (what `str::starts_with` tests).
pub fn has_prefix(s: &Vec<char>, p: &Vec<char>) -> (r: bool)
    ensures
        r == p@.is_prefix_of(s@),
{
    let r = occurs_at_exec(s, p, 0);
    proof {
        if r {
            assert(s@.subrange(0, p@.len() as int) == p@);
            assert forall|k: int| 0 <= k < p@.len() implies p@[k] == s@[k] by {
                assert(s@.subrange(0, p@.len() as int)[k] == s@[k]);
            }
        } else if p@.is_prefix_of(s@) {
            assert(s@.subrange(0, p@.len() as int) =~= p@);
        }
    }
    r
}

/// Whether `p` is a suffix of `s` (what `str::ends_with` tests).
pub fn has_suffix(s: &Vec<char>, p: &Vec<char>) -> (r: bool)
    ensures
        r == p@.is_suffix_of(s@),
{
    if p.len() > s.len() {
        return false;
    }
    let start = s.len() - p.len();
    let r = occurs_at_exec(s, p, start);
    proof {
        if r {
            assert forall|k: int| 0 <= k < p@.len() implies p@[k] == s@[s@.len() - p@.len() + k] by {
                assert(s@.subrange(start as int, start + p@.len())[k] == s@[start + k]);
            }
        } else if p@.is_suffix_of(s@) {
            assert(s@.subrange(start as int, start + p@.len()) =~= p@);
        }
    }
    r
}

/// Whether `needle` occurs in `hay` (what `str::contains` tests).
pub fn contains_chars(hay: &Vec<char>, needle: &Vec<char>) -> (r: bool)
    ensures
        r == has_infix(hay@, needle@),
{
    if needle.len() > hay.len() {
        assert forall|i: int| !occurs_at(hay@, needle@, i) by {}
        return false;
    }
    if needle.len() == 0 {
        assert(hay@.subrange(0, 0) =~= needle@);
        assert(occurs_at(hay@, needle@, 0));
        return true;
    }
    let last = hay.len() - needle.len();
    let mut i: usize = 0;
    while i <= last
        invariant
            last == hay.len() - needle.len(),
            needle.len() > 0,
            i <= last + 1,
            forall|k: int| 0 <= k < i ==> !occurs_at(hay@, needle@, k),
        decreases last + 1 - i,
    {
        if occurs_at_exec(hay, needle, i) {
            return true;
        }
        i += 1;
    }
    assert forall|k: int| !occurs_at(hay@, needle@, k) by {
        if 0 <= k && k < i {
        }
    }
    false
}

/// Whether two sequences are equal up to ASCII case.
pub fn eq_ignore_ascii_case_chars(a: &Vec<char>, b: &Vec<char>) -> (r: bool)
    ensures
        r == eq_ignore_ascii(a@, b@),
{
    if a.len() != b.len() {
        assert(ascii_lower_seq(a@).len() != ascii_lower_seq(b@).len());
        return false;
    }
    let mut i: usize = 0;
    while i < a.len()
        invariant
            i <= a.len(),
            a.len() == b.len(),
            forall|k: int| 0 <= k < i ==> ascii_lower(a@[k]) == ascii_lower(b@[k]),
        decreases a.len() - i,
    {
        if to_ascii_lower(a[i]) != to_ascii_lower(b[i]) {
            assert(ascii_lower_seq(a@)[i as int] != ascii_lower_seq(b@)[i as int]);
            return false;
        }
        i += 1;
    }
    assert(ascii_lower_seq(a@) =~= ascii_lower_seq(b@));
    true
}

/// ASCII lowercase of one character.
pub fn to_ascii_lower(c: char) -> (r: char)
    ensures
        r == ascii_lower(c),
{
    if 'A' <= c && c <= 'Z' {
        let u: u32 = c as u32 + 32;
        assert(0x61 <= u <= 0x7a);
        char_from_ascii(u)
    } else {
        c
    }
}

/// The character with the given code point, for a code point in `a..=z`.
fn char_from_ascii(u: u32) -> (c: char)
    requires
        0x61 <= u <= 0x7a,
    ensures
        c == u as char,
{
    let b: u8 = u as u8;
    b as char
}

/// ASCII lowercase of every character.
pub fn ascii_lower_chars(s: &Vec<char>) -> (r: Vec<char>)
    ensures
        r@ == ascii_lower_seq(s@),
{
    let mut r: Vec<char> = Vec::new();
    let mut i: usize = 0;
    while i < s.len()
        invariant
            i <= s.len(),
            r@ == ascii_lower_seq(s@.take(i as int)),
        decreases s.len() - i,
    {
        r.push(to_ascii_lower(s[i]));
        assert(ascii_lower_seq(s@.take(i + 1)) =~= ascii_lower_seq(s@.take(i as int)).push(
            ascii_lower(s@[i as int]),
        ));
        i += 1;
    }
    assert(s@.take(s.len() as int) == s@);
    r
}


/// An occurrence at `i` is a prefix of the suffix that starts at `i`.
proof fn lemma_occurs_at_skip(s: Seq<char>, p: Seq<char>, i: int)
    requires
        0 <= i <= s.len(),
    ensures
        occurs_at(s, p, i) == p.is_prefix_of(s.skip(i)),
{
    if occurs_at(s, p, i) {
        assert forall|k: int| 0 <= k < p.len() implies p[k] == s.skip(i)[k] by {
            assert(s.subrange(i, i + p.len())[k] == s[i + k]);
        }
    }
    if p.is_prefix_of(s.skip(i)) {
        assert(s.subrange(i, i + p.len()) =~= p);
    }
}

/// Counts non-overlapping occurrences of a non-empty pattern.
pub fn count_matches_exec(s: &Vec<char>, p: &Vec<char>) -> (n: usize)
    requires
        p@.len() > 0,
    ensures
        n == count_matches(s@, p@),
{
    let mut i: usize = 0;
    let mut n: usize = 0;
    assert(s@.skip(0) =~= s@);
    while p.len() <= s.len() - i
        invariant
            0 < p@.len(),
            i <= s.len(),
            n <= i,
            count_matches(s@, p@) == n + count_matches(s@.skip(i as int), p@),
        decreases s.len() - i,
    {
        proof {
            lemma_occurs_at_skip(s@, p@, i as int);
        }
        let ghost rest = s@.skip(i as int);
        if occurs_at_exec(s, p, i) {
            assert(rest.skip(p@.len() as int) =~= s@.skip(i + p@.len()));
            n = n + 1;
            i = i + p.len();
        } else {
            assert(rest.drop_first() =~= s@.skip(i + 1));
            i = i + 1;
        }
    }
    n
}

/// Replaces every non-overlapping occurrence of a non-empty `from` by `to`.
pub fn replace_all_exec(s: &Vec<char>, from: &Vec<char>, to: &Vec<char>) -> (r: Vec<char>)
    requires
        from@.len() > 0,
    ensures
        r@ == replace_all(s@, from@, to@),
{
    let mut r: Vec<char> = Vec::new();
    let mut i: usize = 0;
    assert(s@.skip(0) =~= s@);
    assert(r@ + replace_all(s@, from@, to@) =~= replace_all(s@, from@, to@));
    while i < s.len()
        invariant
            0 < from@.len(),
            i <= s.len(),
            r@ + replace_all(s@.skip(i as int), from@, to@) == replace_all(s@, from@, to@),
        decreases s.len() - i,
    {
        proof {
            lemma_occurs_at_skip(s@, from@, i as int);
        }
        let ghost rest = s@.skip(i as int);
        if occurs_at_exec(s, from, i) {
            assert(rest.skip(from@.len() as int) =~= s@.skip(i + from@.len()));
            push_chars(&mut r, to);
            proof {
                vstd::seq_lib::lemma_concat_associative(
                    r@.subrange(0, r@.len() - to@.len()),
                    to@,
                    replace_all(s@.skip(i + from@.len()), from@, to@),
                );
                assert(r@.subrange(0, r@.len() - to@.len()) + to@ =~= r@);
            }
            i = i + from.len();
        } else {
            assert(rest.drop_first() =~= s@.skip(i + 1));
            let ghost before = r@;
            r.push(s[i]);
            proof {
                assert(rest[0] == s@[i as int]);
                vstd::seq_lib::lemma_concat_associative(
                    before,
                    seq![s@[i as int]],
                    replace_all(s@.skip(i + 1), from@, to@),
                );
                assert(before + seq![s@[i as int]] =~= r@);
            }
            i = i + 1;
        }
    }
    assert(s@.skip(i as int) =~= Seq::<char>::empty());
    assert(r@ + Seq::<char>::empty() =~= r@);
    r
}

/// Replaces every occurrence of character `a` by `b`.
pub fn replace_char(s: &Vec<char>, a: char, b: char) -> (r: Vec<char>)
    ensures
        r@ == replace_char_spec(s@, a, b),
{
    let mut r: Vec<char> = Vec::new();
    let mut i: usize = 0;
    while i < s.len()
        invariant
            i <= s.len(),
            r@ == replace_char_spec(s@.take(i as int), a, b),
        decreases s.len() - i,
    {
        let c = s[i];
        if c == a {
            r.push(b);
        } else {
            r.push(c);
        }
        assert(replace_char_spec(s@.take(i + 1), a, b) =~= replace_char_spec(
            s@.take(i as int),
            a,
            b,
        ).push(if c == a { b } else { c }));
        i += 1;
    }
    assert(s@.take(s.len() as int) == s@);
    r
}


// ---------------------------------------------------------------------------
// Words, lines, trimming.
// ---------------------------------------------------------------------------
/// The views of a sequence of character vectors.
pub open spec fn views(v: Seq<Vec<char>>) -> Seq<Seq<char>> {
    v.map_values(|x: Vec<char>| x@)
}

/// Length of the run of non-whitespace characters at the start of `s`.
pub open spec fn word_len(s: Seq<char>) -> nat
    decreases s.len(),
{
    if s.len() == 0 || white_space(s[0]) {
        0
    } else {
        1 + word_len(s.drop_first())
    }
}

pub proof fn lemma_word_len_bound(s: Seq<char>)
    ensures
        word_len(s) <= s.len(),
        s.len() > 0 && !white_space(s[0]) ==> word_len(s) >= 1,
    decreases s.len(),
{
    if s.len() > 0 && !white_space(s[0]) {
        lemma_word_len_bound(s.drop_first());
    }
}

/// The whitespace-separated words of `s` (what `str::split_whitespace` yields).
pub open spec fn words(s: Seq<char>) -> Seq<Seq<char>>
    decreases s.len(),
{
    if s.len() == 0 {
        seq![]
    } else if white_space(s[0]) {
        words(s.drop_first())
    } else {
        proof {
            lemma_word_len_bound(s);
        }
        seq![s.take(word_len(s) as int)] + words(s.skip(word_len(s) as int))
    }
}

/// Length of `s` up to its first newline (or all of it).
pub open spec fn line_len(s: Seq<char>) -> nat
    decreases s.len(),
{
    if s.len() == 0 || s[0] == '\n' {
        0
    } else {
        1 + line_len(s.drop_first())
    }
}

pub proof fn lemma_line_len_bound(s: Seq<char>)
    ensures
        line_len(s) <= s.len(),
        line_len(s) < s.len() ==> s[line_len(s) as int] == '\n',
        forall|k: int| 0 <= k < line_len(s) ==> s[k] != '\n',
    decreases s.len(),
{
    if s.len() > 0 && s[0] != '\n' {
        lemma_line_len_bound(s.drop_first());
        assert forall|k: int| 0 <= k < line_len(s) implies s[k] != '\n' by {
            if k > 0 {
                assert(s[k] == s.drop_first()[k - 1]);
            }
        }
    }
}

/// A line without the carriage return that ended it.
pub open spec fn strip_cr(l: Seq<char>) -> Seq<char> {
    if l.len() > 0 && l.last() == '\r' {
        l.drop_last()
    } else {
        l
    }
}

/// The lines of `s` (what `str::lines` yields): split at `\n`, a `\r` just
/// before a `\n` dropped, no empty line after a final `\n`.
pub open spec fn lines(s: Seq<char>) -> Seq<Seq<char>>
    decreases s.len(),
{
    if s.len() == 0 {
        seq![]
    } else if line_len(s) < s.len() {
        proof {
            lemma_line_len_bound(s);
        }
        seq![strip_cr(s.take(line_len(s) as int))] + lines(s.skip(line_len(s) as int + 1))
    } else {
        seq![s]
    }
}

/// `s` without leading whitespace.
pub open spec fn trim_start(s: Seq<char>) -> Seq<char>
    decreases s.len(),
{
    if s.len() > 0 && white_space(s[0]) {
        trim_start(s.drop_first())
    } else {
        s
    }
}

/// `s` without trailing whitespace.
pub open spec fn trim_end(s: Seq<char>) -> Seq<char>
    decreases s.len(),
{
    if s.len() > 0 && white_space(s.last()) {
        trim_end(s.drop_last())
    } else {
        s
    }
}

/// `s` without leading and trailing whitespace (what `str::trim` returns).
pub open spec fn trim(s: Seq<char>) -> Seq<char> {
    trim_end(trim_start(s))
}

proof fn lemma_trim_start_head(s: Seq<char>)
    ensures
        trim_start(s).len() > 0 ==> !white_space(trim_start(s)[0]),
    decreases s.len(),
{
    if s.len() > 0 && white_space(s[0]) {
        lemma_trim_start_head(s.drop_first());
    }
}

proof fn lemma_trim_end_prefix(s: Seq<char>)
    ensures
        trim_end(s).len() <= s.len(),
        trim_end(s) == s.take(trim_end(s).len() as int),
        trim_end(s).len() > 0 ==> !white_space(trim_end(s).last()),
    decreases s.len(),
{
    if s.len() > 0 && white_space(s.last()) {
        lemma_trim_end_prefix(s.drop_last());
        assert(s.drop_last().take(trim_end(s).len() as int) =~= s.take(trim_end(s).len() as int));
    } else {
        assert(s.take(s.len() as int) =~= s);
    }
}

/// A trimmed string neither starts nor ends with whitespace.
pub proof fn lemma_trim_clean(s: Seq<char>)
    ensures
        trim(s).len() > 0 ==> !white_space(trim(s)[0]) && !white_space(trim(s).last()),
{
    lemma_trim_start_head(s);
    lemma_trim_end_prefix(trim_start(s));
    if trim(s).len() > 0 {
        assert(trim(s)[0] == trim_start(s)[0]);
    }
}

/// A string that neither starts nor ends with whitespace is its own trim.
pub proof fn lemma_trim_fixed(s: Seq<char>)
    requires
        s.len() > 0 ==> !white_space(s[0]) && !white_space(s.last()),
    ensures
        trim(s) == s,
{
}

/// The run of non-whitespace characters from `i` ends at `j`.
proof fn lemma_word_len_at(s: Seq<char>, i: int, j: int)
    requires
        0 <= i <= j <= s.len(),
        forall|k: int| i <= k < j ==> !white_space(s[k]),
        j == s.len() || white_space(s[j]),
    ensures
        word_len(s.skip(i)) == j - i,
    decreases j - i,
{
    if i < j {
        lemma_word_len_at(s, i + 1, j);
        assert(s.skip(i).drop_first() =~= s.skip(i + 1));
    } else {
        if j < s.len() {
            assert(s.skip(i)[0] == s[j]);
        }
    }
}

/// Splits `s` into whitespace-separated words.
pub fn split_words(s: &Vec<char>) -> (r: Vec<Vec<char>>)
    ensures
        views(r@) == words(s@),
{
    let mut r: Vec<Vec<char>> = Vec::new();
    let mut i: usize = 0;
    assert(s@.skip(0) =~= s@);
    assert(views(r@) + words(s@) =~= words(s@));
    while i < s.len()
        invariant
            i <= s.len(),
            views(r@) + words(s@.skip(i as int)) == words(s@),
        decreases s.len() - i,
    {
        let ghost rest = s@.skip(i as int);
        if char_is_whitespace(s[i]) {
            assert(rest.drop_first() =~= s@.skip(i + 1));
            i += 1;
        } else {
            let mut j: usize = i;
            let mut w: Vec<char> = Vec::new();
            while j < s.len() && !char_is_whitespace(s[j])
                invariant
                    i <= j <= s.len(),
                    w@ == s@.subrange(i as int, j as int),
                    forall|k: int| i <= k < j ==> !white_space(s@[k]),
                decreases s.len() - j,
            {
                w.push(s[j]);
                assert(s@.subrange(i as int, j + 1) =~= s@.subrange(i as int, j as int).push(
                    s@[j as int],
                ));
                j += 1;
            }
            proof {
                lemma_word_len_at(s@, i as int, j as int);
                assert(rest.take(j - i) =~= w@);
                assert(rest.skip(j - i) =~= s@.skip(j as int));
                let old_r = views(r@);
                assert(views(r@.push(w)) =~= old_r.push(w@));
                vstd::seq_lib::lemma_concat_associative(old_r, seq![w@], words(s@.skip(j as int)));
                assert(old_r + seq![w@] =~= old_r.push(w@));
            }
            r.push(w);
            i = j;
        }
    }
    assert(s@.skip(i as int) =~= Seq::<char>::empty());
    assert(views(r@) + Seq::<Seq<char>>::empty() =~= views(r@));
    r
}

/// The line starting at `i` ends at `j`.
proof fn lemma_line_len_at(s: Seq<char>, i: int, j: int)
    requires
        0 <= i <= j <= s.len(),
        forall|k: int| i <= k < j ==> s[k] != '\n',
        j == s.len() || s[j] == '\n',
    ensures
        line_len(s.skip(i)) == j - i,
    decreases j - i,
{
    if i < j {
        lemma_line_len_at(s, i + 1, j);
        assert(s.skip(i).drop_first() =~= s.skip(i + 1));
    } else {
        if j < s.len() {
            assert(s.skip(i)[0] == s[j]);
        }
    }
}

/// `l` without a final carriage return.
fn strip_cr_exec(l: Vec<char>) -> (r: Vec<char>)
    ensures
        r@ == strip_cr(l@),
{
    let mut l = l;
    if l.len() > 0 && l[l.len() - 1] == '\r' {
        l.pop();
    }
    l
}

/// Splits `s` into lines.
pub fn split_lines(s: &Vec<char>) -> (r: Vec<Vec<char>>)
    ensures
        views(r@) == lines(s@),
{
    let mut r: Vec<Vec<char>> = Vec::new();
    let mut i: usize = 0;
    assert(s@.skip(0) =~= s@);
    assert(views(r@) + lines(s@) =~= lines(s@));
    while i < s.len()
        invariant
            i <= s.len(),
            views(r@) + lines(s@.skip(i as int)) == lines(s@),
        decreases s.len() - i,
    {
        let ghost rest = s@.skip(i as int);
        let mut j: usize = i;
        let mut w: Vec<char> = Vec::new();
        while j < s.len() && s[j] != '\n'
            invariant
                i <= j <= s.len(),
                w@ == s@.subrange(i as int, j as int),
                forall|k: int| i <= k < j ==> s@[k] != '\n',
            decreases s.len() - j,
        {
            w.push(s[j]);
            assert(s@.subrange(i as int, j + 1) =~= s@.subrange(i as int, j as int).push(
                s@[j as int],
            ));
            j += 1;
        }
        proof {
            lemma_line_len_at(s@, i as int, j as int);
            assert(rest.take(j - i) =~= w@);
        }
        let ghost old_r = views(r@);
        if j < s.len() {
            let line = strip_cr_exec(w);
            proof {
                assert(rest.skip(j - i + 1) =~= s@.skip(j + 1));
                assert(views(r@.push(line)) =~= old_r.push(line@));
                vstd::seq_lib::lemma_concat_associative(old_r, seq![line@], lines(s@.skip(j + 1)));
                assert(old_r + seq![line@] =~= old_r.push(line@));
            }
            r.push(line);
            i = j + 1;
        } else {
            proof {
                assert(rest =~= w@);
                assert(views(r@.push(w)) =~= old_r.push(w@));
                assert(s@.skip(j as int) =~= Seq::<char>::empty());
                assert(old_r + seq![w@] =~= old_r.push(w@));
            }
            r.push(w);
            i = j;
        }
    }
    assert(s@.skip(i as int) =~= Seq::<char>::empty());
    assert(views(r@) + Seq::<Seq<char>>::empty() =~= views(r@));
    r
}

/// `s` without leading and trailing whitespace.
pub fn trim_chars(s: &Vec<char>) -> (r: Vec<char>)
    ensures
        r@ == trim(s@),
{
    let mut a: usize = 0;
    assert(s@.subrange(0, s@.len() as int) =~= s@);
    while a < s.len() && char_is_whitespace(s[a])
        invariant
            a <= s.len(),
            trim_start(s@) == trim_start(s@.subrange(a as int, s@.len() as int)),
        decreases s.len() - a,
    {
        assert(s@.subrange(a as int, s@.len() as int).drop_first() =~= s@.subrange(
            a + 1,
            s@.len() as int,
        ));
        a += 1;
    }
    let ghost ts = s@.subrange(a as int, s@.len() as int);
    assert(trim_start(ts) == ts);
    let mut b: usize = s.len();
    assert(ts.subrange(0, ts.len() as int) =~= ts);
    while b > a && char_is_whitespace(s[b - 1])
        invariant
            a <= b <= s.len(),
            ts == s@.subrange(a as int, s@.len() as int),
            trim_end(ts) == trim_end(s@.subrange(a as int, b as int)),
        decreases b,
    {
        assert(s@.subrange(a as int, b as int).drop_last() =~= s@.subrange(a as int, b - 1));
        b -= 1;
    }
    let mut r: Vec<char> = Vec::new();
    let mut k: usize = a;
    while k < b
        invariant
            a <= k <= b <= s.len(),
            r@ == s@.subrange(a as int, k as int),
        decreases b - k,
    {
        r.push(s[k]);
        assert(s@.subrange(a as int, k + 1) =~= s@.subrange(a as int, k as int).push(s@[k as int]));
        k += 1;
    }
    r
}

// ---------------------------------------------------------------------------
// Numbers.
// ---------------------------------------------------------------------------
/// The digit character for `d < 10`.
pub open spec fn digit_char(d: nat) -> char {
    ((48 + d) as u32) as char
}

/// Decimal representation of `n`, without sign or leading zeros (what
/// `to_string` returns for an unsigned integer).
pub open spec fn decimal(n: nat) -> Seq<char>
    decreases n,
{
    if n < 10 {
        seq![digit_char(n)]
    } else {
        decimal(n / 10).push(digit_char(n % 10))
    }
}

/// The decimal form of a number is a non-empty string of the digits `0`
/// to `9`.
pub proof fn lemma_decimal_digits(n: nat)
    ensures
        decimal(n).len() > 0,
        forall|k: int| 0 <= k < decimal(n).len() ==> '0' <= #[trigger] decimal(n)[k] <= '9',
    decreases n,
{
    if n < 10 {
        assert(decimal(n)[0] == digit_char(n));
    } else {
        lemma_decimal_digits(n / 10);
        assert(decimal(n).last() == digit_char(n % 10));
        assert forall|k: int| 0 <= k < decimal(n).len() implies '0' <= #[trigger] decimal(n)[k] <= '9' by {
            if k < decimal(n / 10).len() {
                assert(decimal(n)[k] == decimal(n / 10)[k]);
            }
        }
    }
}

fn digit_exec(d: u64) -> (c: char)
    requires
        d < 10,
    ensures
        c == digit_char(d as nat),
{
    let b: u8 = 48 + d as u8;
    b as char
}

/// Decimal representation of `n`.
pub fn decimal_chars(n: u64) -> (r: Vec<char>)
    ensures
        r@ == decimal(n as nat),
    decreases n,
{
    if n < 10 {
        let mut r: Vec<char> = Vec::new();
        r.push(digit_exec(n));
        r
    } else {
        let mut r = decimal_chars(n / 10);
        r.push(digit_exec(n % 10));
        r
    }
}


// ---------------------------------------------------------------------------
// Order and equality with literals.
// ---------------------------------------------------------------------------
/// `a` is not greater than `b` in lexicographic order of code points (the
/// order of `String` and `str`, which compare UTF-8 bytes).
pub open spec fn lex_le(a: Seq<char>, b: Seq<char>) -> bool
    decreases a.len(),
{
    if a.len() == 0 {
        true
    } else if b.len() == 0 {
        false
    } else if a[0] != b[0] {
        (a[0] as u32) < (b[0] as u32)
    } else {
        lex_le(a.drop_first(), b.drop_first())
    }
}

/// Of two strings, one is not greater than the other.
pub proof fn lemma_lex_total(a: Seq<char>, b: Seq<char>)
    ensures
        lex_le(a, b) || lex_le(b, a),
    decreases a.len(),
{
    if a.len() > 0 && b.len() > 0 {
        if a[0] == b[0] {
            lemma_lex_total(a.drop_first(), b.drop_first());
        } else {
            vstd::utf8::char_u32_cast(a[0], a[0] as u32);
            vstd::utf8::char_u32_cast(b[0], b[0] as u32);
        }
    }
}

/// `lex_le` is transitive.
pub proof fn lemma_lex_trans(a: Seq<char>, b: Seq<char>, c: Seq<char>)
    requires
        lex_le(a, b),
        lex_le(b, c),
    ensures
        lex_le(a, c),
    decreases a.len(),
{
    if a.len() > 0 && b.len() > 0 && c.len() > 0 && a[0] == b[0] && b[0] == c[0] {
        lemma_lex_trans(a.drop_first(), b.drop_first(), c.drop_first());
    }
}

/// `lex_le` in both directions means equal strings.
pub proof fn lemma_lex_antisym(a: Seq<char>, b: Seq<char>)
    requires
        lex_le(a, b),
        lex_le(b, a),
    ensures
        a == b,
    decreases a.len(),
{
    if a.len() > 0 && b.len() > 0 {
        vstd::utf8::char_u32_cast(a[0], a[0] as u32);
        vstd::utf8::char_u32_cast(b[0], b[0] as u32);
        lemma_lex_antisym(a.drop_first(), b.drop_first());
        assert(a =~= seq![a[0]] + a.drop_first());
        assert(b =~= seq![b[0]] + b.drop_first());
    }
}

/// Tests `lex_le`.
pub fn lex_le_exec(a: &Vec<char>, b: &Vec<char>) -> (r: bool)
    ensures
        r == lex_le(a@, b@),
{
    let mut i: usize = 0;
    assert(a@.skip(0) =~= a@);
    assert(b@.skip(0) =~= b@);
    while i < a.len() && i < b.len() && a[i] == b[i]
        invariant
            i <= a.len(),
            i <= b.len(),
            lex_le(a@, b@) == lex_le(a@.skip(i as int), b@.skip(i as int)),
        decreases a.len() - i,
    {
        assert(a@.skip(i as int).drop_first() =~= a@.skip(i + 1));
        assert(b@.skip(i as int).drop_first() =~= b@.skip(i + 1));
        i += 1;
    }
    if i == a.len() {
        true
    } else if i == b.len() {
        false
    } else {
        assert(a@.skip(i as int)[0] == a@[i as int]);
        assert(b@.skip(i as int)[0] == b@[i as int]);
        (a[i] as u32) < (b[i] as u32)
    }
}

/// Whether the characters of `s` are those of `lit`.
pub fn str_is(s: &str, lit: &str) -> (r: bool)
    ensures
        r == (s@ == lit@),
{
    chars_eq(&chars_of(s), &chars_of(lit))
}

/// Whether the characters of `s` are those of `lit`.
pub fn chars_are(s: &Vec<char>, lit: &str) -> (r: bool)
    ensures
        r == (s@ == lit@),
{
    chars_eq(s, &chars_of(lit))
}

/// Byte length of the UTF-8 encoding of `s`.
pub open spec fn utf8_len(s: Seq<char>) -> nat {
    vstd::utf8::encode_utf8(s).len()
}

/// A string of at most one byte in UTF-8 lowercases to at most one byte.
pub proof fn lemma_one_byte_lowercase(w: Seq<char>)
    requires
        utf8_len(w) <= 1,
    ensures
        utf8_len(lowercase(w)) <= 1,
{
    reveal(lowercase);
    if w.len() == 0 {
        assert(ascii_lower_seq(w) =~= Seq::<char>::empty());
    } else {
        let c = w[0];
        assert(vstd::utf8::encode_utf8(w) == vstd::utf8::encode_scalar(c as u32) + vstd::utf8::encode_utf8(w.drop_first()));
        assert(vstd::utf8::encode_scalar(c as u32).len() >= 1);
        if w.len() > 1 {
            let d = w.drop_first();
            assert(vstd::utf8::encode_utf8(d) == vstd::utf8::encode_scalar(d[0] as u32) + vstd::utf8::encode_utf8(d.drop_first()));
            assert(vstd::utf8::encode_scalar(d[0] as u32).len() >= 1);
            assert(false);
        }
        assert(vstd::utf8::encode_scalar(c as u32).len() == 1);
        assert((c as u32) < 0x80);
        assert(all_ascii(w));
        let l = ascii_lower_seq(w);
        assert(l.len() == 1);
        assert((l[0] as u32) < 0x80);
        assert(vstd::utf8::encode_utf8(l) == vstd::utf8::encode_scalar(l[0] as u32) + vstd::utf8::encode_utf8(l.drop_first()));
        assert(l.drop_first() =~= Seq::<char>::empty());
    }
}

/// UTF-8 encoding distributes over concatenation.
pub proof fn lemma_encode_concat(a: Seq<char>, b: Seq<char>)
    ensures
        vstd::utf8::encode_utf8(a + b) == vstd::utf8::encode_utf8(a) + vstd::utf8::encode_utf8(b),
    decreases a.len(),
{
    if a.len() > 0 {
        lemma_encode_concat(a.drop_first(), b);
        assert((a + b).drop_first() =~= a.drop_first() + b);
        assert((a + b)[0] == a[0]);
        vstd::seq_lib::lemma_concat_associative(
            vstd::utf8::encode_scalar(a[0] as u32),
            vstd::utf8::encode_utf8(a.drop_first()),
            vstd::utf8::encode_utf8(b),
        );
    } else {
        assert(a + b =~= b);
        assert(vstd::utf8::encode_utf8(a) =~= Seq::<u8>::empty());
        assert(Seq::<u8>::empty() + vstd::utf8::encode_utf8(b) =~= vstd::utf8::encode_utf8(b));
    }
}

/// Byte length of the UTF-8 encoding of `v`.
pub fn utf8_len_exec(v: &Vec<char>) -> (n: usize)
    ensures
        n == utf8_len(v@),
{
    let s = string_of(v);
    let b = s.as_str().as_bytes();
    b.len()
}

/// Whether the UTF-8 encoding of `v` is longer than `k` bytes (what
/// `s.len() > k` tests for a string `s` with these characters).
pub fn utf8_len_gt(v: &Vec<char>, k: usize) -> (r: bool)
    ensures
        r == (utf8_len(v@) > k),
{
    let mut i: usize = 0;
    let mut acc: usize = 0;
    assert(v@.take(0) =~= Seq::<char>::empty());
    while i < v.len()
        invariant
            i <= v.len(),
            acc == utf8_len(v@.take(i as int)),
            acc <= k,
        decreases v.len() - i,
    {
        let w = char_width_of(v[i]);
        proof {
            assert(v@.take(i + 1) =~= v@.take(i as int) + seq![v@[i as int]]);
            lemma_encode_concat(v@.take(i as int), seq![v@[i as int]]);
        }
        if w > k - acc {
            proof {
                assert(v@ =~= v@.take(i + 1) + v@.skip(i + 1));
                lemma_encode_concat(v@.take(i + 1), v@.skip(i + 1));
            }
            return true;
        }
        acc = acc + w;
        i += 1;
    }
    assert(v@.take(v.len() as int) =~= v@);
    false
}


// ---------------------------------------------------------------------------
// Cutting at a byte count.
// ---------------------------------------------------------------------------
/// `s` cut so that its UTF-8 encoding has `n` bytes, when it is longer (the
/// prefix chosen has exactly `n` bytes); `s` itself when it is no longer.
pub open spec fn cut_to_bytes(s: Seq<char>, n: nat) -> Seq<char> {
    if utf8_len(s) <= n {
        s
    } else {
        s.take(choose|k: int| 0 <= k <= s.len() && utf8_len(s.take(k)) == n)
    }
}

/// `s` can be cut at `n` bytes: it is no longer, or byte `n` falls between
/// characters (`String::truncate` and slicing panic otherwise).
pub open spec fn cuttable(s: Seq<char>, n: nat) -> bool {
    utf8_len(s) <= n || exists|k: int| 0 <= k <= s.len() && utf8_len(s.take(k)) == n
}

/// The number of leading characters of `s` whose encoding fits in `n` bytes.
pub open spec fn fit_count(s: Seq<char>, n: nat) -> int {
    choose|k: int| 0 <= k <= s.len() && #[trigger] utf8_len(s.take(k)) <= n && (k == s.len() || utf8_len(s.take(k + 1)) > n)
}

/// Number of UTF-8 bytes of one character.
pub fn char_width_of(c: char) -> (w: usize)
    ensures
        w == vstd::utf8::encode_utf8(seq![c]).len(),
        1 <= w <= 4,
{
    let u = c as u32;
    proof {
        vstd::utf8::char_is_scalar(c);
        assert(seq![c].drop_first() =~= Seq::<char>::empty());
        assert(seq![c][0] == c);
        assert(vstd::utf8::encode_utf8(Seq::<char>::empty()) =~= Seq::<u8>::empty());
        assert(vstd::utf8::encode_utf8(seq![c]) == vstd::utf8::encode_scalar(u) + vstd::utf8::encode_utf8(Seq::<char>::empty()));
        assert(vstd::utf8::encode_utf8(seq![c]) =~= vstd::utf8::encode_scalar(u));
    }
    if u <= 0x7f {
        1
    } else if u <= 0x7ff {
        2
    } else if u <= 0xffff {
        3
    } else {
        4
    }
}

/// The encoding length of prefixes grows with the prefix.
pub proof fn lemma_prefix_len_mono(s: Seq<char>, a: int, b: int)
    requires
        0 <= a <= b <= s.len(),
    ensures
        utf8_len(s.take(a)) <= utf8_len(s.take(b)),
        a < b ==> utf8_len(s.take(a)) < utf8_len(s.take(b)),
{
    assert(s.take(b) =~= s.take(a) + s.subrange(a, b));
    lemma_encode_concat(s.take(a), s.subrange(a, b));
    if a < b {
        assert(s.subrange(a, b) =~= seq![s[a]] + s.subrange(a + 1, b));
        lemma_encode_concat(seq![s[a]], s.subrange(a + 1, b));
        vstd::utf8::char_is_scalar(s[a]);
        assert(seq![s[a]].drop_first() =~= Seq::<char>::empty());
        assert(vstd::utf8::encode_utf8(Seq::<char>::empty()) =~= Seq::<u8>::empty());
    }
}

/// The cut found by the loop is the one `cut_to_bytes` chooses, when a cut
/// at exactly `n` bytes exists.
pub proof fn lemma_cut_unique(s: Seq<char>, n: nat, j: int)
    requires
        0 <= j <= s.len(),
        utf8_len(s) > n,
        utf8_len(s.take(j)) <= n,
        j < s.len() && utf8_len(s.take(j)) < n ==> utf8_len(s.take(j + 1)) > n,
        exists|k: int| 0 <= k <= s.len() && utf8_len(s.take(k)) == n,
    ensures
        utf8_len(s.take(j)) == n,
        cut_to_bytes(s, n) == s.take(j),
{
    assert(s.take(s.len() as int) =~= s);
    let k = choose|k: int| 0 <= k <= s.len() && utf8_len(s.take(k)) == n;
    if k < j {
        lemma_prefix_len_mono(s, k, j);
    } else if j < k {
        lemma_prefix_len_mono(s, j, k);
        if utf8_len(s.take(j)) < n {
            lemma_prefix_len_mono(s, j + 1, k);
        }
    }
    assert(utf8_len(s.take(j)) == n);
    let c = choose|k: int| 0 <= k <= s.len() && utf8_len(s.take(k)) == n;
    if c < j {
        lemma_prefix_len_mono(s, c, j);
    } else if j < c {
        lemma_prefix_len_mono(s, j, c);
    }
}



/// The prefix of `d` found by scanning: as many characters as fit in `n`
/// bytes.
fn fit_prefix(d: &Vec<char>, n: usize) -> (r: (Vec<char>, usize))
    ensures
        r.0@ == d@.take(r.1 as int),
        r.1 <= d@.len(),
        utf8_len(d@.take(r.1 as int)) <= n,
        r.1 < d@.len() ==> utf8_len(d@.take(r.1 + 1)) > n,
{
    let mut r: Vec<char> = Vec::new();
    let mut acc: usize = 0;
    let mut j: usize = 0;
    assert(d@.take(0) =~= Seq::<char>::empty());
    while j < d.len()
        invariant_except_break
            j <= d@.len(),
            acc == utf8_len(d@.take(j as int)),
            acc <= n,
            r@ == d@.take(j as int),
        ensures
            j <= d@.len(),
            acc == utf8_len(d@.take(j as int)),
            acc <= n,
            r@ == d@.take(j as int),
            j < d@.len() ==> utf8_len(d@.take(j + 1)) > n,
        decreases d@.len() - j,
    {
        let w = char_width_of(d[j]);
        proof {
            assert(d@.take(j + 1) =~= d@.take(j as int) + seq![d@[j as int]]);
            lemma_encode_concat(d@.take(j as int), seq![d@[j as int]]);
        }
        if w > n - acc {
            break;
        }
        acc = acc + w;
        r.push(d[j]);
        j += 1;
    }
    (r, j)
}

/// `d` cut at `n` bytes.
pub fn cut_at_bytes(d: &Vec<char>, n: usize) -> (r: Vec<char>)
    requires
        cuttable(d@, n as nat),
    ensures
        r@ == cut_to_bytes(d@, n as nat),
{
    if utf8_len_gt(d, n) {
        let (r, j) = fit_prefix(d, n);
        proof {
            lemma_cut_unique(d@, n as nat, j as int);
        }
        r
    } else {
        d.clone()
    }
}

/// Whether `d` can be cut at `n` bytes.
pub fn cuttable_exec(d: &Vec<char>, n: usize) -> (r: bool)
    ensures
        r == cuttable(d@, n as nat),
{
    if !utf8_len_gt(d, n) {
        return true;
    }
    let (_r, j) = fit_prefix(d, n);
    let acc_is_n = utf8_len_is(d, j, n);
    proof {
        assert(d@.take(d@.len() as int) =~= d@);
        if !acc_is_n {
            assert forall|k: int| 0 <= k <= d@.len() implies utf8_len(d@.take(k)) != n by {
                if k <= j {
                    lemma_prefix_len_mono(d@, k, j as int);
                } else {
                    lemma_prefix_len_mono(d@, j + 1, k);
                }
            }
        }
    }
    acc_is_n
}

/// Whether the first `j` characters of `d` take exactly `n` bytes.
fn utf8_len_is(d: &Vec<char>, j: usize, n: usize) -> (r: bool)
    requires
        j <= d@.len(),
        utf8_len(d@.take(j as int)) <= n,
    ensures
        r == (utf8_len(d@.take(j as int)) == n),
{
    let mut acc: usize = 0;
    let mut i: usize = 0;
    assert(d@.take(0) =~= Seq::<char>::empty());
    while i < j
        invariant
            i <= j <= d@.len(),
            acc == utf8_len(d@.take(i as int)),
            utf8_len(d@.take(j as int)) <= n,
        decreases j - i,
    {
        let w = char_width_of(d[i]);
        proof {
            assert(d@.take(i + 1) =~= d@.take(i as int) + seq![d@[i as int]]);
            lemma_encode_concat(d@.take(i as int), seq![d@[i as int]]);
            lemma_prefix_len_mono(d@, i + 1, j as int);
        }
        acc = acc + w;
        i += 1;
    }
    acc == n
}

/// The longest prefix of `d` whose encoding fits in `n` bytes.
pub fn prefix_within(d: &Vec<char>, n: usize) -> (r: Vec<char>)
    ensures
        r@ == d@.take(fit_count(d@, n as nat)),
{
    let (r, j) = fit_prefix(d, n);
    proof {
        let k = fit_count(d@, n as nat);
        assert(exists|k: int| 0 <= k <= d@.len() && #[trigger] utf8_len(d@.take(k)) <= n && (k == d@.len() || utf8_len(d@.take(k + 1)) > n)) by {
            assert(0 <= j <= d@.len());
        }
        if k < j {
            lemma_prefix_len_mono(d@, k + 1, j as int);
        } else if j < k {
            lemma_prefix_len_mono(d@, j + 1, k);
        }
    }
    r
}

// ---------------------------------------------------------------------------
// Joining.
// ---------------------------------------------------------------------------
/// The characters of each string.
pub open spec fn string_views(s: Seq<String>) -> Seq<Seq<char>> {
    s.map_values(|x: String| x@)
}

/// `parts` joined with `sep` between neighbours (what `[String]::join`
/// returns).
pub open spec fn join_seqs(parts: Seq<Seq<char>>, sep: Seq<char>) -> Seq<char>
    decreases parts.len(),
{
    if parts.len() == 0 {
        Seq::<char>::empty()
    } else if parts.len() == 1 {
        parts[0]
    } else {
        join_seqs(parts.drop_last(), sep) + sep + parts.last()
    }
}

/// Joins `parts` with `sep` between neighbours.
pub fn join_strings(parts: &Vec<String>, sep: &str) -> (r: String)
    ensures
        r@ == join_seqs(string_views(parts@), sep@),
{
    let ghost pv = string_views(parts@);
    let mut out: Vec<char> = Vec::new();
    let mut i: usize = 0;
    while i < parts.len()
        invariant
            i <= parts.len(),
            pv == string_views(parts@),
            out@ == join_seqs(pv.take(i as int), sep@),
        decreases parts.len() - i,
    {
        proof {
            assert(pv.take(i + 1).drop_last() =~= pv.take(i as int));
            assert(pv.take(i + 1).last() == parts@[i as int]@);
        }
        if i > 0 {
            push_str_chars(&mut out, sep);
        } else {
            assert(pv.take(1) =~= seq![parts@[0]@]);
        }
        push_str_chars(&mut out, parts[i].as_str());
        i += 1;
    }
    assert(pv.take(parts.len() as int) =~= pv);
    string_of(&out)
}

} // verus!

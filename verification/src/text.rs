//! Character-level text utilities with exact specifications.

use vstd::prelude::*;

verus! {

/// Appending a character to a `String` adds it at the end.
pub assume_specification[ String::push ](s: &mut String, ch: char)
    ensures
        final(s)@ == old(s)@.push(ch),
;

/// Copies the characters of a string slice into a vector.
pub fn chars_of(s: &str) -> (v: Vec<char>)
    ensures
        v@ == s@,
{
    broadcast use vstd::string::group_string_axioms;
    let mut v: Vec<char> = Vec::new();
    for c in it: s.chars()
        invariant
            it.seq() == s@,
            v@ == s@.take(it.index() as int),
    {
        v.push(c);
        assert(v@ =~= s@.take(it.index() + 1));
    }
    assert(s@.take(s@.len() as int) =~= s@);
    v
}

/// The character of a decimal digit `0..=9`.
pub open spec fn digit_char(d: nat) -> char {
    ((48 + d) as u32) as char
}

/// The decimal notation of a natural number, most significant digit first,
/// with no leading zeros (`0` is written as a single `0`).
pub open spec fn decimal(n: nat) -> Seq<char>
    decreases n,
{
    if n < 10 {
        seq![digit_char(n)]
    } else {
        decimal(n / 10).push(digit_char(n % 10))
    }
}

/// The number that a sequence of decimal digits denotes.
pub open spec fn decimal_value(s: Seq<char>) -> int
    decreases s.len(),
{
    if s.len() == 0 {
        0
    } else {
        decimal_value(s.drop_last()) * 10 + (s.last() as int - 48)
    }
}

/// Whether every character is an ASCII decimal digit.
pub open spec fn all_digits(s: Seq<char>) -> bool {
    forall|i: int| 0 <= i < s.len() ==> '0' <= #[trigger] s[i] <= '9'
}

fn digit(d: u64) -> (c: char)
    requires
        d < 10,
    ensures
        c == digit_char(d as nat),
{
    let b: u8 = (d as u8) + 48;
    b as char
}

/// Appends the decimal notation of `n` to `out`.
pub fn push_decimal(out: &mut String, n: u64)
    ensures
        final(out)@ == old(out)@ + decimal(n as nat),
    decreases n,
{
    if n >= 10 {
        push_decimal(out, n / 10);
    }
    let c = digit(n % 10);
    out.push(c);
    assert(final(out)@ =~= old(out)@ + decimal(n as nat));
}

/// The decimal notation is made of digits, starts with a non-zero digit
/// unless the number is zero, and denotes the number it was made from.
pub proof fn lemma_decimal_round_trip(n: nat)
    ensures
        all_digits(decimal(n)),
        decimal(n).len() >= 1,
        decimal(n).len() > 1 ==> decimal(n)[0] != '0',
        decimal_value(decimal(n)) == n,
    decreases n,
{
    let d = decimal(n);
    if n >= 10 {
        lemma_decimal_round_trip(n / 10);
        let p = decimal(n / 10);
        assert(d == p.push(digit_char(n % 10)));
        assert(d.drop_last() =~= p);
        assert(d[0] == p[0]);
        assert(d.last() as int == 48 + n % 10);
        assert(decimal_value(d) == decimal_value(p) * 10 + (d.last() as int - 48));
        assert(decimal_value(d) == (n / 10) * 10 + n % 10);
        if n / 10 < 10 {
            assert(p[0] as int == 48 + n / 10);
        } else {
            lemma_decimal_round_trip(n / 100);
            assert(p.len() == decimal(n / 10 / 10).len() + 1);
        }
    } else {
        assert(d[0] as int == 48 + n);
        assert(d.drop_last() =~= Seq::<char>::empty());
        assert(decimal_value(d) == decimal_value(d.drop_last()) * 10 + (d.last() as int - 48));
    }
}

/// Whether `s` begins with `prefix`.
pub open spec fn starts_with(s: Seq<char>, prefix: Seq<char>) -> bool {
    prefix.len() <= s.len() && s.subrange(0, prefix.len() as int) == prefix
}

/// `s` with every occurrence of `pat` replaced by `rep`, scanning from the
/// left and never letting two replaced occurrences overlap.
pub open spec fn replace_all(s: Seq<char>, pat: Seq<char>, rep: Seq<char>) -> Seq<char>
    recommends
        pat.len() > 0,
    decreases s.len(),
{
    if s.len() == 0 || pat.len() == 0 {
        s
    } else if starts_with(s, pat) {
        rep + replace_all(s.skip(pat.len() as int), pat, rep)
    } else {
        seq![s[0]] + replace_all(s.skip(1), pat, rep)
    }
}

/// Whether `pat` occurs in `s` starting at position `i`.
pub fn matches_at(s: &Vec<char>, i: usize, pat: &Vec<char>) -> (r: bool)
    requires
        i <= s.len(),
    ensures
        r == starts_with(s@.skip(i as int), pat@),
{
    if pat.len() > s.len() - i {
        return false;
    }
    let mut j: usize = 0;
    while j < pat.len()
        invariant
            i + pat.len() <= s.len(),
            j <= pat.len(),
            forall|k: int| 0 <= k < j ==> s@[i + k] == pat@[k],
        decreases pat.len() - j,
    {
        if s[i + j] != pat[j] {
            assert(s@.skip(i as int).subrange(0, pat.len() as int)[j as int] != pat@[j as int]);
            return false;
        }
        j += 1;
    }
    assert(s@.skip(i as int).subrange(0, pat@.len() as int) =~= pat@);
    true
}

/// Appends a string slice to a `String`.
pub fn push_str(out: &mut String, s: &str)
    ensures
        final(out)@ == old(out)@ + s@,
{
    out.append(s);
}

/// Appends a sequence of characters to a `String`.
pub fn push_chars(out: &mut String, s: &Vec<char>)
    ensures
        final(out)@ == old(out)@ + s@,
{
    let mut i: usize = 0;
    while i < s.len()
        invariant
            i <= s.len(),
            out@ == old(out)@ + s@.take(i as int),
        decreases s.len() - i,
    {
        out.push(s[i]);
        i += 1;
        assert(out@ =~= old(out)@ + s@.take(i as int));
    }
    assert(s@.take(s@.len() as int) =~= s@);
}

/// Replaces every occurrence of `pat` in `s` by `rep`, as `str::replace` does.
pub fn replace_all_chars(s: &Vec<char>, pat: &Vec<char>, rep: &Vec<char>) -> (r: String)
    requires
        pat.len() > 0,
    ensures
        r@ == replace_all(s@, pat@, rep@),
{
    let mut out = String::new();
    let mut i: usize = 0;
    assert(s@.skip(0) =~= s@);
    assert(out@ + replace_all(s@, pat@, rep@) =~= replace_all(s@, pat@, rep@));
    while i < s.len()
        invariant
            i <= s.len(),
            pat@.len() > 0,
            out@ + replace_all(s@.skip(i as int), pat@, rep@) == replace_all(s@, pat@, rep@),
        decreases s.len() - i,
    {
        let ghost rest = s@.skip(i as int);
        if matches_at(s, i, pat) {
            push_chars(&mut out, rep);
            assert(rest.skip(pat@.len() as int) =~= s@.skip(i + pat@.len()));
            assert(out@ + replace_all(s@.skip(i + pat@.len()), pat@, rep@) =~= replace_all(s@, pat@, rep@));
            i += pat.len();
        } else {
            out.push(s[i]);
            assert(rest.skip(1) =~= s@.skip(i + 1));
            assert(out@ + replace_all(s@.skip(i + 1), pat@, rep@) =~= replace_all(s@, pat@, rep@));
            i += 1;
        }
    }
    assert(s@.skip(s@.len() as int) =~= Seq::<char>::empty());
    assert(out@ =~= replace_all(s@, pat@, rep@));
    out
}

/// The first position at or after `i` where `pat` occurs in `s`.
pub open spec fn find_from(s: Seq<char>, pat: Seq<char>, i: int) -> Option<int>
    decreases s.len() + 1 - i,
{
    if i < 0 || i > s.len() {
        None
    } else if starts_with(s.skip(i), pat) {
        Some(i)
    } else {
        find_from(s, pat, i + 1)
    }
}

/// The first position where `pat` occurs in `s`, as `str::find` gives it.
pub open spec fn find(s: Seq<char>, pat: Seq<char>) -> Option<int> {
    find_from(s, pat, 0)
}

/// Whether `pat` occurs somewhere in `s`.
pub open spec fn contains_seq(s: Seq<char>, pat: Seq<char>) -> bool {
    find(s, pat) is Some
}

/// Finds the first occurrence of `pat` in `s`.
pub fn find_chars(s: &Vec<char>, pat: &Vec<char>) -> (r: Option<usize>)
    ensures
        r matches Some(i) ==> find(s@, pat@) == Some(i as int),
        r is None ==> find(s@, pat@) is None,
{
    let mut i: usize = 0;
    loop
        invariant
            i <= s.len(),
            find(s@, pat@) == find_from(s@, pat@, i as int),
        decreases s.len() - i,
    {
        if matches_at(s, i, pat) {
            return Some(i);
        }
        if i == s.len() {
            assert(find_from(s@, pat@, i + 1) is None);
            return None;
        }
        i += 1;
    }
}

/// Lowercases ASCII letters and leaves every other character as it is.
pub open spec fn ascii_lower(c: char) -> char {
    if 'A' <= c <= 'Z' {
        ((c as u32) + 32) as char
    } else {
        c
    }
}

/// The string with its ASCII letters lowercased.
pub open spec fn lowercase(s: Seq<char>) -> Seq<char> {
    s.map_values(|c: char| ascii_lower(c))
}

/// Lowercases the ASCII letters of a sequence of characters.
pub fn lowercase_chars(s: &Vec<char>) -> (r: Vec<char>)
    ensures
        r@ == lowercase(s@),
{
    let mut r: Vec<char> = Vec::new();
    let mut i: usize = 0;
    while i < s.len()
        invariant
            i <= s.len(),
            r@ == lowercase(s@.take(i as int)),
        decreases s.len() - i,
    {
        let c = s[i];
        let l = if 'A' <= c && c <= 'Z' {
            let b: u8 = (c as u8) + 32;
            b as char
        } else {
            c
        };
        r.push(l);
        i += 1;
        assert(r@ =~= lowercase(s@.take(i as int)));
    }
    assert(s@.take(s@.len() as int) =~= s@);
    r
}

/// Replacing a single character by a text that lacks it leaves no occurrence
/// of that character.
pub proof fn lemma_replace_char_removes_it(s: Seq<char>, c: char, rep: Seq<char>)
    requires
        !rep.contains(c),
    ensures
        !replace_all(s, seq![c], rep).contains(c),
    decreases s.len(),
{
    let pat = seq![c];
    if s.len() > 0 {
        if starts_with(s, pat) {
            lemma_replace_char_removes_it(s.skip(1), c, rep);
            let rest = replace_all(s.skip(1), pat, rep);
            assert forall|i: int| 0 <= i < (rep + rest).len() implies (rep + rest)[i] != c by {
                if i < rep.len() {
                    assert(rep[i] == (rep + rest)[i]);
                } else {
                    assert(rest[i - rep.len()] == (rep + rest)[i]);
                }
            }
        } else {
            lemma_replace_char_removes_it(s.skip(1), c, rep);
            let rest = replace_all(s.skip(1), pat, rep);
            assert(s.subrange(0, 1) =~= seq![s[0]]);
            assert(s[0] != c);
            assert forall|i: int| 0 <= i < (seq![s[0]] + rest).len() implies (seq![s[0]] + rest)[i] != c by {
                if i >= 1 {
                    assert(rest[i - 1] == (seq![s[0]] + rest)[i]);
                }
            }
        }
    }
}

/// A text in which the first character of the pattern never occurs is left
/// unchanged by the replacement.
pub proof fn lemma_replace_absent(s: Seq<char>, pat: Seq<char>, rep: Seq<char>)
    requires
        pat.len() > 0,
        !s.contains(pat[0]),
    ensures
        replace_all(s, pat, rep) == s,
    decreases s.len(),
{
    if s.len() > 0 {
        assert(s[0] != pat[0]);
        if starts_with(s, pat) {
            assert(s.subrange(0, pat.len() as int)[0] == s[0]);
        }
        assert forall|i: int| 0 <= i < s.skip(1).len() implies s.skip(1)[i] != pat[0] by {
            assert(s.skip(1)[i] == s[i + 1]);
        }
        lemma_replace_absent(s.skip(1), pat, rep);
        assert(seq![s[0]] + s.skip(1) =~= s);
    }
}

/// The characters of `s` from position `from` up to, not including, `to`.
pub fn slice_chars(s: &Vec<char>, from: usize, to: usize) -> (r: Vec<char>)
    requires
        from <= to <= s.len(),
    ensures
        r@ == s@.subrange(from as int, to as int),
{
    let mut r: Vec<char> = Vec::new();
    let mut i: usize = from;
    while i < to
        invariant
            from <= i <= to <= s.len(),
            r@ == s@.subrange(from as int, i as int),
        decreases to - i,
    {
        r.push(s[i]);
        i += 1;
        assert(r@ =~= s@.subrange(from as int, i as int));
    }
    r
}

/// Makes a `String` out of a sequence of characters.
pub fn string_of(s: &Vec<char>) -> (r: String)
    ensures
        r@ == s@,
{
    let mut r = String::new();
    push_chars(&mut r, s);
    r
}

/// The number of characters before the first `c` (all of them if there is none).
pub open spec fn count_until(s: Seq<char>, c: char) -> nat
    decreases s.len(),
{
    if s.len() == 0 || s[0] == c {
        0
    } else {
        1 + count_until(s.skip(1), c)
    }
}

/// The characters before the first `c`, as `s.split(c).next()` gives them.
pub open spec fn before_char(s: Seq<char>, c: char) -> Seq<char> {
    s.take(count_until(s, c) as int)
}

/// The count of characters before the first `c` is within the sequence, and
/// where it stops short of the end, a `c` stands there.
pub proof fn lemma_count_until(s: Seq<char>, c: char)
    ensures
        count_until(s, c) <= s.len(),
        count_until(s, c) < s.len() ==> s[count_until(s, c) as int] == c,
        forall|k: int| 0 <= k < count_until(s, c) ==> s[k] != c,
    decreases s.len(),
{
    if s.len() > 0 && s[0] != c {
        lemma_count_until(s.skip(1), c);
        assert forall|k: int| 0 <= k < count_until(s, c) implies s[k] != c by {
            if k > 0 {
                assert(s[k] == s.skip(1)[k - 1]);
            }
        }
    }
}

/// Counts the characters of `s` from position `i` before the next `c`.
pub fn count_until_from(s: &Vec<char>, i: usize, c: char) -> (n: usize)
    requires
        i <= s.len(),
    ensures
        n == count_until(s@.skip(i as int), c),
        i + n <= s.len(),
{
    let mut j: usize = i;
    while j < s.len() && s[j] != c
        invariant
            i <= j <= s.len(),
            count_until(s@.skip(i as int), c) == (j - i) + count_until(s@.skip(j as int), c),
        decreases s.len() - j,
    {
        assert(s@.skip(j as int).skip(1) =~= s@.skip(j + 1));
        j += 1;
    }
    j - i
}

/// The characters before the first `c`.
pub fn before_char_chars(s: &Vec<char>, c: char) -> (r: Vec<char>)
    ensures
        r@ == before_char(s@, c),
{
    assert(s@.skip(0) =~= s@);
    let n = count_until_from(s, 0, c);
    slice_chars(s, 0, n)
}

/// Whether `c` is ASCII whitespace as `u8::is_ascii_whitespace` counts it:
/// space, horizontal tab, line feed, form feed or carriage return.
pub open spec fn ascii_space(c: char) -> bool {
    c == ' ' || c == '\t' || c == '\n' || c == '\x0C' || c == '\r'
}

/// Whether `c` has the Unicode `White_Space` property, as `char::is_whitespace`
/// tests it.
pub open spec fn unicode_space(c: char) -> bool {
    ||| ('\t' <= c && c <= '\r')
    ||| c == ' '
    ||| c == '\u{85}'
    ||| c == '\u{A0}'
    ||| c == '\u{1680}'
    ||| ('\u{2000}' <= c && c <= '\u{200A}')
    ||| c == '\u{2028}'
    ||| c == '\u{2029}'
    ||| c == '\u{202F}'
    ||| c == '\u{205F}'
    ||| c == '\u{3000}'
}

/// Whitespace of the given kind: ASCII when `ascii` holds, Unicode otherwise.
pub open spec fn is_space(c: char, ascii: bool) -> bool {
    if ascii {
        ascii_space(c)
    } else {
        unicode_space(c)
    }
}

/// Tests a character for whitespace of the given kind.
pub fn is_space_char(c: char, ascii: bool) -> (r: bool)
    ensures
        r == is_space(c, ascii),
{
    if ascii {
        c == ' ' || c == '\t' || c == '\n' || c == '\x0C' || c == '\r'
    } else {
        ('\t' <= c && c <= '\r') || c == ' ' || c == '\u{85}' || c == '\u{A0}' || c == '\u{1680}'
            || ('\u{2000}' <= c && c <= '\u{200A}') || c == '\u{2028}' || c == '\u{2029}'
            || c == '\u{202F}' || c == '\u{205F}' || c == '\u{3000}'
    }
}

/// The number of characters before the first whitespace.
pub open spec fn word_len(s: Seq<char>, ascii: bool) -> nat
    decreases s.len(),
{
    if s.len() == 0 || is_space(s[0], ascii) {
        0
    } else {
        1 + word_len(s.skip(1), ascii)
    }
}

/// The length of the first word is within the sequence.
pub proof fn lemma_word_len_bound(s: Seq<char>, ascii: bool)
    ensures
        word_len(s, ascii) <= s.len(),
    decreases s.len(),
{
    if s.len() > 0 && !is_space(s[0], ascii) {
        lemma_word_len_bound(s.skip(1), ascii);
    }
}

/// The words of `s`: the maximal runs of characters that are not whitespace of
/// the given kind, in order, as `split_ascii_whitespace` (for ASCII) or
/// `split_whitespace` (for Unicode) gives them.
pub open spec fn words(s: Seq<char>, ascii: bool) -> Seq<Seq<char>>
    decreases s.len(),
{
    if s.len() == 0 {
        seq![]
    } else if is_space(s[0], ascii) {
        words(s.skip(1), ascii)
    } else {
        let n = word_len(s, ascii);
        proof {
            lemma_word_len_bound(s, ascii);
        }
        seq![s.take(n as int)] + words(s.skip(n as int), ascii)
    }
}

/// Whether `c` is one of the characters that `u8::is_ascii_whitespace` counts:
/// space, tab, line feed, form feed and carriage return.
pub open spec fn ascii_whitespace_char(c: char) -> bool {
    c == ' ' || c == '\t' || c == '\n' || c == '\x0C' || c == '\r'
}

/// Whether `c` has the Unicode `White_Space` property: tab, line feed,
/// vertical tab, form feed, carriage return, space, next line, no-break space,
/// ogham space mark, the spaces from en quad to hair space, line and paragraph
/// separators, narrow no-break space, medium mathematical space and
/// ideographic space.
pub open spec fn unicode_whitespace_char(c: char) -> bool {
    c == '\t' || c == '\n' || c == '\x0B' || c == '\x0C' || c == '\r' || c == ' ' || c == '\u{85}' || c
        == '\u{A0}' || c == '\u{1680}' || c == '\u{2000}' || c == '\u{2001}' || c == '\u{2002}' || c
        == '\u{2003}' || c == '\u{2004}' || c == '\u{2005}' || c == '\u{2006}' || c == '\u{2007}' || c
        == '\u{2008}' || c == '\u{2009}' || c == '\u{200A}' || c == '\u{2028}' || c == '\u{2029}' || c
        == '\u{202F}' || c == '\u{205F}' || c == '\u{3000}'
}

/// `s` with the characters that satisfy `f` removed.
pub open spec fn without_chars(s: Seq<char>, f: spec_fn(char) -> bool) -> Seq<char>
    decreases s.len(),
{
    if s.len() == 0 {
        s
    } else if f(s[0]) {
        without_chars(s.skip(1), f)
    } else {
        seq![s[0]] + without_chars(s.skip(1), f)
    }
}

/// The words of a list, one after the other.
pub open spec fn joined(ws: Seq<Seq<char>>) -> Seq<char>
    decreases ws.len(),
{
    if ws.len() == 0 {
        Seq::empty()
    } else {
        ws[0] + joined(ws.drop_first())
    }
}

/// The first word runs up to the first whitespace.
proof fn lemma_word_len_chars(s: Seq<char>, ascii: bool)
    ensures
        word_len(s, ascii) <= s.len(),
        forall|k: int| 0 <= k < word_len(s, ascii) ==> !is_space(#[trigger] s[k], ascii),
    decreases s.len(),
{
    if s.len() > 0 && !is_space(s[0], ascii) {
        lemma_word_len_chars(s.skip(1), ascii);
        assert forall|k: int| 0 <= k < word_len(s, ascii) implies !is_space(#[trigger] s[k], ascii) by {
            if k > 0 {
                assert(s[k] == s.skip(1)[k - 1]);
            }
        }
    }
}

/// A run of kept characters at the front of a text is kept whole.
proof fn lemma_without_chars_run(s: Seq<char>, n: int, f: spec_fn(char) -> bool)
    requires
        0 <= n <= s.len(),
        forall|k: int| 0 <= k < n ==> !f(#[trigger] s[k]),
    ensures
        without_chars(s, f) == s.take(n) + without_chars(s.skip(n), f),
    decreases n,
{
    if n == 0 {
        assert(s.skip(0) =~= s);
        assert(s.take(0) + without_chars(s, f) =~= without_chars(s, f));
    } else {
        let t = s.skip(1);
        assert forall|k: int| 0 <= k < n - 1 implies !f(#[trigger] t[k]) by {
            assert(t[k] == s[k + 1]);
        }
        lemma_without_chars_run(t, n - 1, f);
        assert(!f(s[0]));
        assert(t.skip(n - 1) =~= s.skip(n));
        assert(seq![s[0]] + (t.take(n - 1) + without_chars(s.skip(n), f)) =~= s.take(n) + without_chars(
            s.skip(n),
            f,
        ));
    }
}

/// The words of a text, for whitespace told by `f`: none is empty, none holds
/// whitespace, and one after the other they are the text without whitespace.
proof fn lemma_words_split(s: Seq<char>, ascii: bool, f: spec_fn(char) -> bool)
    requires
        forall|c: char| #[trigger] is_space(c, ascii) <==> f(c),
    ensures
        forall|i: int| 0 <= i < words(s, ascii).len() ==> (#[trigger] words(s, ascii)[i]).len() > 0,
        forall|i: int, k: int|
            0 <= i < words(s, ascii).len() && 0 <= k < words(s, ascii)[i].len() ==> !f(#[trigger] words(s, ascii)[i][k]),
        joined(words(s, ascii)) == without_chars(s, f),
    decreases s.len(),
{
    if s.len() > 0 {
        if is_space(s[0], ascii) {
            lemma_words_split(s.skip(1), ascii, f);
        } else {
            let n = word_len(s, ascii);
            lemma_word_len_chars(s, ascii);
            let w = s.take(n as int);
            let rest = s.skip(n as int);
            lemma_words_split(rest, ascii, f);
            let ws = words(s, ascii);
            assert(ws == seq![w] + words(rest, ascii));
            assert(ws.drop_first() =~= words(rest, ascii));
            assert forall|k: int| 0 <= k < n implies !f(#[trigger] s[k]) by {
                assert(!is_space(s[k], ascii));
            }
            lemma_without_chars_run(s, n as int, f);
            assert forall|i: int| 0 <= i < ws.len() implies (#[trigger] ws[i]).len() > 0 by {
                if i > 0 {
                    assert(ws[i] == words(rest, ascii)[i - 1]);
                }
            }
            assert forall|i: int, k: int| 0 <= i < ws.len() && 0 <= k < ws[i].len() implies !f(#[trigger] ws[i][k]) by {
                if i > 0 {
                    assert(ws[i] == words(rest, ascii)[i - 1]);
                } else {
                    assert(ws[0][k] == s[k]);
                }
            }
        }
    }
}

/// The ASCII words of a text, as `split_ascii_whitespace` gives them: none is
/// empty, none holds a space, tab, line feed, form feed or carriage return,
/// and one after the other they are the text with that whitespace removed.
pub proof fn ascii_words_split_at_whitespace(s: Seq<char>)
    ensures
        forall|i: int| 0 <= i < words(s, true).len() ==> (#[trigger] words(s, true)[i]).len() > 0,
        forall|i: int, k: int|
            0 <= i < words(s, true).len() && 0 <= k < words(s, true)[i].len() ==> !ascii_whitespace_char(
                #[trigger] words(s, true)[i][k],
            ),
        joined(words(s, true)) == without_chars(s, |c: char| ascii_whitespace_char(c)),
{
    lemma_words_split(s, true, |c: char| ascii_whitespace_char(c));
}

/// The words of a text, as `split_whitespace` gives them: none is empty, none
/// holds a character of Unicode whitespace, and one after the other they are
/// the text with that whitespace removed.
pub proof fn unicode_words_split_at_whitespace(s: Seq<char>)
    ensures
        forall|i: int| 0 <= i < words(s, false).len() ==> (#[trigger] words(s, false)[i]).len() > 0,
        forall|i: int, k: int|
            0 <= i < words(s, false).len() && 0 <= k < words(s, false)[i].len() ==> !unicode_whitespace_char(
                #[trigger] words(s, false)[i][k],
            ),
        joined(words(s, false)) == without_chars(s, |c: char| unicode_whitespace_char(c)),
{
    lemma_words_split(s, false, |c: char| unicode_whitespace_char(c));
}

/// Splits `s` into its words.
pub fn split_words(s: &Vec<char>, ascii: bool) -> (r: Vec<Vec<char>>)
    ensures
        r@.map_values(|w: Vec<char>| w@) == words(s@, ascii),
{
    let mut r: Vec<Vec<char>> = Vec::new();
    let mut i: usize = 0;
    assert(s@.skip(0) =~= s@);
    while i < s.len()
        invariant
            i <= s.len(),
            r@.map_values(|w: Vec<char>| w@) + words(s@.skip(i as int), ascii) == words(s@, ascii),
        decreases s.len() - i,
    {
        let ghost rest = s@.skip(i as int);
        if is_space_char(s[i], ascii) {
            assert(rest.skip(1) =~= s@.skip(i + 1));
            i += 1;
        } else {
            let mut j: usize = i;
            while j < s.len() && !is_space_char(s[j], ascii)
                invariant
                    i <= j <= s.len(),
                    word_len(rest, ascii) == (j - i) + word_len(s@.skip(j as int), ascii),
                decreases s.len() - j,
            {
                assert(s@.skip(j as int).skip(1) =~= s@.skip(j + 1));
                j += 1;
            }
            let w = slice_chars(s, i, j);
            let ghost old_r = r@.map_values(|w: Vec<char>| w@);
            r.push(w);
            assert(r@.map_values(|w: Vec<char>| w@) =~= old_r.push(s@.subrange(i as int, j as int)));
            assert(rest.take((j - i) as int) =~= s@.subrange(i as int, j as int));
            assert(rest.skip((j - i) as int) =~= s@.skip(j as int));
            assert(r@.map_values(|w: Vec<char>| w@) + words(s@.skip(j as int), ascii) =~= words(s@, ascii));
            i = j;
        }
    }
    assert(s@.skip(i as int) =~= Seq::<char>::empty());
    assert(r@.map_values(|w: Vec<char>| w@) =~= words(s@, ascii));
    r
}

/// The number of whitespace characters at the start of `s`.
pub open spec fn leading_space(s: Seq<char>) -> nat
    decreases s.len(),
{
    if s.len() == 0 || !unicode_space(s[0]) {
        0
    } else {
        1 + leading_space(s.skip(1))
    }
}

/// The number of whitespace characters at the end of `s`.
pub open spec fn trailing_space(s: Seq<char>) -> nat
    decreases s.len(),
{
    if s.len() == 0 || !unicode_space(s.last()) {
        0
    } else {
        1 + trailing_space(s.drop_last())
    }
}

/// `s` without its leading and trailing Unicode whitespace, as `str::trim` gives it.
pub open spec fn trim(s: Seq<char>) -> Seq<char> {
    let t = s.skip(leading_space(s) as int);
    t.take(t.len() - trailing_space(t))
}

/// Removes the leading and trailing whitespace of a sequence of characters.
pub fn trim_chars(s: &Vec<char>) -> (r: Vec<char>)
    ensures
        r@ == trim(s@),
{
    let mut i: usize = 0;
    assert(s@.skip(0) =~= s@);
    while i < s.len() && is_space_char(s[i], false)
        invariant
            i <= s.len(),
            leading_space(s@) == i + leading_space(s@.skip(i as int)),
        decreases s.len() - i,
    {
        assert(s@.skip(i as int).skip(1) =~= s@.skip(i + 1));
        i += 1;
    }
    let ghost t = s@.skip(i as int);
    let mut j: usize = s.len();
    assert(t.take((j - i) as int) =~= t);
    while j > i && is_space_char(s[j - 1], false)
        invariant
            i <= j <= s.len(),
            t == s@.skip(i as int),
            trailing_space(t) == (s.len() - j) + trailing_space(t.take((j - i) as int)),
        decreases j - i,
    {
        assert(t.take((j - i) as int).drop_last() =~= t.take((j - 1 - i) as int));
        assert(t.take((j - i) as int).last() == s@[j - 1]);
        j -= 1;
    }
    proof {
        if j > i {
            assert(t.take((j - i) as int).last() == s@[j - 1]);
        }
    }
    let r = slice_chars(s, i, j);
    assert(r@ =~= t.take(t.len() - trailing_space(t)));
    r
}

/// The line as `str::lines` yields it: without its final `\r`, if any.
pub open spec fn strip_cr(l: Seq<char>) -> Seq<char> {
    if l.len() > 0 && l.last() == '\r' {
        l.drop_last()
    } else {
        l
    }
}

/// The lines of a text, as `str::lines` splits it: at each `\n`, removing a
/// `\r` that comes just before the `\n`; a final line without `\n` is kept as
/// it is, and a final `\n` starts no further line.
pub open spec fn text_lines(s: Seq<char>) -> Seq<Seq<char>>
    decreases s.len(),
{
    if s.len() == 0 {
        seq![]
    } else {
        let n = count_until(s, '\n');
        proof {
            lemma_count_until(s, '\n');
        }
        if n >= s.len() {
            seq![s]
        } else {
            seq![strip_cr(s.take(n as int))] + text_lines(s.skip((n + 1) as int))
        }
    }
}

/// Splits a text into its lines.
pub fn split_lines(s: &Vec<char>) -> (r: Vec<Vec<char>>)
    ensures
        r@.map_values(|l: Vec<char>| l@) == text_lines(s@),
{
    let mut r: Vec<Vec<char>> = Vec::new();
    let mut i: usize = 0;
    assert(s@.skip(0) =~= s@);
    while i < s.len()
        invariant
            i <= s.len(),
            r@.map_values(|l: Vec<char>| l@) + text_lines(s@.skip(i as int)) == text_lines(s@),
        decreases s.len() - i,
    {
        let ghost rest = s@.skip(i as int);
        let n = count_until_from(s, i, '\n');
        proof {
            lemma_count_until(rest, '\n');
        }
        let ghost old_r = r@.map_values(|l: Vec<char>| l@);
        if i + n == s.len() {
            let line = slice_chars(s, i, s.len());
            assert(line@ =~= rest);
            r.push(line);
            assert(r@.map_values(|l: Vec<char>| l@) =~= old_r.push(rest));
            assert(s@.skip(s.len() as int) =~= Seq::<char>::empty());
            assert(r@.map_values(|l: Vec<char>| l@) + text_lines(s@.skip(s.len() as int)) =~= text_lines(s@));
            i = s.len();
        } else {
            let mut end: usize = i + n;
            if n > 0 && s[i + n - 1] == '\r' {
                end = i + n - 1;
            }
            let line = slice_chars(s, i, end);
            assert(line@ =~= strip_cr(rest.take(n as int)));
            r.push(line);
            assert(r@.map_values(|l: Vec<char>| l@) =~= old_r.push(strip_cr(rest.take(n as int))));
            assert(rest.skip(n + 1) =~= s@.skip(i + n + 1));
            assert(r@.map_values(|l: Vec<char>| l@) + text_lines(s@.skip(i + n + 1)) =~= text_lines(s@));
            i = i + n + 1;
        }
    }
    assert(s@.skip(i as int) =~= Seq::<char>::empty());
    assert(r@.map_values(|l: Vec<char>| l@) =~= text_lines(s@));
    r
}

/// A position found for a pattern leaves room for the whole pattern.
pub proof fn lemma_find_bound(s: Seq<char>, pat: Seq<char>)
    ensures
        find(s, pat) matches Some(p) ==> 0 <= p && p + pat.len() <= s.len() && starts_with(s.skip(p), pat),
{
    lemma_find_from_bound(s, pat, 0);
}

proof fn lemma_find_from_bound(s: Seq<char>, pat: Seq<char>, i: int)
    ensures
        find_from(s, pat, i) matches Some(p) ==> i <= p && p + pat.len() <= s.len() && starts_with(s.skip(p), pat),
    decreases s.len() + 1 - i,
{
    if 0 <= i <= s.len() && !starts_with(s.skip(i), pat) {
        lemma_find_from_bound(s, pat, i + 1);
    }
}

/// Digits denote a number that is not negative.
pub proof fn lemma_decimal_value_nonneg(s: Seq<char>)
    requires
        all_digits(s),
    ensures
        decimal_value(s) >= 0,
    decreases s.len(),
{
    if s.len() > 0 {
        assert(all_digits(s.drop_last())) by {
            assert forall|i: int| 0 <= i < s.drop_last().len() implies '0' <= #[trigger] s.drop_last()[i] <= '9' by {
                assert(s.drop_last()[i] == s[i]);
            }
        }
        lemma_decimal_value_nonneg(s.drop_last());
        assert('0' <= s[s.len() - 1] <= '9');
    }
}

/// A search that passes only non-matching positions finds the first match.
pub proof fn lemma_find_from_at(s: Seq<char>, pat: Seq<char>, i: int, k: int)
    requires
        0 <= i <= k <= s.len(),
        starts_with(s.skip(k), pat),
        forall|j: int| i <= j < k ==> !starts_with(#[trigger] s.skip(j), pat),
    ensures
        find_from(s, pat, i) == Some(k),
    decreases k - i,
{
    if i < k {
        lemma_find_from_at(s, pat, i + 1, k);
    }
}

/// A search through positions that never match finds nothing.
pub proof fn lemma_find_from_none(s: Seq<char>, pat: Seq<char>, i: int)
    requires
        0 <= i,
        forall|j: int| i <= j <= s.len() ==> !starts_with(#[trigger] s.skip(j), pat),
    ensures
        find_from(s, pat, i) is None,
    decreases s.len() + 1 - i,
{
    if i <= s.len() {
        lemma_find_from_none(s, pat, i + 1);
    }
}

/// Starting with two given characters at a position.
pub proof fn lemma_starts_with_pair(s: Seq<char>, i: int, a: char, b: char)
    requires
        0 <= i <= s.len(),
    ensures
        starts_with(s.skip(i), seq![a, b]) <==> (i + 2 <= s.len() && s[i] == a && s[i + 1] == b),
{
    if i + 2 <= s.len() && s[i] == a && s[i + 1] == b {
        assert(s.skip(i).subrange(0, 2) =~= seq![a, b]);
    }
    if starts_with(s.skip(i), seq![a, b]) {
        assert(s.skip(i).subrange(0, 2)[0] == a);
        assert(s.skip(i).subrange(0, 2)[1] == b);
    }
}

/// Replacing in a text that begins with a piece free of the pattern's first
/// character leaves that piece as it is.
pub proof fn lemma_replace_after_free_prefix(x: Seq<char>, y: Seq<char>, pat: Seq<char>, rep: Seq<char>)
    requires
        pat.len() > 0,
        !x.contains(pat[0]),
    ensures
        replace_all(x + y, pat, rep) == x + replace_all(y, pat, rep),
    decreases x.len(),
{
    if x.len() > 0 {
        let s = x + y;
        assert(s[0] == x[0]);
        assert(x[0] != pat[0]);
        if starts_with(s, pat) {
            assert(s.subrange(0, pat.len() as int)[0] == s[0]);
        }
        assert(!x.drop_first().contains(pat[0])) by {
            if x.drop_first().contains(pat[0]) {
                let k = choose|k: int| 0 <= k < x.drop_first().len() && x.drop_first()[k] == pat[0];
                assert(x[k + 1] == pat[0]);
            }
        }
        lemma_replace_after_free_prefix(x.drop_first(), y, pat, rep);
        assert(s.skip(1) =~= x.drop_first() + y);
        assert(seq![x[0]] + (x.drop_first() + replace_all(y, pat, rep)) =~= x + replace_all(y, pat, rep));
    } else {
        assert(x + y =~= y);
        assert(x + replace_all(y, pat, rep) =~= replace_all(y, pat, rep));
    }
}

/// Replacing a single character distributes over concatenation.
pub proof fn lemma_replace_char_concat(x: Seq<char>, y: Seq<char>, c: char, rep: Seq<char>)
    ensures
        replace_all(x + y, seq![c], rep) == replace_all(x, seq![c], rep) + replace_all(y, seq![c], rep),
    decreases x.len(),
{
    let pat = seq![c];
    if x.len() > 0 {
        let s = x + y;
        assert(s[0] == x[0]);
        lemma_replace_char_concat(x.drop_first(), y, c, rep);
        assert(s.skip(1) =~= x.drop_first() + y);
        assert(x.skip(1) =~= x.drop_first());
        assert(starts_with(s, pat) == (x[0] == c)) by {
            if x[0] == c {
                assert(s.subrange(0, 1) =~= pat);
            }
            if starts_with(s, pat) {
                assert(s.subrange(0, 1)[0] == s[0]);
            }
        }
        assert(starts_with(x, pat) == (x[0] == c)) by {
            if x[0] == c {
                assert(x.subrange(0, 1) =~= pat);
            }
            if starts_with(x, pat) {
                assert(x.subrange(0, 1)[0] == x[0]);
            }
        }
        if x[0] == c {
            assert(rep + (replace_all(x.drop_first(), pat, rep) + replace_all(y, pat, rep)) =~= (rep
                + replace_all(x.drop_first(), pat, rep)) + replace_all(y, pat, rep));
        } else {
            assert(seq![x[0]] + (replace_all(x.drop_first(), pat, rep) + replace_all(y, pat, rep)) =~= (seq![x[0]]
                + replace_all(x.drop_first(), pat, rep)) + replace_all(y, pat, rep));
        }
    } else {
        assert(x + y =~= y);
        assert(replace_all(x, pat, rep) =~= Seq::<char>::empty());
        assert(Seq::<char>::empty() + replace_all(y, pat, rep) =~= replace_all(y, pat, rep));
    }
}

} // verus!

//! Character-level helpers shared by the parsers and message builders.
//!
//! Strings are handled as `Vec<char>` while they are inspected or built, so that every
//! step is stated over `Seq<char>`.

use vstd::prelude::*;

verus! {

/// Unicode `White_Space`, the property that `char::is_whitespace` tests.
pub open spec fn is_white_space(c: char) -> bool {
    let u = c as u32;
    ||| u == 0x20
    ||| (0x09 <= u && u <= 0x0d)
    ||| u == 0x85
    ||| u == 0xa0
    ||| u == 0x1680
    ||| (0x2000 <= u && u <= 0x200a)
    ||| u == 0x2028
    ||| u == 0x2029
    ||| u == 0x202f
    ||| u == 0x205f
    ||| u == 0x3000
}

/// Whether `c` is Unicode white space.
pub fn char_is_white_space(c: char) -> (r: bool)
    ensures
        r == is_white_space(c),
{
    let u = c as u32;
    u == 0x20 || (0x09 <= u && u <= 0x0d) || u == 0x85 || u == 0xa0 || u == 0x1680 || (0x2000
        <= u && u <= 0x200a) || u == 0x2028 || u == 0x2029 || u == 0x202f || u == 0x205f || u
        == 0x3000
}

/// The characters of a string slice, in order.
pub fn chars_of(s: &str) -> (r: Vec<char>)
    ensures
        r@ == s@,
{
    let mut out: Vec<char> = Vec::new();
    for c in it: s.chars()
        invariant
            out@ == it.seq().take(it.index() as int),
    {
        out.push(c);
    }
    out
}

/// A `String` holding exactly the given characters. Trusted: the body collects them with
/// std's `Iterator::collect` into `String` (`FromIterator<&char> for String`), which
/// appends each character in order; the contract claims that the view of the result is
/// the sequence of characters given.
#[verifier::external_body]
pub(crate) fn string_from_chars(chars: &[char]) -> (r: String)
    ensures
        r@ == chars@,
{
    chars.iter().collect()
}

/// Appends the characters of `s` to `out`.
pub fn push_str(out: &mut Vec<char>, s: &str)
    ensures
        final(out)@ == old(out)@ + s@,
{
    let mut chars = chars_of(s);
    out.append(&mut chars);
}

/// Appends `chars` to `out`.
pub fn push_chars(out: &mut Vec<char>, chars: &[char])
    ensures
        final(out)@ == old(out)@ + chars@,
{
    let ghost start = out@;
    let n = chars.len();
    let mut i: usize = 0;
    while i < n
        invariant
            n == chars@.len(),
            i <= n,
            out@ == start + chars@.take(i as int),
        decreases n - i,
    {
        out.push(chars[i]);
        i = i + 1;
        assert(chars@.take(i as int) == chars@.take(i - 1 as int).push(chars@[i - 1]));
    }
    assert(chars@.take(n as int) == chars@);
}

/// Number of leading white-space characters.
pub open spec fn leading_ws(s: Seq<char>) -> nat
    decreases s.len(),
{
    if s.len() > 0 && is_white_space(s[0]) {
        1 + leading_ws(s.drop_first())
    } else {
        0
    }
}

/// Number of trailing white-space characters.
pub open spec fn trailing_ws(s: Seq<char>) -> nat
    decreases s.len(),
{
    if s.len() > 0 && is_white_space(s.last()) {
        1 + trailing_ws(s.drop_last())
    } else {
        0
    }
}

/// `s` without its leading white space (`str::trim_start`).
pub open spec fn trim_start(s: Seq<char>) -> Seq<char> {
    s.skip(leading_ws(s) as int)
}

/// `s` without its trailing white space (`str::trim_end`).
pub open spec fn trim_end(s: Seq<char>) -> Seq<char> {
    s.take(s.len() - trailing_ws(s))
}

/// `s` without white space at either end (`str::trim`).
pub open spec fn trim(s: Seq<char>) -> Seq<char> {
    trim_end(trim_start(s))
}

/// Length of the leading run of characters that are not white space.
pub open spec fn word_len(s: Seq<char>) -> nat
    decreases s.len(),
{
    if s.len() > 0 && !is_white_space(s[0]) {
        1 + word_len(s.drop_first())
    } else {
        0
    }
}

/// The white-space separated words of `s`, in order (`str::split_whitespace`).
pub open spec fn tokens(s: Seq<char>) -> Seq<Seq<char>>
    decreases s.len(),
{
    if s.len() == 0 {
        Seq::empty()
    } else if is_white_space(s[0]) {
        tokens(s.drop_first())
    } else {
        let w = word_len(s);
        proof {
            lemma_word_len_bounds(s);
        }
        seq![s.take(w as int)] + tokens(s.skip(w as int))
    }
}

/// A word is no longer than the text it starts, and a text that starts with a
/// character other than white space starts a word of at least one character.
pub proof fn lemma_word_len_bounds(s: Seq<char>)
    ensures
        word_len(s) <= s.len(),
        s.len() > 0 && !is_white_space(s[0]) ==> word_len(s) >= 1,
    decreases s.len(),
{
    if s.len() > 0 && !is_white_space(s[0]) {
        lemma_word_len_bounds(s.drop_first());
    }
}

proof fn lemma_leading_ws_bounds(s: Seq<char>)
    ensures
        leading_ws(s) <= s.len(),
    decreases s.len(),
{
    if s.len() > 0 && is_white_space(s[0]) {
        lemma_leading_ws_bounds(s.drop_first());
    }
}

proof fn lemma_trailing_ws_bounds(s: Seq<char>)
    ensures
        trailing_ws(s) <= s.len(),
    decreases s.len(),
{
    if s.len() > 0 && is_white_space(s.last()) {
        lemma_trailing_ws_bounds(s.drop_last());
    }
}

/// The word starting at `i` of `s` ends at the first white space at or after `i`.
proof fn lemma_word_len_at(s: Seq<char>, i: int, j: int)
    requires
        0 <= i <= j <= s.len(),
        forall|k: int| i <= k < j ==> !is_white_space(#[trigger] s[k]),
        j == s.len() || is_white_space(s[j]),
    ensures
        word_len(s.skip(i)) == j - i,
    decreases j - i,
{
    if i < j {
        lemma_word_len_at(s, i + 1, j);
        assert(s.skip(i).drop_first() =~= s.skip(i + 1));
    } else {
        if j < s.len() {
            assert(s.skip(i)[0] == s[j]);
        }
    }
}

/// The leading white space of `s.skip(i)` ends at the first non-white-space character.
proof fn lemma_leading_ws_at(s: Seq<char>, i: int, j: int)
    requires
        0 <= i <= j <= s.len(),
        forall|k: int| i <= k < j ==> is_white_space(#[trigger] s[k]),
        j == s.len() || !is_white_space(s[j]),
    ensures
        leading_ws(s.skip(i)) == j - i,
    decreases j - i,
{
    if i < j {
        lemma_leading_ws_at(s, i + 1, j);
        assert(s.skip(i).drop_first() =~= s.skip(i + 1));
    } else {
        if j < s.len() {
            assert(s.skip(i)[0] == s[j]);
        }
    }
}

/// The trailing white space of `s.take(j)` starts after the last non-white-space character.
proof fn lemma_trailing_ws_at(s: Seq<char>, i: int, j: int)
    requires
        0 <= i <= j <= s.len(),
        forall|k: int| i <= k < j ==> is_white_space(#[trigger] s[k]),
        i == 0 || !is_white_space(s[i - 1]),
    ensures
        trailing_ws(s.take(j)) == j - i,
    decreases j - i,
{
    if i < j {
        lemma_trailing_ws_at(s, i, j - 1);
        assert(s.take(j).drop_last() =~= s.take(j - 1));
    } else {
        if i > 0 {
            assert(s.take(j).last() == s[i - 1]);
        }
    }
}

/// The characters of `s[from..to]`.
pub fn sub_chars(s: &[char], from: usize, to: usize) -> (r: Vec<char>)
    requires
        from <= to <= s@.len(),
    ensures
        r@ == s@.subrange(from as int, to as int),
{
    let mut out: Vec<char> = Vec::new();
    let mut k = from;
    while k < to
        invariant
            from <= k <= to <= s@.len(),
            out@ == s@.subrange(from as int, k as int),
        decreases to - k,
    {
        out.push(s[k]);
        k = k + 1;
        assert(out@ =~= s@.subrange(from as int, k as int));
    }
    out
}

/// `str::trim_start` on characters.
pub fn trim_start_chars(s: &[char]) -> (r: Vec<char>)
    ensures
        r@ == trim_start(s@),
{
    let n = s.len();
    let mut i: usize = 0;
    while i < n && char_is_white_space(s[i])
        invariant
            i <= n == s@.len(),
            forall|k: int| 0 <= k < i ==> is_white_space(#[trigger] s@[k]),
        decreases n - i,
    {
        i = i + 1;
    }
    proof {
        lemma_leading_ws_at(s@, 0, i as int);
        assert(s@.skip(0) =~= s@);
    }
    sub_chars(s, i, n)
}

/// `str::trim` on characters.
pub fn trim_chars(s: &[char]) -> (r: Vec<char>)
    ensures
        r@ == trim(s@),
{
    let t = trim_start_chars(s);
    let n = t.len();
    let mut j: usize = n;
    while j > 0 && char_is_white_space(t[j - 1])
        invariant
            j <= n == t@.len(),
            forall|k: int| j <= k < n ==> is_white_space(#[trigger] t@[k]),
        decreases j,
    {
        j = j - 1;
    }
    proof {
        lemma_trailing_ws_at(t@, j as int, n as int);
        assert(t@.take(n as int) =~= t@);
    }
    sub_chars(&t, 0, j)
}

/// `str::split_whitespace` on characters.
pub fn split_white_space(s: &[char]) -> (r: Vec<Vec<char>>)
    ensures
        r@.len() == tokens(s@).len(),
        forall|k: int| 0 <= k < r@.len() ==> #[trigger] r@[k]@ == tokens(s@)[k],
{
    let n = s.len();
    let mut out: Vec<Vec<char>> = Vec::new();
    let ghost mut words: Seq<Seq<char>> = Seq::empty();
    let mut i: usize = 0;
    assert(s@.skip(0) =~= s@);
    while i < n
        invariant
            i <= n == s@.len(),
            out@.len() == words.len(),
            forall|k: int| 0 <= k < out@.len() ==> #[trigger] out@[k]@ == words[k],
            tokens(s@) == words + tokens(s@.skip(i as int)),
        decreases n - i,
    {
        let ghost rest = s@.skip(i as int);
        if char_is_white_space(s[i]) {
            assert(rest.drop_first() =~= s@.skip(i + 1));
            i = i + 1;
        } else {
            let mut j = i;
            while j < n && !char_is_white_space(s[j])
                invariant
                    i <= j <= n == s@.len(),
                    forall|k: int| i <= k < j ==> !is_white_space(#[trigger] s@[k]),
                decreases n - j,
            {
                j = j + 1;
            }
            proof {
                lemma_word_len_at(s@, i as int, j as int);
                assert(rest.take(j - i) =~= s@.subrange(i as int, j as int));
                assert(rest.skip(j - i) =~= s@.skip(j as int));
                assert(words + tokens(rest) =~= words.push(s@.subrange(i as int, j as int))
                    + tokens(s@.skip(j as int)));
            }
            let word = sub_chars(s, i, j);
            out.push(word);
            proof {
                words = words.push(s@.subrange(i as int, j as int));
            }
            i = j;
        }
    }
    assert(s@.skip(n as int) =~= Seq::<char>::empty());
    assert(words + Seq::<Seq<char>>::empty() =~= words);
    out
}

/// Whether `s` starts with `c`.
pub fn starts_with_char(s: &[char], c: char) -> (r: bool)
    ensures
        r == (s@.len() > 0 && s@[0] == c),
{
    s.len() > 0 && s[0] == c
}

/// Whether two character sequences are equal.
pub fn chars_equal(a: &[char], b: &[char]) -> (r: bool)
    ensures
        r == (a@ == b@),
{
    if a.len() != b.len() {
        return false;
    }
    let n = a.len();
    let mut i: usize = 0;
    while i < n
        invariant
            i <= n == a@.len() == b@.len(),
            forall|k: int| 0 <= k < i ==> a@[k] == b@[k],
        decreases n - i,
    {
        if a[i] != b[i] {
            return false;
        }
        i = i + 1;
    }
    assert(a@ =~= b@);
    true
}

/// Whether `needle` occurs in `hay` at position `i`.
pub open spec fn occurs_at(hay: Seq<char>, needle: Seq<char>, i: int) -> bool {
    0 <= i && i + needle.len() <= hay.len() && hay.subrange(i, i + needle.len()) == needle
}

/// Whether `needle` occurs in `hay` (`str::contains`).
pub open spec fn contains_seq(hay: Seq<char>, needle: Seq<char>) -> bool {
    exists|i: int| occurs_at(hay, needle, i)
}

/// Whether `needle` occurs at position `i` of `hay`.
fn occurs_at_exec(hay: &[char], needle: &[char], i: usize) -> (r: bool)
    ensures
        r == occurs_at(hay@, needle@, i as int),
{
    let n = needle.len();
    let h = hay.len();
    if i > h || h - i < n {
        return false;
    }
    let mut k: usize = 0;
    while k < n
        invariant
            k <= n == needle@.len(),
            h == hay@.len(),
            i + n <= h,
            forall|m: int| 0 <= m < k ==> hay@[i + m] == needle@[m],
        decreases n - k,
    {
        let idx = i + k;
        if hay[idx] != needle[k] {
            assert(hay@.subrange(i as int, i + n)[k as int] != needle@[k as int]);
            return false;
        }
        k = k + 1;
    }
    assert(hay@.subrange(i as int, i + n) =~= needle@);
    true
}

/// Whether `needle` occurs in `hay`.
pub fn contains_chars(hay: &[char], needle: &[char]) -> (r: bool)
    ensures
        r == contains_seq(hay@, needle@),
{
    let n = hay.len();
    let mut i: usize = 0;
    while i < n
        invariant
            i <= n == hay@.len(),
            forall|m: int| 0 <= m < i ==> !occurs_at(hay@, needle@, m),
        decreases n - i,
    {
        if occurs_at_exec(hay, needle, i) {
            return true;
        }
        i = i + 1;
    }
    if occurs_at_exec(hay, needle, n) {
        return true;
    }
    assert forall|m: int| !occurs_at(hay@, needle@, m) by {
        if 0 <= m && m < n {
        } else if m > n {
        }
    }
    false
}

/// `str::replace`: every non-overlapping occurrence of `pat`, found from the left, is
/// replaced by `rep`.
pub open spec fn replace_all(hay: Seq<char>, pat: Seq<char>, rep: Seq<char>) -> Seq<char>
    recommends
        pat.len() > 0,
    decreases hay.len(),
{
    if hay.len() == 0 || pat.len() == 0 {
        hay
    } else if occurs_at(hay, pat, 0) {
        rep + replace_all(hay.skip(pat.len() as int), pat, rep)
    } else {
        seq![hay[0]] + replace_all(hay.drop_first(), pat, rep)
    }
}

/// Replaces every non-overlapping occurrence of `pat` in `hay` by `rep`, left to right.
pub fn replace_chars(hay: &[char], pat: &[char], rep: &[char]) -> (r: Vec<char>)
    requires
        pat@.len() > 0,
    ensures
        r@ == replace_all(hay@, pat@, rep@),
{
    let n = hay.len();
    let mut out: Vec<char> = Vec::new();
    let mut i: usize = 0;
    assert(hay@.skip(0) =~= hay@);
    while i < n
        invariant
            i <= n == hay@.len(),
            pat@.len() > 0,
            replace_all(hay@, pat@, rep@) == out@ + replace_all(hay@.skip(i as int), pat@, rep@),
        decreases n - i,
    {
        let ghost rest = hay@.skip(i as int);
        if occurs_at_exec(hay, pat, i) {
            proof {
                assert(rest.subrange(0, pat@.len() as int) =~= hay@.subrange(
                    i as int,
                    i + pat@.len(),
                ));
                assert(rest.skip(pat@.len() as int) =~= hay@.skip(i + pat@.len()));
            }
            push_chars(&mut out, rep);
            i = i + pat.len();
        } else {
            proof {
                if occurs_at(rest, pat@, 0) {
                    assert(rest.subrange(0, pat@.len() as int) =~= hay@.subrange(
                        i as int,
                        i + pat@.len(),
                    ));
                }
                assert(rest.drop_first() =~= hay@.skip(i + 1));
            }
            out.push(hay[i]);
            i = i + 1;
        }
    }
    assert(hay@.skip(n as int) =~= Seq::<char>::empty());
    assert(out@ + Seq::<char>::empty() =~= out@);
    out
}

/// The character of decimal digit `d`.
pub open spec fn digit_char(d: nat) -> char {
    ((d + 48) as u8) as char
}

/// Decimal representation of `n` without leading zeros (`n.to_string()`).
pub open spec fn decimal(n: nat) -> Seq<char>
    decreases n,
{
    if n < 10 {
        seq![digit_char(n)]
    } else {
        decimal(n / 10) + seq![digit_char(n % 10)]
    }
}

fn digit_to_char(d: u64) -> (c: char)
    requires
        d < 10,
    ensures
        c == digit_char(d as nat),
{
    let b: u8 = 48u8 + (d as u8);
    b as char
}

/// The decimal representation of `n`.
pub fn decimal_chars(n: u64) -> (r: Vec<char>)
    ensures
        r@ == decimal(n as nat),
    decreases n,
{
    if n < 10 {
        let mut v: Vec<char> = Vec::new();
        v.push(digit_to_char(n));
        assert(v@ =~= seq![digit_char(n as nat)]);
        v
    } else {
        let mut v = decimal_chars(n / 10);
        v.push(digit_to_char(n % 10));
        v
    }
}

/// Appends the decimal representation of `n` to `out`.
pub fn push_decimal(out: &mut Vec<char>, n: usize)
    ensures
        final(out)@ == old(out)@ + decimal(n as nat),
{
    let mut d = decimal_chars(n as u64);
    out.append(&mut d);
}

/// Whether `c` is an ASCII decimal digit.
pub open spec fn is_digit(c: char) -> bool {
    '0' <= c && c <= '9'
}

/// Whether every character of `s` is an ASCII decimal digit.
pub open spec fn all_digits(s: Seq<char>) -> bool {
    forall|i: int| 0 <= i < s.len() ==> is_digit(#[trigger] s[i])
}

/// The number that the decimal digits `s` denote.
pub open spec fn digits_value(s: Seq<char>) -> nat
    decreases s.len(),
{
    if s.len() == 0 {
        0
    } else {
        digits_value(s.drop_last()) * 10 + ((s.last() as u32) - 48) as nat
    }
}

/// The digits of an unsigned literal: one optional leading `+` is dropped.
pub open spec fn unsigned_digits(s: Seq<char>) -> Seq<char> {
    if s.len() > 0 && s[0] == '+' {
        s.drop_first()
    } else {
        s
    }
}

/// What `str::parse` gives for an unsigned integer type whose largest value is `max`:
/// an optional `+`, then at least one ASCII digit, denoting at most `max`.
pub open spec fn parse_unsigned(s: Seq<char>, max: nat) -> Option<nat> {
    let d = unsigned_digits(s);
    if d.len() > 0 && all_digits(d) && digits_value(d) <= max {
        Some(digits_value(d))
    } else {
        None
    }
}

proof fn lemma_digits_value_grows(s: Seq<char>, k: int)
    requires
        0 <= k <= s.len(),
        all_digits(s),
    ensures
        digits_value(s.take(k)) <= digits_value(s),
    decreases s.len() - k,
{
    if k < s.len() {
        lemma_digits_value_grows(s, k + 1);
        assert(s.take(k + 1).drop_last() =~= s.take(k));
        assert(is_digit(s[k]));
    } else {
        assert(s.take(k) =~= s);
    }
}

/// Parses an unsigned decimal literal whose value must not exceed `max`.
pub fn parse_unsigned_chars(s: &[char], max: u64) -> (r: Option<u64>)
    ensures
        r.is_some() == parse_unsigned(s@, max as nat).is_some(),
        r matches Some(v) ==> parse_unsigned(s@, max as nat) == Some(v as nat),
{
    let n = s.len();
    let start: usize = if n > 0 && s[0] == '+' {
        1
    } else {
        0
    };
    let ghost d = unsigned_digits(s@);
    assert(d =~= s@.skip(start as int));
    if start == n {
        return None;
    }
    let mut value: u64 = 0;
    let mut i: usize = start;
    while i < n
        invariant
            start <= i <= n == s@.len(),
            d == s@.skip(start as int),
            d == unsigned_digits(s@),
            start < n,
            forall|k: int| start <= k < i ==> is_digit(#[trigger] s@[k]),
            value as nat == digits_value(d.take(i - start)),
            value <= max,
        decreases n - i,
    {
        let c = s[i];
        if !('0' <= c && c <= '9') {
            assert(d[i - start] == c);
            assert(!is_digit(d[i - start]));
            assert(!all_digits(d));
            return None;
        }
        let digit: u64 = ((c as u32) - 48) as u64;
        assert(d.take(i + 1 - start).drop_last() =~= d.take(i - start));
        assert(d.take(i + 1 - start).last() == c);
        if digit > max || value > (max - digit) / 10 {
            proof {
                if digit <= max {
                    assert(value * 10 + digit > max) by (nonlinear_arith)
                        requires
                            value > (max - digit) / 10,
                            digit <= max,
                    ;
                }
                assert forall|k: int| 0 <= k < i + 1 - start implies is_digit(
                    #[trigger] d.take(i + 1 - start)[k],
                ) by {
                    assert(d.take(i + 1 - start)[k] == s@[start + k]);
                }
                if all_digits(d) {
                    lemma_digits_value_grows(d, i + 1 - start);
                }
            }
            return None;
        }
        assert(value * 10 <= max - digit) by (nonlinear_arith)
            requires
                value <= (max - digit) / 10,
                digit <= max,
        ;
        value = value * 10 + digit;
        i = i + 1;
    }
    assert(d.take(n - start) =~= d);
    assert(all_digits(d)) by {
        assert forall|k: int| 0 <= k < d.len() implies is_digit(#[trigger] d[k]) by {
            assert(d[k] == s@[start + k]);
        }
    }
    Some(value)
}

/// Joins `parts` with single spaces (`[..].join(" ")`).
pub open spec fn join_spaces(parts: Seq<Seq<char>>) -> Seq<char>
    decreases parts.len(),
{
    if parts.len() == 0 {
        Seq::empty()
    } else if parts.len() == 1 {
        parts[0]
    } else {
        join_spaces(parts.drop_last()) + seq![' '] + parts.last()
    }
}

/// Joins `parts[from..]` with single spaces.
pub fn join_with_spaces(parts: &Vec<Vec<char>>, from: usize) -> (r: Vec<char>)
    requires
        from <= parts@.len(),
    ensures
        r@ == join_spaces(parts@.skip(from as int).map_values(|p: Vec<char>| p@)),
{
    let n = parts.len();
    let mut out: Vec<char> = Vec::new();
    let mut i = from;
    let ghost views = parts@.skip(from as int).map_values(|p: Vec<char>| p@);
    assert(views.take(0) =~= Seq::<Seq<char>>::empty());
    while i < n
        invariant
            from <= i <= n == parts@.len(),
            views == parts@.skip(from as int).map_values(|p: Vec<char>| p@),
            out@ == join_spaces(views.take(i - from)),
        decreases n - i,
    {
        if i > from {
            out.push(' ');
        }
        push_chars(&mut out, parts[i].as_slice());
        proof {
            assert(views.take(i + 1 - from).drop_last() =~= views.take(i - from));
            assert(views.take(i + 1 - from).last() == parts@[i as int]@);
            if i == from {
                assert(views.take(1) =~= seq![parts@[i as int]@]);
            }
        }
        i = i + 1;
    }
    assert(views.take(n - from) =~= views);
    out
}

/// Index of the first `'\n'` in `s`, or its length when there is none.
pub open spec fn first_newline(s: Seq<char>) -> nat
    decreases s.len(),
{
    if s.len() == 0 {
        0
    } else if s[0] == '\n' {
        0
    } else {
        1 + first_newline(s.drop_first())
    }
}

/// A line without the `'\r'` that ended it.
pub open spec fn strip_cr(l: Seq<char>) -> Seq<char> {
    if l.len() > 0 && l.last() == '\r' {
        l.drop_last()
    } else {
        l
    }
}

/// The lines of `s` as `BufRead::lines` yields them: split at `'\n'`, a `'\r'` right
/// before the `'\n'` dropped, and no empty line after a final `'\n'`.
pub open spec fn text_lines(s: Seq<char>) -> Seq<Seq<char>>
    decreases s.len(),
{
    if s.len() == 0 {
        Seq::empty()
    } else {
        let k = first_newline(s);
        if k < s.len() {
            seq![strip_cr(s.take(k as int))] + text_lines(s.skip(k + 1 as int))
        } else {
            seq![s]
        }
    }
}

proof fn lemma_first_newline_at(s: Seq<char>, i: int, j: int)
    requires
        0 <= i <= j <= s.len(),
        forall|k: int| i <= k < j ==> #[trigger] s[k] != '\n',
        j == s.len() || s[j] == '\n',
    ensures
        first_newline(s.skip(i)) == j - i,
    decreases j - i,
{
    if i < j {
        lemma_first_newline_at(s, i + 1, j);
        assert(s.skip(i).drop_first() =~= s.skip(i + 1));
    } else if j < s.len() {
        assert(s.skip(i)[0] == s[j]);
    }
}

/// A text has no more lines than characters.
pub proof fn lemma_text_lines_len(s: Seq<char>)
    ensures
        text_lines(s).len() <= s.len(),
    decreases s.len(),
{
    if s.len() > 0 {
        let k = first_newline(s);
        if k < s.len() {
            lemma_text_lines_len(s.skip(k + 1 as int));
        }
    }
}

/// Splits `s` into lines as `BufRead::lines` does.
pub fn split_lines(s: &[char]) -> (r: Vec<Vec<char>>)
    ensures
        r@.len() == text_lines(s@).len(),
        forall|k: int| 0 <= k < r@.len() ==> #[trigger] r@[k]@ == text_lines(s@)[k],
{
    let n = s.len();
    let mut out: Vec<Vec<char>> = Vec::new();
    let ghost mut done: Seq<Seq<char>> = Seq::empty();
    let mut i: usize = 0;
    assert(s@.skip(0) =~= s@);
    while i < n
        invariant
            i <= n == s@.len(),
            out@.len() == done.len(),
            forall|k: int| 0 <= k < out@.len() ==> #[trigger] out@[k]@ == done[k],
            text_lines(s@) == done + text_lines(s@.skip(i as int)),
        decreases n - i,
    {
        let ghost rest = s@.skip(i as int);
        let mut j = i;
        while j < n && s[j] != '\n'
            invariant
                i <= j <= n == s@.len(),
                forall|k: int| i <= k < j ==> #[trigger] s@[k] != '\n',
            decreases n - j,
        {
            j = j + 1;
        }
        proof {
            lemma_first_newline_at(s@, i as int, j as int);
        }
        let mut line = sub_chars(s, i, j);
        assert(rest.take(j - i) =~= line@);
        if j < n {
            let len = line.len();
            if len > 0 && line[len - 1] == '\r' {
                line.pop();
                assert(line@ =~= strip_cr(rest.take(j - i)));
            }
            proof {
                assert(rest.skip(j - i + 1) =~= s@.skip(j + 1));
                assert(done + text_lines(rest) =~= done.push(line@) + text_lines(
                    s@.skip(j + 1),
                ));
                done = done.push(line@);
            }
            out.push(line);
            i = j + 1;
        } else {
            proof {
                assert(rest =~= line@);
                assert(s@.skip(n as int) =~= Seq::<char>::empty());
                assert(done + text_lines(rest) =~= done.push(line@) + text_lines(
                    s@.skip(n as int),
                ));
                done = done.push(line@);
            }
            out.push(line);
            i = n;
        }
    }
    assert(s@.skip(n as int) =~= Seq::<char>::empty());
    assert(done + Seq::<Seq<char>>::empty() =~= done);
    out
}

/// ASCII lower case of `c`.
pub open spec fn ascii_lower(c: char) -> char {
    if 'A' <= c && c <= 'Z' {
        ((c as u32) + 32) as char
    } else {
        c
    }
}

/// The digits, at most one `.`, and at least one digit: the part of a decimal literal
/// before its exponent.
pub open spec fn is_mantissa(m: Seq<char>) -> bool {
    &&& forall|i: int| 0 <= i < m.len() ==> is_digit(#[trigger] m[i]) || m[i] == '.'
    &&& forall|i: int, j: int| 0 <= i < j < m.len() ==> !(#[trigger] m[i] == '.' && #[trigger] m[j] == '.')
    &&& exists|i: int| 0 <= i < m.len() && is_digit(#[trigger] m[i])
}

/// Index of the first `e` or `E`, or the length.
pub open spec fn first_exponent_mark(s: Seq<char>) -> nat
    decreases s.len(),
{
    if s.len() == 0 {
        0
    } else if s[0] == 'e' || s[0] == 'E' {
        0
    } else {
        1 + first_exponent_mark(s.drop_first())
    }
}

/// `s` without one leading `+` or `-`.
pub open spec fn drop_sign(s: Seq<char>) -> Seq<char> {
    if s.len() > 0 && (s[0] == '+' || s[0] == '-') {
        s.drop_first()
    } else {
        s
    }
}

/// `Number ::= ( Digit+ | Digit+ '.' Digit* | Digit* '.' Digit+ ) Exp?` with
/// `Exp ::= ('e' | 'E') Sign? Digit+`.
pub open spec fn is_decimal_number(b: Seq<char>) -> bool {
    let e = first_exponent_mark(b);
    &&& is_mantissa(b.take(e as int))
    &&& e < b.len() ==> {
        let exp = drop_sign(b.skip(e + 1 as int));
        exp.len() > 0 && all_digits(exp)
    }
}

/// Whether `s` equals `word` up to ASCII case.
pub open spec fn equals_ignoring_case(s: Seq<char>, word: Seq<char>) -> bool {
    s.len() == word.len() && forall|i: int| 0 <= i < s.len() ==> ascii_lower(#[trigger] s[i]) == word[i]
}

/// The literals that `str::parse` accepts for a binary floating-point type, as its
/// documentation gives them: `Sign? ( 'inf' | 'infinity' | 'nan' | Number )`, the
/// words in any ASCII case.
pub open spec fn is_float_literal(s: Seq<char>) -> bool {
    let b = drop_sign(s);
    ||| equals_ignoring_case(b, seq!['i', 'n', 'f'])
    ||| equals_ignoring_case(b, seq!['i', 'n', 'f', 'i', 'n', 'i', 't', 'y'])
    ||| equals_ignoring_case(b, seq!['n', 'a', 'n'])
    ||| is_decimal_number(b)
}

fn lower_ascii(c: char) -> (r: char)
    ensures
        r == ascii_lower(c),
{
    if 'A' <= c && c <= 'Z' {
        let u = (c as u32) + 32;
        let b = u as u8;
        b as char
    } else {
        c
    }
}

fn equals_word_ignoring_case(s: &[char], from: usize, word: &[char]) -> (r: bool)
    requires
        from <= s@.len(),
    ensures
        r == equals_ignoring_case(s@.skip(from as int), word@),
{
    let n = s.len();
    if n - from != word.len() {
        return false;
    }
    let mut i: usize = 0;
    while i < word.len()
        invariant
            from <= n == s@.len(),
            n - from == word@.len(),
            i <= word@.len(),
            forall|k: int| 0 <= k < i ==> ascii_lower(#[trigger] s@.skip(from as int)[k]) == word@[k],
        decreases word@.len() - i,
    {
        if lower_ascii(s[from + i]) != word[i] {
            assert(s@.skip(from as int)[i as int] == s@[from + i]);
            return false;
        }
        assert(s@.skip(from as int)[i as int] == s@[from + i]);
        i = i + 1;
    }
    true
}

proof fn lemma_first_exponent_mark_at(s: Seq<char>, i: int, j: int)
    requires
        0 <= i <= j <= s.len(),
        forall|k: int| i <= k < j ==> #[trigger] s[k] != 'e' && s[k] != 'E',
        j == s.len() || s[j] == 'e' || s[j] == 'E',
    ensures
        first_exponent_mark(s.skip(i)) == j - i,
    decreases j - i,
{
    if i < j {
        lemma_first_exponent_mark_at(s, i + 1, j);
        assert(s.skip(i).drop_first() =~= s.skip(i + 1));
    } else if j < s.len() {
        assert(s.skip(i)[0] == s[j]);
    }
}

fn is_mantissa_chars(m: &[char]) -> (r: bool)
    ensures
        r == is_mantissa(m@),
{
    let n = m.len();
    let mut i: usize = 0;
    let mut dot: Option<usize> = None;
    let mut digit = false;
    while i < n
        invariant
            i <= n == m@.len(),
            forall|k: int| 0 <= k < i ==> is_digit(#[trigger] m@[k]) || m@[k] == '.',
            match dot {
                None => forall|k: int| 0 <= k < i ==> #[trigger] m@[k] != '.',
                Some(d) => d < i && m@[d as int] == '.' && forall|k: int|
                    0 <= k < i && k != d ==> #[trigger] m@[k] != '.',
            },
            digit <==> exists|k: int| 0 <= k < i && is_digit(#[trigger] m@[k]),
        decreases n - i,
    {
        let c = m[i];
        if '0' <= c && c <= '9' {
            digit = true;
        } else if c == '.' {
            match dot {
                Some(d) => {
                    assert(m@[d as int] == '.' && m@[i as int] == '.');
                    return false;
                },
                None => {
                    dot = Some(i);
                },
            }
        } else {
            return false;
        }
        i = i + 1;
    }
    digit
}

fn all_digits_from(s: &[char], f: usize) -> (r: bool)
    requires
        f <= s@.len(),
    ensures
        r == all_digits(s@.skip(f as int)),
{
    let n = s.len();
    let mut g = f;
    while g < n
        invariant
            f <= g <= n == s@.len(),
            forall|k: int| f <= k < g ==> is_digit(#[trigger] s@[k]),
        decreases n - g,
    {
        if !('0' <= s[g] && s[g] <= '9') {
            assert(s@.skip(f as int)[g - f] == s@[g as int]);
            return false;
        }
        g = g + 1;
    }
    assert forall|k: int| 0 <= k < s@.skip(f as int).len() implies is_digit(
        #[trigger] s@.skip(f as int)[k],
    ) by {
        assert(s@.skip(f as int)[k] == s@[f + k]);
    }
    true
}

/// Whether `s` is a literal that `str::parse` accepts for a binary floating-point type.
pub fn is_float_literal_chars(s: &[char]) -> (r: bool)
    ensures
        r == is_float_literal(s@),
{
    let n = s.len();
    let start: usize = if n > 0 && (s[0] == '+' || s[0] == '-') {
        1
    } else {
        0
    };
    let ghost b = drop_sign(s@);
    assert(b =~= s@.skip(start as int));
    let inf = equals_word_ignoring_case(s, start, &['i', 'n', 'f']);
    let infinity = equals_word_ignoring_case(s, start, &['i', 'n', 'f', 'i', 'n', 'i', 't', 'y']);
    let nan = equals_word_ignoring_case(s, start, &['n', 'a', 'n']);
    assert(['i', 'n', 'f']@ =~= seq!['i', 'n', 'f']);
    assert(['i', 'n', 'f', 'i', 'n', 'i', 't', 'y']@ =~= seq!['i', 'n', 'f', 'i', 'n', 'i', 't', 'y']);
    assert(['n', 'a', 'n']@ =~= seq!['n', 'a', 'n']);
    if inf || infinity || nan {
        return true;
    }
    let mut e = start;
    while e < n && s[e] != 'e' && s[e] != 'E'
        invariant
            start <= e <= n == s@.len(),
            forall|k: int| start <= k < e ==> #[trigger] s@[k] != 'e' && s@[k] != 'E',
        decreases n - e,
    {
        e = e + 1;
    }
    proof {
        lemma_first_exponent_mark_at(s@, start as int, e as int);
    }
    let m = sub_chars(s, start, e);
    assert(m@ =~= b.take(e - start));
    if !is_mantissa_chars(m.as_slice()) {
        return false;
    }
    if e == n {
        return true;
    }
    let mut f = e + 1;
    if f < n && (s[f] == '+' || s[f] == '-') {
        f = f + 1;
    }
    assert(drop_sign(b.skip(e + 1 - start)) =~= s@.skip(f as int));
    if f == n {
        return false;
    }
    all_digits_from(s, f)
}

} // verus!

//! Country definition texts: country tags, `color = { r g b }` blocks, the
//! consolidated country color file, ruling parties in country histories,
//! and country names in localisation files.
use vstd::prelude::*;
use crate::logistics::{digit_value, is_white_space, white_space};
use crate::map_layers::Color;
use crate::text::{chars_of, push_char};

verus! {

// ---------------------------------------------------------------------------
// Positions in a text
// ---------------------------------------------------------------------------

/// The first position at or after `i` that holds `c`, or the length.
pub open spec fn next_index(s: Seq<char>, i: int, c: char) -> int
    decreases s.len() - i,
{
    if i < 0 || i >= s.len() {
        s.len() as int
    } else if s[i] == c {
        i
    } else {
        next_index(s, i + 1, c)
    }
}

/// The first position at or after `i` that is not white space, or the length.
pub open spec fn skip_white(s: Seq<char>, i: int) -> int
    decreases s.len() - i,
{
    if i < 0 || i >= s.len() {
        s.len() as int
    } else if !white_space(s[i]) {
        i
    } else {
        skip_white(s, i + 1)
    }
}

/// The end of `s.take(j)` once trailing white space is left out.
pub open spec fn trim_end_index(s: Seq<char>, j: int) -> int
    decreases j,
{
    if j <= 0 || j > s.len() {
        if j > s.len() { s.len() as int } else { 0 }
    } else if white_space(s[j - 1]) {
        trim_end_index(s, j - 1)
    } else {
        j
    }
}

/// A text without leading and trailing white space.
pub open spec fn trimmed(s: Seq<char>) -> Seq<char> {
    let a = skip_white(s, 0);
    let b = trim_end_index(s, s.len() as int);
    if a >= b {
        Seq::empty()
    } else {
        s.subrange(a, b)
    }
}

/// Whether `p` occurs in `s` starting at `i`.
pub open spec fn occurs_at(s: Seq<char>, i: int, p: Seq<char>) -> bool {
    0 <= i && i + p.len() <= s.len() && s.subrange(i, i + p.len()) == p
}

/// The first position at or after `i` where `p` occurs, if any.
pub open spec fn find_from(s: Seq<char>, i: int, p: Seq<char>) -> Option<int>
    decreases s.len() + 1 - i,
{
    if i < 0 || i + p.len() > s.len() {
        None
    } else if occurs_at(s, i, p) {
        Some(i)
    } else {
        find_from(s, i + 1, p)
    }
}

/// The part of a line before its first `#`.
pub open spec fn strip_comment(line: Seq<char>) -> Seq<char> {
    line.take(next_index(line, 0, '#'))
}

proof fn lemma_next_index_bounds(s: Seq<char>, i: int, c: char)
    requires
        0 <= i,
    ensures
        i <= next_index(s, i, c) <= s.len() || (i > s.len() && next_index(s, i, c) == s.len()),
        next_index(s, i, c) < s.len() ==> s[next_index(s, i, c)] == c,
        forall|k: int| i <= k < next_index(s, i, c) ==> s[k] != c,
    decreases s.len() - i,
{
    if i < s.len() && s[i] != c {
        lemma_next_index_bounds(s, i + 1, c);
    }
}

proof fn lemma_skip_white_bounds(s: Seq<char>, i: int)
    requires
        0 <= i <= s.len(),
    ensures
        i <= skip_white(s, i) <= s.len(),
        skip_white(s, i) < s.len() ==> !white_space(s[skip_white(s, i)]),
        forall|k: int| i <= k < skip_white(s, i) ==> white_space(s[k]),
    decreases s.len() - i,
{
    if i < s.len() && white_space(s[i]) {
        lemma_skip_white_bounds(s, i + 1);
    }
}

proof fn lemma_trim_end_bounds(s: Seq<char>, j: int)
    requires
        0 <= j <= s.len(),
    ensures
        0 <= trim_end_index(s, j) <= j,
        trim_end_index(s, j) > 0 ==> !white_space(s[trim_end_index(s, j) - 1]),
        forall|k: int| trim_end_index(s, j) <= k < j ==> white_space(s[k]),
    decreases j,
{
    if j > 0 && white_space(s[j - 1]) {
        lemma_trim_end_bounds(s, j - 1);
    }
}

/// The first position at or after `from` holding `c`, or the length.
fn next_index_exec(s: &Vec<char>, from: usize, c: char) -> (r: usize)
    requires
        from <= s@.len(),
    ensures
        r == next_index(s@, from as int, c),
        from <= r <= s@.len(),
{
    let mut i = from;
    while i < s.len() && s[i] != c
        invariant
            from <= i <= s@.len(),
            next_index(s@, from as int, c) == next_index(s@, i as int, c),
        decreases s.len() - i,
    {
        i = i + 1;
    }
    i
}

/// The first position at or after `from` that is not white space.
fn skip_white_exec(s: &Vec<char>, from: usize) -> (r: usize)
    requires
        from <= s@.len(),
    ensures
        r == skip_white(s@, from as int),
        from <= r <= s@.len(),
{
    let mut i = from;
    while i < s.len() && is_white_space(s[i])
        invariant
            from <= i <= s@.len(),
            skip_white(s@, from as int) == skip_white(s@, i as int),
        decreases s.len() - i,
    {
        i = i + 1;
    }
    i
}

/// Whether `p` occurs in `s` at `i`.
fn occurs_at_exec(s: &Vec<char>, i: usize, p: &Vec<char>) -> (r: bool)
    ensures
        r == occurs_at(s@, i as int, p@),
{
    if i > s.len() || p.len() > s.len() - i {
        return false;
    }
    let mut k: usize = 0;
    while k < p.len()
        invariant
            k <= p@.len(),
            i <= s@.len(),
            i + p@.len() <= s@.len(),
            s@.len() == s.len(),
            forall|m: int| 0 <= m < k ==> s@[i + m] == p@[m],
        decreases p.len() - k,
    {
        if s[i + k] != p[k] {
            assert(s@.subrange(i as int, i + p@.len())[k as int] != p@[k as int]);
            return false;
        }
        k = k + 1;
    }
    assert(s@.subrange(i as int, i + p@.len()) =~= p@);
    true
}

/// The first position at or after `from` where `p` occurs, if any.
fn find_from_exec(s: &Vec<char>, from: usize, p: &Vec<char>) -> (r: Option<usize>)
    ensures
        (match r {
            Some(k) => find_from(s@, from as int, p@) == Some(k as int),
            None => find_from(s@, from as int, p@) is None,
        }),
{
    let mut i = from;
    loop
        invariant
            from <= i,
            find_from(s@, from as int, p@) == find_from(s@, i as int, p@),
        decreases s@.len() + 1 - i,
    {
        if i > s.len() || p.len() > s.len() - i {
            return None;
        }
        if occurs_at_exec(s, i, p) {
            return Some(i);
        }
        assert(p@.len() > 0) by {
            if p@.len() == 0 {
                assert(s@.subrange(i as int, i as int) =~= p@);
            }
        }
        i = i + 1;
    }
}

/// The characters of `s` from `a` up to `b`.
fn chars_between(s: &Vec<char>, a: usize, b: usize) -> (r: Vec<char>)
    requires
        a <= b <= s@.len(),
    ensures
        r@ == s@.subrange(a as int, b as int),
{
    let mut out: Vec<char> = Vec::new();
    let mut k = a;
    while k < b
        invariant
            a <= k <= b <= s@.len(),
            out@ == s@.subrange(a as int, k as int),
        decreases b - k,
    {
        out.push(s[k]);
        k = k + 1;
        assert(out@ =~= s@.subrange(a as int, k as int));
    }
    out
}

/// A text made of the characters of `s` from `a` up to `b`.
fn text_between(s: &Vec<char>, a: usize, b: usize) -> (r: String)
    requires
        a <= b <= s@.len(),
    ensures
        r@ == s@.subrange(a as int, b as int),
{
    let mut out = String::new();
    let mut k = a;
    assert(out@ =~= s@.subrange(a as int, a as int));
    while k < b
        invariant
            a <= k <= b <= s@.len(),
            out@ == s@.subrange(a as int, k as int),
        decreases b - k,
    {
        push_char(&mut out, s[k]);
        k = k + 1;
        assert(out@ =~= s@.subrange(a as int, k as int));
    }
    out
}

/// The text without leading and trailing white space, as a range of `s`.
fn trimmed_range(s: &Vec<char>, a: usize, b: usize) -> (r: (usize, usize))
    requires
        a <= b <= s@.len(),
    ensures
        r.0 <= r.1 <= s@.len(),
        s@.subrange(r.0 as int, r.1 as int) == trimmed(s@.subrange(a as int, b as int)),
{
    let ghost t = s@.subrange(a as int, b as int);
    let mut i = a;
    while i < b && is_white_space(s[i])
        invariant
            a <= i <= b <= s@.len(),
            t == s@.subrange(a as int, b as int),
            skip_white(t, 0) == skip_white(t, i - a),
        decreases b - i,
    {
        assert(t[i - a] == s@[i as int]);
        i = i + 1;
    }
    proof {
        if i < b {
            assert(t[i - a] == s@[i as int]);
        }
    }
    let mut j = b;
    while j > i && is_white_space(s[j - 1])
        invariant
            a <= i <= j <= b <= s@.len(),
            t == s@.subrange(a as int, b as int),
            trim_end_index(t, t.len() as int) == trim_end_index(t, j - a),
        decreases j,
    {
        assert(t[j - 1 - a] == s@[j - 1]);
        j = j - 1;
    }
    proof {
        lemma_skip_white_bounds(t, 0);
        lemma_trim_end_bounds(t, t.len() as int);
        let sa = skip_white(t, 0);
        assert(sa == i - a);
        if j > i {
            assert(t[j - 1 - a] == s@[j - 1]);
            assert(trim_end_index(t, j - a) == j - a);
        } else {
            lemma_trim_end_bounds(t, j - a);
        }
        if i < j {
            assert(s@.subrange(i as int, j as int) =~= t.subrange(i - a, j - a));
        } else {
            assert(s@.subrange(i as int, j as int) =~= Seq::<char>::empty());
        }
    }
    (i, j)
}

// ---------------------------------------------------------------------------
// Country tags
// ---------------------------------------------------------------------------

pub open spec fn is_tag_char(c: char) -> bool {
    ('A' <= c <= 'Z') || ('0' <= c <= '9')
}

/// A country tag: three upper-case ASCII letters or digits.
pub open spec fn is_country_tag_text(s: Seq<char>) -> bool {
    s.len() == 3 && forall|i: int| 0 <= i < 3 ==> #[trigger] is_tag_char(s[i])
}

/// A text without its leading and trailing white space.
pub fn trim_text(s: &str) -> (r: String)
    ensures
        r@ == trimmed(s@),
{
    let chars = chars_of(s);
    let (a, b) = trimmed_range(&chars, 0, chars.len());
    proof {
        assert(chars@.subrange(0, chars@.len() as int) =~= chars@);
    }
    text_between(&chars, a, b)
}

fn is_tag_chars(s: &Vec<char>, a: usize, b: usize) -> (r: bool)
    requires
        a <= b <= s@.len(),
    ensures
        r == is_country_tag_text(s@.subrange(a as int, b as int)),
{
    if b - a != 3 {
        return false;
    }
    let ghost t = s@.subrange(a as int, b as int);
    let mut k: usize = 0;
    while k < 3
        invariant
            k <= 3,
            b == a + 3,
            b <= s@.len(),
            t == s@.subrange(a as int, b as int),
            forall|m: int| 0 <= m < k ==> #[trigger] is_tag_char(t[m]),
        decreases 3 - k,
    {
        let c = s[a + k];
        assert(t[k as int] == c);
        if !(('A' <= c && c <= 'Z') || ('0' <= c && c <= '9')) {
            assert(!is_tag_char(t[k as int]));
            return false;
        }
        k = k + 1;
    }
    true
}

/// Whether a text is a country tag.
pub fn is_country_tag(value: &str) -> (r: bool)
    ensures
        r == is_country_tag_text(value@),
{
    let chars = chars_of(value);
    proof {
        assert(chars@.subrange(0, chars@.len() as int) =~= chars@);
    }
    is_tag_chars(&chars, 0, chars.len())
}

/// The country tag a localisation key starts with: the part before its
/// first `_`, or the whole key.
pub open spec fn localization_tag_of(key: Seq<char>) -> Option<Seq<char>> {
    let t = key.take(next_index(key, 0, '_'));
    if is_country_tag_text(t) {
        Some(t)
    } else {
        None
    }
}

/// The country tag of a localisation key, if it has one.
pub fn localization_tag(key: &str) -> (r: Option<String>)
    ensures
        (match r {
            Some(t) => localization_tag_of(key@) == Some(t@),
            None => localization_tag_of(key@) is None,
        }),
{
    let chars = chars_of(key);
    let end = next_index_exec(&chars, 0, '_');
    proof {
        assert(chars@.subrange(0, end as int) =~= chars@.take(end as int));
    }
    if is_tag_chars(&chars, 0, end) {
        Some(text_between(&chars, 0, end))
    } else {
        None
    }
}

// ---------------------------------------------------------------------------
// Braces
// ---------------------------------------------------------------------------

/// The number of `{` minus the number of `}`.
pub open spec fn brace_delta(s: Seq<char>) -> int
    decreases s.len(),
{
    if s.len() == 0 {
        0
    } else {
        brace_delta(s.drop_last()) + if s.last() == '{' {
            1int
        } else if s.last() == '}' {
            -1int
        } else {
            0int
        }
    }
}

proof fn lemma_brace_delta_bound(s: Seq<char>)
    ensures
        -s.len() <= brace_delta(s) <= s.len(),
    decreases s.len(),
{
    if s.len() > 0 {
        lemma_brace_delta_bound(s.drop_last());
    }
}

/// The brace balance of the characters of `s` from `a` up to `b`.
fn brace_delta_between(s: &Vec<char>, a: usize, b: usize) -> (r: i128)
    requires
        a <= b <= s@.len(),
    ensures
        r == brace_delta(s@.subrange(a as int, b as int)),
{
    let mut d: i128 = 0;
    let mut k = a;
    while k < b
        invariant
            a <= k <= b <= s@.len(),
            d == brace_delta(s@.subrange(a as int, k as int)),
        decreases b - k,
    {
        proof {
            assert(s@.subrange(a as int, k + 1).drop_last() =~= s@.subrange(a as int, k as int));
            lemma_brace_delta_bound(s@.subrange(a as int, k as int));
        }
        if s[k] == '{' {
            d = d + 1;
        } else if s[k] == '}' {
            d = d - 1;
        }
        k = k + 1;
    }
    d
}

// ---------------------------------------------------------------------------
// Color blocks
// ---------------------------------------------------------------------------

/// What the `color = { r g b }` entry of a text gave.
#[derive(Debug, Clone, Copy, PartialEq, Eq)]
pub enum ParsedColor {
    Missing,
    Value(Color),
    Invalid,
}

pub open spec fn is_ascii_digit(c: char) -> bool {
    '0' <= c <= '9'
}

/// A character that can be part of an identifier: an ASCII letter or
/// digit, or `_`.
pub open spec fn is_ident_char(c: char) -> bool {
    ('0' <= c <= '9') || ('A' <= c <= 'Z') || ('a' <= c <= 'z') || c == '_'
}

/// The maximal runs of ASCII digits of a text, in order.
pub open spec fn digit_runs(s: Seq<char>) -> Seq<Seq<char>>
    decreases s.len(),
{
    if s.len() == 0 {
        Seq::empty()
    } else {
        let t = digit_runs(s.drop_last());
        if !is_ascii_digit(s.last()) {
            t
        } else if s.len() >= 2 && is_ascii_digit(s[s.len() - 2]) {
            t.update(t.len() - 1, t.last().push(s.last()))
        } else {
            t.push(seq![s.last()])
        }
    }
}

/// The color that the numbers of a block give: exactly three numbers,
/// none above 255.
pub open spec fn color_of_runs(runs: Seq<Seq<char>>) -> ParsedColor {
    if exists|k: int| 0 <= k < runs.len() && digit_value(#[trigger] runs[k]) > 255 {
        ParsedColor::Invalid
    } else if runs.len() == 3 {
        ParsedColor::Value(
            [digit_value(runs[0]) as u8, digit_value(runs[1]) as u8, digit_value(runs[2]) as u8],
        )
    } else {
        ParsedColor::Invalid
    }
}

/// The value that follows the `=` at `j - 1`: the numbers between the next
/// `{` and the `}` after it; without both braces the value is invalid.
pub open spec fn color_after_equals(s: Seq<char>, j: int) -> ParsedColor {
    let open = next_index(s, j, '{');
    if open >= s.len() {
        ParsedColor::Invalid
    } else {
        let close = next_index(s, open + 1, '}');
        if close >= s.len() {
            ParsedColor::Invalid
        } else {
            color_of_runs(digit_runs(s.subrange(open + 1, close)))
        }
    }
}

/// Whether the word `color` at `i` is a key: not the end of a longer
/// identifier, and followed, after white space, by `=`.
pub open spec fn color_key_at(s: Seq<char>, i: int) -> bool {
    let after = skip_white(s, i + "color"@.len());
    &&& occurs_at(s, i, "color"@)
    &&& !(i > 0 && is_ident_char(s[i - 1]))
    &&& after < s.len()
    &&& s[after] == '='
}

/// The first `color` key at or after `i` and its value; missing without one.
pub open spec fn color_search(s: Seq<char>, i: int) -> ParsedColor
    decreases s.len() + 1 - i,
{
    if i < 0 || i + "color"@.len() > s.len() {
        ParsedColor::Missing
    } else if color_key_at(s, i) {
        color_after_equals(s, skip_white(s, i + "color"@.len()) + 1)
    } else {
        color_search(s, i + 1)
    }
}

proof fn lemma_runs_nonempty(s: Seq<char>)
    ensures
        s.len() > 0 && is_ascii_digit(s.last()) ==> digit_runs(s).len() > 0,
    decreases s.len(),
{
    if s.len() >= 2 && is_ascii_digit(s.last()) && is_ascii_digit(s[s.len() - 2]) {
        lemma_runs_nonempty(s.drop_last());
        assert(s.drop_last().last() == s[s.len() - 2]);
    }
}

pub open spec fn capped(v: nat) -> nat {
    if v > 256 {
        256
    } else {
        v
    }
}

/// The color given by the numbers of `s` from `a` up to `b`.
fn color_between(s: &Vec<char>, a: usize, b: usize) -> (r: ParsedColor)
    requires
        a <= b <= s@.len(),
    ensures
        r == color_of_runs(digit_runs(s@.subrange(a as int, b as int))),
{
    let mut caps: Vec<u32> = Vec::new();
    let mut k = a;
    while k < b
        invariant
            a <= k <= b <= s@.len(),
            caps@.len() == digit_runs(s@.subrange(a as int, k as int)).len(),
            forall|m: int| 0 <= m < caps@.len() ==> #[trigger] caps@[m] == capped(
                digit_value(digit_runs(s@.subrange(a as int, k as int))[m]),
            ),
        decreases b - k,
    {
        let ghost before = s@.subrange(a as int, k as int);
        let ghost after = s@.subrange(a as int, k + 1);
        proof {
            assert(after.drop_last() =~= before);
            assert(after.last() == s@[k as int]);
            if k > a {
                assert(after[after.len() - 2] == s@[k - 1]);
                assert(before.last() == s@[k - 1]);
            }
        }
        let c = s[k];
        if '0' <= c && c <= '9' {
            let d = (c as u32) - 48;
            if k > a && '0' <= s[k - 1] && s[k - 1] <= '9' {
                proof {
                    lemma_runs_nonempty(before);
                }
                let last = caps.len() - 1;
                let old = caps[last];
                let next: u32 = if old >= 256 {
                    256
                } else if old * 10 + d > 256 {
                    256
                } else {
                    old * 10 + d
                };
                caps.set(last, next);
                proof {
                    let t = digit_runs(before);
                    assert(digit_value(t.last().push(c)) == digit_value(t.last()) * 10 + d) by {
                        assert(t.last().push(c).drop_last() =~= t.last());
                    }
                }
            } else {
                caps.push(d);
                proof {
                    assert(digit_value(seq![c]) == d) by {
                        assert(seq![c].drop_last() =~= Seq::<char>::empty());
                        assert(digit_value(Seq::<char>::empty()) == 0);
                    }
                }
            }
        }
        k = k + 1;
    }
    let ghost runs = digit_runs(s@.subrange(a as int, b as int));
    let mut i: usize = 0;
    while i < caps.len()
        invariant
            i <= caps@.len(),
            a <= b <= s@.len(),
            runs == digit_runs(s@.subrange(a as int, b as int)),
            caps@.len() == runs.len(),
            forall|m: int| 0 <= m < caps@.len() ==> #[trigger] caps@[m] == capped(digit_value(runs[m])),
            forall|m: int| 0 <= m < i ==> digit_value(#[trigger] runs[m]) <= 255,
        decreases caps.len() - i,
    {
        if caps[i] >= 256 {
            assert(digit_value(runs[i as int]) > 255);
            assert(exists|k: int| 0 <= k < runs.len() && digit_value(#[trigger] runs[k]) > 255);
            return ParsedColor::Invalid;
        }
        i = i + 1;
    }
    if caps.len() == 3 {
        ParsedColor::Value([caps[0] as u8, caps[1] as u8, caps[2] as u8])
    } else {
        ParsedColor::Invalid
    }
}

fn color_after_equals_exec(s: &Vec<char>, j: usize) -> (r: ParsedColor)
    requires
        j <= s@.len(),
    ensures
        r == color_after_equals(s@, j as int),
{
    let open = next_index_exec(s, j, '{');
    if open >= s.len() {
        return ParsedColor::Invalid;
    }
    let close = next_index_exec(s, open + 1, '}');
    if close >= s.len() {
        return ParsedColor::Invalid;
    }
    color_between(s, open + 1, close)
}

/// The color of the first `color` key of a text, as `parse_color_block`
/// reads it, from its characters.
fn color_of_chars(s: &Vec<char>) -> (r: ParsedColor)
    ensures
        r == color_search(s@, 0),
{
    let key = chars_of("color");
    proof {
        reveal_strlit("color");
    }
    let mut i: usize = 0;
    loop
        invariant
            key@ == "color"@,
            key@.len() == 5,
            i <= s@.len() + 1,
            color_search(s@, 0) == color_search(s@, i as int),
        decreases s@.len() + 1 - i,
    {
        if i > s.len() || key.len() > s.len() - i {
            return ParsedColor::Missing;
        }
        if occurs_at_exec(s, i, &key) && !(i > 0 && is_ident_char_exec(s[i - 1])) {
            let after = skip_white_exec(s, i + key.len());
            if after < s.len() && s[after] == '=' {
                return color_after_equals_exec(s, after + 1);
            }
        }
        i = i + 1;
    }
}

fn is_ident_char_exec(c: char) -> (r: bool)
    ensures
        r == is_ident_char(c),
{
    ('0' <= c && c <= '9') || ('A' <= c && c <= 'Z') || ('a' <= c && c <= 'z') || c == '_'
}

/// The color given by the first `color = { r g b }` of a text: missing when
/// no `color` key is followed by `=`, invalid when the braces or the three
/// numbers up to 255 are not there.
pub fn parse_color_block(text: &str) -> (r: ParsedColor)
    ensures
        r == color_search(text@, 0),
{
    let chars = chars_of(text);
    color_of_chars(&chars)
}

// ---------------------------------------------------------------------------
// Lines
// ---------------------------------------------------------------------------

/// The pieces of a text between line feeds; there is always a last piece,
/// empty when the text ends with a line feed.
pub open spec fn raw_lines(s: Seq<char>) -> Seq<Seq<char>>
    decreases s.len(),
{
    if s.len() == 0 {
        seq![Seq::empty()]
    } else {
        let t = raw_lines(s.drop_last());
        if s.last() == '\n' {
            t.push(Seq::empty())
        } else {
            t.update(t.len() - 1, t.last().push(s.last()))
        }
    }
}

proof fn lemma_raw_lines_nonempty(s: Seq<char>)
    ensures
        raw_lines(s).len() >= 1,
    decreases s.len(),
{
    if s.len() > 0 {
        lemma_raw_lines_nonempty(s.drop_last());
    }
}

/// A line without the carriage return of a `\r\n` ending.
pub open spec fn without_cr(line: Seq<char>) -> Seq<char> {
    if line.len() > 0 && line.last() == '\r' {
        line.drop_last()
    } else {
        line
    }
}

/// The lines of a text as `str::lines` gives them: split at line feeds,
/// each line that a line feed ends without a carriage return before it,
/// and no empty last line after a final line feed.
pub open spec fn text_lines(s: Seq<char>) -> Seq<Seq<char>> {
    let r = raw_lines(s);
    let ended = r.drop_last().map_values(|l: Seq<char>| without_cr(l));
    if r.last().len() == 0 {
        ended
    } else {
        ended.push(r.last())
    }
}

/// The characters of `line` without the carriage return of a `\r\n` ending.
fn without_cr_exec(line: &Vec<char>) -> (r: Vec<char>)
    ensures
        r@ == without_cr(line@),
{
    let n = line.len();
    if n > 0 && line[n - 1] == '\r' {
        chars_between(line, 0, n - 1)
    } else {
        proof {
            assert(line@.subrange(0, n as int) =~= line@);
        }
        chars_between(line, 0, n)
    }
}

// ---------------------------------------------------------------------------
// The consolidated country color file
// ---------------------------------------------------------------------------

/// The first position at or after `i` of an entry for `tag`, or the length.
pub open spec fn tag_index(entries: Seq<(Seq<char>, ParsedColor)>, tag: Seq<char>, i: int) -> int
    decreases entries.len() - i,
{
    if i < 0 || i >= entries.len() {
        entries.len() as int
    } else if entries[i].0 == tag {
        i
    } else {
        tag_index(entries, tag, i + 1)
    }
}

/// The entries with `tag` given `color`: its entry replaced where it has
/// one, else a new entry at the end.
pub open spec fn put_entry(entries: Seq<(Seq<char>, ParsedColor)>, tag: Seq<char>, color: ParsedColor) -> Seq<
    (Seq<char>, ParsedColor),
> {
    let k = tag_index(entries, tag, 0);
    if k < entries.len() {
        entries.update(k, (tag, color))
    } else {
        entries.push((tag, color))
    }
}

/// Where reading a consolidated color file has got to: the colors so far,
/// and the open block, if any, with its text and brace depth.
pub struct ColorScan {
    pub entries: Seq<(Seq<char>, ParsedColor)>,
    pub active: Option<Seq<char>>,
    pub block: Seq<char>,
    pub depth: int,
}

/// Reading one line of a consolidated color file. Outside a block, a line
/// `TAG = ...{...` opens the block of a country tag; a block closes on the
/// line where its braces balance, and its color is read from its text.
pub open spec fn color_scan_step(st: ColorScan, raw: Seq<char>) -> ColorScan {
    let line = strip_comment(raw);
    match st.active {
        None => {
            let eq = next_index(line, 0, '=');
            let tag = trimmed(line.take(eq));
            let value = line.skip(eq + 1);
            if eq < line.len() && is_country_tag_text(tag) && value.contains('{') {
                let block = value.push('\n');
                let depth = brace_delta(value);
                if depth == 0 {
                    ColorScan {
                        entries: put_entry(st.entries, tag, color_search(block, 0)),
                        active: None,
                        block,
                        depth,
                    }
                } else {
                    ColorScan { entries: st.entries, active: Some(tag), block, depth }
                }
            } else {
                st
            }
        },
        Some(tag) => {
            let block = st.block + line.push('\n');
            let depth = st.depth + brace_delta(line);
            if depth <= 0 {
                ColorScan {
                    entries: put_entry(st.entries, tag, color_search(block, 0)),
                    active: None,
                    block,
                    depth,
                }
            } else {
                ColorScan { entries: st.entries, active: Some(tag), block, depth }
            }
        },
    }
}

pub open spec fn scan_lines(lines: Seq<Seq<char>>) -> ColorScan
    decreases lines.len(),
{
    if lines.len() == 0 {
        ColorScan { entries: Seq::empty(), active: None, block: Seq::empty(), depth: 0 }
    } else {
        color_scan_step(scan_lines(lines.drop_last()), lines.last())
    }
}

/// The country colors of a consolidated color file, one entry per tag in
/// the order the tags first appear, each with the color of its last block;
/// a block still open at the end of the text gives nothing.
pub open spec fn country_colors(text: Seq<char>) -> Seq<(Seq<char>, ParsedColor)> {
    scan_lines(text_lines(text)).entries
}

pub open spec fn entries_view(v: Seq<(String, ParsedColor)>) -> Seq<(Seq<char>, ParsedColor)> {
    v.map_values(|e: (String, ParsedColor)| (e.0@, e.1))
}

struct ColorScanWork {
    entries: Vec<(String, ParsedColor)>,
    active: Option<String>,
    block: Vec<char>,
    depth: i128,
}

spec fn work_view(w: ColorScanWork) -> ColorScan {
    ColorScan {
        entries: entries_view(w.entries@),
        active: match w.active {
            Some(t) => Some(t@),
            None => None,
        },
        block: w.block@,
        depth: w.depth as int,
    }
}

fn find_tag(entries: &Vec<(String, ParsedColor)>, tag: &String) -> (r: usize)
    ensures
        r == tag_index(entries_view(entries@), tag@, 0),
        r <= entries@.len(),
{
    let mut i: usize = 0;
    while i < entries.len()
        invariant
            i <= entries@.len(),
            tag_index(entries_view(entries@), tag@, 0) == tag_index(entries_view(entries@), tag@, i as int),
        decreases entries.len() - i,
    {
        if crate::text::same_text(entries[i].0.as_str(), tag.as_str()) {
            return i;
        }
        i = i + 1;
    }
    i
}

fn put_entry_exec(entries: &mut Vec<(String, ParsedColor)>, tag: String, color: ParsedColor)
    ensures
        entries_view(final(entries)@) == put_entry(entries_view(old(entries)@), tag@, color),
{
    let k = find_tag(entries, &tag);
    if k < entries.len() {
        entries.set(k, (tag, color));
        proof {
            assert(entries_view(entries@) =~= entries_view(old(entries)@).update(k as int, (tag@, color)));
        }
    } else {
        entries.push((tag, color));
        proof {
            assert(entries_view(entries@) =~= entries_view(old(entries)@).push((tag@, color)));
        }
    }
}

fn append_chars(out: &mut Vec<char>, s: &Vec<char>, a: usize, b: usize)
    requires
        a <= b <= s@.len(),
    ensures
        final(out)@ == old(out)@ + s@.subrange(a as int, b as int),
{
    let mut k = a;
    while k < b
        invariant
            a <= k <= b <= s@.len(),
            out@ == old(out)@ + s@.subrange(a as int, k as int),
        decreases b - k,
    {
        out.push(s[k]);
        k = k + 1;
        assert(out@ =~= old(out)@ + s@.subrange(a as int, k as int));
    }
}

/// Reads one line into the scan.
fn color_scan_line(w: &mut ColorScanWork, raw: &Vec<char>, Ghost(bound): Ghost<int>)
    requires
        0 <= bound <= u64::MAX,
        -bound <= old(w).depth <= bound,
    ensures
        work_view(*final(w)) == color_scan_step(work_view(*old(w)), raw@),
        -(bound + raw@.len()) <= final(w).depth <= bound + raw@.len(),
{
    let end = next_index_exec(raw, 0, '#');
    let ghost line = strip_comment(raw@);
    proof {
        assert(raw@.subrange(0, end as int) =~= line);
    }
    match &w.active {
        None => {
            let eq = next_index_exec(raw, 0, '=');
            if eq >= end {
                proof {
                    lemma_next_index_bounds(raw@, 0, '=');
                    lemma_next_index_bounds(line, 0, '=');
                    assert forall|k: int| 0 <= k < line.len() implies line[k] != '=' by {
                        assert(line[k] == raw@[k]);
                    }
                    lemma_next_index_none(line, 0, '=');
                }
                return;
            }
            proof {
                lemma_next_index_bounds(raw@, 0, '=');
                assert forall|k: int| 0 <= k < eq implies line[k] != '=' by {
                    assert(line[k] == raw@[k]);
                }
                assert(line[eq as int] == '=');
                lemma_next_index_at(line, 0, '=', eq as int);
            }
            let (ta, tb) = trimmed_range(raw, 0, eq);
            proof {
                assert(raw@.subrange(0, eq as int) =~= line.take(eq as int));
            }
            let open = next_index_exec(raw, eq + 1, '{');
            let has_open = open < end;
            proof {
                let value = line.skip(eq + 1);
                lemma_next_index_bounds(raw@, eq + 1, '{');
                if has_open {
                    assert(value[open - eq - 1] == '{');
                } else {
                    assert forall|k: int| 0 <= k < value.len() implies value[k] != '{' by {
                        assert(value[k] == raw@[eq + 1 + k]);
                    }
                }
            }
            if !is_tag_chars(raw, ta, tb) || !has_open {
                return;
            }
            let tag = text_between(raw, ta, tb);
            let mut block = chars_between(raw, eq + 1, end);
            let depth = brace_delta_between(raw, eq + 1, end);
            proof {
                assert(block@ =~= line.skip(eq + 1));
                lemma_brace_delta_bound(line.skip(eq + 1));
            }
            block.push('\n');
            if depth == 0 {
                let color = color_of_chars(&block);
                put_entry_exec(&mut w.entries, tag, color);
                w.active = None;
                w.block = block;
                w.depth = depth;
            } else {
                w.active = Some(tag);
                w.block = block;
                w.depth = depth;
            }
        },
        Some(tag) => {
            let tag = tag.clone();
            let delta = brace_delta_between(raw, 0, end);
            proof {
                lemma_brace_delta_bound(line);
            }
            let mut block = w.block.clone();
            append_chars(&mut block, raw, 0, end);
            block.push('\n');
            let depth = w.depth + delta;
            proof {
                assert(block@ =~= old(w).block@ + line.push('\n'));
            }
            if depth <= 0 {
                let color = color_of_chars(&block);
                put_entry_exec(&mut w.entries, tag, color);
                w.active = None;
                w.block = block;
                w.depth = depth;
            } else {
                w.active = Some(tag);
                w.block = block;
                w.depth = depth;
            }
        },
    }
}

proof fn lemma_next_index_none(s: Seq<char>, i: int, c: char)
    requires
        0 <= i <= s.len(),
        forall|k: int| i <= k < s.len() ==> s[k] != c,
    ensures
        next_index(s, i, c) == s.len(),
    decreases s.len() - i,
{
    if i < s.len() {
        lemma_next_index_none(s, i + 1, c);
    }
}

proof fn lemma_next_index_at(s: Seq<char>, i: int, c: char, j: int)
    requires
        0 <= i <= j < s.len(),
        s[j] == c,
        forall|k: int| i <= k < j ==> s[k] != c,
    ensures
        next_index(s, i, c) == j,
    decreases j - i,
{
    if i < j {
        lemma_next_index_at(s, i + 1, c, j);
    }
}

/// Entries with no tag twice.
pub open spec fn distinct_tags(e: Seq<(Seq<char>, ParsedColor)>) -> bool {
    forall|i: int, j: int| #![trigger e[i], e[j]] 0 <= i < j < e.len() ==> e[i].0 != e[j].0
}

proof fn lemma_tag_index(e: Seq<(Seq<char>, ParsedColor)>, tag: Seq<char>, i: int)
    requires
        0 <= i <= e.len(),
    ensures
        i <= tag_index(e, tag, i) <= e.len(),
        tag_index(e, tag, i) < e.len() ==> e[tag_index(e, tag, i)].0 == tag,
        forall|k: int| i <= k < tag_index(e, tag, i) ==> e[k].0 != tag,
    decreases e.len() - i,
{
    if i < e.len() && e[i].0 != tag {
        lemma_tag_index(e, tag, i + 1);
    }
}

proof fn lemma_put_entry(e: Seq<(Seq<char>, ParsedColor)>, tag: Seq<char>, c: ParsedColor)
    requires
        distinct_tags(e),
    ensures
        distinct_tags(put_entry(e, tag, c)),
        forall|k: int| 0 <= k < put_entry(e, tag, c).len() ==> (#[trigger] put_entry(e, tag, c)[k]).0
            == tag || (exists|m: int| 0 <= m < e.len() && e[m].0 == put_entry(e, tag, c)[k].0),
{
    lemma_tag_index(e, tag, 0);
    let r = put_entry(e, tag, c);
    assert forall|k: int| 0 <= k < r.len() implies (#[trigger] r[k]).0 == tag || (exists|m: int|
        0 <= m < e.len() && e[m].0 == r[k].0) by {
        if k < e.len() && r[k].0 != tag {
            assert(e[k].0 == r[k].0);
        }
    }
}

proof fn lemma_scan_lines_tags(lines: Seq<Seq<char>>)
    ensures
        distinct_tags(scan_lines(lines).entries),
        forall|k: int| 0 <= k < scan_lines(lines).entries.len() ==> is_country_tag_text(
            (#[trigger] scan_lines(lines).entries[k]).0,
        ),
        scan_lines(lines).active matches Some(t) ==> is_country_tag_text(t),
    decreases lines.len(),
{
    if lines.len() > 0 {
        let st = scan_lines(lines.drop_last());
        lemma_scan_lines_tags(lines.drop_last());
        let line = strip_comment(lines.last());
        match st.active {
            None => {
                let eq = next_index(line, 0, '=');
                let tag = trimmed(line.take(eq));
                let value = line.skip(eq + 1);
                if eq < line.len() && is_country_tag_text(tag) && value.contains('{') && brace_delta(
                    value,
                ) == 0 {
                    let block = value.push('\n');
                    lemma_put_entry(st.entries, tag, color_search(block, 0));
                }
            },
            Some(tag) => {
                let block = st.block + line.push('\n');
                lemma_put_entry(st.entries, tag, color_search(block, 0));
            },
        }
    }
}

/// A consolidated color file gives at most one color per tag, and only
/// for country tags.
pub proof fn lemma_country_colors_one_per_tag(text: Seq<char>)
    ensures
        distinct_tags(country_colors(text)),
        forall|k: int| 0 <= k < country_colors(text).len() ==> is_country_tag_text(
            (#[trigger] country_colors(text)[k]).0,
        ),
{
    lemma_scan_lines_tags(text_lines(text));
}

/// The country colors of a consolidated color file such as
/// `common/countries/colors.txt`: one entry per country tag, in the order
/// the tags first appear, each with the color read from its last block.
pub fn parse_multi_country_colors(text: &str) -> (r: Vec<(String, ParsedColor)>)
    ensures
        entries_view(r@) == country_colors(text@),
{
    let s = chars_of(text);
    let mut w = ColorScanWork { entries: Vec::new(), active: None, block: Vec::new(), depth: 0 };
    let mut cur: Vec<char> = Vec::new();
    let mut line_start: usize = 0;
    let mut i: usize = 0;
    proof {
        assert(s@.take(0) =~= Seq::<char>::empty());
        assert(raw_lines(s@.take(0)).drop_last().map_values(|l: Seq<char>| without_cr(l))
            =~= Seq::<Seq<char>>::empty());
        assert(entries_view(w.entries@) =~= Seq::<(Seq<char>, ParsedColor)>::empty());
    }
    while i < s.len()
        invariant
            i <= s@.len(),
            line_start <= i,
            cur@.len() + line_start == i,
            -(line_start as int) <= w.depth <= line_start as int,
            cur@ == raw_lines(s@.take(i as int)).last(),
            work_view(w) == scan_lines(
                raw_lines(s@.take(i as int)).drop_last().map_values(|l: Seq<char>| without_cr(l)),
            ),
        decreases s.len() - i,
    {
        let c = s[i];
        let ghost before = raw_lines(s@.take(i as int));
        proof {
            assert(s@.take(i + 1).drop_last() =~= s@.take(i as int));
            assert(s@.take(i + 1).last() == c);
            lemma_raw_lines_nonempty(s@.take(i as int));
        }
        if c == '\n' {
            let line = without_cr_exec(&cur);
            color_scan_line(&mut w, &line, Ghost(line_start as int));
            proof {
                let f = |l: Seq<char>| without_cr(l);
                let after = raw_lines(s@.take(i + 1));
                assert(after == before.push(Seq::<char>::empty()));
                assert(after.drop_last() =~= before);
                assert(before.map_values(f).drop_last() =~= before.drop_last().map_values(f));
                assert(before.map_values(f).last() == without_cr(cur@));
            }
            cur = Vec::new();
            line_start = i + 1;
        } else {
            cur.push(c);
            proof {
                let after = raw_lines(s@.take(i + 1));
                assert(after.drop_last() =~= before.drop_last());
                assert(cur@ == after.last());
            }
        }
        i = i + 1;
    }
    proof {
        assert(s@.take(s@.len() as int) =~= s@);
        lemma_raw_lines_nonempty(s@);
    }
    if cur.len() > 0 {
        color_scan_line(&mut w, &cur, Ghost(line_start as int));
        proof {
            let f = |l: Seq<char>| without_cr(l);
            let r = raw_lines(s@);
            assert(r.drop_last().map_values(f).push(r.last()).drop_last() =~= r.drop_last().map_values(f));
        }
    }
    w.entries
}

// ---------------------------------------------------------------------------
// Country histories
// ---------------------------------------------------------------------------

/// The first position at or after `i` holding white space or `}`, or the
/// length.
pub open spec fn word_end(s: Seq<char>, i: int) -> int
    decreases s.len() - i,
{
    if i < 0 || i >= s.len() {
        s.len() as int
    } else if white_space(s[i]) || s[i] == '}' {
        i
    } else {
        word_end(s, i + 1)
    }
}

/// The first position at or after `i` that is not `"`, or the length.
pub open spec fn quote_start(s: Seq<char>, i: int) -> int
    decreases s.len() - i,
{
    if i < 0 || i >= s.len() {
        s.len() as int
    } else if s[i] != '"' {
        i
    } else {
        quote_start(s, i + 1)
    }
}

/// The end of `s.take(j)` once trailing `"` are left out.
pub open spec fn quote_end(s: Seq<char>, j: int) -> int
    decreases j,
{
    if j <= 0 || j > s.len() {
        if j > s.len() { s.len() as int } else { 0 }
    } else if s[j - 1] == '"' {
        quote_end(s, j - 1)
    } else {
        j
    }
}

/// A text without leading and trailing `"`.
pub open spec fn trim_quotes(s: Seq<char>) -> Seq<char> {
    let a = quote_start(s, 0);
    let b = quote_end(s, s.len() as int);
    if a >= b {
        Seq::empty()
    } else {
        s.subrange(a, b)
    }
}

/// The ruling party of a country history: the word after the first
/// `ruling_party` and its `=`, up to white space or `}`, without quotes;
/// none when that is missing or empty.
pub open spec fn ruling_ideology(s: Seq<char>) -> Option<Seq<char>> {
    match find_from(s, 0, "ruling_party"@) {
        None => None,
        Some(k) => {
            let a = skip_white(s, k + "ruling_party"@.len());
            if a >= s.len() || s[a] != '=' {
                None
            } else {
                let b = skip_white(s, a + 1);
                let t = trim_quotes(s.subrange(b, word_end(s, b)));
                if t.len() == 0 {
                    None
                } else {
                    Some(t)
                }
            }
        },
    }
}

proof fn lemma_quote_start_bounds(s: Seq<char>, i: int)
    requires
        0 <= i <= s.len(),
    ensures
        i <= quote_start(s, i) <= s.len(),
        quote_start(s, i) < s.len() ==> s[quote_start(s, i)] != '"',
    decreases s.len() - i,
{
    if i < s.len() && s[i] == '"' {
        lemma_quote_start_bounds(s, i + 1);
    }
}

/// The range of `s` from `a` up to `b` without leading and trailing `"`.
fn trim_quotes_range(s: &Vec<char>, a: usize, b: usize) -> (r: (usize, usize))
    requires
        a <= b <= s@.len(),
    ensures
        r.0 <= r.1 <= s@.len(),
        s@.subrange(r.0 as int, r.1 as int) == trim_quotes(s@.subrange(a as int, b as int)),
{
    let ghost t = s@.subrange(a as int, b as int);
    let mut i = a;
    while i < b && s[i] == '"'
        invariant
            a <= i <= b <= s@.len(),
            t == s@.subrange(a as int, b as int),
            quote_start(t, 0) == quote_start(t, i - a),
        decreases b - i,
    {
        assert(t[i - a] == s@[i as int]);
        i = i + 1;
    }
    proof {
        if i < b {
            assert(t[i - a] == s@[i as int]);
        }
    }
    let mut j = b;
    while j > i && s[j - 1] == '"'
        invariant
            a <= i <= j <= b <= s@.len(),
            t == s@.subrange(a as int, b as int),
            quote_end(t, t.len() as int) == quote_end(t, j - a),
        decreases j,
    {
        assert(t[j - 1 - a] == s@[j - 1]);
        j = j - 1;
    }
    proof {
        lemma_quote_start_bounds(t, 0);
        lemma_quote_end_bounds(t, j - a);
        if j > i {
            assert(t[j - 1 - a] == s@[j - 1]);
            assert(quote_end(t, j - a) == j - a);
            assert(s@.subrange(i as int, j as int) =~= t.subrange(i - a, j - a));
        } else {
            assert(s@.subrange(i as int, j as int) =~= Seq::<char>::empty());
        }
    }
    (i, j)
}

proof fn lemma_quote_end_bounds(s: Seq<char>, j: int)
    requires
        0 <= j <= s.len(),
    ensures
        0 <= quote_end(s, j) <= j,
    decreases j,
{
    if j > 0 && s[j - 1] == '"' {
        lemma_quote_end_bounds(s, j - 1);
    }
}

fn word_end_exec(s: &Vec<char>, from: usize) -> (r: usize)
    requires
        from <= s@.len(),
    ensures
        r == word_end(s@, from as int),
        from <= r <= s@.len(),
{
    let mut i = from;
    while i < s.len() && !is_white_space(s[i]) && s[i] != '}'
        invariant
            from <= i <= s@.len(),
            word_end(s@, from as int) == word_end(s@, i as int),
        decreases s.len() - i,
    {
        i = i + 1;
    }
    i
}

/// The ruling party that a country history sets, if any.
pub fn parse_ruling_ideology(text: &str) -> (r: Option<String>)
    ensures
        (match r {
            Some(t) => ruling_ideology(text@) == Some(t@),
            None => ruling_ideology(text@) is None,
        }),
{
    let s = chars_of(text);
    let key = chars_of("ruling_party");
    let k = match find_from_exec(&s, 0, &key) {
        None => {
            return None;
        },
        Some(k) => k,
    };
    proof {
        lemma_find_from_found(s@, 0, key@);
        assert(find_from(s@, 0, key@) == Some(k as int));
        assert(k + key@.len() <= s@.len());
        assert(s@.len() == s.len());
        assert(key@.len() == key.len());
    }
    let a = skip_white_exec(&s, k + key.len());
    if a >= s.len() || s[a] != '=' {
        return None;
    }
    let b = skip_white_exec(&s, a + 1);
    let e = word_end_exec(&s, b);
    let (qa, qb) = trim_quotes_range(&s, b, e);
    if qa >= qb {
        proof {
            assert(s@.subrange(qa as int, qb as int).len() == 0);
        }
        return None;
    }
    Some(text_between(&s, qa, qb))
}

proof fn lemma_find_from_found(s: Seq<char>, i: int, p: Seq<char>)
    ensures
        find_from(s, i, p) matches Some(k) ==> i <= k && k + p.len() <= s.len(),
    decreases s.len() + 1 - i,
{
    if i >= 0 && i + p.len() <= s.len() && !occurs_at(s, i, p) {
        lemma_find_from_found(s, i + 1, p);
    }
}

// ---------------------------------------------------------------------------
// Localisation
// ---------------------------------------------------------------------------

/// The game's name of the language of a locale; English for any other.
pub open spec fn hoi4_language_of(locale: Seq<char>) -> Seq<char> {
    if locale == "pt-BR"@ {
        "braz_por"@
    } else if locale == "es-ES"@ {
        "spanish"@
    } else if locale == "fr-FR"@ {
        "french"@
    } else if locale == "ru-RU"@ {
        "russian"@
    } else if locale == "zh-CN"@ {
        "simp_chinese"@
    } else {
        "english"@
    }
}

/// The game's name of the language of a locale such as `fr-FR`.
pub fn hoi4_language(locale: &str) -> (r: &'static str)
    ensures
        r@ == hoi4_language_of(locale@),
{
    if crate::text::same_text(locale, "pt-BR") {
        "braz_por"
    } else if crate::text::same_text(locale, "es-ES") {
        "spanish"
    } else if crate::text::same_text(locale, "fr-FR") {
        "french"
    } else if crate::text::same_text(locale, "ru-RU") {
        "russian"
    } else if crate::text::same_text(locale, "zh-CN") {
        "simp_chinese"
    } else {
        "english"
    }
}

/// The first line of a localisation file of a language: `l_<language>:`.
pub open spec fn localization_header(language: Seq<char>) -> Seq<char> {
    "l_"@ + language + ":"@
}

/// A key without the byte order marks it starts with.
pub open spec fn without_boms(key: Seq<char>) -> Seq<char> {
    key.skip(bom_end(key, 0))
}

pub open spec fn bom_end(s: Seq<char>, i: int) -> int
    decreases s.len() - i,
{
    if i < 0 || i >= s.len() {
        s.len() as int
    } else if s[i] != '\u{feff}' {
        i
    } else {
        bom_end(s, i + 1)
    }
}

/// The country name a localisation line gives: `KEY: "name"`, where the
/// key, trimmed and without leading byte order marks, starts with a country
/// tag, and the name between the first two quotes is not empty.
pub open spec fn name_of_line(raw: Seq<char>) -> Option<(Seq<char>, Seq<char>)> {
    let line = strip_comment(raw);
    let colon = next_index(line, 0, ':');
    let key = without_boms(trimmed(line.take(colon)));
    let value = line.skip(colon + 1);
    let q1 = next_index(value, 0, '"');
    let q2 = next_index(value, q1 + 1, '"');
    if colon >= line.len() || localization_tag_of(key) is None || q1 >= value.len() || q2
        >= value.len() || q2 == q1 + 1 {
        None
    } else {
        Some((key, value.subrange(q1 + 1, q2)))
    }
}

pub open spec fn names_of_lines(lines: Seq<Seq<char>>) -> Seq<(Seq<char>, Seq<char>)>
    decreases lines.len(),
{
    if lines.len() == 0 {
        Seq::empty()
    } else {
        let rest = names_of_lines(lines.drop_last());
        match name_of_line(lines.last()) {
            Some(e) => rest.push(e),
            None => rest,
        }
    }
}

/// The country names of a localisation text of a language, in line order;
/// none when the text lacks the language's header.
pub open spec fn localized_names(text: Seq<char>, language: Seq<char>) -> Seq<(Seq<char>, Seq<char>)> {
    if find_from(text, 0, localization_header(language)) is None {
        Seq::empty()
    } else {
        names_of_lines(text_lines(text))
    }
}

pub open spec fn pairs_view(v: Seq<(String, String)>) -> Seq<(Seq<char>, Seq<char>)> {
    v.map_values(|e: (String, String)| (e.0@, e.1@))
}

fn name_of_line_exec(raw: &Vec<char>) -> (r: Option<(String, String)>)
    ensures
        (match r {
            Some(e) => name_of_line(raw@) == Some((e.0@, e.1@)),
            None => name_of_line(raw@) is None,
        }),
{
    let end = next_index_exec(raw, 0, '#');
    let line = chars_between(raw, 0, end);
    proof {
        assert(line@ =~= strip_comment(raw@));
    }
    let colon = next_index_exec(&line, 0, ':');
    if colon >= line.len() {
        return None;
    }
    let (ka, kb) = trimmed_range(&line, 0, colon);
    proof {
        assert(line@.subrange(0, colon as int) =~= line@.take(colon as int));
    }
    let trimmed_key = chars_between(&line, ka, kb);
    let mut b: usize = 0;
    while b < trimmed_key.len() && trimmed_key[b] == '\u{feff}'
        invariant
            b <= trimmed_key@.len(),
            bom_end(trimmed_key@, 0) == bom_end(trimmed_key@, b as int),
        decreases trimmed_key.len() - b,
    {
        b = b + 1;
    }
    let key_chars = chars_between(&trimmed_key, b, trimmed_key.len());
    proof {
        assert(key_chars@ =~= without_boms(trimmed_key@));
    }
    let tag_end = next_index_exec(&key_chars, 0, '_');
    proof {
        assert(key_chars@.subrange(0, tag_end as int) =~= key_chars@.take(tag_end as int));
    }
    if !is_tag_chars(&key_chars, 0, tag_end) {
        return None;
    }
    let value = chars_between(&line, colon + 1, line.len());
    proof {
        assert(value@ =~= line@.skip(colon + 1));
    }
    let q1 = next_index_exec(&value, 0, '"');
    if q1 >= value.len() {
        return None;
    }
    let q2 = next_index_exec(&value, q1 + 1, '"');
    if q2 >= value.len() || q2 == q1 + 1 {
        return None;
    }
    let key = text_between(&key_chars, 0, key_chars.len());
    proof {
        assert(key_chars@.subrange(0, key_chars@.len() as int) =~= key_chars@);
    }
    let name = text_between(&value, q1 + 1, q2);
    Some((key, name))
}

/// The country names, key and name, that a localisation text of a language
/// gives, in line order: nothing unless the text holds the header
/// `l_<language>:`; a later line for the same key comes later.
pub fn localized_country_names(text: &str, language: &str) -> (r: Vec<(String, String)>)
    ensures
        pairs_view(r@) == localized_names(text@, language@),
{
    let s = chars_of(text);
    let mut header = String::from_str("l_");
    header.append(language);
    header.append(":");
    let header_chars = chars_of(header.as_str());
    proof {
        assert(header_chars@ =~= localization_header(language@));
    }
    let mut out: Vec<(String, String)> = Vec::new();
    if find_from_exec(&s, 0, &header_chars).is_none() {
        proof {
            assert(pairs_view(out@) =~= Seq::<(Seq<char>, Seq<char>)>::empty());
        }
        return out;
    }
    let mut cur: Vec<char> = Vec::new();
    let mut i: usize = 0;
    proof {
        assert(s@.take(0) =~= Seq::<char>::empty());
        assert(raw_lines(s@.take(0)).drop_last().map_values(|l: Seq<char>| without_cr(l))
            =~= Seq::<Seq<char>>::empty());
        assert(pairs_view(out@) =~= Seq::<(Seq<char>, Seq<char>)>::empty());
    }
    while i < s.len()
        invariant
            i <= s@.len(),
            cur@ == raw_lines(s@.take(i as int)).last(),
            pairs_view(out@) == names_of_lines(
                raw_lines(s@.take(i as int)).drop_last().map_values(|l: Seq<char>| without_cr(l)),
            ),
        decreases s.len() - i,
    {
        let c = s[i];
        let ghost before = raw_lines(s@.take(i as int));
        proof {
            assert(s@.take(i + 1).drop_last() =~= s@.take(i as int));
            assert(s@.take(i + 1).last() == c);
            lemma_raw_lines_nonempty(s@.take(i as int));
        }
        if c == '\n' {
            let line = without_cr_exec(&cur);
            let ghost old_out = pairs_view(out@);
            match name_of_line_exec(&line) {
                Some(e) => {
                    out.push(e);
                    proof {
                        assert(pairs_view(out@) =~= old_out.push((e.0@, e.1@)));
                    }
                },
                None => {},
            }
            proof {
                let f = |l: Seq<char>| without_cr(l);
                let after = raw_lines(s@.take(i + 1));
                assert(after == before.push(Seq::<char>::empty()));
                assert(after.drop_last() =~= before);
                assert(before.map_values(f).drop_last() =~= before.drop_last().map_values(f));
                assert(before.map_values(f).last() == without_cr(cur@));
            }
            cur = Vec::new();
        } else {
            cur.push(c);
            proof {
                let after = raw_lines(s@.take(i + 1));
                assert(after.drop_last() =~= before.drop_last());
                assert(cur@ == after.last());
            }
        }
        i = i + 1;
    }
    proof {
        assert(s@.take(s@.len() as int) =~= s@);
        lemma_raw_lines_nonempty(s@);
    }
    if cur.len() > 0 {
        let ghost old_out = pairs_view(out@);
        match name_of_line_exec(&cur) {
            Some(e) => {
                out.push(e);
                proof {
                    assert(pairs_view(out@) =~= old_out.push((e.0@, e.1@)));
                }
            },
            None => {},
        }
        proof {
            let f = |l: Seq<char>| without_cr(l);
            let r = raw_lines(s@);
            assert(r.drop_last().map_values(f).push(r.last()).drop_last() =~= r.drop_last().map_values(f));
        }
    }
    out
}

/// Trimming leaves a text that neither starts nor ends with white space,
/// and that is a contiguous part of the text; a text without white space at
/// either end is left as it is; a text of white space only trims to nothing.
pub proof fn lemma_trim_laws(s: Seq<char>)
    ensures
        trimmed(s).len() > 0 ==> !white_space(trimmed(s)[0]) && !white_space(trimmed(s).last()),
        exists|a: int, b: int| 0 <= a <= b <= s.len() && trimmed(s) == s.subrange(a, b),
        (s.len() > 0 && !white_space(s[0]) && !white_space(s.last())) ==> trimmed(s) == s,
        (forall|i: int| 0 <= i < s.len() ==> white_space(#[trigger] s[i])) ==> trimmed(s).len() == 0,
{
    lemma_skip_white_bounds(s, 0);
    lemma_trim_end_bounds(s, s.len() as int);
    let a = skip_white(s, 0);
    let b = trim_end_index(s, s.len() as int);
    if a < b {
        assert(trimmed(s) == s.subrange(a, b));
        assert(trimmed(s)[0] == s[a]);
        assert(trimmed(s).last() == s[b - 1]);
    } else {
        assert(trimmed(s) == s.subrange(0, 0));
    }
    if s.len() > 0 && !white_space(s[0]) && !white_space(s.last()) {
        assert(a == 0);
        assert(b == s.len());
        assert(s.subrange(0, s.len() as int) =~= s);
    }
    if forall|i: int| 0 <= i < s.len() ==> white_space(#[trigger] s[i]) {
        if a < s.len() {
            assert(white_space(s[a]));
        }
    }
}

/// A country tag is exactly three characters, each a capital ASCII letter or
/// a digit: lower-case letters and other characters never make one.
pub proof fn lemma_country_tag_laws(s: Seq<char>, i: int)
    ensures
        is_country_tag_text(s) ==> s.len() == 3,
        is_country_tag_text(s) && 0 <= i < 3 ==> !('a' <= s[i] <= 'z') && s[i] != ' ' && s[i] != '_',
        s.len() == 3 && ('A' <= s[0] <= 'Z') && ('0' <= s[1] <= '9') && ('A' <= s[2] <= 'Z') ==> is_country_tag_text(s),
        s.len() == 3 && 0 <= i < 3 && 'a' <= s[i] <= 'z' ==> !is_country_tag_text(s),
{
    if s.len() == 3 && ('A' <= s[0] <= 'Z') && ('0' <= s[1] <= '9') && ('A' <= s[2] <= 'Z') {
        assert forall|k: int| 0 <= k < 3 implies #[trigger] is_tag_char(s[k]) by {
            if k == 0 {
            } else if k == 1 {
            } else {
            }
        }
    }
    if s.len() == 3 && 0 <= i < 3 && 'a' <= s[i] <= 'z' {
        assert(!is_tag_char(s[i]));
    }
    if is_country_tag_text(s) && 0 <= i < 3 {
        assert(is_tag_char(s[i]));
    }
}

/// Every locale maps to one of the game's languages, and locales the game
/// has no language for fall back to English.
pub proof fn lemma_language_laws(locale: Seq<char>)
    ensures
        hoi4_language_of(locale) == "english"@ || hoi4_language_of(locale) == "braz_por"@ || hoi4_language_of(locale)
            == "spanish"@ || hoi4_language_of(locale) == "french"@ || hoi4_language_of(locale) == "russian"@
            || hoi4_language_of(locale) == "simp_chinese"@,
        locale != "pt-BR"@ && locale != "es-ES"@ && locale != "fr-FR"@ && locale != "ru-RU"@ && locale != "zh-CN"@
            ==> hoi4_language_of(locale) == "english"@,
        hoi4_language_of("fr-FR"@) == "french"@,
{
    reveal_strlit("fr-FR");
    reveal_strlit("pt-BR");
    reveal_strlit("es-ES");
    assert("fr-FR"@[0] != "pt-BR"@[0]);
    assert("fr-FR"@[0] != "es-ES"@[0]);
}

} // verus!

//! Railways and supply nodes: the map's logistics inputs, one entry of
//! whitespace-separated unsigned numbers per line, with `#` comments.
use vstd::prelude::*;
use vstd::utf8::{encode_utf8, encode_scalar};
use vstd::string::StringSliceAdditionalSpecFns;
use crate::diagnostics::TextSpan;
use crate::fields::{first_match, lemma_first_match};
use crate::text::{chars_of, push_char};

verus! {

/// Where the railways of a project are read from.
pub const RAILWAYS_PATH: &'static str = "map/railways.txt";

/// Where the supply nodes of a project are read from.
pub const SUPPLY_NODES_PATH: &'static str = "map/supply_nodes.txt";

/// Whether a character has the Unicode White_Space property: the control
/// characters from tab to carriage return, space, next line, no-break space,
/// ogham space mark, the spaces from en quad to hair space, the line and
/// paragraph separators, the narrow no-break and medium mathematical spaces,
/// and the ideographic space.
pub open spec fn white_space(c: char) -> bool {
    let v = c as u32;
    (0x9 <= v && v <= 0xD) || v == 0x20 || v == 0x85 || v == 0xA0 || v == 0x1680 || (0x2000 <= v && v <= 0x200A)
        || v == 0x2028 || v == 0x2029 || v == 0x202F || v == 0x205F || v == 0x3000
}

/// Whether a character is white space, as `char::is_whitespace` answers.
pub(crate) fn is_white_space(c: char) -> (r: bool)
    ensures
        r == white_space(c),
{
    let v = c as u32;
    (0x9 <= v && v <= 0xD) || v == 0x20 || v == 0x85 || v == 0xA0 || v == 0x1680 || (0x2000 <= v && v <= 0x200A)
        || v == 0x2028 || v == 0x2029 || v == 0x202F || v == 0x205F || v == 0x3000
}

/// The number of bytes of a character in UTF-8.
pub open spec fn utf8_width(c: char) -> nat {
    let v = c as u32;
    if v < 0x80 {
        1
    } else if v < 0x800 {
        2
    } else if v < 0x10000 {
        3
    } else {
        4
    }
}

/// The number of bytes of a text in UTF-8.
pub open spec fn utf8_len(s: Seq<char>) -> nat {
    encode_utf8(s).len()
}

fn utf8_width_exec(c: char) -> (r: usize)
    ensures
        r == utf8_width(c),
{
    let v = c as u32;
    if v < 0x80 {
        1
    } else if v < 0x800 {
        2
    } else if v < 0x10000 {
        3
    } else {
        4
    }
}

/// Where the text ends once trailing white space is left out.
pub open spec fn text_end(s: Seq<char>) -> int
    decreases s.len(),
{
    if s.len() > 0 && white_space(s.last()) {
        text_end(s.drop_last())
    } else {
        s.len() as int
    }
}

/// Where the text starts once leading white space is left out.
pub open spec fn text_start(s: Seq<char>) -> int {
    first_match(s, |c: char| !white_space(c))
}

/// The text without leading and trailing white space.
pub open spec fn trim_white(s: Seq<char>) -> Seq<char> {
    if text_start(s) == s.len() {
        Seq::empty()
    } else {
        s.subrange(text_start(s), text_end(s))
    }
}

/// The part of a line before its first `#`.
pub open spec fn before_hash(s: Seq<char>) -> Seq<char> {
    s.take(first_match(s, |c: char| c == '#'))
}

/// The entry of a line, trimmed, and the byte offset where it starts; none
/// for a line that is blank or only a comment.
pub open spec fn line_content(line: Seq<char>) -> Option<(Seq<char>, nat)> {
    let u = before_hash(line);
    let c = trim_white(u);
    if c.len() == 0 {
        None
    } else {
        Some((c, utf8_len(u.take(text_start(u)))))
    }
}

pub proof fn lemma_first_match_bound<V>(s: Seq<V>, p: spec_fn(V) -> bool)
    ensures
        0 <= first_match(s, p) <= s.len(),
        first_match(s, p) < s.len() ==> p(s[first_match(s, p)]),
        forall|k: int| 0 <= k < first_match(s, p) ==> !p(#[trigger] s[k]),
    decreases s.len(),
{
    if s.len() > 0 && !p(s[0]) {
        lemma_first_match_bound(s.drop_first(), p);
        assert forall|k: int| 0 <= k < first_match(s, p) implies !p(#[trigger] s[k]) by {
            if k > 0 {
                assert(s[k] == s.drop_first()[k - 1]);
            }
        }
    }
}

proof fn lemma_text_end(s: Seq<char>, j: int)
    requires
        0 <= j <= s.len(),
        forall|k: int| j <= k < s.len() ==> white_space(#[trigger] s[k]),
        j == 0 || !white_space(s[j - 1]),
    ensures
        text_end(s) == j,
    decreases s.len(),
{
    if s.len() > j {
        assert(white_space(s.last()));
        assert forall|k: int| j <= k < s.drop_last().len() implies white_space(
            #[trigger] s.drop_last()[k],
        ) by {
            assert(s.drop_last()[k] == s[k]);
        }
        if j > 0 {
            assert(s.drop_last()[j - 1] == s[j - 1]);
        }
        lemma_text_end(s.drop_last(), j);
    }
}

proof fn lemma_utf8_len_push(s: Seq<char>, c: char)
    ensures
        utf8_len(s.push(c)) == utf8_len(s) + utf8_width(c),
    decreases s.len(),
{
    broadcast use vstd::utf8::char_is_scalar;

    if s.len() == 0 {
        assert(s.push(c).drop_first() =~= Seq::<char>::empty());
        assert(encode_utf8(s.push(c)) == encode_scalar(c as u32) + encode_utf8(Seq::<char>::empty()));
    } else {
        lemma_utf8_len_push(s.drop_first(), c);
        assert(s.push(c).drop_first() =~= s.drop_first().push(c));
        assert(s.push(c)[0] == s[0]);
    }
    assert(encode_scalar(c as u32).len() == utf8_width(c));
}

proof fn lemma_utf8_len_take(s: Seq<char>, i: int)
    requires
        0 <= i <= s.len(),
    ensures
        utf8_len(s.take(i)) <= utf8_len(s),
    decreases s.len() - i,
{
    if i < s.len() {
        lemma_utf8_len_take(s, i + 1);
        assert(s.take(i + 1) =~= s.take(i).push(s[i]));
        lemma_utf8_len_push(s.take(i), s[i]);
    } else {
        assert(s.take(i) =~= s);
    }
}

/// The byte length of the first `n` characters, given the byte length of all.
fn utf8_len_prefix(s: &Vec<char>, n: usize, total_bytes: usize) -> (r: usize)
    requires
        n <= s.len(),
        total_bytes == utf8_len(s@),
    ensures
        r == utf8_len(s@.take(n as int)),
{
    let mut total: usize = 0;
    let mut i: usize = 0;
    assert(s@.take(0) =~= Seq::<char>::empty());
    while i < n
        invariant
            n <= s.len(),
            i <= n,
            total == utf8_len(s@.take(i as int)),
            total_bytes == utf8_len(s@),
        decreases n - i,
    {
        proof {
            lemma_utf8_len_push(s@.take(i as int), s@[i as int]);
            assert(s@.take(i + 1) =~= s@.take(i as int).push(s@[i as int]));
            lemma_utf8_len_take(s@, i + 1);
        }
        total = total + utf8_width_exec(s[i]);
        i = i + 1;
    }
    total
}

/// The entry of a line, trimmed, and the byte offset where it starts; none
/// for a line that is blank or only a comment.
pub fn content(line: &str) -> (r: Option<(String, usize)>)
    ensures
        match r {
            Some((c, start)) => line_content(line@) == Some((c@, start as nat)),
            None => line_content(line@) is None,
        },
{
    let chars = chars_of(line);
    let n = chars.len();
    let mut h: usize = 0;
    while h < n && chars[h] != '#'
        invariant
            n == chars@.len(),
            h <= n,
            forall|k: int| 0 <= k < h ==> !((|c: char| c == '#')(#[trigger] chars@[k])),
        decreases n - h,
    {
        h = h + 1;
    }
    proof {
        lemma_first_match(chars@, |c: char| c == '#', h as int);
    }
    let ghost u = chars@.take(h as int);
    let mut start: usize = 0;
    while start < h && is_white_space(chars[start])
        invariant
            h <= n,
            n == chars@.len(),
            u == chars@.take(h as int),
            start <= h,
            forall|k: int| 0 <= k < start ==> !((|c: char| !white_space(c))(#[trigger] u[k])),
        decreases h - start,
    {
        assert(u[start as int] == chars@[start as int]);
        start = start + 1;
    }
    proof {
        if start < h {
            assert(u[start as int] == chars@[start as int]);
        }
        lemma_first_match(u, |c: char| !white_space(c), start as int);
    }
    if start == h {
        return None;
    }
    let mut end: usize = h;
    while end > start && is_white_space(chars[end - 1])
        invariant
            start < h <= n,
            n == chars@.len(),
            u == chars@.take(h as int),
            start <= end <= h,
            forall|k: int| end <= k < h ==> white_space(#[trigger] u[k]),
            !white_space(u[start as int]),
        decreases end - start,
    {
        assert(u[end - 1] == chars@[end - 1]);
        end = end - 1;
    }
    proof {
        if end > start {
            assert(u[end - 1] == chars@[end - 1]);
        }
        lemma_text_end(u, end as int);
    }
    let mut text = String::new();
    let mut k: usize = start;
    while k < end
        invariant
            start <= k <= end <= h <= n,
            n == chars@.len(),
            u == chars@.take(h as int),
            text@ == u.subrange(start as int, k as int),
        decreases end - k,
    {
        push_char(&mut text, chars[k]);
        k = k + 1;
        assert(text@ =~= u.subrange(start as int, k as int));
    }
    let total_bytes = line.as_bytes().len();
    assert(line.spec_bytes() == encode_utf8(line@));
    let offset = utf8_len_prefix(&chars, start, total_bytes);
    assert(u.take(start as int) =~= chars@.take(start as int));
    Some((text, offset))
}

/// The runs of non-white characters of a text, in order.
pub open spec fn tokens(s: Seq<char>) -> Seq<Seq<char>>
    decreases s.len(),
{
    if s.len() == 0 {
        Seq::empty()
    } else {
        let t = tokens(s.drop_last());
        if white_space(s.last()) {
            t
        } else if s.len() >= 2 && !white_space(s[s.len() - 2]) {
            t.update(t.len() - 1, t.last().push(s.last()))
        } else {
            t.push(seq![s.last()])
        }
    }
}

proof fn lemma_tokens_nonempty(s: Seq<char>)
    ensures
        s.len() > 0 && !white_space(s.last()) ==> tokens(s).len() > 0,
    decreases s.len(),
{
    if s.len() >= 2 && !white_space(s.last()) && !white_space(s[s.len() - 2]) {
        lemma_tokens_nonempty(s.drop_last());
        assert(s.drop_last().last() == s[s.len() - 2]);
    }
}

/// The value of a run of ASCII digits.
pub open spec fn digit_value(s: Seq<char>) -> nat
    decreases s.len(),
{
    if s.len() == 0 {
        0
    } else {
        digit_value(s.drop_last()) * 10 + ((s.last() as u32) - 48) as nat
    }
}

pub open spec fn ascii_digits(s: Seq<char>) -> bool {
    forall|i: int| 0 <= i < s.len() ==> '0' <= #[trigger] s[i] <= '9'
}

/// An unsigned 32-bit number written in decimal, with an optional leading `+`.
pub open spec fn u32_value(t: Seq<char>) -> Option<u32> {
    let d = if t.len() > 0 && t[0] == '+' {
        t.drop_first()
    } else {
        t
    };
    if d.len() > 0 && ascii_digits(d) && digit_value(d) <= u32::MAX {
        Some(digit_value(d) as u32)
    } else {
        None
    }
}

proof fn lemma_digit_value_grows(s: Seq<char>, n: int)
    requires
        0 <= n <= s.len(),
        ascii_digits(s),
    ensures
        digit_value(s.take(n)) <= digit_value(s),
    decreases s.len() - n,
{
    if n < s.len() {
        lemma_digit_value_grows(s, n + 1);
        assert(s.take(n + 1).drop_last() =~= s.take(n));
    } else {
        assert(s.take(n) =~= s);
    }
}

/// Reads an unsigned 32-bit number.
fn parse_u32(t: &Vec<char>) -> (r: Option<u32>)
    ensures
        r == u32_value(t@),
{
    let n = t.len();
    let first: usize = if n > 0 && t[0] == '+' {
        1
    } else {
        0
    };
    let ghost d = t@.subrange(first as int, n as int);
    assert(d =~= (if t@.len() > 0 && t@[0] == '+' {
        t@.drop_first()
    } else {
        t@
    }));
    if first == n {
        assert(d.len() == 0);
        return None;
    }
    let mut value: u64 = 0;
    let mut i: usize = first;
    assert(d.take(0) =~= Seq::<char>::empty());
    while i < n
        invariant
            first < n,
            n == t@.len(),
            d == t@.subrange(first as int, n as int),
            d == (if t@.len() > 0 && t@[0] == '+' {
                t@.drop_first()
            } else {
                t@
            }),
            first <= i <= n,
            value == digit_value(d.take(i - first)),
            value <= u32::MAX,
            ascii_digits(d.take(i - first)),
        decreases n - i,
    {
        let c = t[i];
        let ghost k = i - first;
        assert(d[k] == c);
        assert(d.take(k + 1).drop_last() =~= d.take(k));
        if c < '0' || c > '9' {
            assert(!('0' <= d[k] <= '9'));
            assert(!ascii_digits(d));
            return None;
        }
        let digit = (c as u32 - 48) as u64;
        let next = value * 10 + digit;
        if next > 4294967295 {
            proof {
                if ascii_digits(d) {
                    lemma_digit_value_grows(d, k + 1);
                }
            }
            return None;
        }
        value = next;
        i = i + 1;
        assert(ascii_digits(d.take(i - first))) by {
            assert forall|j: int| 0 <= j < i - first implies '0' <= #[trigger] d.take(i - first)[j]
                <= '9' by {
                if j < k {
                    assert(d.take(i - first)[j] == d.take(k)[j]);
                }
            }
        }
    }
    assert(d.take(n - first) =~= d);
    Some(value as u32)
}

/// The numbers of an entry, or the first token that is not one.
pub open spec fn token_values(t: Seq<Seq<char>>) -> Result<Seq<u32>, Seq<char>>
    decreases t.len(),
{
    if t.len() == 0 {
        Ok(Seq::empty())
    } else {
        match u32_value(t[0]) {
            None => Err(t[0]),
            Some(v) => match token_values(t.drop_first()) {
                Ok(rest) => Ok(seq![v] + rest),
                Err(e) => Err(e),
            },
        }
    }
}

/// The message for a token that is not an unsigned number.
pub open spec fn not_unsigned_message(token: Seq<char>) -> Seq<char> {
    "'"@ + token + "' is not an unsigned integer"@
}

pub open spec fn value_errors(r: Result<Seq<u32>, Seq<char>>) -> Result<Seq<u32>, Seq<char>> {
    match r {
        Ok(v) => Ok(v),
        Err(token) => Err(not_unsigned_message(token)),
    }
}

/// Splits a text into its runs of non-white characters.
fn split_tokens(s: &Vec<char>) -> (r: Vec<Vec<char>>)
    ensures
        crate::lexicographic::views(r@) == tokens(s@),
{
    let mut out: Vec<Vec<char>> = Vec::new();
    let mut current: Vec<char> = Vec::new();
    let mut in_token = false;
    let mut i: usize = 0;
    assert(s@.take(0) =~= Seq::<char>::empty());
    while i < s.len()
        invariant
            i <= s@.len(),
            in_token == (i > 0 && !white_space(s@[i - 1])),
            in_token ==> crate::lexicographic::views(out@).push(current@) == tokens(s@.take(i as int)),
            !in_token ==> crate::lexicographic::views(out@) == tokens(s@.take(i as int)),
            !in_token ==> current@.len() == 0,
        decreases s.len() - i,
    {
        let c = s[i];
        let ghost p = s@.take(i + 1);
        assert(p.drop_last() =~= s@.take(i as int));
        assert(p.last() == c);
        let ghost before = crate::lexicographic::views(out@);
        let ghost cur = current@;
        if is_white_space(c) {
            if in_token {
                let mut piece: Vec<char> = Vec::new();
                std::mem::swap(&mut piece, &mut current);
                out.push(piece);
                assert(crate::lexicographic::views(out@) =~= before.push(cur));
            }
            in_token = false;
        } else {
            if in_token {
                assert(p.len() >= 2 && !white_space(p[p.len() - 2]));
                current.push(c);
                assert(before.push(cur).update(before.len() as int, cur.push(c)) =~= before.push(
                    current@,
                ));
            } else {
                current.push(c);
                assert(current@ =~= seq![c]);
            }
            in_token = true;
        }
        i = i + 1;
    }
    assert(s@.take(s.len() as int) =~= s@);
    if in_token {
        let ghost before = crate::lexicographic::views(out@);
        out.push(current);
        assert(crate::lexicographic::views(out@) =~= before.push(
            crate::lexicographic::views(out@).last(),
        ));
    }
    out
}

/// The numbers of an entry: each whitespace-separated token read as an
/// unsigned 32-bit number, or the message for the first token that is not one.
pub fn parse_values(content: &str) -> (r: Result<Vec<u32>, String>)
    ensures
        match r {
            Ok(v) => value_errors(token_values(tokens(content@))) == Ok::<Seq<u32>, Seq<char>>(v@),
            Err(m) => value_errors(token_values(tokens(content@))) == Err::<Seq<u32>, Seq<char>>(m@),
        },
{
    let chars = chars_of(content);
    let toks = split_tokens(&chars);
    let ghost tv = crate::lexicographic::views(toks@);
    let mut values: Vec<u32> = Vec::new();
    let mut i: usize = 0;
    assert(tv.skip(0) =~= tv);
    while i < toks.len()
        invariant
            i <= toks@.len(),
            tv == crate::lexicographic::views(toks@),
            tv == tokens(content@),
            match token_values(tv.skip(i as int)) {
                Ok(rest) => token_values(tv) == Ok::<Seq<u32>, Seq<char>>(values@ + rest),
                Err(e) => token_values(tv) == Err::<Seq<u32>, Seq<char>>(e),
            },
        decreases toks.len() - i,
    {
        let ghost rest = tv.skip(i as int);
        assert(rest[0] == toks@[i as int]@);
        assert(rest.drop_first() =~= tv.skip(i + 1));
        match parse_u32(&toks[i]) {
            None => {
                let mut message = String::from_str("'");
                let mut k: usize = 0;
                while k < toks[i].len()
                    invariant
                        i < toks@.len(),
                        k <= toks@[i as int]@.len(),
                        message@ == "'"@ + toks@[i as int]@.take(k as int),
                    decreases toks@[i as int]@.len() - k,
                {
                    push_char(&mut message, toks[i][k]);
                    k = k + 1;
                    assert(message@ =~= "'"@ + toks@[i as int]@.take(k as int));
                }
                message.append("' is not an unsigned integer");
                assert(toks@[i as int]@.take(k as int) =~= toks@[i as int]@);
                return Err(message);
            },
            Some(v) => {
                let ghost before = values@;
                values.push(v);
                proof {
                    match token_values(tv.skip(i + 1)) {
                        Ok(r2) => {
                            assert(before + (seq![v] + r2) =~= values@ + r2);
                        },
                        Err(e) => {},
                    }
                }
            },
        }
        i = i + 1;
    }
    assert(tv.skip(toks.len() as int) =~= Seq::<Seq<char>>::empty());
    assert(values@ + Seq::<u32>::empty() =~= values@);
    Ok(values)
}

/// The lines of a text, each with its line break: a piece ends after each
/// `\n`, and a last piece without one ends the text.
pub open spec fn segments(s: Seq<char>) -> Seq<Seq<char>>
    decreases s.len(),
{
    if s.len() == 0 {
        Seq::empty()
    } else {
        let k = first_match(s, |c: char| c == '\n');
        if k < s.len() {
            proof {
                lemma_first_match_bound(s, |c: char| c == '\n');
            }
            seq![s.take(k + 1)] + segments(s.skip(k + 1))
        } else {
            seq![s]
        }
    }
}

/// A line without its trailing carriage returns and line feeds.
pub open spec fn strip_line_end(s: Seq<char>) -> Seq<char>
    decreases s.len(),
{
    if s.len() > 0 && (s.last() == '\r' || s.last() == '\n') {
        strip_line_end(s.drop_last())
    } else {
        s
    }
}

/// Which logistics input a line or an issue belongs to.
#[derive(Debug, Clone, Copy, PartialEq, Eq, Structural)]
pub enum LogisticsInput {
    Railway,
    SupplyNode,
}

/// The fewest numbers an entry of the input holds.
pub open spec fn min_values(input: LogisticsInput) -> nat {
    match input {
        LogisticsInput::Railway => 3,
        LogisticsInput::SupplyNode => 2,
    }
}

pub open spec fn short_message(input: LogisticsInput) -> Seq<char> {
    match input {
        LogisticsInput::Railway => "railway entry requires level, declared province count, and at least one province"@,
        LogisticsInput::SupplyNode => "supply node entry requires level and province"@,
    }
}

pub open spec fn invalid_prefix(input: LogisticsInput) -> Seq<char> {
    match input {
        LogisticsInput::Railway => "invalid railway entry: "@,
        LogisticsInput::SupplyNode => "invalid supply node entry: "@,
    }
}

/// The entries (line number and numbers) and issues (line number, byte
/// start, byte length, message) of lines that start at the given line
/// number and byte offset.
pub open spec fn entries_from(
    input: LogisticsInput,
    segs: Seq<Seq<char>>,
    line_number: nat,
    offset: nat,
) -> (Seq<(nat, Seq<u32>)>, Seq<(nat, nat, nat, Seq<char>)>)
    decreases segs.len(),
{
    if segs.len() == 0 {
        (Seq::empty(), Seq::empty())
    } else {
        let seg = segs[0];
        let (entries, issues) = entries_from(
            input,
            segs.drop_first(),
            line_number + 1,
            offset + utf8_len(seg),
        );
        match line_content(strip_line_end(seg)) {
            None => (entries, issues),
            Some((c, start)) => match token_values(tokens(c)) {
                Ok(values) => if values.len() >= min_values(input) {
                    (seq![(line_number, values)] + entries, issues)
                } else {
                    (
                        entries,
                        seq![(line_number, offset + start, utf8_len(c), short_message(input))]
                            + issues,
                    )
                },
                Err(token) => (
                    entries,
                    seq![
                        (
                            line_number,
                            offset + start,
                            utf8_len(c),
                            invalid_prefix(input) + not_unsigned_message(token),
                        ),
                    ] + issues,
                ),
            },
        }
    }
}

proof fn lemma_segments_step(s: Seq<char>, k: int)
    requires
        0 <= k <= s.len(),
        s.len() > 0,
        forall|j: int| 0 <= j < k ==> s[j] != '\n',
        k == s.len() || s[k] == '\n',
    ensures
        k < s.len() ==> segments(s) == seq![s.take(k + 1)] + segments(s.skip(k + 1)),
        k == s.len() ==> segments(s) == seq![s],
{
    lemma_first_match(s, |c: char| c == '\n', k);
}

fn strip_line_end_exec(seg: &Vec<char>) -> (r: String)
    ensures
        r@ == strip_line_end(seg@),
        r@ == seg@.take(r@.len() as int),
        r@.len() <= seg@.len(),
{
    let mut e = seg.len();
    assert(seg@.take(e as int) =~= seg@);
    while e > 0 && (seg[e - 1] == '\r' || seg[e - 1] == '\n')
        invariant
            e <= seg@.len(),
            strip_line_end(seg@.take(e as int)) == strip_line_end(seg@),
        decreases e,
    {
        assert(seg@.take(e - 1) =~= seg@.take(e as int).drop_last());
        e = e - 1;
    }
    assert(strip_line_end(seg@.take(e as int)) == seg@.take(e as int));
    let mut out = String::new();
    let mut i: usize = 0;
    while i < e
        invariant
            e <= seg@.len(),
            i <= e,
            out@ == seg@.take(i as int),
        decreases e - i,
    {
        push_char(&mut out, seg[i]);
        i = i + 1;
        assert(out@ =~= seg@.take(i as int));
    }
    out
}

fn text_byte_len(s: &String) -> (r: usize)
    ensures
        r == utf8_len(s@),
{
    let t = s.as_str();
    let n = t.as_bytes().len();
    assert(t.spec_bytes() == encode_utf8(t@));
    n
}

/// The entries and issues of the lines of a text.
fn parse_entries(input: LogisticsInput, text: &str) -> (r: (
    Vec<(usize, Vec<u32>)>,
    Vec<(usize, usize, usize, String)>,
))
    requires
        text@.len() < usize::MAX,
    ensures
        entries_from(input, segments(text@), 1, 0) == (
            r.0@.map_values(|e: (usize, Vec<u32>)| (e.0 as nat, e.1@)),
            r.1@.map_values(|i: (usize, usize, usize, String)| (i.0 as nat, i.1 as nat, i.2 as nat, i.3@)),
        ),
{
    let chars = chars_of(text);
    let total_bytes = text.as_bytes().len();
    assert(text.spec_bytes() == encode_utf8(text@));
    let ghost total = entries_from(input, segments(text@), 1, 0);
    let mut entries: Vec<(usize, Vec<u32>)> = Vec::new();
    let mut issues: Vec<(usize, usize, usize, String)> = Vec::new();
    let mut pos: usize = 0;
    let mut offset: usize = 0;
    let mut line_number: usize = 1;
    assert(chars@.skip(0) =~= chars@);
    assert(chars@.take(0) =~= Seq::<char>::empty());
    while pos < chars.len()
        invariant
            chars@ == text@,
            chars@.len() < usize::MAX,
            total_bytes == utf8_len(chars@),
            pos <= chars@.len(),
            offset == utf8_len(chars@.take(pos as int)),
            line_number <= pos + 1,
            ({
                let rest = entries_from(
                    input,
                    segments(chars@.skip(pos as int)),
                    line_number as nat,
                    offset as nat,
                );
                &&& total.0 == entries@.map_values(|e: (usize, Vec<u32>)| (e.0 as nat, e.1@))
                    + rest.0
                &&& total.1 == issues@.map_values(
                    |i: (usize, usize, usize, String)| (i.0 as nat, i.1 as nat, i.2 as nat, i.3@),
                ) + rest.1
            }),
        decreases chars.len() - pos,
    {
        let ghost rest_text = chars@.skip(pos as int);
        let mut k: usize = pos;
        while k < chars.len() && chars[k] != '\n'
            invariant
                pos <= k <= chars@.len(),
                rest_text == chars@.skip(pos as int),
                forall|j: int| pos <= j < k ==> chars@[j] != '\n',
            decreases chars.len() - k,
        {
            k = k + 1;
        }
        let seg_end = if k < chars.len() {
            k + 1
        } else {
            k
        };
        proof {
            assert forall|j: int| 0 <= j < k - pos implies rest_text[j] != '\n' by {
                assert(rest_text[j] == chars@[pos + j]);
            }
            if k < chars.len() {
                assert(rest_text[k - pos] == chars@[k as int]);
            }
            lemma_segments_step(rest_text, k - pos);
            if k < chars.len() {
                assert(rest_text.take(k - pos + 1) =~= chars@.subrange(pos as int, seg_end as int));
                assert(rest_text.skip(k - pos + 1) =~= chars@.skip(seg_end as int));
            } else {
                assert(rest_text =~= chars@.subrange(pos as int, seg_end as int));
                assert(chars@.skip(seg_end as int) =~= Seq::<char>::empty());
            }
        }
        let mut segment: Vec<char> = Vec::new();
        let mut seg_offset = offset;
        let mut j: usize = pos;
        while j < seg_end
            invariant
                pos <= j <= seg_end <= chars@.len(),
                total_bytes == utf8_len(chars@),
                segment@ == chars@.subrange(pos as int, j as int),
                seg_offset == utf8_len(chars@.take(j as int)),
            decreases seg_end - j,
        {
            proof {
                lemma_utf8_len_push(chars@.take(j as int), chars@[j as int]);
                assert(chars@.take(j + 1) =~= chars@.take(j as int).push(chars@[j as int]));
                lemma_utf8_len_take(chars@, j + 1);
            }
            segment.push(chars[j]);
            seg_offset = seg_offset + utf8_width_exec(chars[j]);
            j = j + 1;
            assert(segment@ =~= chars@.subrange(pos as int, j as int));
        }
        proof {
            assert(chars@.take(seg_end as int) =~= chars@.take(pos as int) + segment@);
            lemma_utf8_len_concat(chars@.take(pos as int), segment@);
        }
        let ghost seg = segment@;
        let line = strip_line_end_exec(&segment);
        let ghost entries_before = entries@;
        let ghost issues_before = issues@;
        match content(line.as_str()) {
            None => {},
            Some((c, start)) => {
                let c_len = text_byte_len(&c);
                proof {
                    lemma_content_bounds(line@, c@, start as nat);
                    lemma_utf8_len_take(seg, line@.len() as int);
                    lemma_utf8_len_take(chars@, seg_end as int);
                    lemma_utf8_len_concat(chars@.take(pos as int), segment@);
                }
                match parse_values(c.as_str()) {
                    Ok(values) => {
                        if values.len() >= min_values_exec(input) {
                            entries.push((line_number, values));
                        } else {
                            issues.push(
                                (line_number, offset + start, c_len, short_message_exec(input)),
                            );
                        }
                    },
                    Err(message) => {
                        let mut full = String::from_str(invalid_prefix_exec(input));
                        full.append(message.as_str());
                        issues.push((line_number, offset + start, c_len, full));
                    },
                }
            },
        }
        proof {
            let next = entries_from(
                input,
                segments(chars@.skip(seg_end as int)),
                (line_number + 1) as nat,
                (offset + utf8_len(seg)) as nat,
            );
            assert(segments(rest_text) == seq![seg] + segments(chars@.skip(seg_end as int)));
            assert((seq![seg] + segments(chars@.skip(seg_end as int))).drop_first() =~= segments(
                chars@.skip(seg_end as int),
            ));
            assert(entries@.map_values(|e: (usize, Vec<u32>)| (e.0 as nat, e.1@)) + next.0
                =~= entries_before.map_values(|e: (usize, Vec<u32>)| (e.0 as nat, e.1@))
                + entries_from(input, segments(rest_text), line_number as nat, offset as nat).0);
            assert(issues@.map_values(
                |i: (usize, usize, usize, String)| (i.0 as nat, i.1 as nat, i.2 as nat, i.3@),
            ) + next.1 =~= issues_before.map_values(
                |i: (usize, usize, usize, String)| (i.0 as nat, i.1 as nat, i.2 as nat, i.3@),
            ) + entries_from(input, segments(rest_text), line_number as nat, offset as nat).1);
        }
        pos = seg_end;
        offset = seg_offset;
        line_number = line_number + 1;
    }
    assert(chars@.skip(pos as int) =~= Seq::<char>::empty());
    assert(entries@.map_values(|e: (usize, Vec<u32>)| (e.0 as nat, e.1@)) + Seq::<(nat, Seq<u32>)>::empty()
        =~= entries@.map_values(|e: (usize, Vec<u32>)| (e.0 as nat, e.1@)));
    assert(issues@.map_values(
        |i: (usize, usize, usize, String)| (i.0 as nat, i.1 as nat, i.2 as nat, i.3@),
    ) + Seq::<(nat, nat, nat, Seq<char>)>::empty() =~= issues@.map_values(
        |i: (usize, usize, usize, String)| (i.0 as nat, i.1 as nat, i.2 as nat, i.3@),
    ));
    (entries, issues)
}

proof fn lemma_utf8_len_concat(a: Seq<char>, b: Seq<char>)
    ensures
        utf8_len(a + b) == utf8_len(a) + utf8_len(b),
    decreases b.len(),
{
    if b.len() > 0 {
        lemma_utf8_len_concat(a, b.drop_last());
        assert(a + b =~= (a + b.drop_last()).push(b.last()));
        lemma_utf8_len_push(a + b.drop_last(), b.last());
        assert(b =~= b.drop_last().push(b.last()));
        lemma_utf8_len_push(b.drop_last(), b.last());
    } else {
        assert(a + b =~= a);
    }
}

proof fn lemma_content_bounds(line: Seq<char>, c: Seq<char>, start: nat)
    requires
        line_content(line) == Some((c, start)),
    ensures
        start + utf8_len(c) <= utf8_len(line),
{
    let u = before_hash(line);
    lemma_first_match_bound(line, |x: char| x == '#');
    lemma_first_match_bound(u, |x: char| !white_space(x));
    let a = text_start(u);
    let e = text_end(u);
    lemma_text_end_bound(u);
    assert(u.take(a) + c + u.skip(e) =~= u) by {
        assert(c =~= u.subrange(a, e));
    }
    lemma_utf8_len_concat(u.take(a), c);
    lemma_utf8_len_concat(u.take(a) + c, u.skip(e));
    lemma_utf8_len_take(line, first_match(line, |x: char| x == '#'));
}

proof fn lemma_text_end_bound(s: Seq<char>)
    ensures
        0 <= text_end(s) <= s.len(),
        text_start(s) < s.len() ==> text_start(s) < text_end(s),
    decreases s.len(),
{
    lemma_first_match_bound(s, |x: char| !white_space(x));
    if s.len() > 0 && white_space(s.last()) {
        lemma_text_end_bound(s.drop_last());
        if text_start(s) < s.len() {
            assert(text_start(s) != s.len() - 1);
            lemma_first_match(s.drop_last(), |x: char| !white_space(x), text_start(s));
        }
    }
}

fn min_values_exec(input: LogisticsInput) -> (r: usize)
    ensures
        r == min_values(input),
{
    match input {
        LogisticsInput::Railway => 3,
        LogisticsInput::SupplyNode => 2,
    }
}

fn short_message_exec(input: LogisticsInput) -> (r: String)
    ensures
        r@ == short_message(input),
{
    match input {
        LogisticsInput::Railway => String::from_str(
            "railway entry requires level, declared province count, and at least one province",
        ),
        LogisticsInput::SupplyNode => String::from_str("supply node entry requires level and province"),
    }
}

fn invalid_prefix_exec(input: LogisticsInput) -> (r: &'static str)
    ensures
        r@ == invalid_prefix(input),
{
    match input {
        LogisticsInput::Railway => "invalid railway entry: ",
        LogisticsInput::SupplyNode => "invalid supply node entry: ",
    }
}

/// A railway line: its level, the province count it declares, and its provinces.
#[derive(Debug, Clone, PartialEq, Eq)]
pub struct Railway {
    pub source: String,
    pub line_number: usize,
    pub level: u32,
    pub declared_province_count: u32,
    pub provinces: Vec<u32>,
}

/// A supply node: its level and province.
#[derive(Debug, Clone, PartialEq, Eq)]
pub struct SupplyNode {
    pub source: String,
    pub line_number: usize,
    pub level: u32,
    pub province_id: u32,
}

/// A problem found while reading a logistics input.
#[derive(Debug, Clone, PartialEq, Eq)]
pub struct LogisticsLoadIssue {
    pub input: LogisticsInput,
    pub source: Option<String>,
    pub line_number: Option<usize>,
    pub span: Option<TextSpan>,
    pub message: String,
}

/// The railways read and the issues found.
#[derive(Debug, Clone, PartialEq, Eq)]
pub struct RailwayLoadResult {
    pub source: Option<String>,
    pub railways: Vec<Railway>,
    pub issues: Vec<LogisticsLoadIssue>,
}

/// The supply nodes read and the issues found.
#[derive(Debug, Clone, PartialEq, Eq)]
pub struct SupplyNodeLoadResult {
    pub source: Option<String>,
    pub supply_nodes: Vec<SupplyNode>,
    pub issues: Vec<LogisticsLoadIssue>,
}

/// Both logistics inputs.
#[derive(Debug, Clone, PartialEq, Eq)]
pub struct LogisticsLoadResult {
    pub railways: RailwayLoadResult,
    pub supply_nodes: SupplyNodeLoadResult,
}

pub struct RailwayView {
    pub source: Seq<char>,
    pub line_number: nat,
    pub level: u32,
    pub declared_province_count: u32,
    pub provinces: Seq<u32>,
}

pub struct SupplyNodeView {
    pub source: Seq<char>,
    pub line_number: nat,
    pub level: u32,
    pub province_id: u32,
}

pub struct IssueView {
    pub input: LogisticsInput,
    pub source: Option<Seq<char>>,
    pub line_number: Option<nat>,
    pub span: Option<(nat, nat)>,
    pub message: Seq<char>,
}

impl View for Railway {
    type V = RailwayView;

    open spec fn view(&self) -> RailwayView {
        RailwayView {
            source: self.source@,
            line_number: self.line_number as nat,
            level: self.level,
            declared_province_count: self.declared_province_count,
            provinces: self.provinces@,
        }
    }
}

impl View for SupplyNode {
    type V = SupplyNodeView;

    open spec fn view(&self) -> SupplyNodeView {
        SupplyNodeView {
            source: self.source@,
            line_number: self.line_number as nat,
            level: self.level,
            province_id: self.province_id,
        }
    }
}

impl View for LogisticsLoadIssue {
    type V = IssueView;

    open spec fn view(&self) -> IssueView {
        IssueView {
            input: self.input,
            source: crate::state::opt_str_view(self.source),
            line_number: match self.line_number {
                Some(n) => Some(n as nat),
                None => None,
            },
            span: match self.span {
                Some(t) => Some((t.start as nat, t.len as nat)),
                None => None,
            },
            message: self.message@,
        }
    }
}

/// The railway of an entry: level, declared count, then provinces.
pub open spec fn railway_of(source: Seq<char>, e: (nat, Seq<u32>)) -> RailwayView {
    RailwayView {
        source,
        line_number: e.0,
        level: e.1[0],
        declared_province_count: e.1[1],
        provinces: e.1.skip(2),
    }
}

pub open spec fn supply_node_of(source: Seq<char>, e: (nat, Seq<u32>)) -> SupplyNodeView {
    SupplyNodeView { source, line_number: e.0, level: e.1[0], province_id: e.1[1] }
}

pub open spec fn issue_of(
    input: LogisticsInput,
    source: Seq<char>,
    i: (nat, nat, nat, Seq<char>),
) -> IssueView {
    IssueView {
        input,
        source: Some(source),
        line_number: Some(i.0),
        span: Some((i.1, i.2)),
        message: i.3,
    }
}

fn issues_of(input: LogisticsInput, source: &str, raw: Vec<(usize, usize, usize, String)>) -> (r: Vec<
    LogisticsLoadIssue,
>)
    ensures
        crate::lexicographic::views(r@) == raw@.map_values(
            |i: (usize, usize, usize, String)| (i.0 as nat, i.1 as nat, i.2 as nat, i.3@),
        ).map_values(|i: (nat, nat, nat, Seq<char>)| issue_of(input, source@, i)),
{
    let ghost target = raw@.map_values(
        |i: (usize, usize, usize, String)| (i.0 as nat, i.1 as nat, i.2 as nat, i.3@),
    ).map_values(|i: (nat, nat, nat, Seq<char>)| issue_of(input, source@, i));
    let ghost original = raw@;
    let mut raw = raw;
    let mut out: Vec<LogisticsLoadIssue> = Vec::new();
    let mut i: usize = 0;
    let n = raw.len();
    while raw.len() > 0
        invariant
            i + raw@.len() == n,
            n == original.len(),
            raw@ == original.skip(i as int),
            target.len() == n,
            crate::lexicographic::views(out@) == target.take(i as int),
            target == original.map_values(
                |i: (usize, usize, usize, String)| (i.0 as nat, i.1 as nat, i.2 as nat, i.3@),
            ).map_values(|i: (nat, nat, nat, Seq<char>)| issue_of(input, source@, i)),
        decreases raw.len(),
    {
        let (line_number, start, len, message) = raw.remove(0);
        let ghost before = crate::lexicographic::views(out@);
        out.push(
            LogisticsLoadIssue {
                input,
                source: Some(source.to_owned()),
                line_number: Some(line_number),
                span: Some(TextSpan::new(start, len)),
                message,
            },
        );
        assert(original[i as int] == (line_number, start, len, message));
        assert(crate::lexicographic::views(out@) =~= before.push(out@.last()@));
        assert(out@.last()@ == target[i as int]);
        assert(crate::lexicographic::views(out@) =~= target.take(i + 1));
        assert(raw@ =~= original.skip(i + 1));
        i = i + 1;
    }
    assert(target.take(n as int) =~= target);
    out
}

/// Reads the railways of a text: each entry line holds a level, a declared
/// province count and at least one province.
pub fn parse_railways(source: &str, text: &str) -> (r: RailwayLoadResult)
    requires
        text@.len() < usize::MAX,
    ensures
        ({
            let (entries, issues) = entries_from(LogisticsInput::Railway, segments(text@), 1, 0);
            &&& crate::state::opt_str_view(r.source) == Some(source@)
            &&& crate::lexicographic::views(r.railways@) == entries.map_values(
                |e: (nat, Seq<u32>)| railway_of(source@, e),
            )
            &&& crate::lexicographic::views(r.issues@) == issues.map_values(
                |i: (nat, nat, nat, Seq<char>)| issue_of(LogisticsInput::Railway, source@, i),
            )
        }),
{
    let (entries, raw_issues) = parse_entries(LogisticsInput::Railway, text);
    let ghost ev = entries@.map_values(|e: (usize, Vec<u32>)| (e.0 as nat, e.1@));
    let ghost original = entries@;
    let ghost spec_entries = entries_from(LogisticsInput::Railway, segments(text@), 1, 0).0;
    proof {
        lemma_entries_long_enough(LogisticsInput::Railway, segments(text@), 1, 0);
    }
    let mut entries = entries;
    let mut railways: Vec<Railway> = Vec::new();
    let n = entries.len();
    let mut i: usize = 0;
    while entries.len() > 0
        invariant
            i + entries@.len() == n,
            n == original.len(),
            entries@ == original.skip(i as int),
            ev == original.map_values(|e: (usize, Vec<u32>)| (e.0 as nat, e.1@)),
            ev == spec_entries,
            forall|k: int| 0 <= k < spec_entries.len() ==> (#[trigger] spec_entries[k]).1.len() >= 3,
            crate::lexicographic::views(railways@) == ev.take(i as int).map_values(
                |e: (nat, Seq<u32>)| railway_of(source@, e),
            ),
        decreases entries.len(),
    {
        let (line_number, values) = entries.remove(0);
        assert(original[i as int] == (line_number, values));
        assert(ev[i as int] == (line_number as nat, values@));
        assert(values@.len() >= 3);
        let mut provinces: Vec<u32> = Vec::new();
        let mut k: usize = 2;
        while k < values.len()
            invariant
                2 <= k <= values@.len(),
                provinces@ == values@.subrange(2, k as int),
            decreases values.len() - k,
        {
            provinces.push(values[k]);
            k = k + 1;
            assert(provinces@ =~= values@.subrange(2, k as int));
        }
        let ghost before = crate::lexicographic::views(railways@);
        railways.push(
            Railway {
                source: source.to_owned(),
                line_number,
                level: values[0],
                declared_province_count: values[1],
                provinces,
            },
        );
        assert(values@.skip(2) =~= values@.subrange(2, values@.len() as int));
        assert(railways@.last()@ == railway_of(source@, ev[i as int]));
        assert(crate::lexicographic::views(railways@) =~= before.push(railways@.last()@));
        assert(crate::lexicographic::views(railways@) =~= ev.take(i + 1).map_values(
            |e: (nat, Seq<u32>)| railway_of(source@, e),
        ));
        assert(entries@ =~= original.skip(i + 1));
        i = i + 1;
    }
    assert(ev.take(n as int) =~= ev);
    let issues = issues_of(LogisticsInput::Railway, source, raw_issues);
    RailwayLoadResult { source: Some(source.to_owned()), railways, issues }
}

/// Reads the supply nodes of a text: each entry line holds a level and a province.
pub fn parse_supply_nodes(source: &str, text: &str) -> (r: SupplyNodeLoadResult)
    requires
        text@.len() < usize::MAX,
    ensures
        ({
            let (entries, issues) = entries_from(LogisticsInput::SupplyNode, segments(text@), 1, 0);
            &&& crate::state::opt_str_view(r.source) == Some(source@)
            &&& crate::lexicographic::views(r.supply_nodes@) == entries.map_values(
                |e: (nat, Seq<u32>)| supply_node_of(source@, e),
            )
            &&& crate::lexicographic::views(r.issues@) == issues.map_values(
                |i: (nat, nat, nat, Seq<char>)| issue_of(LogisticsInput::SupplyNode, source@, i),
            )
        }),
{
    let (entries, raw_issues) = parse_entries(LogisticsInput::SupplyNode, text);
    let ghost ev = entries@.map_values(|e: (usize, Vec<u32>)| (e.0 as nat, e.1@));
    let ghost original = entries@;
    let ghost spec_entries = entries_from(LogisticsInput::SupplyNode, segments(text@), 1, 0).0;
    proof {
        lemma_entries_long_enough(LogisticsInput::SupplyNode, segments(text@), 1, 0);
    }
    let mut entries = entries;
    let mut nodes: Vec<SupplyNode> = Vec::new();
    let n = entries.len();
    let mut i: usize = 0;
    while entries.len() > 0
        invariant
            i + entries@.len() == n,
            n == original.len(),
            entries@ == original.skip(i as int),
            ev == original.map_values(|e: (usize, Vec<u32>)| (e.0 as nat, e.1@)),
            ev == spec_entries,
            forall|k: int| 0 <= k < spec_entries.len() ==> (#[trigger] spec_entries[k]).1.len() >= 2,
            crate::lexicographic::views(nodes@) == ev.take(i as int).map_values(
                |e: (nat, Seq<u32>)| supply_node_of(source@, e),
            ),
        decreases entries.len(),
    {
        let (line_number, values) = entries.remove(0);
        assert(original[i as int] == (line_number, values));
        assert(ev[i as int] == (line_number as nat, values@));
        assert(values@.len() >= 2);
        let ghost before = crate::lexicographic::views(nodes@);
        nodes.push(
            SupplyNode {
                source: source.to_owned(),
                line_number,
                level: values[0],
                province_id: values[1],
            },
        );
        assert(nodes@.last()@ == supply_node_of(source@, ev[i as int]));
        assert(crate::lexicographic::views(nodes@) =~= before.push(nodes@.last()@));
        assert(crate::lexicographic::views(nodes@) =~= ev.take(i + 1).map_values(
            |e: (nat, Seq<u32>)| supply_node_of(source@, e),
        ));
        assert(entries@ =~= original.skip(i + 1));
        i = i + 1;
    }
    assert(ev.take(n as int) =~= ev);
    let issues = issues_of(LogisticsInput::SupplyNode, source, raw_issues);
    SupplyNodeLoadResult { source: Some(source.to_owned()), supply_nodes: nodes, issues }
}

proof fn lemma_entries_long_enough(
    input: LogisticsInput,
    segs: Seq<Seq<char>>,
    line_number: nat,
    offset: nat,
)
    ensures
        forall|k: int|
            0 <= k < entries_from(input, segs, line_number, offset).0.len() ==> (
            #[trigger] entries_from(input, segs, line_number, offset).0[k]).1.len() >= min_values(
                input,
            ),
    decreases segs.len(),
{
    if segs.len() > 0 {
        let next = entries_from(input, segs.drop_first(), line_number + 1, offset + utf8_len(segs[0]));
        lemma_entries_long_enough(
            input,
            segs.drop_first(),
            line_number + 1,
            offset + utf8_len(segs[0]),
        );
        let here = entries_from(input, segs, line_number, offset).0;
        assert(here == next.0 || (here.len() == next.0.len() + 1 && here.drop_first() =~= next.0
            && here[0].1.len() >= min_values(input)));
        assert forall|k: int| 0 <= k < here.len() implies (#[trigger] here[k]).1.len() >= min_values(
            input,
        ) by {
            if here != next.0 && k > 0 {
                assert(here[k] == here.drop_first()[k - 1]);
            }
        }
    }
}

/// What reading one logistics input gave: nothing to read, an issue
/// already described, or the text of a source.
#[derive(Debug, Clone, PartialEq, Eq)]
pub enum LogisticsRead {
    Absent,
    Failed(LogisticsLoadIssue),
    Text { source: String, text: String },
}

pub open spec fn readable(r: LogisticsRead) -> bool {
    match r {
        LogisticsRead::Text { text, .. } => text@.len() < usize::MAX,
        _ => true,
    }
}

/// Whether `r` holds the railways of what was read.
pub open spec fn railways_loaded(read: LogisticsRead, r: RailwayLoadResult) -> bool {
    match read {
        LogisticsRead::Absent => r.source is None && r.railways@.len() == 0 && r.issues@.len() == 0,
        LogisticsRead::Failed(issue) => r.source is None && r.railways@.len() == 0 && r.issues@
            == seq![issue],
        LogisticsRead::Text { source, text } => {
            let (entries, issues) = entries_from(LogisticsInput::Railway, segments(text@), 1, 0);
            &&& crate::state::opt_str_view(r.source) == Some(source@)
            &&& crate::lexicographic::views(r.railways@) == entries.map_values(
                |e: (nat, Seq<u32>)| railway_of(source@, e),
            )
            &&& crate::lexicographic::views(r.issues@) == issues.map_values(
                |i: (nat, nat, nat, Seq<char>)| issue_of(LogisticsInput::Railway, source@, i),
            )
        },
    }
}

/// Whether `r` holds the supply nodes of what was read.
pub open spec fn supply_nodes_loaded(read: LogisticsRead, r: SupplyNodeLoadResult) -> bool {
    match read {
        LogisticsRead::Absent => r.source is None && r.supply_nodes@.len() == 0 && r.issues@.len()
            == 0,
        LogisticsRead::Failed(issue) => r.source is None && r.supply_nodes@.len() == 0 && r.issues@
            == seq![issue],
        LogisticsRead::Text { source, text } => {
            let (entries, issues) = entries_from(LogisticsInput::SupplyNode, segments(text@), 1, 0);
            &&& crate::state::opt_str_view(r.source) == Some(source@)
            &&& crate::lexicographic::views(r.supply_nodes@) == entries.map_values(
                |e: (nat, Seq<u32>)| supply_node_of(source@, e),
            )
            &&& crate::lexicographic::views(r.issues@) == issues.map_values(
                |i: (nat, nat, nat, Seq<char>)| issue_of(LogisticsInput::SupplyNode, source@, i),
            )
        },
    }
}

/// The railways of what was read.
pub fn load_railways(read: LogisticsRead) -> (r: RailwayLoadResult)
    requires
        readable(read),
    ensures
        railways_loaded(read, r),
{
    match read {
        LogisticsRead::Absent => RailwayLoadResult {
            source: None,
            railways: Vec::new(),
            issues: Vec::new(),
        },
        LogisticsRead::Failed(issue) => {
            let mut issues = Vec::new();
            issues.push(issue);
            assert(issues@ =~= seq![issue]);
            RailwayLoadResult { source: None, railways: Vec::new(), issues }
        },
        LogisticsRead::Text { source, text } => parse_railways(source.as_str(), text.as_str()),
    }
}

/// The supply nodes of what was read.
pub fn load_supply_nodes(read: LogisticsRead) -> (r: SupplyNodeLoadResult)
    requires
        readable(read),
    ensures
        supply_nodes_loaded(read, r),
{
    match read {
        LogisticsRead::Absent => SupplyNodeLoadResult {
            source: None,
            supply_nodes: Vec::new(),
            issues: Vec::new(),
        },
        LogisticsRead::Failed(issue) => {
            let mut issues = Vec::new();
            issues.push(issue);
            assert(issues@ =~= seq![issue]);
            SupplyNodeLoadResult { source: None, supply_nodes: Vec::new(), issues }
        },
        LogisticsRead::Text { source, text } => parse_supply_nodes(source.as_str(), text.as_str()),
    }
}

/// Both logistics inputs of what was read.
pub fn load_logistics(railways: LogisticsRead, supply_nodes: LogisticsRead) -> (r:
    LogisticsLoadResult)
    requires
        readable(railways),
        readable(supply_nodes),
    ensures
        railways_loaded(railways, r.railways),
        supply_nodes_loaded(supply_nodes, r.supply_nodes),
{
    LogisticsLoadResult {
        railways: load_railways(railways),
        supply_nodes: load_supply_nodes(supply_nodes),
    }
}

} // verus!

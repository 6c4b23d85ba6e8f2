//! Splitting bytes into lines and fields, and reading decimal numbers.
use vstd::prelude::*;
use crate::lexicographic::views;

verus! {

/// The pieces of `s` between occurrences of `sep`: always one more piece
/// than there are separators.
pub open spec fn split_on(s: Seq<u8>, sep: u8) -> Seq<Seq<u8>>
    decreases s.len(),
{
    if s.len() == 0 {
        seq![Seq::empty()]
    } else {
        let rest = split_on(s.drop_last(), sep);
        if s.last() == sep {
            rest.push(Seq::empty())
        } else {
            rest.update(rest.len() - 1, rest.last().push(s.last()))
        }
    }
}

pub proof fn lemma_split_on_len(s: Seq<u8>, sep: u8)
    ensures
        split_on(s, sep).len() >= 1,
    decreases s.len(),
{
    if s.len() > 0 {
        lemma_split_on_len(s.drop_last(), sep);
    }
}

/// Splits `s` at every `sep`.
pub fn split_bytes(s: &[u8], sep: u8) -> (r: Vec<Vec<u8>>)
    ensures
        views(r@) == split_on(s@, sep),
{
    let mut done: Vec<Vec<u8>> = Vec::new();
    let mut current: Vec<u8> = Vec::new();
    let mut i: usize = 0;
    assert(s@.subrange(0, 0) =~= Seq::<u8>::empty());
    assert(views(done@).push(current@) =~= split_on(s@.subrange(0, 0), sep));
    while i < s.len()
        invariant
            i <= s@.len(),
            views(done@).push(current@) == split_on(s@.subrange(0, i as int), sep),
        decreases s.len() - i,
    {
        let b = s[i];
        let ghost prefix = s@.subrange(0, i + 1);
        assert(prefix.drop_last() =~= s@.subrange(0, i as int));
        assert(prefix.last() == b);
        proof {
            lemma_split_on_len(s@.subrange(0, i as int), sep);
        }
        let ghost done_before = views(done@);
        let ghost current_before = current@;
        if b == sep {
            let mut piece: Vec<u8> = Vec::new();
            std::mem::swap(&mut piece, &mut current);
            done.push(piece);
            assert(views(done@) =~= done_before.push(current_before));
            assert(views(done@).push(current@) =~= done_before.push(current_before).push(
                Seq::empty(),
            ));
        } else {
            current.push(b);
            assert(views(done@).push(current@) =~= done_before.push(current_before).update(
                done_before.len() as int,
                current_before.push(b),
            ));
        }
        i = i + 1;
    }
    assert(s@.subrange(0, s.len() as int) =~= s@);
    let ghost done_before = views(done@);
    done.push(current);
    assert(views(done@) =~= done_before.push(current@));
    done
}

/// The line without a trailing carriage return.
pub open spec fn without_cr(line: Seq<u8>) -> Seq<u8> {
    if line.len() > 0 && line.last() == 13 {
        line.drop_last()
    } else {
        line
    }
}

pub open spec fn is_digit_byte(b: u8) -> bool {
    48 <= b <= 57
}

pub open spec fn all_digits(s: Seq<u8>) -> bool {
    forall|i: int| 0 <= i < s.len() ==> is_digit_byte(#[trigger] s[i])
}

/// The value of a run of decimal digits.
pub open spec fn digits_value(s: Seq<u8>) -> nat
    decreases s.len(),
{
    if s.len() == 0 {
        0
    } else {
        digits_value(s.drop_last()) * 10 + (s.last() - 48) as nat
    }
}

/// A decimal number of at most `max`: one or more digits and nothing else.
pub open spec fn decimal_at_most(s: Seq<u8>, max: nat) -> Option<nat> {
    if s.len() > 0 && all_digits(s) && digits_value(s) <= max {
        Some(digits_value(s))
    } else {
        None
    }
}

proof fn lemma_digits_value_grows(s: Seq<u8>, n: int)
    requires
        0 <= n <= s.len(),
        all_digits(s),
    ensures
        digits_value(s.subrange(0, n)) <= digits_value(s),
    decreases s.len() - n,
{
    if n < s.len() {
        lemma_digits_value_grows(s, n + 1);
        let p = s.subrange(0, n + 1);
        assert(p.drop_last() =~= s.subrange(0, n));
        assert(is_digit_byte(s[n]));
    } else {
        assert(s.subrange(0, n) =~= s);
    }
}

/// Reads a decimal number of at most `max`.
pub fn parse_decimal(s: &[u8], max: u32) -> (r: Option<u32>)
    ensures
        r matches Some(v) ==> decimal_at_most(s@, max as nat) == Some(v as nat),
        r is None ==> decimal_at_most(s@, max as nat) is None,
{
    if s.len() == 0 {
        return None;
    }
    let mut value: u64 = 0;
    let mut i: usize = 0;
    assert(s@.subrange(0, 0) =~= Seq::<u8>::empty());
    while i < s.len()
        invariant
            i <= s@.len(),
            value == digits_value(s@.subrange(0, i as int)),
            value <= max,
            all_digits(s@.subrange(0, i as int)),
        decreases s.len() - i,
    {
        let b = s[i];
        let p = Ghost(s@.subrange(0, i + 1));
        assert(p@.drop_last() =~= s@.subrange(0, i as int));
        if b < 48 || b > 57 {
            assert(!all_digits(s@)) by {
                assert(!is_digit_byte(s@[i as int]));
            }
            return None;
        }
        let next = value * 10 + (b - 48) as u64;
        assert(next == digits_value(p@));
        if next > max as u64 {
            proof {
                if all_digits(s@) {
                    lemma_digits_value_grows(s@, i + 1);
                }
            }
            return None;
        }
        value = next;
        i = i + 1;
        assert(all_digits(s@.subrange(0, i as int))) by {
            assert forall|k: int| 0 <= k < i implies is_digit_byte(
                #[trigger] s@.subrange(0, i as int)[k],
            ) by {
                if k < i - 1 {
                    assert(s@.subrange(0, i as int)[k] == s@.subrange(0, i - 1)[k]);
                }
            }
        }
    }
    assert(s@.subrange(0, s.len() as int) =~= s@);
    Some(value as u32)
}

/// The first position in `s` whose value satisfies `p`, or the length of `s`.
pub open spec fn first_match<V>(s: Seq<V>, p: spec_fn(V) -> bool) -> int
    decreases s.len(),
{
    if s.len() == 0 {
        0
    } else if p(s[0]) {
        0
    } else {
        1 + first_match(s.drop_first(), p)
    }
}

pub proof fn lemma_first_match<V>(s: Seq<V>, p: spec_fn(V) -> bool, i: int)
    requires
        0 <= i <= s.len(),
        forall|k: int| 0 <= k < i ==> !p(#[trigger] s[k]),
        i == s.len() || p(s[i]),
    ensures
        first_match(s, p) == i,
    decreases i,
{
    if i > 0 {
        assert(!p(s[0]));
        assert forall|k: int| 0 <= k < i - 1 implies !p(#[trigger] s.drop_first()[k]) by {
            assert(s.drop_first()[k] == s[k + 1]);
        }
        if i < s.len() {
            assert(s.drop_first()[i - 1] == s[i]);
        }
        lemma_first_match(s.drop_first(), p, i - 1);
    }
}

} // verus!

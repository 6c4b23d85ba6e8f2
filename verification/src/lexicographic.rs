//! Lexicographic order on sequences of integers, the keys that sort
//! findings and diagnostics, and a verified insertion sort by such keys.
use vstd::prelude::*;
use vstd::relations::sorted_by;
use vstd::multiset::Multiset;

verus! {

/// Strict lexicographic order: a proper prefix comes first, otherwise the
/// first differing element decides.
pub open spec fn lex_less(a: Seq<u64>, b: Seq<u64>) -> bool
    decreases a.len(),
{
    if a.len() == 0 {
        b.len() > 0
    } else if b.len() == 0 {
        false
    } else if a[0] < b[0] {
        true
    } else if a[0] > b[0] {
        false
    } else {
        lex_less(a.drop_first(), b.drop_first())
    }
}

/// Non-strict lexicographic order.
pub open spec fn lex_le(a: Seq<u64>, b: Seq<u64>) -> bool {
    !lex_less(b, a)
}

pub proof fn lemma_lex_irreflexive(a: Seq<u64>)
    ensures
        !lex_less(a, a),
    decreases a.len(),
{
    if a.len() > 0 {
        lemma_lex_irreflexive(a.drop_first());
    }
}

pub proof fn lemma_lex_transitive(a: Seq<u64>, b: Seq<u64>, c: Seq<u64>)
    requires
        lex_less(a, b),
        lex_less(b, c),
    ensures
        lex_less(a, c),
    decreases a.len(),
{
    if a.len() > 0 && b.len() > 0 && c.len() > 0 && a[0] == b[0] && b[0] == c[0] {
        lemma_lex_transitive(a.drop_first(), b.drop_first(), c.drop_first());
    }
}

/// Two different sequences are ordered one way or the other.
pub proof fn lemma_lex_total(a: Seq<u64>, b: Seq<u64>)
    ensures
        a == b || lex_less(a, b) || lex_less(b, a),
    decreases a.len(),
{
    if a.len() == 0 {
        if b.len() == 0 {
            assert(a =~= b);
        }
    } else if b.len() > 0 && a[0] == b[0] {
        let a1 = a.drop_first();
        let b1 = b.drop_first();
        lemma_lex_total(a1, b1);
        if a1 == b1 {
            assert(a =~= b) by {
                assert forall|i: int| 0 <= i < a.len() implies a[i] == b[i] by {
                    if i > 0 {
                        assert(a[i] == a1[i - 1]);
                        assert(b[i] == b1[i - 1]);
                    }
                }
            }
        }
    }
}

pub proof fn lemma_lex_asymmetric(a: Seq<u64>, b: Seq<u64>)
    requires
        lex_less(a, b),
    ensures
        !lex_less(b, a),
{
    if lex_less(b, a) {
        lemma_lex_transitive(a, b, a);
        lemma_lex_irreflexive(a);
    }
}

/// `lex_le` is transitive.
pub proof fn lemma_lex_le_transitive(a: Seq<u64>, b: Seq<u64>, c: Seq<u64>)
    requires
        lex_le(a, b),
        lex_le(b, c),
    ensures
        lex_le(a, c),
{
    if lex_less(c, a) {
        lemma_lex_total(a, b);
        if lex_less(a, b) {
            lemma_lex_transitive(c, a, b);
        }
    }
}

/// Drops the first `n` elements of both sequences when they agree there.
proof fn lemma_lex_skip(a: Seq<u64>, b: Seq<u64>, n: int)
    requires
        0 <= n <= a.len(),
        n <= b.len(),
        a.subrange(0, n) == b.subrange(0, n),
    ensures
        lex_less(a, b) == lex_less(a.subrange(n, a.len() as int), b.subrange(n, b.len() as int)),
    decreases n,
{
    if n > 0 {
        assert(a[0] == a.subrange(0, n)[0]);
        assert(b[0] == b.subrange(0, n)[0]);
        let a1 = a.drop_first();
        let b1 = b.drop_first();
        assert(a1.subrange(0, n - 1) =~= a.subrange(0, n).drop_first());
        assert(b1.subrange(0, n - 1) =~= b.subrange(0, n).drop_first());
        lemma_lex_skip(a1, b1, n - 1);
        assert(a1.subrange(n - 1, a1.len() as int) =~= a.subrange(n, a.len() as int));
        assert(b1.subrange(n - 1, b1.len() as int) =~= b.subrange(n, b.len() as int));
    } else {
        assert(a.subrange(0, a.len() as int) =~= a);
        assert(b.subrange(0, b.len() as int) =~= b);
    }
}

/// Whether `a` comes strictly before `b`.
pub fn lex_less_exec(a: &Vec<u64>, b: &Vec<u64>) -> (r: bool)
    ensures
        r == lex_less(a@, b@),
{
    let mut i: usize = 0;
    while i < a.len() && i < b.len()
        invariant
            i <= a.len(),
            i <= b.len(),
            a@.subrange(0, i as int) == b@.subrange(0, i as int),
        decreases a.len() - i,
    {
        if a[i] != b[i] {
            proof {
                lemma_lex_skip(a@, b@, i as int);
                assert(a@.subrange(i as int, a.len() as int)[0] == a@[i as int]);
                assert(b@.subrange(i as int, b.len() as int)[0] == b@[i as int]);
            }
            return a[i] < b[i];
        }
        assert(a@.subrange(0, i + 1) =~= a@.subrange(0, i as int).push(a@[i as int]));
        assert(b@.subrange(0, i + 1) =~= b@.subrange(0, i as int).push(b@[i as int]));
        i = i + 1;
    }
    proof {
        lemma_lex_skip(a@, b@, i as int);
    }
    i < b.len()
}

/// The order on values that sorting by `key` produces.
pub open spec fn key_le<T>(key: spec_fn(T) -> Seq<u64>) -> spec_fn(T, T) -> bool {
    |x: T, y: T| lex_le(key(x), key(y))
}

/// The views of a sequence of values.
pub open spec fn views<T: View>(s: Seq<T>) -> Seq<T::V> {
    s.map_values(|x: T| x@)
}

proof fn lemma_views_insert<T: View>(s: Seq<T>, i: int, x: T)
    requires
        0 <= i <= s.len(),
    ensures
        views(s.insert(i, x)) == views(s).insert(i, x@),
{
    assert(views(s.insert(i, x)) =~= views(s).insert(i, x@));
}

proof fn lemma_views_remove<T: View>(s: Seq<T>, i: int)
    requires
        0 <= i < s.len(),
    ensures
        views(s.remove(i)) == views(s).remove(i),
{
    assert(views(s.remove(i)) =~= views(s).remove(i));
}

/// Sorts `items` by the keys given beside them: the result holds the same
/// values (by view, counted with multiplicity) and is ordered by `key`.
/// Values with equal keys keep their relative order.
pub fn sort_by_keys<T: View>(
    items: Vec<T>,
    keys: Vec<Vec<u64>>,
    Ghost(key): Ghost<spec_fn(T::V) -> Seq<u64>>,
) -> (r: Vec<T>)
    requires
        items.len() == keys.len(),
        forall|i: int| 0 <= i < items.len() ==> (#[trigger] keys@[i])@ == key(items@[i]@),
    ensures
        views(r@).to_multiset() == views(items@).to_multiset(),
        sorted_by(views(r@), key_le(key)),
{
    broadcast use vstd::seq_lib::group_to_multiset_ensures;

    let ghost original = items@;
    let mut items = items;
    let mut keys = keys;
    let mut out: Vec<T> = Vec::new();
    let mut out_keys: Vec<Vec<u64>> = Vec::new();
    assert(views(out@).to_multiset() =~= Multiset::empty());
    assert(views(out@).to_multiset().add(views(items@).to_multiset()) =~= views(
        original,
    ).to_multiset());
    while items.len() > 0
        invariant
            items.len() == keys.len(),
            out.len() == out_keys.len(),
            forall|i: int| 0 <= i < items.len() ==> (#[trigger] keys@[i])@ == key(items@[i]@),
            forall|i: int| 0 <= i < out.len() ==> (#[trigger] out_keys@[i])@ == key(out@[i]@),
            views(out@).to_multiset().add(views(items@).to_multiset()) == views(
                original,
            ).to_multiset(),
            sorted_by(views(out@), key_le(key)),
        decreases items.len(),
    {
        let ghost items_before = items@;
        let ghost keys_before = keys@;
        let x = items.remove(0);
        let k = keys.remove(0);
        proof {
            lemma_views_remove(items_before, 0);
            assert(k@ == key(x@)) by {
                assert(keys_before[0]@ == key(items_before[0]@));
            }
            assert forall|i: int| 0 <= i < items.len() implies (#[trigger] keys@[i])@ == key(
                items@[i]@,
            ) by {
                assert(keys@[i] == keys_before[i + 1]);
                assert(items@[i] == items_before[i + 1]);
            }
        }
        let mut j: usize = 0;
        while j < out.len() && !lex_less_exec(&k, &out_keys[j])
            invariant
                j <= out.len(),
                out.len() == out_keys.len(),
                forall|i: int| 0 <= i < out.len() ==> (#[trigger] out_keys@[i])@ == key(out@[i]@),
                forall|i: int| 0 <= i < j ==> lex_le(#[trigger] key(out@[i]@), k@),
            decreases out.len() - j,
        {
            j = j + 1;
        }
        let ghost before = out@;
        let ghost vs = views(before);
        proof {
            lemma_views_insert(before, j as int, x);
            let ws = views(before.insert(j as int, x));
            assert(ws == vs.insert(j as int, x@));
            assert forall|i: int, m: int| 0 <= i < m < ws.len() implies #[trigger] key_le(key)(
                ws[i],
                ws[m],
            ) by {
                if m < j {
                    assert(key_le(key)(vs[i], vs[m]));
                } else if m == j {
                    assert(lex_le(key(before[i]@), k@));
                } else if i < j {
                    assert(key_le(key)(vs[i], vs[m - 1]));
                } else if i == j {
                    assert(lex_less(k@, key(vs[j as int])));
                    lemma_lex_asymmetric(k@, key(vs[j as int]));
                    if j < m - 1 {
                        assert(key_le(key)(vs[j as int], vs[m - 1]));
                        lemma_lex_le_transitive(k@, key(vs[j as int]), key(vs[m - 1]));
                    }
                } else {
                    assert(key_le(key)(vs[i - 1], vs[m - 1]));
                }
            }
        }
        out.insert(j, x);
        out_keys.insert(j, k);
        proof {
            assert forall|i: int| 0 <= i < out.len() implies (#[trigger] out_keys@[i])@ == key(
                out@[i]@,
            ) by {
                if i > j {
                    assert(out@[i] == before[i - 1]);
                }
            }
            assert(out@ == before.insert(j as int, x));
            lemma_views_insert(before, j as int, x);
            vstd::seq_lib::to_multiset_insert(vs, j as int, x@);
            assert(views(out@).to_multiset() == vs.to_multiset().insert(x@));
            let vb = views(items_before);
            assert(vb[0] == x@);
            assert(views(items@) == vb.remove(0));
            vstd::seq_lib::to_multiset_remove(vb, 0);
            vstd::seq_lib::to_multiset_contains(vb, x@);
            assert(vb.contains(x@)) by {
                assert(vb[0] == x@);
            }
            assert(vb.to_multiset() =~= views(items@).to_multiset().insert(x@));
            assert(views(out@).to_multiset().add(views(items@).to_multiset()) =~= vs.to_multiset().add(
                views(items_before).to_multiset(),
            ));
        }
    }
    assert(views(items@) =~= Seq::<T::V>::empty());
    assert(views(out@).to_multiset().add(views(items@).to_multiset()) =~= views(
        out@,
    ).to_multiset());
    out
}

/// Every element is below the largest `u64`, so shifting it up by one is exact.
pub open spec fn below_max(s: Seq<u64>) -> bool {
    forall|i: int| 0 <= i < s.len() ==> #[trigger] s[i] < u64::MAX
}

/// A self-delimiting code of a sequence: each element shifted up by one,
/// then a terminating zero. No code is a proper prefix of another, so codes
/// chained field after field order records field by field.
pub open spec fn enc(s: Seq<u64>) -> Seq<u64> {
    Seq::new(s.len(), |i: int| (s[i] + 1) as u64).push(0)
}

/// The code of an optional sequence: absent before present.
pub open spec fn enc_opt(o: Option<Seq<u64>>) -> Seq<u64> {
    match o {
        None => seq![0u64],
        Some(v) => seq![1u64] + enc(v),
    }
}

pub open spec fn opt_below_max(o: Option<Seq<u64>>) -> bool {
    match o {
        None => true,
        Some(v) => below_max(v),
    }
}

/// The characters of a text as their code points.
pub open spec fn text_code(s: Seq<char>) -> Seq<u64> {
    Seq::new(s.len(), |i: int| s[i] as u64)
}

/// Every character of the text is a Unicode scalar value.
pub open spec fn valid_text(s: Seq<char>) -> bool {
    forall|i: int| 0 <= i < s.len() ==> 0 <= #[trigger] (s[i] as int) < 0x110000
}

pub open spec fn opt_valid_text(o: Option<Seq<char>>) -> bool {
    match o {
        None => true,
        Some(s) => valid_text(s),
    }
}

pub open spec fn opt_text_code(o: Option<Seq<char>>) -> Option<Seq<u64>> {
    match o {
        None => None,
        Some(s) => Some(text_code(s)),
    }
}

/// Unsigned 32-bit values widened.
pub open spec fn wide(s: Seq<u32>) -> Seq<u64> {
    Seq::new(s.len(), |i: int| s[i] as u64)
}

pub proof fn lemma_text_code(s: Seq<char>, t: Seq<char>)
    requires
        valid_text(s),
        valid_text(t),
    ensures
        below_max(text_code(s)),
        text_code(s) == text_code(t) ==> s == t,
{
    assert forall|i: int| 0 <= i < text_code(s).len() implies #[trigger] text_code(s)[i]
        < u64::MAX by {
        assert(0 <= (s[i] as int) < 0x110000);
    }
    if text_code(s) == text_code(t) {
        assert(s.len() == text_code(s).len());
        assert(t.len() == text_code(t).len());
        assert forall|i: int| 0 <= i < s.len() implies s[i] == t[i] by {
            assert(0 <= (s[i] as int) < 0x110000);
            assert(0 <= (t[i] as int) < 0x110000);
            assert(text_code(s)[i] == text_code(t)[i]);
        }
        assert(s =~= t);
    }
}

pub proof fn lemma_opt_text_code(s: Option<Seq<char>>, t: Option<Seq<char>>)
    requires
        opt_valid_text(s),
        opt_valid_text(t),
    ensures
        opt_below_max(opt_text_code(s)),
        opt_text_code(s) == opt_text_code(t) ==> s == t,
{
    match s {
        Some(a) => {
            match t {
                Some(b) => lemma_text_code(a, b),
                None => lemma_text_code(a, a),
            }
        },
        None => {
            match t {
                Some(b) => lemma_text_code(b, b),
                None => {},
            }
        },
    }
}

pub proof fn lemma_wide(s: Seq<u32>, t: Seq<u32>)
    ensures
        below_max(wide(s)),
        wide(s) == wide(t) ==> s == t,
{
    assert forall|i: int| 0 <= i < wide(s).len() implies #[trigger] wide(s)[i] < u64::MAX by {
        assert(wide(s)[i] == s[i] as u64);
    }
    if wide(s) == wide(t) {
        assert(s.len() == wide(s).len());
        assert(t.len() == wide(t).len());
        assert forall|i: int| 0 <= i < s.len() implies s[i] == t[i] by {
            assert(wide(s)[i] == s[i] as u64);
            assert(wide(t)[i] == t[i] as u64);
        }
        assert(s =~= t);
    }
}

/// A code followed by anything determines both the coded sequence and what follows.
pub proof fn lemma_enc_prefix_free(x: Seq<u64>, y: Seq<u64>, p: Seq<u64>, q: Seq<u64>)
    requires
        below_max(x),
        below_max(y),
        enc(x) + p == enc(y) + q,
    ensures
        x == y,
        p == q,
    decreases x.len(),
{
    let a = enc(x) + p;
    let b = enc(y) + q;
    assert(a[0] == b[0]);
    if x.len() == 0 {
        if y.len() > 0 {
            assert(b[0] == y[0] + 1);
        }
        assert(p =~= a.drop_first());
        assert(q =~= b.drop_first());
        assert(x =~= y);
    } else {
        if y.len() == 0 {
            assert(a[0] == x[0] + 1);
        }
        assert(a[0] == x[0] + 1);
        assert(b[0] == y[0] + 1);
        let x1 = x.drop_first();
        let y1 = y.drop_first();
        assert(a.drop_first() =~= enc(x1) + p);
        assert(b.drop_first() =~= enc(y1) + q);
        lemma_enc_prefix_free(x1, y1, p, q);
        assert(x =~= seq![x[0]] + x1);
        assert(y =~= seq![y[0]] + y1);
    }
}

pub proof fn lemma_enc_opt_prefix_free(
    x: Option<Seq<u64>>,
    y: Option<Seq<u64>>,
    p: Seq<u64>,
    q: Seq<u64>,
)
    requires
        opt_below_max(x),
        opt_below_max(y),
        enc_opt(x) + p == enc_opt(y) + q,
    ensures
        x == y,
        p == q,
{
    let a = enc_opt(x) + p;
    let b = enc_opt(y) + q;
    assert(a[0] == b[0]);
    match x {
        Some(v) => {
            match y {
                Some(w) => {
                    assert(a.drop_first() =~= enc(v) + p);
                    assert(b.drop_first() =~= enc(w) + q);
                    lemma_enc_prefix_free(v, w, p, q);
                },
                None => {
                    assert(a[0] == 1);
                    assert(b[0] == 0);
                },
            }
        },
        None => {
            match y {
                Some(w) => {
                    assert(a[0] == 0);
                    assert(b[0] == 1);
                },
                None => {
                    assert(p =~= a.drop_first());
                    assert(q =~= b.drop_first());
                },
            }
        },
    }
}

/// Appends the code of `s` to `out`.
pub fn push_enc(out: &mut Vec<u64>, s: &Vec<u64>)
    requires
        below_max(s@),
    ensures
        final(out)@ == old(out)@ + enc(s@),
{
    let ghost start = out@;
    let mut i: usize = 0;
    while i < s.len()
        invariant
            i <= s.len(),
            below_max(s@),
            out@ == start + Seq::new(i as nat, |k: int| (s@[k] + 1) as u64),
        decreases s.len() - i,
    {
        assert(s@[i as int] < u64::MAX);
        out.push(s[i] + 1);
        i = i + 1;
        assert(out@ =~= start + Seq::new(i as nat, |k: int| (s@[k] + 1) as u64));
    }
    out.push(0);
    assert(out@ =~= start + enc(s@));
}

/// The code points of a text.
pub fn text_code_vec(s: &str) -> (r: Vec<u64>)
    ensures
        r@ == text_code(s@),
        valid_text(s@),
{
    let n = s.unicode_len();
    let mut r: Vec<u64> = Vec::new();
    let mut i: usize = 0;
    while i < n
        invariant
            n == s@.len(),
            i <= n,
            r@ == Seq::new(i as nat, |k: int| s@[k] as u64),
            forall|k: int| 0 <= k < i ==> 0 <= #[trigger] (s@[k] as int) < 0x110000,
        decreases n - i,
    {
        let c = s.get_char(i);
        r.push(c as u64);
        i = i + 1;
        assert(r@ =~= Seq::new(i as nat, |k: int| s@[k] as u64));
    }
    assert(r@ =~= text_code(s@));
    r
}

/// Widened copies of 32-bit values.
pub fn wide_vec(s: &Vec<u32>) -> (r: Vec<u64>)
    ensures
        r@ == wide(s@),
{
    let mut r: Vec<u64> = Vec::new();
    let mut i: usize = 0;
    while i < s.len()
        invariant
            i <= s.len(),
            r@ == Seq::new(i as nat, |k: int| s@[k] as u64),
        decreases s.len() - i,
    {
        r.push(s[i] as u64);
        i = i + 1;
        assert(r@ =~= Seq::new(i as nat, |k: int| s@[k] as u64));
    }
    assert(r@ =~= wide(s@));
    r
}

/// The key tells apart any two different values of the sequence.
pub open spec fn key_injective_on<V>(s: Seq<V>, key: spec_fn(V) -> Seq<u64>) -> bool {
    forall|a: V, b: V| s.contains(a) && s.contains(b) && key(a) == key(b) ==> a == b
}

/// Two orderings by key of the same values are the same sequence when the
/// key tells those values apart.
pub proof fn lemma_sorted_by_key_unique<V>(x: Seq<V>, y: Seq<V>, key: spec_fn(V) -> Seq<u64>)
    requires
        sorted_by(x, key_le(key)),
        sorted_by(y, key_le(key)),
        x.to_multiset() == y.to_multiset(),
        key_injective_on(x, key),
    ensures
        x == y,
    decreases x.len(),
{
    broadcast use vstd::seq_lib::group_to_multiset_ensures;

    if x.len() == 0 || y.len() == 0 {
        assert(x.len() == x.to_multiset().len());
        assert(y.len() == y.to_multiset().len());
        assert(x =~= y);
    } else {
        assert(x.to_multiset().contains(y[0]));
        assert(y.to_multiset().contains(x[0]));
        let i = choose|i: int| 0 <= i < x.len() && x[i] == y[0];
        let j = choose|j: int| 0 <= j < y.len() && y[j] == x[0];
        lemma_lex_irreflexive(key(x[0]));
        lemma_lex_irreflexive(key(y[0]));
        assert(lex_le(key(x[0]), key(y[0]))) by {
            if i > 0 {
                assert(key_le(key)(x[0], x[i]));
            }
        }
        assert(lex_le(key(y[0]), key(x[0]))) by {
            if j > 0 {
                assert(key_le(key)(y[0], y[j]));
            }
        }
        lemma_lex_total(key(x[0]), key(y[0]));
        assert(x.contains(y[0]));
        assert(x.contains(x[0]));
        assert(x[0] == y[0]);
        let x1 = x.drop_first();
        let y1 = y.drop_first();
        assert(x1.to_multiset() =~= x.to_multiset().remove(x[0])) by {
            assert(x1 =~= x.remove(0));
        }
        assert(y1.to_multiset() =~= y.to_multiset().remove(y[0])) by {
            assert(y1 =~= y.remove(0));
        }
        assert(sorted_by(x1, key_le(key))) by {
            assert forall|a: int, b: int| 0 <= a < b < x1.len() implies #[trigger] key_le(key)(
                x1[a],
                x1[b],
            ) by {
                assert(key_le(key)(x[a + 1], x[b + 1]));
            }
        }
        assert(sorted_by(y1, key_le(key))) by {
            assert forall|a: int, b: int| 0 <= a < b < y1.len() implies #[trigger] key_le(key)(
                y1[a],
                y1[b],
            ) by {
                assert(key_le(key)(y[a + 1], y[b + 1]));
            }
        }
        assert(key_injective_on(x1, key)) by {
            assert forall|a: V, b: V|
                x1.contains(a) && x1.contains(b) && key(a) == key(b) implies a == b by {
                let ia = choose|k: int| 0 <= k < x1.len() && x1[k] == a;
                let ib = choose|k: int| 0 <= k < x1.len() && x1[k] == b;
                assert(x[ia + 1] == a);
                assert(x[ib + 1] == b);
                assert(x.contains(a));
                assert(x.contains(b));
            }
        }
        lemma_sorted_by_key_unique(x1, y1, key);
        assert(x =~= seq![x[0]] + x1);
        assert(y =~= seq![y[0]] + y1);
    }
}

} // verus!

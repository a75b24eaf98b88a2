use vstd::prelude::*;
use crate::scrub::{
    html_closer_from, is_split_opener, kept, lemma_html_closer_bounds, lemma_kept_len,
    lemma_mask_len, lemma_span_end_bounds, lemma_text_closer_bounds, mask, mask_from, scrub,
    span_end, text_closer_from,
};
use crate::token::Token;

verus! {

/// No comment opens anywhere in `s`: no raw HTML token starts with `<!--`,
/// and no inline text `<` is followed by inline text that starts with `!--`.
pub open spec fn has_no_opener<T>(s: Seq<Token<T>>) -> bool {
    forall|i: int| 0 <= i < s.len() ==> !(#[trigger] s[i]).is_html_opener() && !is_split_opener(s, i)
}

/// No `Html` or `Text` token of `s` ends with `-->` once trimmed.
pub open spec fn has_no_closer<T>(s: Seq<Token<T>>) -> bool {
    forall|i: int| 0 <= i < s.len() ==> !(#[trigger] s[i]).is_closer()
}

/// Every token that may open a comment (inline text `<`, or raw HTML that
/// starts with `<!--`) does open one, and that comment is closed.
pub open spec fn openers_closed<T>(s: Seq<Token<T>>) -> bool {
    forall|i: int|
        0 <= i < s.len() && ((#[trigger] s[i]).is_split_lt() || s[i].is_html_opener())
            ==> span_end(s, i) is Some
}

/// A token that can start no comment.
pub open spec fn is_plain<T>(t: Token<T>) -> bool {
    !t.is_split_lt() && !t.is_html_opener()
}

/// Removing comments never makes the sequence longer.
pub proof fn lemma_scrub_len<T>(s: Seq<Token<T>>)
    ensures
        scrub(s).len() <= s.len(),
{
    lemma_kept_len(s, mask(s));
}

proof fn lemma_mask_all_kept<T>(s: Seq<Token<T>>, i: int)
    requires
        0 <= i <= s.len(),
        forall|j: int| i <= j < s.len() ==> #[trigger] span_end(s, j) is None,
    ensures
        mask_from(s, i) =~= Seq::new((s.len() - i) as nat, |k: int| true),
    decreases s.len() - i,
{
    if i < s.len() {
        assert(span_end(s, i) is None);
        lemma_mask_all_kept(s, i + 1);
    }
}

proof fn lemma_kept_all<T>(s: Seq<Token<T>>, m: Seq<bool>)
    requires
        m.len() == s.len(),
        forall|k: int| 0 <= k < m.len() ==> #[trigger] m[k],
    ensures
        kept(s, m) == s,
    decreases s.len(),
{
    if s.len() > 0 {
        let n = s.len() - 1;
        assert(forall|k: int| 0 <= k < n ==> m.take(n)[k] == m[k]);
        lemma_kept_all(s.drop_last(), m.take(n));
        assert(m[n]);
        assert(s.drop_last().push(s.last()) =~= s);
    }
}

proof fn lemma_no_span_unchanged<T>(s: Seq<Token<T>>)
    requires
        forall|j: int| 0 <= j < s.len() ==> #[trigger] span_end(s, j) is None,
    ensures
        scrub(s) == s,
{
    lemma_mask_all_kept(s, 0);
    lemma_kept_all(s, mask(s));
}

/// A sequence in which no comment opens comes out unchanged.
pub proof fn lemma_no_opener_unchanged<T>(s: Seq<Token<T>>)
    requires
        has_no_opener(s),
    ensures
        scrub(s) == s,
{
    assert forall|j: int| 0 <= j < s.len() implies #[trigger] span_end(s, j) is None by {
        assert(!s[j].is_html_opener());
    }
    lemma_no_span_unchanged(s);
}

proof fn lemma_no_text_closer<T>(s: Seq<Token<T>>, j: int)
    requires
        has_no_closer(s),
    ensures
        text_closer_from(s, j) is None,
    decreases s.len() - j,
{
    if 0 <= j < s.len() {
        assert(!s[j].is_closer());
        lemma_no_text_closer(s, j + 1);
    }
}

proof fn lemma_no_html_closer<T>(s: Seq<Token<T>>, j: int)
    requires
        has_no_closer(s),
    ensures
        html_closer_from(s, j) is None,
    decreases s.len() - j,
{
    if 0 <= j < s.len() {
        assert(!s[j].is_closer());
        lemma_no_html_closer(s, j + 1);
    }
}

/// A comment that is never closed is not removed: where no token ends with
/// `-->`, every token stays, in order.
pub proof fn lemma_unclosed_unchanged<T>(s: Seq<Token<T>>)
    requires
        has_no_closer(s),
    ensures
        scrub(s) == s,
{
    assert forall|j: int| 0 <= j < s.len() implies #[trigger] span_end(s, j) is None by {
        lemma_no_text_closer(s, j + 2);
        lemma_no_html_closer(s, j + 1);
        assert(!s[j].is_closer());
        if j + 1 < s.len() {
            assert(!s[j + 1].is_closer());
        }
    }
    lemma_no_span_unchanged(s);
}

proof fn lemma_mask_plain<T>(s: Seq<Token<T>>, i: int)
    requires
        openers_closed(s),
        0 <= i <= s.len(),
    ensures
        forall|k: int|
            0 <= k < mask_from(s, i).len() && #[trigger] mask_from(s, i)[k] ==> is_plain(
                s[i + k],
            ),
    decreases s.len() - i,
{
    if i < s.len() {
        lemma_span_end_bounds(s, i);
        match span_end(s, i) {
            Some(e) => {
                lemma_mask_plain(s, e + 1);
                let falses = Seq::new((e + 1 - i) as nat, |k: int| false);
                let rest = mask_from(s, e + 1);
                assert forall|k: int|
                    0 <= k < mask_from(s, i).len() && #[trigger] mask_from(s, i)[k] implies is_plain(
                    s[i + k],
                ) by {
                    if k >= falses.len() {
                        assert(mask_from(s, i)[k] == rest[k - falses.len()]);
                        assert(i + k == e + 1 + (k - falses.len()));
                    }
                }
            },
            None => {
                lemma_mask_plain(s, i + 1);
                let rest = mask_from(s, i + 1);
                assert forall|k: int|
                    0 <= k < mask_from(s, i).len() && #[trigger] mask_from(s, i)[k] implies is_plain(
                    s[i + k],
                ) by {
                    if k >= 1 {
                        assert(mask_from(s, i)[k] == rest[k - 1]);
                        assert(i + k == i + 1 + (k - 1));
                    } else {
                        assert(!(s[i].is_split_lt() || s[i].is_html_opener()));
                    }
                }
            },
        }
    }
}

proof fn lemma_kept_plain<T>(s: Seq<Token<T>>, m: Seq<bool>)
    requires
        m.len() == s.len(),
        forall|k: int| 0 <= k < m.len() && #[trigger] m[k] ==> is_plain(s[k]),
    ensures
        forall|j: int| 0 <= j < kept(s, m).len() ==> is_plain(#[trigger] kept(s, m)[j]),
    decreases s.len(),
{
    if s.len() > 0 {
        let n = s.len() - 1;
        assert forall|k: int| 0 <= k < n && #[trigger] m.take(n)[k] implies is_plain(
            s.drop_last()[k],
        ) by {
            assert(m[k]);
        }
        lemma_kept_plain(s.drop_last(), m.take(n));
        let rest = kept(s.drop_last(), m.take(n));
        assert forall|j: int| 0 <= j < kept(s, m).len() implies is_plain(
            #[trigger] kept(s, m)[j],
        ) by {
            if j < rest.len() {
                assert(kept(s, m)[j] == rest[j]);
            } else {
                assert(m[n]);
                assert(kept(s, m)[j] == s[n]);
            }
        }
    }
}

/// Where every comment opener of `s` is closed, removing comments a second
/// time changes nothing.
pub proof fn lemma_scrub_idempotent<T>(s: Seq<Token<T>>)
    requires
        openers_closed(s),
    ensures
        scrub(scrub(s)) == scrub(s),
{
    let t = scrub(s);
    lemma_mask_len(s, 0);
    lemma_mask_plain(s, 0);
    assert forall|k: int| 0 <= k < mask(s).len() && #[trigger] mask(s)[k] implies is_plain(s[k]) by {
        assert(s[0 + k] == s[k]);
    }
    lemma_kept_plain(s, mask(s));
    assert forall|j: int| 0 <= j < t.len() implies #[trigger] span_end(t, j) is None by {
        assert(is_plain(t[j]));
    }
    lemma_no_span_unchanged(t);
}

/// A position found in a suffix, as a position of the whole sequence.
pub open spec fn shifted(o: Option<int>, j: int) -> Option<int> {
    match o {
        Some(x) => Some(x + j),
        None => None,
    }
}

proof fn lemma_text_closer_shift<T>(s: Seq<Token<T>>, j: int, k: int)
    requires
        0 <= j <= k,
        j <= s.len(),
    ensures
        text_closer_from(s, k) == shifted(text_closer_from(s.subrange(j, s.len() as int), k - j), j),
    decreases s.len() - k,
{
    let t = s.subrange(j, s.len() as int);
    if k < s.len() {
        assert(t[k - j] == s[k]);
        lemma_text_closer_shift(s, j, k + 1);
    }
}

proof fn lemma_html_closer_shift<T>(s: Seq<Token<T>>, j: int, k: int)
    requires
        0 <= j <= k,
        j <= s.len(),
    ensures
        html_closer_from(s, k) == shifted(html_closer_from(s.subrange(j, s.len() as int), k - j), j),
    decreases s.len() - k,
{
    let t = s.subrange(j, s.len() as int);
    if k < s.len() {
        assert(t[k - j] == s[k]);
        lemma_html_closer_shift(s, j, k + 1);
    }
}

proof fn lemma_span_end_shift<T>(s: Seq<Token<T>>, j: int, k: int)
    requires
        0 <= j <= k < s.len(),
    ensures
        span_end(s, k) == shifted(span_end(s.subrange(j, s.len() as int), k - j), j),
{
    let t = s.subrange(j, s.len() as int);
    assert(t[k - j] == s[k]);
    if k + 1 < s.len() {
        assert(t[k - j + 1] == s[k + 1]);
    }
    lemma_text_closer_shift(s, j, k + 2);
    lemma_html_closer_shift(s, j, k + 1);
}

proof fn lemma_mask_shift<T>(s: Seq<Token<T>>, j: int, k: int)
    requires
        0 <= j <= k,
        j <= s.len(),
    ensures
        mask_from(s, k) == mask_from(s.subrange(j, s.len() as int), k - j),
    decreases s.len() - k,
{
    let t = s.subrange(j, s.len() as int);
    if k < s.len() {
        lemma_span_end_shift(s, j, k);
        lemma_span_end_bounds(s, k);
        match span_end(s, k) {
            Some(e) => {
                lemma_mask_shift(s, j, e + 1);
                assert(e + 1 - j == (e - j) + 1);
            },
            None => {
                lemma_mask_shift(s, j, k + 1);
            },
        }
    }
}

proof fn lemma_kept_skip<T>(s: Seq<Token<T>>, m: Seq<bool>, p: int)
    requires
        m.len() == s.len(),
        0 <= p <= s.len(),
        forall|k: int| 0 <= k < p ==> !#[trigger] m[k],
    ensures
        kept(s, m) == kept(s.subrange(p, s.len() as int), m.subrange(p, s.len() as int)),
    decreases s.len(),
{
    let n = s.len() as int;
    if n > 0 {
        let front = if p == n {
            n - 1
        } else {
            p
        };
        assert forall|k: int| 0 <= k < front implies !#[trigger] m.take(n - 1)[k] by {
            assert(!m[k]);
        }
        lemma_kept_skip(s.drop_last(), m.take(n - 1), front);
        if p < n {
            let t = s.subrange(p, n);
            let mt = m.subrange(p, n);
            assert(t.drop_last() =~= s.drop_last().subrange(p, n - 1));
            assert(mt.take(t.len() - 1) =~= m.take(n - 1).subrange(p, n - 1));
            assert(t.last() == s.last());
            assert(mt[t.len() - 1] == m[n - 1]);
        } else {
            assert(!m[n - 1]);
            assert(s.subrange(p, n).len() == 0);
            assert(s.drop_last().subrange(front, n - 1).len() == 0);
        }
    }
}

/// A comment that opens at the front of `s` and is closed at `e` is removed
/// whole, from its opener to its closer and all between; what follows is
/// treated as if it stood alone.
pub proof fn lemma_front_comment_removed<T>(s: Seq<Token<T>>, e: int)
    requires
        span_end(s, 0) == Some(e),
    ensures
        0 <= e < s.len(),
        scrub(s) == scrub(s.subrange(e + 1, s.len() as int)),
{
    let n = s.len() as int;
    lemma_span_end_bounds(s, 0);
    lemma_mask_len(s, 0);
    lemma_mask_shift(s, e + 1, e + 1);
    let falses = Seq::new((e + 1) as nat, |k: int| false);
    assert(mask(s) == falses + mask_from(s, e + 1));
    assert forall|k: int| 0 <= k < e + 1 implies !#[trigger] mask(s)[k] by {
        assert(mask(s)[k] == falses[k]);
    }
    lemma_kept_skip(s, mask(s), e + 1);
    assert(mask(s).subrange(e + 1, n) =~= mask_from(s, e + 1));
}

/// No inline text token of `s` is exactly `<`.
pub open spec fn has_no_lone_lt<T>(s: Seq<Token<T>>) -> bool {
    forall|i: int| 0 <= i < s.len() ==> !(#[trigger] s[i]).is_split_lt()
}

proof fn lemma_kept_cons<T>(s: Seq<Token<T>>, m: Seq<bool>)
    requires
        m.len() == s.len(),
        s.len() > 0,
        m[0],
    ensures
        kept(s, m) == seq![s[0]] + kept(s.drop_first(), m.drop_first()),
    decreases s.len(),
{
    let n = s.len() as int;
    if n == 1 {
        assert(kept(s.drop_last(), m.take(0)) == Seq::<Token<T>>::empty());
        assert(kept(s.drop_first(), m.drop_first()) == Seq::<Token<T>>::empty());
        assert(seq![s[0]] + Seq::<Token<T>>::empty() =~= Seq::<Token<T>>::empty().push(s[0]));
    } else {
        lemma_kept_cons(s.drop_last(), m.take(n - 1));
        let x = kept(s.drop_last().drop_first(), m.take(n - 1).drop_first());
        assert(s.drop_first().drop_last() =~= s.drop_last().drop_first());
        assert(m.drop_first().take(n - 2) =~= m.take(n - 1).drop_first());
        assert(s.drop_first().last() == s.last());
        assert(m.drop_first()[n - 2] == m[n - 1]);
        assert((seq![s[0]] + x).push(s.last()) =~= seq![s[0]] + x.push(s.last()));
    }
}

/// Where no comment opens at the front of `s`, its first token stays and
/// the rest is treated as if it stood alone.
pub proof fn lemma_front_kept<T>(s: Seq<Token<T>>)
    requires
        s.len() > 0,
        span_end(s, 0) is None,
    ensures
        scrub(s) == seq![s[0]] + scrub(s.drop_first()),
{
    let n = s.len() as int;
    lemma_mask_len(s, 0);
    lemma_mask_shift(s, 1, 1);
    assert(s.subrange(1, n) =~= s.drop_first());
    assert(mask(s) == seq![true] + mask_from(s, 1));
    assert(mask(s).drop_first() =~= mask_from(s, 1));
    lemma_kept_cons(s, mask(s));
}

proof fn lemma_run_stays_open<T>(v: Seq<Token<T>>)
    requires
        has_no_lone_lt(v),
        html_closer_from(v, 0) is None,
    ensures
        html_closer_from(scrub(v), 0) is None,
    decreases v.len(),
{
    let n = v.len() as int;
    if n == 0 {
        assert(scrub(v) == Seq::<Token<T>>::empty());
    } else {
        assert(!v[0].is_split_lt());
        if !v[0].is_markup() {
            lemma_front_kept(v);
            assert(scrub(v)[0] == v[0]);
        } else {
            let w = v.drop_first();
            lemma_front_kept(v);
            lemma_html_closer_shift(v, 1, 1);
            assert(v.subrange(1, n) =~= w);
            assert forall|i: int| 0 <= i < w.len() implies !(#[trigger] w[i]).is_split_lt() by {
                assert(w[i] == v[i + 1]);
            }
            lemma_run_stays_open(w);
            let z = seq![v[0]] + scrub(w);
            lemma_html_closer_shift(z, 1, 1);
            assert(z.subrange(1, z.len() as int) =~= scrub(w));
        }
    }
}

/// Where no inline text token is exactly `<`, removing comments a second time
/// changes nothing.
pub proof fn lemma_scrub_idempotent_no_lone_lt<T>(s: Seq<Token<T>>)
    requires
        has_no_lone_lt(s),
    ensures
        scrub(scrub(s)) == scrub(s),
    decreases s.len(),
{
    let n = s.len() as int;
    if n == 0 {
        assert(scrub(s) == Seq::<Token<T>>::empty());
    } else {
        assert(!s[0].is_split_lt());
        match span_end(s, 0) {
            Some(e) => {
                lemma_front_comment_removed(s, e);
                let rest = s.subrange(e + 1, n);
                assert forall|i: int| 0 <= i < rest.len() implies !(
                #[trigger] rest[i]).is_split_lt() by {
                    assert(rest[i] == s[i + e + 1]);
                }
                lemma_scrub_idempotent_no_lone_lt(rest);
            },
            None => {
                let w = s.drop_first();
                lemma_front_kept(s);
                assert forall|i: int| 0 <= i < w.len() implies !(#[trigger] w[i]).is_split_lt() by {
                    assert(w[i] == s[i + 1]);
                }
                lemma_scrub_idempotent_no_lone_lt(w);
                let u = scrub(w);
                let z = seq![s[0]] + u;
                lemma_html_closer_shift(s, 1, 1);
                assert(s.subrange(1, n) =~= w);
                if s[0].is_html_opener() {
                    lemma_run_stays_open(w);
                }
                lemma_html_closer_shift(z, 1, 1);
                assert(z.subrange(1, z.len() as int) =~= u);
                assert(z[0] == s[0]);
                assert(span_end(z, 0) is None);
                lemma_front_kept(z);
                assert(z.drop_first() =~= u);
            },
        }
    }
}

proof fn lemma_text_closer_prefix<T>(p: Seq<Token<T>>, q: Seq<Token<T>>, k: int)
    requires
        has_no_closer(q),
        0 <= k,
    ensures
        text_closer_from(p + q, k) == text_closer_from(p, k),
    decreases (p + q).len() - k,
{
    let s = p + q;
    if k < s.len() {
        if k < p.len() {
            assert(s[k] == p[k]);
        } else {
            assert(s[k] == q[k - p.len()]);
        }
        lemma_text_closer_prefix(p, q, k + 1);
    }
}

proof fn lemma_html_closer_prefix<T>(p: Seq<Token<T>>, q: Seq<Token<T>>, k: int)
    requires
        has_no_closer(q),
        0 <= k,
    ensures
        html_closer_from(p + q, k) matches Some(e) ==> html_closer_from(p, k) == Some(e),
        html_closer_from(p, k) matches Some(e) ==> html_closer_from(p + q, k) == Some(e),
    decreases (p + q).len() - k,
{
    let s = p + q;
    if k < s.len() {
        if k < p.len() {
            assert(s[k] == p[k]);
        } else {
            assert(s[k] == q[k - p.len()]);
        }
        lemma_html_closer_prefix(p, q, k + 1);
    }
}

proof fn lemma_span_end_prefix<T>(p: Seq<Token<T>>, q: Seq<Token<T>>, i: int)
    requires
        has_no_closer(q),
        0 <= i < (p + q).len(),
    ensures
        i < p.len() ==> span_end(p + q, i) == span_end(p, i),
        i >= p.len() ==> span_end(p + q, i) is None,
{
    let s = p + q;
    lemma_text_closer_prefix(p, q, i + 2);
    lemma_html_closer_prefix(p, q, i + 1);
    lemma_text_closer_bounds(p, i + 2);
    lemma_html_closer_bounds(p, i + 1);
    if i < p.len() {
        assert(s[i] == p[i]);
    } else {
        assert(s[i] == q[i - p.len()]);
    }
    if i + 1 < s.len() {
        if i + 1 < p.len() {
            assert(s[i + 1] == p[i + 1]);
        } else {
            assert(s[i + 1] == q[i + 1 - p.len()]);
        }
    }
}

proof fn lemma_mask_prefix<T>(p: Seq<Token<T>>, q: Seq<Token<T>>, i: int)
    requires
        has_no_closer(q),
        0 <= i <= p.len(),
    ensures
        mask_from(p + q, i) == mask_from(p, i) + Seq::new(q.len(), |k: int| true),
    decreases p.len() - i,
{
    let s = p + q;
    let trues = Seq::new(q.len(), |k: int| true);
    if i == p.len() {
        assert forall|j: int| i <= j < s.len() implies #[trigger] span_end(s, j) is None by {
            lemma_span_end_prefix(p, q, j);
        }
        lemma_mask_all_kept(s, i);
        assert(mask_from(p, i) + trues =~= trues);
    } else {
        lemma_span_end_prefix(p, q, i);
        lemma_span_end_bounds(p, i);
        match span_end(p, i) {
            Some(e) => {
                lemma_mask_prefix(p, q, e + 1);
                let falses = Seq::new((e + 1 - i) as nat, |k: int| false);
                assert(falses + (mask_from(p, e + 1) + trues) =~= (falses + mask_from(p, e + 1))
                    + trues);
            },
            None => {
                lemma_mask_prefix(p, q, i + 1);
                assert(seq![true] + (mask_from(p, i + 1) + trues) =~= (seq![true] + mask_from(
                    p,
                    i + 1,
                )) + trues);
            },
        }
    }
}

proof fn lemma_kept_append<T>(p: Seq<Token<T>>, m: Seq<bool>, q: Seq<Token<T>>)
    requires
        m.len() == p.len(),
    ensures
        kept(p + q, m + Seq::new(q.len(), |k: int| true)) == kept(p, m) + q,
    decreases q.len(),
{
    let s = p + q;
    let mm = m + Seq::new(q.len(), |k: int| true);
    if q.len() == 0 {
        assert(s =~= p);
        assert(mm =~= m);
        assert(kept(p, m) + q =~= kept(p, m));
    } else {
        let n = s.len() as int;
        let q1 = q.drop_last();
        lemma_kept_append(p, m, q1);
        assert(s.drop_last() =~= p + q1);
        assert(mm.take(n - 1) =~= m + Seq::new(q1.len(), |k: int| true));
        assert(mm[n - 1]);
        assert((kept(p, m) + q1).push(q.last()) =~= kept(p, m) + q);
    }
}

/// A part without any closer that follows `p` is kept whole, in order, after
/// what is left of `p`: an opener that is never closed removes nothing.
pub proof fn lemma_unclosed_suffix_kept<T>(p: Seq<Token<T>>, q: Seq<Token<T>>)
    requires
        has_no_closer(q),
    ensures
        scrub(p + q) == scrub(p) + q,
{
    lemma_mask_prefix(p, q, 0);
    lemma_mask_len(p, 0);
    lemma_kept_append(p, mask(p), q);
}

} // verus!

use vstd::prelude::*;
use crate::token::Token;

verus! {

/// A split opener starts at `i`: inline text `<` directly followed by inline
/// text that starts with `!--`.
pub open spec fn is_split_opener<T>(s: Seq<Token<T>>, i: int) -> bool {
    0 <= i && i + 1 < s.len() && s[i].is_split_lt() && s[i + 1].is_split_bang()
}

/// The first inline text at or after `j` whose trimmed payload ends with `-->`.
pub open spec fn text_closer_from<T>(s: Seq<Token<T>>, j: int) -> Option<int>
    decreases s.len() - j,
{
    if j < 0 || j >= s.len() {
        None
    } else if s[j] is Text && s[j].is_closer() {
        Some(j)
    } else {
        text_closer_from(s, j + 1)
    }
}

/// The first closer in the run of consecutive markup tokens that begins at `j`.
pub open spec fn html_closer_from<T>(s: Seq<Token<T>>, j: int) -> Option<int>
    decreases s.len() - j,
{
    if j < 0 || j >= s.len() || !s[j].is_markup() {
        None
    } else if s[j].is_closer() {
        Some(j)
    } else {
        html_closer_from(s, j + 1)
    }
}

/// Where the comment that opens at `i` ends, if a comment opens there and is
/// closed; `None` otherwise.
pub open spec fn span_end<T>(s: Seq<Token<T>>, i: int) -> Option<int> {
    if is_split_opener(s, i) {
        if s[i + 1].is_closer() {
            Some(i + 1)
        } else {
            text_closer_from(s, i + 2)
        }
    } else if 0 <= i < s.len() && s[i].is_html_opener() {
        if s[i].is_closer() {
            Some(i)
        } else {
            html_closer_from(s, i + 1)
        }
    } else {
        None
    }
}

/// For each token from position `i` on, whether it stays in the output.
pub open spec fn mask_from<T>(s: Seq<Token<T>>, i: int) -> Seq<bool>
    decreases s.len() - i,
    via mask_from_decreases::<T>
{
    if i < 0 || i >= s.len() {
        Seq::empty()
    } else {
        match span_end(s, i) {
            Some(e) => Seq::new((e + 1 - i) as nat, |k: int| false) + mask_from(s, e + 1),
            None => seq![true] + mask_from(s, i + 1),
        }
    }
}

#[via_fn]
proof fn mask_from_decreases<T>(s: Seq<Token<T>>, i: int) {
    lemma_span_end_bounds(s, i);
}

/// Whether each token of `s` stays in the output.
pub open spec fn mask<T>(s: Seq<Token<T>>) -> Seq<bool> {
    mask_from(s, 0)
}

/// The tokens of `s` whose entry in `m` is `true`, in order.
pub open spec fn kept<T>(s: Seq<Token<T>>, m: Seq<bool>) -> Seq<Token<T>>
    decreases s.len(),
{
    if s.len() == 0 {
        Seq::empty()
    } else {
        let rest = kept(s.drop_last(), m.take(s.len() - 1));
        if m[s.len() - 1] {
            rest.push(s.last())
        } else {
            rest
        }
    }
}

/// The token sequence with every closed comment removed.
pub open spec fn scrub<T>(s: Seq<Token<T>>) -> Seq<Token<T>> {
    kept(s, mask(s))
}

pub(crate) proof fn lemma_text_closer_bounds<T>(s: Seq<Token<T>>, j: int)
    ensures
        text_closer_from(s, j) matches Some(e) ==> j <= e < s.len(),
    decreases s.len() - j,
{
    if 0 <= j < s.len() {
        lemma_text_closer_bounds(s, j + 1);
    }
}

pub(crate) proof fn lemma_html_closer_bounds<T>(s: Seq<Token<T>>, j: int)
    ensures
        html_closer_from(s, j) matches Some(e) ==> j <= e < s.len(),
    decreases s.len() - j,
{
    if 0 <= j < s.len() {
        lemma_html_closer_bounds(s, j + 1);
    }
}

/// A comment that opens at `i` ends at or after `i`, inside `s`.
pub proof fn lemma_span_end_bounds<T>(s: Seq<Token<T>>, i: int)
    ensures
        span_end(s, i) matches Some(e) ==> 0 <= i <= e < s.len(),
{
    lemma_text_closer_bounds(s, i + 2);
    lemma_html_closer_bounds(s, i + 1);
}

fn find_text_closer<T>(tokens: &Vec<Token<T>>, start: usize) -> (r: Option<usize>)
    requires
        start <= tokens.len(),
    ensures
        text_closer_from(tokens@, start as int) == match r {
            Some(j) => Some(j as int),
            None => None::<int>,
        },
{
    let mut j: usize = start;
    while j < tokens.len()
        invariant
            start <= j <= tokens.len(),
            text_closer_from(tokens@, start as int) == text_closer_from(tokens@, j as int),
        decreases tokens.len() - j,
    {
        let t = &tokens[j];
        if let Token::Text(_) = t {
            if t.closer() {
                return Some(j);
            }
        }
        j = j + 1;
    }
    None
}

fn find_html_closer<T>(tokens: &Vec<Token<T>>, start: usize) -> (r: Option<usize>)
    requires
        start <= tokens.len(),
    ensures
        html_closer_from(tokens@, start as int) == match r {
            Some(j) => Some(j as int),
            None => None::<int>,
        },
{
    let mut j: usize = start;
    while j < tokens.len()
        invariant
            start <= j <= tokens.len(),
            html_closer_from(tokens@, start as int) == html_closer_from(tokens@, j as int),
        decreases tokens.len() - j,
    {
        let t = &tokens[j];
        if !t.markup() {
            return None;
        }
        if t.closer() {
            return Some(j);
        }
        j = j + 1;
    }
    None
}

/// Where the comment that opens at `i` ends, if one opens there and is closed.
pub fn find_span_end<T>(tokens: &Vec<Token<T>>, i: usize) -> (r: Option<usize>)
    requires
        i < tokens.len(),
    ensures
        span_end(tokens@, i as int) == match r {
            Some(j) => Some(j as int),
            None => None::<int>,
        },
{
    let t = &tokens[i];
    if i + 1 < tokens.len() && t.split_lt() && tokens[i + 1].split_bang() {
        if tokens[i + 1].closer() {
            Some(i + 1)
        } else {
            find_text_closer(tokens, i + 2)
        }
    } else if t.html_opener() {
        if t.closer() {
            Some(i)
        } else {
            find_html_closer(tokens, i + 1)
        }
    } else {
        None
    }
}

/// Marks each token that stays: `false` for every token of a closed comment.
pub fn comment_mask<T>(tokens: &Vec<Token<T>>) -> (keep: Vec<bool>)
    ensures
        keep@ == mask(tokens@),
        keep.len() == tokens.len(),
{
    let n = tokens.len();
    let mut keep: Vec<bool> = Vec::new();
    let mut i: usize = 0;
    while i < n
        invariant
            n == tokens.len(),
            i <= n,
            keep@ + mask_from(tokens@, i as int) == mask(tokens@),
        decreases n - i,
    {
        let end = find_span_end(tokens, i);
        match end {
            Some(e) => {
                proof {
                    lemma_span_end_bounds(tokens@, i as int);
                }
                let ghost before = keep@;
                let mut k: usize = i;
                while k <= e
                    invariant
                        i <= k <= e + 1,
                        e < n,
                        keep@ =~= before + Seq::new((k - i) as nat, |x: int| false),
                    decreases e + 1 - k,
                {
                    keep.push(false);
                    k = k + 1;
                }
                let ghost falses = Seq::new((e + 1 - i) as nat, |x: int| false);
                assert(mask_from(tokens@, i as int) == falses + mask_from(tokens@, e + 1));
                assert(keep@ + mask_from(tokens@, e + 1) =~= before + mask_from(tokens@, i as int));
                i = e + 1;
            },
            None => {
                let ghost before = keep@;
                keep.push(true);
                assert(keep@ + mask_from(tokens@, i + 1) =~= before + mask_from(tokens@, i as int));
                i = i + 1;
            },
        }
    }
    assert(keep@ =~= keep@ + mask_from(tokens@, n as int));
    proof {
        lemma_mask_len(tokens@, 0);
    }
    keep
}

/// The mask has one entry per token from `i` on.
pub proof fn lemma_mask_len<T>(s: Seq<Token<T>>, i: int)
    requires
        0 <= i <= s.len(),
    ensures
        mask_from(s, i).len() == s.len() - i,
    decreases s.len() - i,
{
    if i < s.len() {
        lemma_span_end_bounds(s, i);
        match span_end(s, i) {
            Some(e) => lemma_mask_len(s, e + 1),
            None => lemma_mask_len(s, i + 1),
        }
    }
}

/// Moves the tokens whose entry in `keep` is `true` into a new vector, in order.
pub fn take_kept<T>(tokens: Vec<Token<T>>, keep: &Vec<bool>) -> (r: Vec<Token<T>>)
    requires
        keep.len() == tokens.len(),
    ensures
        r@ == kept(tokens@, keep@),
{
    let ghost s = tokens@;
    let n = tokens.len();
    let mut tokens = tokens;
    // The tokens, last first, so that popping hands them out in order.
    let mut rev: Vec<Token<T>> = Vec::new();
    while tokens.len() > 0
        invariant
            rev.len() + tokens.len() == n,
            n == s.len(),
            tokens@ =~= s.take(tokens.len() as int),
            forall|k: int| 0 <= k < rev.len() ==> rev@[k] == s[n - 1 - k],
        decreases tokens.len(),
    {
        if let Some(t) = tokens.pop() {
            rev.push(t);
        }
    }
    let mut out: Vec<Token<T>> = Vec::new();
    while rev.len() > 0
        invariant
            rev.len() <= n,
            n == s.len(),
            keep.len() == n,
            forall|k: int| 0 <= k < rev.len() ==> rev@[k] == s[n - 1 - k],
            out@ == kept(s.take(n - rev.len()), keep@.take(n - rev.len())),
        decreases rev.len(),
    {
        if let Some(t) = rev.pop() {
            let i = n - rev.len() - 1;
            if keep[i] {
                out.push(t);
            }
            assert(s.take(i + 1).drop_last() =~= s.take(i as int));
            assert(keep@.take(i + 1).take(i as int) =~= keep@.take(i as int));
        }
    }
    assert(s.take(n as int) =~= s);
    assert(keep@.take(n as int) =~= keep@);
    out
}

/// Removes every closed HTML comment from a token sequence.
///
/// A comment opens either with a raw HTML token that starts with `<!--`, or
/// with inline text `<` directly followed by inline text that starts with
/// `!--`. It is closed by the first token, of the kind that the opener allows,
/// whose payload ends with `-->` once trailing whitespace is trimmed. A closed
/// comment is removed with everything between its opener and its closer; an
/// opener that is never closed stays, and so does all that follows it.
pub fn remove_comment<T>(tokens: Vec<Token<T>>) -> (r: Vec<Token<T>>)
    ensures
        r@ == scrub(tokens@),
        r@.len() <= tokens@.len(),
{
    let keep = comment_mask(&tokens);
    proof {
        lemma_kept_len(tokens@, keep@);
    }
    take_kept(tokens, &keep)
}

/// Keeping some of the tokens never makes the sequence longer.
pub proof fn lemma_kept_len<T>(s: Seq<Token<T>>, m: Seq<bool>)
    ensures
        kept(s, m).len() <= s.len(),
    decreases s.len(),
{
    if s.len() > 0 {
        lemma_kept_len(s.drop_last(), m.take(s.len() - 1));
    }
}

} // verus!

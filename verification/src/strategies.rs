//! The three compression strategies.  All of them work on the token list
//! produced by segmentation; they differ in which tokens are dropped,
//! substituted, or kept verbatim, and Aggressive adds a post-pass that
//! collapses immediately repeated runs of characters.

use vstd::prelude::*;
use crate::lexicon::abbrev_or_self;
use crate::lexicon::balanced_token;
use crate::lexicon::get_abbreviation;
use crate::lexicon::is_key_term;
use crate::lexicon::is_stop_token;
use crate::lexicon::is_stop_word;

verus! {

/// The token list with every stop word removed.
pub open spec fn drop_stops(toks: Seq<Seq<char>>) -> Seq<Seq<char>>
    decreases toks.len(),
{
    if toks.len() == 0 {
        Seq::empty()
    } else if is_stop_token(toks.last()) {
        drop_stops(toks.drop_last())
    } else {
        drop_stops(toks.drop_last()).push(toks.last())
    }
}

/// Every token replaced by its canonical short form where the table has one.
pub open spec fn abbrev_all(toks: Seq<Seq<char>>) -> Seq<Seq<char>>
    decreases toks.len(),
{
    if toks.len() == 0 {
        Seq::empty()
    } else {
        abbrev_all(toks.drop_last()).push(abbrev_or_self(toks.last()))
    }
}

/// Key terms kept verbatim; every other token abbreviated where possible.
pub open spec fn balance_all(toks: Seq<Seq<char>>) -> Seq<Seq<char>>
    decreases toks.len(),
{
    if toks.len() == 0 {
        Seq::empty()
    } else {
        balance_all(toks.drop_last()).push(balanced_token(toks.last()))
    }
}

/// A run of length `l` stands at the front of `s` and is immediately repeated.
pub open spec fn rep_at(s: Seq<char>, l: int) -> bool {
    2 * l <= s.len() && s.subrange(0, l) =~= s.subrange(l, 2 * l)
}

/// The shortest repeated run length at the front of `s` that is at least `l`
/// (and at least two), or zero when no such run exists.
pub open spec fn find_rep(s: Seq<char>, l: int) -> int
    decreases s.len() - l,
{
    if l < 2 || 2 * l > s.len() {
        0
    } else if rep_at(s, l) {
        l
    } else {
        find_rep(s, l + 1)
    }
}

pub proof fn lemma_find_rep_bounds(s: Seq<char>, l: int)
    ensures
        find_rep(s, l) == 0 || (2 <= find_rep(s, l) && l <= find_rep(s, l) && 2 * find_rep(s, l)
            <= s.len() && rep_at(s, find_rep(s, l))),
    decreases s.len() - l,
{
    if l < 2 || 2 * l > s.len() {
    } else if rep_at(s, l) {
    } else {
        lemma_find_rep_bounds(s, l + 1);
    }
}

/// The repeat-collapsing post-pass: scanning left to right, wherever the
/// shortest immediately repeated run of length at least two starts, one copy
/// of that run is removed and the scan resumes at the same place; elsewhere
/// the character is kept and the scan moves on by one.
pub open spec fn collapse(s: Seq<char>) -> Seq<char>
    decreases s.len(),
    via collapse_dec
{
    if s.len() == 0 {
        s
    } else {
        let l = find_rep(s, 2);
        if l == 0 {
            seq![s[0]] + collapse(s.skip(1))
        } else {
            collapse(s.skip(l))
        }
    }
}

#[via_fn]
proof fn collapse_dec(s: Seq<char>) {
    if s.len() > 0 {
        lemma_find_rep_bounds(s, 2);
    }
}

/// What Aggressive produces from a token list.
pub open spec fn aggressive_result(toks: Seq<Seq<char>>) -> Seq<char> {
    collapse(abbrev_all(drop_stops(toks)).flatten())
}

/// What Balanced produces from a token list.
pub open spec fn balanced_result(toks: Seq<Seq<char>>) -> Seq<char> {
    balance_all(toks).flatten()
}

/// What Conservative produces from a token list.
pub open spec fn conservative_result(toks: Seq<Seq<char>>) -> Seq<char> {
    abbrev_all(toks).flatten()
}

fn block_repeats(s: &Vec<char>, i: usize, l: usize) -> (r: bool)
    requires
        i + 2 * l <= s@.len(),
        2 <= l,
    ensures
        r == rep_at(s@.skip(i as int), l as int),
{
    let n = s.len();
    let mut k: usize = 0;
    while k < l
        invariant
            0 <= k <= l,
            2 <= l,
            n == s@.len(),
            i + 2 * l <= n,
            forall|j: int| 0 <= j < k ==> #[trigger] s@[i + j] == s@[i + l + j],
        decreases l - k,
    {
        if s[i + k] != s[i + l + k] {
            proof {
                let sub = s@.skip(i as int);
                assert(sub.subrange(0, l as int)[k as int] == s@[i + k]);
                assert(sub.subrange(l as int, 2 * l)[k as int] == s@[i + l + k]);
            }
            return false;
        }
        k += 1;
    }
    proof {
        let sub = s@.skip(i as int);
        assert forall|j: int| 0 <= j < l implies sub.subrange(0, l as int)[j] == sub.subrange(
            l as int,
            2 * l,
        )[j] by {
            assert(s@[i + j] == s@[i + l + j]);
        }
        assert(sub.subrange(0, l as int) =~= sub.subrange(l as int, 2 * l));
    }
    true
}

fn find_rep_at(s: &Vec<char>, i: usize) -> (l: usize)
    requires
        i <= s@.len(),
    ensures
        l as int == find_rep(s@.skip(i as int), 2),
{
    let n = s.len();
    let mut l: usize = 2;
    while l <= (n - i) / 2
        invariant
            i <= n,
            n == s@.len(),
            2 <= l,
            find_rep(s@.skip(i as int), 2) == find_rep(s@.skip(i as int), l as int),
        decreases n - l,
    {
        if block_repeats(s, i, l) {
            proof {
                assert(s@.skip(i as int).len() == n - i);
                assert(find_rep(s@.skip(i as int), l as int) == l);
            }
            return l;
        }
        proof {
            assert(s@.skip(i as int).len() == n - i);
            assert(find_rep(s@.skip(i as int), l as int) == find_rep(
                s@.skip(i as int),
                l + 1 as int,
            ));
        }
        l += 1;
    }
    proof {
        assert(s@.skip(i as int).len() == n - i);
        assert(2 * l > n - i);
        assert(find_rep(s@.skip(i as int), l as int) == 0);
    }
    0
}

/// Collapses every immediately repeated run of length at least two down to a
/// single occurrence, scanning left to right.
pub fn collapse_repeats(s: &Vec<char>) -> (r: Vec<char>)
    ensures
        r@ == collapse(s@),
{
    let n = s.len();
    let mut out: Vec<char> = Vec::new();
    let mut i: usize = 0;
    proof {
        assert(s@.skip(0) =~= s@);
        assert(Seq::<char>::empty() + collapse(s@) =~= collapse(s@));
    }
    while i < n
        invariant
            0 <= i <= n,
            n == s@.len(),
            collapse(s@) =~= out@ + collapse(s@.skip(i as int)),
        decreases n - i,
    {
        let l = find_rep_at(s, i);
        proof {
            lemma_find_rep_bounds(s@.skip(i as int), 2);
        }
        if l == 0 {
            out.push(s[i]);
            proof {
                assert(s@.skip(i as int).skip(1) =~= s@.skip(i + 1 as int));
                assert(collapse(s@.skip(i as int)) == seq![s@[i as int]] + collapse(
                    s@.skip(i + 1 as int),
                ));
                assert(collapse(s@) =~= out@ + collapse(s@.skip(i + 1 as int)));
            }
            i += 1;
        } else {
            proof {
                assert(s@.skip(i as int).skip(l as int) =~= s@.skip(i + l as int));
                assert(collapse(s@.skip(i as int)) == collapse(s@.skip(i + l as int)));
            }
            i += l;
        }
    }
    proof {
        assert(s@.skip(s@.len() as int) =~= Seq::<char>::empty());
        assert(collapse(s@) =~= out@);
    }
    out
}

/// Joins the tokens that Aggressive keeps, each abbreviated where possible,
/// with no separator; the repeat collapse is applied by the caller.
pub fn aggressive_join(tokens: &Vec<String>) -> (r: String)
    ensures
        r@ == abbrev_all(drop_stops(tokens.deep_view())).flatten(),
{
    let ghost dv = tokens.deep_view();
    let mut out = String::new();
    let mut i: usize = 0;
    while i < tokens.len()
        invariant
            0 <= i <= tokens@.len(),
            dv == tokens.deep_view(),
            dv.len() == tokens@.len(),
            out@ =~= abbrev_all(drop_stops(dv.take(i as int))).flatten(),
        decreases tokens@.len() - i,
    {
        let tok = &tokens[i];
        proof {
            assert(dv[i as int] == tokens@[i as int]@);
            assert(dv.take(i + 1 as int).drop_last() =~= dv.take(i as int));
            assert(dv.take(i + 1 as int).last() == dv[i as int]);
        }
        if !is_stop_word(tok.as_str()) {
            match get_abbreviation(tok.as_str()) {
                Some(a) => out.append(a.as_str()),
                None => out.append(tok.as_str()),
            }
            proof {
                assert(drop_stops(dv.take(i + 1 as int)) =~= drop_stops(dv.take(i as int)).push(
                    dv[i as int],
                ));
                assert(drop_stops(dv.take(i as int)).push(dv[i as int]).drop_last() =~= drop_stops(
                    dv.take(i as int),
                ));
                assert(abbrev_all(drop_stops(dv.take(i + 1 as int))) =~= abbrev_all(
                    drop_stops(dv.take(i as int)),
                ).push(abbrev_or_self(dv[i as int])));
                abbrev_all(drop_stops(dv.take(i as int))).lemma_flatten_push(
                    abbrev_or_self(dv[i as int]),
                );
                assert(out@ =~= abbrev_all(drop_stops(dv.take(i + 1 as int))).flatten());
            }
        } else {
            proof {
                assert(drop_stops(dv.take(i + 1 as int)) =~= drop_stops(dv.take(i as int)));
            }
        }
        i += 1;
    }
    proof {
        assert(dv.take(dv.len() as int) =~= dv);
    }
    out
}

/// Joins the tokens under the Balanced policy with no separator.
pub fn balanced_join(tokens: &Vec<String>) -> (r: String)
    ensures
        r@ == balanced_result(tokens.deep_view()),
{
    let ghost dv = tokens.deep_view();
    let mut out = String::new();
    let mut i: usize = 0;
    while i < tokens.len()
        invariant
            0 <= i <= tokens@.len(),
            dv == tokens.deep_view(),
            dv.len() == tokens@.len(),
            out@ =~= balance_all(dv.take(i as int)).flatten(),
        decreases tokens@.len() - i,
    {
        let tok = &tokens[i];
        proof {
            assert(dv[i as int] == tokens@[i as int]@);
            assert(dv.take(i + 1 as int).drop_last() =~= dv.take(i as int));
            assert(dv.take(i + 1 as int).last() == dv[i as int]);
        }
        if is_key_term(tok.as_str()) {
            out.append(tok.as_str());
        } else {
            match get_abbreviation(tok.as_str()) {
                Some(a) => out.append(a.as_str()),
                None => out.append(tok.as_str()),
            }
        }
        proof {
            assert(balance_all(dv.take(i + 1 as int)) =~= balance_all(dv.take(i as int)).push(
                balanced_token(dv[i as int]),
            ));
            balance_all(dv.take(i as int)).lemma_flatten_push(balanced_token(dv[i as int]));
            assert(out@ =~= balance_all(dv.take(i + 1 as int)).flatten());
        }
        i += 1;
    }
    proof {
        assert(dv.take(dv.len() as int) =~= dv);
    }
    out
}

/// Joins the tokens under the Conservative policy with no separator.
pub fn conservative_join(tokens: &Vec<String>) -> (r: String)
    ensures
        r@ == conservative_result(tokens.deep_view()),
{
    let ghost dv = tokens.deep_view();
    let mut out = String::new();
    let mut i: usize = 0;
    while i < tokens.len()
        invariant
            0 <= i <= tokens@.len(),
            dv == tokens.deep_view(),
            dv.len() == tokens@.len(),
            out@ =~= abbrev_all(dv.take(i as int)).flatten(),
        decreases tokens@.len() - i,
    {
        let tok = &tokens[i];
        proof {
            assert(dv[i as int] == tokens@[i as int]@);
            assert(dv.take(i + 1 as int).drop_last() =~= dv.take(i as int));
            assert(dv.take(i + 1 as int).last() == dv[i as int]);
        }
        match get_abbreviation(tok.as_str()) {
            Some(a) => out.append(a.as_str()),
            None => out.append(tok.as_str()),
        }
        proof {
            assert(abbrev_all(dv.take(i + 1 as int)) =~= abbrev_all(dv.take(i as int)).push(
                abbrev_or_self(dv[i as int]),
            ));
            abbrev_all(dv.take(i as int)).lemma_flatten_push(abbrev_or_self(dv[i as int]));
            assert(out@ =~= abbrev_all(dv.take(i + 1 as int)).flatten());
        }
        i += 1;
    }
    proof {
        assert(dv.take(dv.len() as int) =~= dv);
    }
    out
}

} // verus!

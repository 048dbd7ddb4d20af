//! Positional edit scripts between two texts, and their replay.  The script
//! itself comes from an outside longest-common-subsequence diff; replaying
//! it and measuring its size are verified here.

use vstd::prelude::*;
use crate::text::string_of_chars;

verus! {

/// One step of a character-level edit script.
#[derive(Clone, Copy, Debug)]
pub enum EditOp {
    /// The character is present in both texts.
    Keep(char),
    /// The character is present only in the old text.
    Remove(char),
    /// The character is present only in the new text.
    Insert(char),
}

/// The old text spelled by an edit script: kept and removed characters.
pub open spec fn edits_old(es: Seq<EditOp>) -> Seq<char>
    decreases es.len(),
{
    if es.len() == 0 {
        Seq::empty()
    } else {
        let rest = edits_old(es.drop_first());
        match es.first() {
            EditOp::Keep(c) => seq![c] + rest,
            EditOp::Remove(c) => seq![c] + rest,
            EditOp::Insert(_) => rest,
        }
    }
}

/// The new text spelled by an edit script: kept and inserted characters.
pub open spec fn edits_new(es: Seq<EditOp>) -> Seq<char>
    decreases es.len(),
{
    if es.len() == 0 {
        Seq::empty()
    } else {
        let rest = edits_new(es.drop_first());
        match es.first() {
            EditOp::Keep(c) => seq![c] + rest,
            EditOp::Remove(_) => rest,
            EditOp::Insert(c) => seq![c] + rest,
        }
    }
}

/// The size of an edit script: the number of steps that change something.
pub open spec fn edit_size(es: Seq<EditOp>) -> nat
    decreases es.len(),
{
    if es.len() == 0 {
        0
    } else {
        (match es.first() {
            EditOp::Keep(_) => 0nat,
            EditOp::Remove(_) => 1nat,
            EditOp::Insert(_) => 1nat,
        }) + edit_size(es.drop_first())
    }
}

/// Names the edit distance that the outside diff computes between two
/// texts: a function of the two texts alone.
pub uninterp spec fn char_edit_distance(old_text: Seq<char>, new_text: Seq<char>) -> nat;

/// Relies on diff::chars: a character-level longest-common-subsequence edit
/// script between the two texts.  Characters present in both texts are kept
/// steps, characters only in the old text are removals, characters only in
/// the new text are insertions; reading the kept and removed characters in
/// order spells the old text, and the kept and inserted ones the new text.
/// The number of changing steps is a function of the two texts alone.
#[verifier::external_body]
pub fn char_diff(old_text: &str, new_text: &str) -> (r: Vec<EditOp>)
    ensures
        edits_old(r@) == old_text@,
        edits_new(r@) == new_text@,
        edit_size(r@) == char_edit_distance(old_text@, new_text@),
{
    diff::chars(old_text, new_text)
        .into_iter()
        .map(|d| match d {
            diff::Result::Left(c) => EditOp::Remove(c),
            diff::Result::Both(c, _) => EditOp::Keep(c),
            diff::Result::Right(c) => EditOp::Insert(c),
        })
        .collect()
}

/// Counts the changing steps of an edit script.
pub fn count_edit_size(edits: &Vec<EditOp>) -> (r: usize)
    ensures
        r == edit_size(edits@),
{
    let n = edits.len();
    let mut acc: usize = 0;
    let mut i: usize = 0;
    proof {
        assert(edits@.skip(0) =~= edits@);
    }
    while i < n
        invariant
            0 <= i <= n,
            n == edits@.len(),
            acc <= i,
            edit_size(edits@) == acc + edit_size(edits@.skip(i as int)),
        decreases n - i,
    {
        proof {
            assert(edits@.skip(i as int).first() == edits@[i as int]);
            assert(edits@.skip(i as int).drop_first() =~= edits@.skip(i + 1 as int));
        }
        match edits[i] {
            EditOp::Keep(_) => {},
            EditOp::Remove(_) => {
                acc += 1;
            },
            EditOp::Insert(_) => {
                acc += 1;
            },
        }
        i += 1;
    }
    proof {
        assert(edits@.skip(n as int) =~= Seq::<EditOp>::empty());
    }
    acc
}

/// Replays an edit script, producing the new text it spells.
pub fn apply_edits(edits: &Vec<EditOp>) -> (r: String)
    ensures
        r@ == edits_new(edits@),
{
    let n = edits.len();
    let mut out: Vec<char> = Vec::new();
    let mut i: usize = 0;
    proof {
        assert(edits@.skip(0) =~= edits@);
    }
    while i < n
        invariant
            0 <= i <= n,
            n == edits@.len(),
            edits_new(edits@) =~= out@ + edits_new(edits@.skip(i as int)),
        decreases n - i,
    {
        proof {
            assert(edits@.skip(i as int).first() == edits@[i as int]);
            assert(edits@.skip(i as int).drop_first() =~= edits@.skip(i + 1 as int));
        }
        match edits[i] {
            EditOp::Keep(c) => {
                out.push(c);
            },
            EditOp::Remove(_) => {},
            EditOp::Insert(c) => {
                out.push(c);
            },
        }
        i += 1;
    }
    proof {
        assert(edits@.skip(n as int) =~= Seq::<EditOp>::empty());
        assert(out@ =~= edits_new(edits@));
    }
    string_of_chars(&out)
}

} // verus!

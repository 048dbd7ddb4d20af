//! The fixed lexicon: the stop-word set, the abbreviation table, and the
//! key-term classification used by the Balanced strategy.

use vstd::prelude::*;

verus! {

/// A stop word is a single low-information function word.
pub open spec fn stop_char(c: char) -> bool {
    c == '的' || c == '了' || c == '着' || c == '来' || c == '去' || c == '把'
}

/// A token is a stop word when it is exactly one of the stop characters.
pub open spec fn is_stop_token(tok: Seq<char>) -> bool {
    tok.len() == 1 && stop_char(tok[0])
}

/// The canonical short form of a token, when the abbreviation table has one.
pub open spec fn abbrev_token(tok: Seq<char>) -> Option<Seq<char>> {
    if tok =~= seq!['人', '工', '智', '能'] {
        Some(seq!['A', 'I'])
    } else if tok =~= seq!['机', '器', '学', '习'] {
        Some(seq!['M', 'L'])
    } else {
        None
    }
}

/// What a token becomes once the abbreviation table has been consulted:
/// its canonical short form when the table has one, the token itself otherwise.
pub open spec fn abbrev_or_self(tok: Seq<char>) -> Seq<char> {
    match abbrev_token(tok) {
        Some(a) => a,
        None => tok,
    }
}

/// Every abbreviation in the table is no longer than the token it stands for.
pub proof fn lemma_abbrev_no_longer(tok: Seq<char>)
    ensures
        abbrev_or_self(tok).len() <= tok.len(),
{
}

/// Names what `char::is_numeric` returns: a classification that depends on
/// the character alone.
pub uninterp spec fn numeric_char(c: char) -> bool;

/// Relies on char::is_numeric: whether the character is in a numeric
/// Unicode category, a function of the character alone.
pub assume_specification[ char::is_numeric ](c: char) -> (r: bool)
    ensures
        r == numeric_char(c),
;

/// A key term passes through the Balanced strategy unchanged: a token of
/// more than two characters, or one containing a numeric character.
pub open spec fn is_key_token(tok: Seq<char>) -> bool {
    tok.len() > 2 || exists|i: int| 0 <= i < tok.len() && numeric_char(tok[i])
}

/// What a token becomes under the Balanced policy: key terms pass through
/// unchanged, every other token is abbreviated where the table allows.
pub open spec fn balanced_token(tok: Seq<char>) -> Seq<char> {
    if is_key_token(tok) {
        tok
    } else {
        abbrev_or_self(tok)
    }
}

/// Whether the token is in the stop-word set.
pub fn is_stop_word(word: &str) -> (r: bool)
    ensures
        r == is_stop_token(word@),
{
    let n = word.unicode_len();
    if n != 1 {
        return false;
    }
    let c = word.get_char(0);
    c == '的' || c == '了' || c == '着' || c == '来' || c == '去' || c == '把'
}

/// Looks the token up in the abbreviation table.
pub fn get_abbreviation(word: &str) -> (r: Option<String>)
    ensures
        r.deep_view() == abbrev_token(word@),
{
    let n = word.unicode_len();
    if n != 4 {
        return None;
    }
    let c0 = word.get_char(0);
    let c1 = word.get_char(1);
    let c2 = word.get_char(2);
    let c3 = word.get_char(3);
    proof {
        assert(word@ =~= seq![word@[0], word@[1], word@[2], word@[3]]);
    }
    if c0 == '人' && c1 == '工' && c2 == '智' && c3 == '能' {
        let a = String::from_str("AI");
        proof {
            reveal_strlit("AI");
            assert(a@ =~= seq!['A', 'I']);
        }
        Some(a)
    } else if c0 == '机' && c1 == '器' && c2 == '学' && c3 == '习' {
        let a = String::from_str("ML");
        proof {
            reveal_strlit("ML");
            assert(a@ =~= seq!['M', 'L']);
        }
        Some(a)
    } else {
        None
    }
}

/// Whether the token is a key term.
pub fn is_key_term(word: &str) -> (r: bool)
    ensures
        r == is_key_token(word@),
{
    let n = word.unicode_len();
    if n > 2 {
        return true;
    }
    let mut i: usize = 0;
    while i < n
        invariant
            n == word@.len(),
            0 <= i <= n,
            forall|j: int| 0 <= j < i ==> !numeric_char(word@[j]),
        decreases n - i,
    {
        let c = word.get_char(i);
        if c.is_numeric() {
            return true;
        }
        i += 1;
    }
    false
}

} // verus!

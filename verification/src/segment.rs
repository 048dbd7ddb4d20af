//! Search-mode word segmentation, provided by an outside dictionary-based
//! segmentation engine.

use vstd::prelude::*;

verus! {

/// Names the token list that search-mode segmentation with the bundled
/// default dictionary produces for a text: a function of the characters
/// alone.
pub uninterp spec fn segments_of(text: Seq<char>) -> Seq<Seq<char>>;

/// Relies on jieba_rs::Jieba::cut_for_search (with the default dictionary
/// and the statistical model enabled): cuts the text into search-mode
/// tokens, a function of the text alone.
#[verifier::external_body]
pub fn segment(text: &str) -> (r: Vec<String>)
    ensures
        r.deep_view() == segments_of(text@),
{
    let jieba = jieba_rs::Jieba::new();
    jieba.cut_for_search(text, true).into_iter().map(|t| t.word.to_string()).collect()
}

} // verus!

//! Single-file transfer agent for the IRC-based XDCC/DCC convention.
//!
//! The heart of the crate is the downloader: a line framer and protocol
//! state machine over the IRC control connection, a strict parser for
//! DCC-SEND offer lines with two address encodings, and per-file transfer
//! accounting.  Around it sit the finder (catalog search data model) and
//! the search-history autocompleter.
use vstd::prelude::*;

pub mod autocompleter;
pub mod digits;
pub mod downloader;
pub mod finder;
pub mod text;

verus! {

/// True when every whitespace-separated word of `words` occurs, case
/// folded, inside the case-folded `entry`.
pub fn filter(words: &str, entry: &str) -> (r: bool)
    ensures
        r == crate::text::words_all_contained(
            crate::text::lower_of(words@),
            crate::text::lower_of(entry@),
        ),
{
    let entry_lower = crate::text::lowercase(entry);
    let words_lower = crate::text::lowercase(words);
    let word_list = crate::text::split_whitespace(words_lower.as_str());
    let r = crate::text::all_contained(&word_list, entry_lower.as_str());
    proof {
        let le = crate::text::lower_of(entry@);
        let ws = crate::text::split_ws(crate::text::lower_of(words@));
        assert(word_list.deep_view() == ws);
        assert(word_list@.len() == ws.len());
        assert forall|k: int| 0 <= k < ws.len() implies word_list@[k]@ == ws[k] by {
            assert(word_list.deep_view()[k] == word_list@[k]@);
        }
        if r {
            assert forall|k: int| 0 <= k < ws.len() implies crate::text::contains_sub(
                le,
                ws[k],
            ) by {
                assert(crate::text::contains_sub(le, word_list@[k]@));
            }
        } else {
            let k = choose|k: int|
                0 <= k < word_list@.len() && !crate::text::contains_sub(le, word_list@[k]@);
            assert(!crate::text::contains_sub(le, ws[k]));
        }
    }
    r
}

} // verus!

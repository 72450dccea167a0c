//! Splitting an input line into `;`-chained commands and `|`-separated
//! pipeline stages.

use vstd::prelude::*;
use crate::text::{law_split_count, occurrences, lemma_non_empty_members, lemma_split_pieces_lack_sep, lemma_trim_idempotent, lemma_trim_shape, non_empty, split_seq, split_trimmed, str_views, trim_each, trim_seq};

verus! {

/// The commands of a `;`-chained line: the pieces between the semicolons,
/// trimmed, with the empty ones left out.
pub open spec fn chained(input: Seq<char>) -> Seq<Seq<char>> {
    non_empty(trim_each(split_seq(input, ';')))
}

/// The stages of a `|` pipeline: the pieces between the bars, trimmed.
pub open spec fn piped(input: Seq<char>) -> Seq<Seq<char>> {
    trim_each(split_seq(input, '|'))
}

/// Splits `input` at `;` into the commands to run in turn. Every command
/// returned is non-empty, trimmed and free of `;`.
pub fn chain_commands(input: &str) -> (r: Vec<&str>)
    ensures
        str_views(r@) == chained(input@),
        forall|i: int|
            0 <= i < r@.len() ==> {
                &&& (#[trigger] r@[i])@.len() > 0
                &&& !r@[i]@.contains(';')
                &&& trim_seq(r@[i]@) == r@[i]@
            },
{
    let r = split_trimmed(input, ';', false);
    proof {
        let ps = split_seq(input@, ';');
        let t = trim_each(ps);
        lemma_split_pieces_lack_sep(input@, ';');
        lemma_non_empty_members(t);
        assert forall|i: int| 0 <= i < r@.len() implies {
            &&& (#[trigger] r@[i])@.len() > 0
            &&& !r@[i]@.contains(';')
            &&& trim_seq(r@[i]@) == r@[i]@
        } by {
            assert(str_views(r@)[i] == r@[i]@);
            let x = non_empty(t)[i];
            assert(t.contains(x));
            let j = choose|j: int| 0 <= j < t.len() && t[j] == x;
            assert(x == trim_seq(ps[j]));
            lemma_trim_shape(ps[j]);
            lemma_trim_idempotent(ps[j]);
        }
    }
    r
}

/// Splits `input` at `|` into pipeline stages, each trimmed; empty stages
/// are kept. Every stage returned is trimmed and free of `|`.
pub fn parse_pipes(input: &str) -> (r: Vec<&str>)
    ensures
        str_views(r@) == piped(input@),
        r@.len() == occurrences(input@, '|') + 1,
        forall|i: int|
            0 <= i < r@.len() ==> {
                &&& !(#[trigger] r@[i])@.contains('|')
                &&& trim_seq(r@[i]@) == r@[i]@
            },
{
    let r = split_trimmed(input, '|', true);
    proof {
        let ps = split_seq(input@, '|');
        lemma_split_pieces_lack_sep(input@, '|');
        law_split_count(input@, '|');
        assert(str_views(r@).len() == r@.len());
        assert forall|i: int| 0 <= i < r@.len() implies {
            &&& !(#[trigger] r@[i])@.contains('|')
            &&& trim_seq(r@[i]@) == r@[i]@
        } by {
            assert(str_views(r@)[i] == r@[i]@);
            lemma_trim_shape(ps[i]);
            lemma_trim_idempotent(ps[i]);
        }
    }
    r
}

} // verus!

//! Ranked text search over procurements.

use crate::procurements::Procurement;
use crate::sorting::{is_stable_order, stable_order, uniform, values_of, KeyValue, SortValue};
use crate::text::{
    chars_blank, chars_contain, chars_of, chars_start_with, contains, is_blank, lowercase,
    lowercase_chars, split_words, starts_with, str_or_empty, text_or_empty, texts_of, words,
};
use vstd::prelude::*;

verus! {

/// A record found by a search, with its relevance.
#[derive(Clone, Copy, Debug, PartialEq, Eq)]
pub struct SearchHit {
    pub id: i64,
    pub score: u128,
}

/// What one word adds to the score of a record with these four texts: 10
/// where the title holds it and 5 more where the title begins with it, 5
/// for the city, 3 for the organizer, 2 for the description.
pub open spec fn text_word_score(
    title: Seq<char>,
    city: Seq<char>,
    organizer: Seq<char>,
    description: Seq<char>,
    word: Seq<char>,
) -> nat {
    let in_title: nat = if contains(title, word) {
        if starts_with(title, word) {
            15
        } else {
            10
        }
    } else {
        0
    };
    let in_city: nat = if contains(city, word) {
        5
    } else {
        0
    };
    let in_organizer: nat = if contains(organizer, word) {
        3
    } else {
        0
    };
    let in_description: nat = if contains(description, word) {
        2
    } else {
        0
    };
    in_title + in_city + in_organizer + in_description
}

/// The score of a record with these four texts for a list of words: the
/// sum over the words.
pub open spec fn texts_score(
    title: Seq<char>,
    city: Seq<char>,
    organizer: Seq<char>,
    description: Seq<char>,
    query_words: Seq<Seq<char>>,
) -> nat
    decreases query_words.len(),
{
    if query_words.len() == 0 {
        0
    } else {
        texts_score(title, city, organizer, description, query_words.drop_last())
            + text_word_score(title, city, organizer, description, query_words.last())
    }
}

/// What one word of the query adds to the score of a record. The texts of
/// the record are compared in lower case.
pub open spec fn word_score(p: Procurement, word: Seq<char>) -> nat {
    text_word_score(
        lowercase(p.title@),
        lowercase(text_or_empty(p.city)),
        lowercase(text_or_empty(p.organizer_name)),
        lowercase(text_or_empty(p.description)),
        word,
    )
}

/// The score of a record for a list of words.
pub open spec fn record_score(p: Procurement, query_words: Seq<Seq<char>>) -> nat {
    texts_score(
        lowercase(p.title@),
        lowercase(text_or_empty(p.city)),
        lowercase(text_or_empty(p.organizer_name)),
        lowercase(text_or_empty(p.description)),
        query_words,
    )
}

/// The words of a query: it is put in lower case and split at white space.
pub open spec fn query_words(query: Seq<char>) -> Seq<Seq<char>> {
    words(lowercase(query))
}

/// Id and score of those among the first `n` scored records that score
/// above zero, in their order.
pub open spec fn positive(scored: Seq<SearchHit>, n: int) -> Seq<(i64, nat)>
    decreases n,
{
    if n <= 0 {
        Seq::empty()
    } else {
        let before = positive(scored, n - 1);
        if scored[n - 1].score > 0 {
            before.push((scored[n - 1].id, scored[n - 1].score as nat))
        } else {
            before
        }
    }
}

/// Id and score of those among the first `n` records that score above zero,
/// in the order of the records.
pub open spec fn candidates(procurements: Seq<Procurement>, query_words: Seq<Seq<char>>, n: int) -> Seq<
    (i64, nat),
>
    decreases n,
{
    if n <= 0 {
        Seq::empty()
    } else {
        let before = candidates(procurements, query_words, n - 1);
        let score = record_score(procurements[n - 1], query_words);
        if score > 0 {
            before.push((procurements[n - 1].id, score))
        } else {
            before
        }
    }
}

/// The scores of a list of candidates as sort values.
pub open spec fn score_values(found: Seq<(i64, nat)>) -> Seq<SortValue> {
    Seq::new(found.len(), |i: int| SortValue::Number(found[i].1 as int))
}

/// `hits` are the candidates `found`, sorted by score from high to low,
/// equal scores in the order of `found`.
pub open spec fn is_ranking_of(hits: Seq<SearchHit>, found: Seq<(i64, nat)>) -> bool {
    exists|order: Seq<usize>|
        {
            &&& #[trigger] is_stable_order(order, score_values(found), true)
            &&& hits.len() == found.len()
            &&& forall|i: int|
                0 <= i < hits.len() ==> (#[trigger] hits[i]).id == found[order[i] as int].0
                    && hits[i].score == found[order[i] as int].1
        }
}

/// One more word never lowers a score: it adds what the word scores, which
/// is nothing where the word occurs in none of the four texts searched.
pub proof fn lemma_score_grows_with_words(p: Procurement, query_words: Seq<Seq<char>>, word: Seq<char>)
    ensures
        record_score(p, query_words.push(word)) == record_score(p, query_words) + word_score(
            p,
            word,
        ),
        record_score(p, query_words.push(word)) >= record_score(p, query_words),
        !contains(lowercase(p.title@), word) && !contains(lowercase(text_or_empty(p.city)), word)
            && !contains(lowercase(text_or_empty(p.organizer_name)), word) && !contains(
            lowercase(text_or_empty(p.description)),
            word,
        ) ==> record_score(p, query_words.push(word)) == record_score(p, query_words),
{
    assert(query_words.push(word).drop_last() =~= query_words);
}

/// Scores four texts of a record against the words of a query. Texts and
/// words are compared as they are.
pub fn score_texts(
    title: &Vec<char>,
    city: &Vec<char>,
    organizer: &Vec<char>,
    description: &Vec<char>,
    query: &Vec<Vec<char>>,
) -> (score: u128)
    ensures
        score == texts_score(title@, city@, organizer@, description@, texts_of(query@)),
        score <= 25 * query.len(),
{
    let ghost all = texts_of(query@);
    let mut score: u128 = 0;
    let mut j: usize = 0;
    while j < query.len()
        invariant
            j <= query.len(),
            all == texts_of(query@),
            score == texts_score(title@, city@, organizer@, description@, all.take(j as int)),
            score <= 25 * j,
        decreases query.len() - j,
    {
        let word = &query[j];
        proof {
            assert(all.take(j + 1).drop_last() =~= all.take(j as int));
            assert(all.take(j + 1).last() == word@);
        }
        if chars_contain(title, word) {
            score = score + 10;
            if chars_start_with(title, word) {
                score = score + 5;
            }
        }
        if chars_contain(city, word) {
            score = score + 5;
        }
        if chars_contain(organizer, word) {
            score = score + 3;
        }
        if chars_contain(description, word) {
            score = score + 2;
        }
        j += 1;
    }
    assert(all.take(query.len() as int) =~= all);
    score
}

/// Ranks scored records: those that score nothing are left out, and the
/// others come by score from high to low, equal scores in the order given.
pub fn rank_hits(scored: &Vec<SearchHit>) -> (hits: Vec<SearchHit>)
    ensures
        is_ranking_of(hits@, positive(scored@, scored.len() as int)),
{
    let mut found: Vec<SearchHit> = Vec::new();
    let mut keys: Vec<KeyValue> = Vec::new();
    let mut i: usize = 0;
    while i < scored.len()
        invariant
            i <= scored.len(),
            found.len() == keys.len(),
            found.len() == positive(scored@, i as int).len(),
            forall|k: int|
                0 <= k < found.len() ==> (#[trigger] found[k]).id == positive(scored@, i as int)[k].0
                    && found[k].score == positive(scored@, i as int)[k].1 && keys[k]@
                    == SortValue::Number(found[k].score as int),
        decreases scored.len() - i,
    {
        let one = scored[i];
        let ghost before = positive(scored@, i as int);
        let ghost after = positive(scored@, i + 1);
        if one.score > 0 {
            found.push(one);
            keys.push(KeyValue::Count(one.score));
            assert(after == before.push((one.id, one.score as nat)));
            assert forall|k: int| 0 <= k < found.len() implies (#[trigger] found[k]).id
                == after[k].0 && found[k].score == after[k].1 && keys[k]@ == SortValue::Number(
                found[k].score as int,
            ) by {
                if k < before.len() {
                    assert(after[k] == before[k]);
                }
            }
        } else {
            assert(after == before);
        }
        i += 1;
    }
    let ghost wanted = positive(scored@, scored.len() as int);
    assert(values_of(keys@) =~= score_values(wanted)) by {
        assert forall|k: int| 0 <= k < keys.len() implies values_of(keys@)[k] == score_values(
            wanted,
        )[k] by {
            assert(found[k].score == wanted[k].1);
        }
    }
    assert(uniform(values_of(keys@)));
    let order = stable_order(&keys, true);
    let mut hits: Vec<SearchHit> = Vec::new();
    let mut k: usize = 0;
    while k < order.len()
        invariant
            k <= order.len(),
            hits.len() == k,
            order.len() == found.len(),
            found.len() == wanted.len(),
            is_stable_order(order@, score_values(wanted), true),
            forall|m: int|
                0 <= m < found.len() ==> (#[trigger] found[m]).id == wanted[m].0 && found[m].score
                    == wanted[m].1,
            forall|m: int|
                0 <= m < k ==> (#[trigger] hits[m]).id == wanted[order[m] as int].0
                    && hits[m].score == wanted[order[m] as int].1,
        decreases order.len() - k,
    {
        let at = order[k];
        assert((order@[k as int] as int) < found.len());
        hits.push(found[at]);
        k += 1;
    }
    assert(is_ranking_of(hits@, wanted));
    hits
}

fn score_of(p: &Procurement, query: &Vec<Vec<char>>) -> (score: u128)
    ensures
        score == record_score(*p, texts_of(query@)),
        score <= 25 * query.len(),
{
    let title = lowercase_chars(p.title.as_str());
    let description = lowercase_chars(str_or_empty(&p.description));
    let city = lowercase_chars(str_or_empty(&p.city));
    let organizer = lowercase_chars(str_or_empty(&p.organizer_name));
    score_texts(&title, &city, &organizer, &description, query)
}

proof fn lemma_scored_candidates(
    scored: Seq<SearchHit>,
    procurements: Seq<Procurement>,
    query_words: Seq<Seq<char>>,
    n: int,
)
    requires
        0 <= n <= procurements.len(),
        scored.len() == procurements.len(),
        forall|i: int|
            0 <= i < scored.len() ==> (#[trigger] scored[i]).id == procurements[i].id
                && scored[i].score == record_score(procurements[i], query_words),
    ensures
        positive(scored, n) == candidates(procurements, query_words, n),
    decreases n,
{
    if n > 0 {
        lemma_scored_candidates(scored, procurements, query_words, n - 1);
        assert(scored[n - 1].score == record_score(procurements[n - 1], query_words));
    }
}

/// Searches the records for the words of `query` and ranks what it finds.
/// Each record scores the sum of what every word of the query adds; records
/// that score nothing are left out, and the others come by score from high
/// to low, equal scores in the order of the records. A query of nothing but
/// white space finds nothing.
pub fn search_procurements(procurements: &Vec<Procurement>, query: &str) -> (hits: Vec<SearchHit>)
    ensures
        is_blank(query@) ==> hits.len() == 0,
        !is_blank(query@) ==> is_ranking_of(
            hits@,
            candidates(procurements@, query_words(query@), procurements.len() as int),
        ),
{
    let query_chars = chars_of(query);
    if chars_blank(&query_chars) {
        return Vec::new();
    }
    let lower = lowercase_chars(query);
    let query_list = split_words(&lower);
    let ghost all = query_words(query@);
    let mut scored: Vec<SearchHit> = Vec::new();
    let mut i: usize = 0;
    while i < procurements.len()
        invariant
            i <= procurements.len(),
            all == texts_of(query_list@),
            scored.len() == i,
            forall|k: int|
                0 <= k < i ==> (#[trigger] scored[k]).id == procurements[k].id && scored[k].score
                    == record_score(procurements[k], all),
        decreases procurements.len() - i,
    {
        let p = &procurements[i];
        let score = score_of(p, &query_list);
        scored.push(SearchHit { id: p.id, score });
        i += 1;
    }
    proof {
        lemma_scored_candidates(scored@, procurements@, all, procurements.len() as int);
    }
    rank_hits(&scored)
}

} // verus!

//! Ranking: candidates in descending order of frequency score, those of one
//! score in the order in which they were found.

use vstd::prelude::*;
use crate::collector::{distinct_keys, has_key};
use crate::words::{views, Candidate, WordFrequencyWithPitch};

verus! {

/// No candidate of `s` scores higher than one before it.
pub open spec fn sorted_by_score(s: Seq<Candidate>) -> bool {
    forall|i: int, j: int|
        0 <= i < j < s.len() ==> (#[trigger] s[i]).frequency_score >= (
        #[trigger] s[j]).frequency_score
}

/// The first position at or behind `k` whose candidate does not score higher
/// than `score`; the length of `s` where every candidate from `k` on does.
pub open spec fn rank_position(s: Seq<Candidate>, score: nat, k: int) -> int
    decreases s.len() - k,
{
    if 0 <= k < s.len() && s[k].frequency_score > score {
        rank_position(s, score, k + 1)
    } else {
        k
    }
}

/// `s` with `c` put behind the candidates that score higher than `c`, and
/// before all others.
pub open spec fn with_ranked(s: Seq<Candidate>, c: Candidate) -> Seq<Candidate> {
    s.insert(rank_position(s, c.frequency_score, 0), c)
}

/// The candidates of `s` from position `from` on, ranked: each one, from the
/// last to the first, is put into the ranking of those behind it.
pub open spec fn ranked_from(s: Seq<Candidate>, from: int) -> Seq<Candidate>
    decreases s.len() - from,
{
    if from < 0 || from >= s.len() {
        Seq::empty()
    } else {
        with_ranked(ranked_from(s, from + 1), s[from])
    }
}

/// The candidates of `s` in descending order of score. A candidate stands
/// before every candidate that was found later and scores no higher.
pub open spec fn ranked(s: Seq<Candidate>) -> Seq<Candidate> {
    ranked_from(s, 0)
}

/// Where `rank_position` lands: behind the candidates from `k` on that score
/// higher than `score`, at a candidate that does not.
pub proof fn lemma_rank_position(s: Seq<Candidate>, score: nat, k: int)
    requires
        0 <= k <= s.len(),
    ensures
        k <= rank_position(s, score, k) <= s.len(),
        forall|i: int|
            k <= i < rank_position(s, score, k) ==> (#[trigger] s[i]).frequency_score > score,
        rank_position(s, score, k) < s.len() ==> s[rank_position(s, score, k)].frequency_score
            <= score,
    decreases s.len() - k,
{
    if k < s.len() && s[k].frequency_score > score {
        lemma_rank_position(s, score, k + 1);
    }
}

/// Putting a candidate into a ranking keeps it sorted, keeps what it held and
/// adds the candidate, and keeps the keys distinct where the candidate's key
/// is new.
pub proof fn lemma_with_ranked(s: Seq<Candidate>, c: Candidate)
    ensures
        with_ranked(s, c).len() == s.len() + 1,
        sorted_by_score(s) ==> sorted_by_score(with_ranked(s, c)),
        with_ranked(s, c).to_multiset() == s.to_multiset().insert(c),
        distinct_keys(s) && !has_key(s, c.text, c.reading) ==> distinct_keys(with_ranked(s, c)),
        forall|text: Seq<char>, reading: Seq<char>|
            has_key(with_ranked(s, c), text, reading) <==> has_key(s, text, reading) || (c.text
                == text && c.reading == reading),
{
    let p = rank_position(s, c.frequency_score, 0);
    let r = with_ranked(s, c);
    lemma_rank_position(s, c.frequency_score, 0);
    s.insert_ensures(p, c);
    vstd::seq_lib::to_multiset_insert(s, p, c);
    if sorted_by_score(s) {
        assert forall|i: int, j: int| 0 <= i < j < r.len() implies (#[trigger] r[i]).frequency_score
            >= (#[trigger] r[j]).frequency_score by {
            lemma_inserted_at(s, p, c, i);
            lemma_inserted_at(s, p, c, j);
            if j > p {
                assert(s[p].frequency_score >= s[j - 1].frequency_score || j - 1 == p);
            }
        }
    }
    if distinct_keys(s) && !has_key(s, c.text, c.reading) {
        assert forall|i: int, j: int| 0 <= i < j < r.len() implies !((#[trigger] r[i]).text == (
        #[trigger] r[j]).text && r[i].reading == r[j].reading) by {
            lemma_inserted_at(s, p, c, i);
            lemma_inserted_at(s, p, c, j);
        }
    }
    assert forall|text: Seq<char>, reading: Seq<char>|
        has_key(r, text, reading) <==> has_key(s, text, reading) || (c.text == text && c.reading
            == reading) by {
        if has_key(r, text, reading) {
            let i = choose|i: int|
                0 <= i < r.len() && (#[trigger] r[i]).text == text && r[i].reading == reading;
            lemma_inserted_at(s, p, c, i);
        }
        if has_key(s, text, reading) {
            let i = choose|i: int|
                0 <= i < s.len() && (#[trigger] s[i]).text == text && s[i].reading == reading;
            if i < p {
                lemma_inserted_at(s, p, c, i);
                assert(r[i] == s[i]);
            } else {
                lemma_inserted_at(s, p, c, i + 1);
                assert(r[i + 1] == s[i]);
            }
        }
        if c.text == text && c.reading == reading {
            assert(r[p] == c);
        }
    }
}

/// What stands at position `i` once `c` has been inserted at `p`.
pub proof fn lemma_inserted_at(s: Seq<Candidate>, p: int, c: Candidate, i: int)
    requires
        0 <= p <= s.len(),
        0 <= i <= s.len(),
    ensures
        i < p ==> s.insert(p, c)[i] == s[i],
        i == p ==> s.insert(p, c)[i] == c,
        i > p ==> s.insert(p, c)[i] == s[i - 1],
{
    s.insert_ensures(p, c);
    if i > p {
        assert(s.insert(p, c)[(i - 1) + 1] == s[i - 1]);
    }
}

/// A ranking is sorted, holds exactly the candidates that were ranked, and
/// has distinct keys where they had.
pub proof fn lemma_ranked_from(s: Seq<Candidate>, from: int)
    requires
        0 <= from <= s.len(),
    ensures
        ranked_from(s, from).len() == s.len() - from,
        sorted_by_score(ranked_from(s, from)),
        ranked_from(s, from).to_multiset() == s.skip(from).to_multiset(),
        forall|text: Seq<char>, reading: Seq<char>|
            has_key(ranked_from(s, from), text, reading) <==> has_key(s.skip(from), text, reading),
        distinct_keys(s) ==> distinct_keys(ranked_from(s, from)),
    decreases s.len() - from,
{
    if from >= s.len() {
        assert(s.skip(from) =~= Seq::<Candidate>::empty());
    } else {
        let rest = ranked_from(s, from + 1);
        lemma_ranked_from(s, from + 1);
        lemma_with_ranked(rest, s[from]);
        assert(s.skip(from) =~= seq![s[from]] + s.skip(from + 1));
        vstd::seq_lib::lemma_multiset_commutative(seq![s[from]], s.skip(from + 1));
        assert(seq![s[from]] =~= Seq::<Candidate>::empty().push(s[from]));
        vstd::seq_lib::to_multiset_build(Seq::<Candidate>::empty(), s[from]);
        assert(Seq::<Candidate>::empty().to_multiset() =~= vstd::multiset::Multiset::empty()) by {
            broadcast use vstd::seq_lib::to_multiset_len;
            assert(Seq::<Candidate>::empty().to_multiset().len() == 0);
        }
        assert(ranked_from(s, from).to_multiset() =~= s.skip(from).to_multiset());
        assert forall|text: Seq<char>, reading: Seq<char>|
            has_key(ranked_from(s, from), text, reading) <==> has_key(
                s.skip(from),
                text,
                reading,
            ) by {
            lemma_has_key_skip(s, from, text, reading);
            assert(has_key(with_ranked(rest, s[from]), text, reading) <==> has_key(
                rest,
                text,
                reading,
            ) || (s[from].text == text && s[from].reading == reading));
            assert(has_key(rest, text, reading) <==> has_key(s.skip(from + 1), text, reading));
        }
        if distinct_keys(s) {
            if has_key(s.skip(from + 1), s[from].text, s[from].reading) {
                let i = choose|i: int|
                    0 <= i < s.skip(from + 1).len() && (#[trigger] s.skip(from + 1)[i]).text
                        == s[from].text && s.skip(from + 1)[i].reading == s[from].reading;
                assert(s.skip(from + 1)[i] == s[from + 1 + i]);
                assert(s[from].text == s[from + 1 + i].text);
            }
        }
    }
}

/// The keys from `from` on are the key at `from` and the keys behind it.
pub proof fn lemma_has_key_skip(s: Seq<Candidate>, from: int, text: Seq<char>, reading: Seq<char>)
    requires
        0 <= from < s.len(),
    ensures
        has_key(s.skip(from), text, reading) <==> has_key(s.skip(from + 1), text, reading) || (
        s[from].text == text && s[from].reading == reading),
{
    let a = s.skip(from);
    let b = s.skip(from + 1);
    if has_key(a, text, reading) {
        let i = choose|i: int|
            0 <= i < a.len() && (#[trigger] a[i]).text == text && a[i].reading == reading;
        if i > 0 {
            assert(b[i - 1] == a[i]);
        }
    }
    if has_key(b, text, reading) {
        let i = choose|i: int|
            0 <= i < b.len() && (#[trigger] b[i]).text == text && b[i].reading == reading;
        assert(a[i + 1] == b[i]);
    }
    if s[from].text == text && s[from].reading == reading {
        assert(a[0] == s[from]);
    }
}

/// Ranking keeps every candidate, each as often as it was there, puts them
/// in descending order of score, and keeps distinct keys distinct.
pub proof fn lemma_ranked(s: Seq<Candidate>)
    ensures
        ranked(s).len() == s.len(),
        sorted_by_score(ranked(s)),
        ranked(s).to_multiset() == s.to_multiset(),
        forall|text: Seq<char>, reading: Seq<char>|
            has_key(ranked(s), text, reading) <==> has_key(s, text, reading),
        distinct_keys(s) ==> distinct_keys(ranked(s)),
{
    lemma_ranked_from(s, 0);
    assert(s.skip(0) =~= s);
}

/// The candidates that score exactly `v`.
pub open spec fn scoring(v: nat) -> spec_fn(Candidate) -> bool {
    |c: Candidate| c.frequency_score == v
}

/// Keeping the candidates that `pred` accepts, of a list in which it accepts
/// none, leaves nothing.
pub proof fn lemma_filter_none(s: Seq<Candidate>, pred: spec_fn(Candidate) -> bool)
    requires
        forall|i: int| 0 <= i < s.len() ==> !pred(#[trigger] s[i]),
    ensures
        s.filter(pred) == Seq::<Candidate>::empty(),
    decreases s.len(),
{
    if s.len() == 0 {
        s.lemma_filter_len(pred);
    } else {
        let d = s.drop_last();
        assert(s =~= d.push(s.last()));
        d.lemma_filter_push(s.last(), pred);
        assert forall|i: int| 0 <= i < d.len() implies !pred(#[trigger] d[i]) by {
            assert(d[i] == s[i]);
        }
        lemma_filter_none(d, pred);
    }
    assert(s.filter(pred) =~= Seq::<Candidate>::empty());
}

/// Ranking is stable, from any position on: the candidates of one score
/// stand in the ranking in the order in which they stood before.
pub proof fn lemma_ranked_from_is_stable(s: Seq<Candidate>, from: int, v: nat)
    requires
        0 <= from <= s.len(),
    ensures
        ranked_from(s, from).filter(scoring(v)) == s.skip(from).filter(scoring(v)),
    decreases s.len() - from,
{
    let pred = scoring(v);
    if from >= s.len() {
        assert(s.skip(from) =~= Seq::<Candidate>::empty());
    } else {
        let rest = ranked_from(s, from + 1);
        let x = s[from];
        let p = rank_position(rest, x.frequency_score, 0);
        lemma_ranked_from_is_stable(s, from + 1, v);
        lemma_ranked_from(s, from + 1);
        lemma_rank_position(rest, x.frequency_score, 0);
        let head = rest.subrange(0, p);
        let tail = rest.subrange(p, rest.len() as int);
        let single = Seq::<Candidate>::empty().push(x);
        assert(rest =~= head + tail);
        assert(ranked_from(s, from) =~= head.push(x) + tail);
        assert(s.skip(from) =~= single + s.skip(from + 1));
        Seq::filter_distributes_over_add(head, tail, pred);
        Seq::filter_distributes_over_add(head.push(x), tail, pred);
        Seq::filter_distributes_over_add(single, s.skip(from + 1), pred);
        head.lemma_filter_push(x, pred);
        Seq::<Candidate>::empty().lemma_filter_push(x, pred);
        Seq::<Candidate>::empty().lemma_filter_len(pred);
        assert(Seq::<Candidate>::empty().filter(pred) =~= Seq::<Candidate>::empty());
        if x.frequency_score == v {
            assert forall|i: int| 0 <= i < head.len() implies !pred(#[trigger] head[i]) by {
                assert(head[i] == rest[i]);
            }
            lemma_filter_none(head, pred);
            assert(head.push(x).filter(pred) =~= single);
            assert(single.filter(pred) =~= single);
            assert(rest.filter(pred) =~= tail.filter(pred));
        }
        assert(ranked_from(s, from).filter(pred) =~= s.skip(from).filter(pred));
    }
}

/// Ranking is stable: for every score, the candidates of that score stand in
/// the ranking in the order in which they stood before. Together with the
/// descending order this fixes the ranking.
pub proof fn lemma_ranking_is_stable(s: Seq<Candidate>, v: nat)
    ensures
        ranked(s).filter(scoring(v)) == s.filter(scoring(v)),
{
    lemma_ranked_from_is_stable(s, 0, v);
    assert(s.skip(0) =~= s);
}

/// The position at which a word with this score enters the ranking.
pub fn position_for(out: &Vec<WordFrequencyWithPitch>, score: u32) -> (p: usize)
    ensures
        p == rank_position(views(out@), score as nat, 0),
        p <= out@.len(),
{
    let mut p: usize = 0;
    proof {
        lemma_rank_position(views(out@), score as nat, 0);
    }
    while p < out.len() && out[p].frequency_score > score
        invariant
            p <= out@.len(),
            rank_position(views(out@), score as nat, 0) == rank_position(
                views(out@),
                score as nat,
                p as int,
            ),
        decreases out@.len() - p,
    {
        p += 1;
    }
    p
}

/// Sorts the words by descending frequency score; words of one score keep
/// their order.
pub fn rank(words: Vec<WordFrequencyWithPitch>) -> (out: Vec<WordFrequencyWithPitch>)
    ensures
        views(out@) == ranked(views(words@)),
        sorted_by_score(views(out@)),
        views(out@).to_multiset() == views(words@).to_multiset(),
        distinct_keys(views(words@)) ==> distinct_keys(views(out@)),
{
    let ghost all = views(words@);
    let mut rest = words;
    let mut out: Vec<WordFrequencyWithPitch> = Vec::new();
    assert(views(out@) =~= ranked_from(all, all.len() as int));
    while rest.len() > 0
        invariant
            rest@.len() <= all.len(),
            views(rest@) == all.take(rest@.len() as int),
            views(out@) == ranked_from(all, rest@.len() as int),
        decreases rest@.len(),
    {
        let ghost before = rest@;
        let ghost ranking = out@;
        let word = rest.pop().unwrap();
        assert(word@ == views(before)[before.len() - 1]);
        assert(views(rest@) =~= all.take(rest@.len() as int));
        let p = position_for(&out, word.frequency_score);
        out.insert(p, word);
        assert(views(out@) =~= views(ranking).insert(p as int, word@));
    }
    proof {
        assert(all.take(all.len() as int) =~= all);
        lemma_ranked(all);
    }
    out
}

} // verus!

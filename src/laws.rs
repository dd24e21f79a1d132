//! What holds of every tally that a run produces.
use vstd::prelude::*;
use crate::lookup::{distinct, first_position, lemma_first_position, lemma_first_position_push};
use crate::record::RecordView;
use crate::tally::{
    entries_view, match_entries, total_entries,
    add_collection, add_collections, add_record, author_slot, count_token, count_tokens,
    empty_tally, is_match, record_month, run, with_author, Tally,
};

verus! {

broadcast use vstd::seq_lib::group_to_multiset_ensures;

/// The sum of the counts of named entries.
pub open spec fn count_sum(s: Seq<(String, u64)>) -> nat
    decreases s.len(),
{
    if s.len() == 0 {
        0
    } else {
        count_sum(s.drop_last()) + s.last().1 as nat
    }
}

proof fn lemma_count_sum_remove(s: Seq<(String, u64)>, i: int)
    requires
        0 <= i < s.len(),
    ensures
        count_sum(s) == count_sum(s.remove(i)) + s[i].1,
    decreases s.len(),
{
    if i == s.len() - 1 {
        assert(s.remove(i) =~= s.drop_last());
    } else {
        assert(s.remove(i).drop_last() =~= s.drop_last().remove(i));
        assert(s.remove(i).last() == s.last());
        lemma_count_sum_remove(s.drop_last(), i);
    }
}

/// Reordering entries keeps the sum of their counts.
pub proof fn lemma_count_sum_reordered(a: Seq<(String, u64)>, b: Seq<(String, u64)>)
    requires
        a.to_multiset() == b.to_multiset(),
    ensures
        count_sum(a) == count_sum(b),
    decreases a.len(),
{
    if a.len() == 0 {
        assert(b.to_multiset().len() == 0);
    } else {
        let x = a.last();
        assert(a =~= a.drop_last().push(x));
        assert(a.to_multiset().count(x) > 0);
        assert(b.contains(x));
        let i = choose|i: int| 0 <= i < b.len() && b[i] == x;
        assert(b.remove(i).to_multiset() =~= b.to_multiset().remove(x));
        assert(a.drop_last().to_multiset() =~= a.to_multiset().remove(x));
        lemma_count_sum_reordered(a.drop_last(), b.remove(i));
        lemma_count_sum_remove(b, i);
    }
}

proof fn lemma_count_sum_of(r: Seq<(String, u64)>, x: Seq<nat>)
    requires
        r.len() == x.len(),
        forall|i: int| 0 <= i < r.len() ==> r[i].1 as nat == #[trigger] x[i],
    ensures
        count_sum(r) == sum(x),
    decreases r.len(),
{
    if r.len() > 0 {
        lemma_count_sum_of(r.drop_last(), x.drop_last());
    }
}

/// The sum of a sequence of counts.
pub open spec fn sum(s: Seq<nat>) -> nat
    decreases s.len(),
{
    if s.len() == 0 {
        0
    } else {
        sum(s.drop_last()) + s.last()
    }
}

/// The token total is the sum of the per-author totals, the month counts
/// add up to the per-author matches, no author has more matches than
/// tokens, and each author has one entry.
pub open spec fn balanced(t: Tally) -> bool {
    &&& distinct(t.authors)
    &&& t.months.len() == 12
    &&& t.matches.len() == t.authors.len()
    &&& t.totals.len() == t.authors.len()
    &&& t.total == sum(t.totals)
    &&& sum(t.months) == sum(t.matches)
    &&& forall|i: int| 0 <= i < t.authors.len() ==> #[trigger] t.matches[i] <= t.totals[i]
}

proof fn lemma_sum_increment(s: Seq<nat>, i: int)
    requires
        0 <= i < s.len(),
    ensures
        sum(s.update(i, s[i] + 1)) == sum(s) + 1,
    decreases s.len(),
{
    let u = s.update(i, s[i] + 1);
    if i == s.len() - 1 {
        assert(u.drop_last() =~= s.drop_last());
    } else {
        assert(u.drop_last() =~= s.drop_last().update(i, s[i] + 1));
        lemma_sum_increment(s.drop_last(), i);
    }
}

proof fn lemma_sum_push_zero(s: Seq<nat>)
    ensures
        sum(s.push(0)) == sum(s),
{
    assert(s.push(0).drop_last() =~= s);
}

proof fn lemma_sum_zeros(n: nat)
    ensures
        sum(Seq::new(n, |m: int| 0nat)) == 0,
    decreases n,
{
    if n > 0 {
        assert(Seq::new(n, |m: int| 0nat).drop_last() =~= Seq::new((n - 1) as nat, |m: int| 0nat));
        lemma_sum_zeros((n - 1) as nat);
    }
}

proof fn lemma_with_author(t: Tally, a: Seq<char>)
    requires
        balanced(t),
    ensures
        balanced(with_author(t, a)),
        0 <= author_slot(t, a) < with_author(t, a).authors.len(),
        with_author(t, a).authors.len() >= t.authors.len(),
        t.matches == t.totals ==> with_author(t, a).matches == with_author(t, a).totals,
{
    lemma_first_position(t.authors, a);
    if first_position(t.authors, a) is None {
        lemma_first_position_push(t.authors, a);
        lemma_sum_push_zero(t.totals);
        lemma_sum_push_zero(t.matches);
        let w = with_author(t, a);
        assert forall|i: int, j: int| 0 <= i < j < w.authors.len() implies w.authors[i]
            != w.authors[j] by {
            if j == t.authors.len() {
                assert(t.authors.contains(t.authors[i]));
            } else {
                assert(w.authors[i] == t.authors[i]);
                assert(w.authors[j] == t.authors[j]);
            }
        }
        assert forall|i: int| 0 <= i < w.authors.len() implies #[trigger] w.matches[i]
            <= w.totals[i] by {
            if i < t.authors.len() {
                assert(w.matches[i] == t.matches[i]);
                assert(w.totals[i] == t.totals[i]);
            }
        }
    }
}

proof fn lemma_count_token(t: Tally, i: int, m: int, hit: bool)
    requires
        balanced(t),
        0 <= i < t.authors.len(),
        0 <= m < 12,
    ensures
        balanced(count_token(t, i, m, hit)),
        hit && t.matches == t.totals ==> count_token(t, i, m, hit).matches == count_token(
            t,
            i,
            m,
            hit,
        ).totals,
{
    let u = count_token(t, i, m, hit);
    lemma_sum_increment(t.totals, i);
    if hit {
        lemma_sum_increment(t.matches, i);
        lemma_sum_increment(t.months, m);
    }
    assert forall|j: int| 0 <= j < u.authors.len() implies #[trigger] u.matches[j]
        <= u.totals[j] by {
        if j != i {
            assert(u.matches[j] == t.matches[j]);
            assert(u.totals[j] == t.totals[j]);
        }
    }
}

proof fn lemma_count_tokens(
    t: Tally,
    i: int,
    m: int,
    toks: Seq<Seq<char>>,
    words: Seq<Seq<char>>,
    any: bool,
)
    requires
        balanced(t),
        0 <= i < t.authors.len(),
        0 <= m < 12,
    ensures
        balanced(count_tokens(t, i, m, toks, words, any)),
        count_tokens(t, i, m, toks, words, any).authors == t.authors,
        any && t.matches == t.totals ==> count_tokens(t, i, m, toks, words, any).matches
            == count_tokens(t, i, m, toks, words, any).totals,
    decreases toks.len(),
{
    if toks.len() > 0 {
        lemma_count_tokens(t, i, m, toks.drop_last(), words, any);
        let p = count_tokens(t, i, m, toks.drop_last(), words, any);
        lemma_count_token(p, i, m, is_match(toks.last(), words, any));
    }
}

proof fn lemma_add_record(t: Tally, r: RecordView, month: int, words: Seq<Seq<char>>, any: bool)
    requires
        balanced(t),
        1 <= month <= 12,
    ensures
        balanced(add_record(t, r, month, words, any)),
        any && t.matches == t.totals ==> add_record(t, r, month, words, any).matches
            == add_record(t, r, month, words, any).totals,
{
    lemma_with_author(t, r.author);
    lemma_count_tokens(
        with_author(t, r.author),
        author_slot(t, r.author),
        month - 1,
        crate::text::tokens(r.content),
        words,
        any,
    );
}

proof fn lemma_add_collection(t: Tally, recs: Seq<RecordView>, words: Seq<Seq<char>>, any: bool)
    requires
        balanced(t),
    ensures
        balanced(add_collection(t, recs, words, any)),
        any && t.matches == t.totals ==> add_collection(t, recs, words, any).matches
            == add_collection(t, recs, words, any).totals,
    decreases recs.len(),
{
    if recs.len() > 0 {
        if let Some(month) = record_month(recs[0].date) {
            lemma_add_record(t, recs[0], month, words, any);
            lemma_add_collection(
                add_record(t, recs[0], month, words, any),
                recs.drop_first(),
                words,
                any,
            );
        }
    }
}

proof fn lemma_add_collections(
    t: Tally,
    colls: Seq<Seq<RecordView>>,
    words: Seq<Seq<char>>,
    any: bool,
)
    requires
        balanced(t),
    ensures
        balanced(add_collections(t, colls, words, any)),
        any && t.matches == t.totals ==> add_collections(t, colls, words, any).matches
            == add_collections(t, colls, words, any).totals,
    decreases colls.len(),
{
    if colls.len() > 0 {
        lemma_add_collection(t, colls[0], words, any);
        lemma_add_collections(
            add_collection(t, colls[0], words, any),
            colls.drop_first(),
            words,
            any,
        );
    }
}

proof fn lemma_empty_balanced()
    ensures
        balanced(empty_tally()),
{
    lemma_sum_zeros(12);
}

/// Over any collections, the token total of a run equals the sum of the
/// per-author totals, and the month counts add up to the per-author
/// matches: every match is counted for one author and one month.
pub proof fn lemma_run_sums(colls: Seq<Seq<RecordView>>, words: Seq<Seq<char>>, any: bool)
    ensures
        run(colls, words, any).total == sum(run(colls, words, any).totals),
        sum(run(colls, words, any).months) == sum(run(colls, words, any).matches),
{
    lemma_empty_balanced();
    lemma_add_collections(empty_tally(), colls, words, any);
}

/// Over any collections, no author has more matches than tokens after a
/// run: every match is also counted as a token.
pub proof fn lemma_run_matches_within_totals(
    colls: Seq<Seq<RecordView>>,
    words: Seq<Seq<char>>,
    any: bool,
)
    ensures
        forall|i: int|
            0 <= i < run(colls, words, any).authors.len() ==> #[trigger] run(
                colls,
                words,
                any,
            ).matches[i] <= run(colls, words, any).totals[i],
{
    lemma_empty_balanced();
    lemma_add_collections(empty_tally(), colls, words, any);
}

/// Over any collections, each author has one entry after a run.
pub proof fn lemma_run_authors_distinct(
    colls: Seq<Seq<RecordView>>,
    words: Seq<Seq<char>>,
    any: bool,
)
    ensures
        distinct(run(colls, words, any).authors),
{
    lemma_empty_balanced();
    lemma_add_collections(empty_tally(), colls, words, any);
}

/// The per-author totals of a run, in any order (as the contribution
/// distribution lists them), add up to the run's token total.
pub proof fn lemma_reordered_totals_sum(
    colls: Seq<Seq<RecordView>>,
    words: Seq<Seq<char>>,
    any: bool,
    totals: Seq<(String, u64)>,
    reordered: Seq<(String, u64)>,
)
    requires
        entries_view(totals) == total_entries(run(colls, words, any)),
        reordered.to_multiset() == totals.to_multiset(),
    ensures
        count_sum(reordered) == run(colls, words, any).total,
{
    let t = run(colls, words, any);
    lemma_run_sums(colls, words, any);
    assert(entries_view(totals).len() == t.authors.len());
    lemma_empty_balanced();
    lemma_add_collections(empty_tally(), colls, words, any);
    assert forall|i: int| 0 <= i < totals.len() implies totals[i].1 as nat == #[trigger] t.totals[i] by {
        assert(entries_view(totals)[i] == total_entries(t)[i]);
    }
    lemma_count_sum_of(totals, t.totals);
    lemma_count_sum_reordered(reordered, totals);
}

/// The sum of the counts of a month series.
pub open spec fn series_sum(s: Seq<(u32, u64)>) -> nat
    decreases s.len(),
{
    if s.len() == 0 {
        0
    } else {
        series_sum(s.drop_last()) + s.last().1 as nat
    }
}

/// The sum of the counts of named entries, as plain values.
pub open spec fn entries_sum(e: Seq<(Seq<char>, nat)>) -> nat
    decreases e.len(),
{
    if e.len() == 0 {
        0
    } else {
        entries_sum(e.drop_last()) + e.last().1
    }
}

proof fn lemma_series_sum_of(r: Seq<(u32, u64)>, x: Seq<nat>)
    requires
        r.len() == x.len(),
        forall|i: int| 0 <= i < r.len() ==> r[i].1 as nat == #[trigger] x[i],
    ensures
        series_sum(r) == sum(x),
    decreases r.len(),
{
    if r.len() > 0 {
        lemma_series_sum_of(r.drop_last(), x.drop_last());
    }
}

proof fn lemma_entries_sum_view(r: Seq<(String, u64)>)
    ensures
        count_sum(r) == entries_sum(entries_view(r)),
    decreases r.len(),
{
    if r.len() > 0 {
        assert(entries_view(r).drop_last() =~= entries_view(r.drop_last()));
        lemma_entries_sum_view(r.drop_last());
    }
}

proof fn lemma_match_entries_sum(t: Tally, n: int)
    requires
        0 <= n <= t.matches.len(),
        t.authors.len() == t.matches.len(),
    ensures
        entries_sum(match_entries(t, n)) == sum(t.matches.take(n)),
    decreases n,
{
    if n > 0 {
        lemma_match_entries_sum(t, n - 1);
        assert(t.matches.take(n).drop_last() =~= t.matches.take(n - 1));
        let rest = match_entries(t, n - 1);
        if t.matches[n - 1] > 0 {
            assert(rest.push((t.authors[n - 1], t.matches[n - 1])).drop_last() =~= rest);
        }
    }
}

/// The match counts per author of a run (those with a match) and its month
/// series add up to the same number: every match is counted for one author
/// and one month. In match-any mode that number is the token total.
pub proof fn lemma_series_matches_sum(
    colls: Seq<Seq<RecordView>>,
    words: Seq<Seq<char>>,
    any: bool,
    matched: Seq<(String, u64)>,
    series: Seq<(u32, u64)>,
)
    requires
        entries_view(matched) == match_entries(
            run(colls, words, any),
            run(colls, words, any).authors.len() as int,
        ),
        series.len() == 12,
        forall|m: int| 0 <= m < 12 ==> #[trigger] series[m].1 == run(colls, words, any).months[m],
    ensures
        count_sum(matched) == series_sum(series),
        any ==> series_sum(series) == run(colls, words, any).total,
{
    let t = run(colls, words, any);
    lemma_empty_balanced();
    lemma_add_collections(empty_tally(), colls, words, any);
    lemma_run_sums(colls, words, any);
    assert forall|m: int| 0 <= m < series.len() implies series[m].1 as nat == #[trigger] t.months[m] by {
        assert(series[m].1 == t.months[m]);
    }
    lemma_series_sum_of(series, t.months);
    lemma_entries_sum_view(matched);
    lemma_match_entries_sum(t, t.authors.len() as int);
    assert(t.matches.take(t.authors.len() as int) =~= t.matches);
    if any {
        lemma_run_any_matches_all(colls, words);
    }
}

proof fn lemma_match_entries_within(t: Tally, n: int)
    requires
        balanced(t),
        0 <= n <= t.authors.len(),
    ensures
        forall|k: int|
            0 <= k < match_entries(t, n).len() ==> exists|i: int|
                0 <= i < n && (#[trigger] match_entries(t, n)[k]).0 == t.authors[i]
                    && match_entries(t, n)[k].1 <= t.totals[i],
    decreases n,
{
    if n > 0 {
        lemma_match_entries_within(t, n - 1);
        let rest = match_entries(t, n - 1);
        assert forall|k: int| 0 <= k < match_entries(t, n).len() implies exists|i: int|
            0 <= i < n && (#[trigger] match_entries(t, n)[k]).0 == t.authors[i]
                && match_entries(t, n)[k].1 <= t.totals[i] by {
            if k < rest.len() {
                assert(match_entries(t, n)[k] == rest[k]);
                let i = choose|i: int|
                    0 <= i < n - 1 && (#[trigger] rest[k]).0 == t.authors[i] && rest[k].1
                        <= t.totals[i];
                assert(0 <= i < n);
            } else {
                assert(t.matches[n - 1] <= t.totals[n - 1]);
                assert(match_entries(t, n)[k] == (t.authors[n - 1], t.matches[n - 1]));
            }
        }
    }
}

/// Whether `totals` lists the author of `e` with a count no smaller.
pub open spec fn covered_by(e: (String, u64), totals: Seq<(String, u64)>) -> bool {
    exists|i: int| 0 <= i < totals.len() && totals[i].0@ == e.0@ && e.1 <= totals[i].1
}

/// Each author listed with matches after a run is listed with a token total
/// no smaller than those matches.
pub proof fn lemma_listed_matches_within_totals(
    colls: Seq<Seq<RecordView>>,
    words: Seq<Seq<char>>,
    any: bool,
    matched: Seq<(String, u64)>,
    totals: Seq<(String, u64)>,
)
    requires
        entries_view(matched) == match_entries(
            run(colls, words, any),
            run(colls, words, any).authors.len() as int,
        ),
        entries_view(totals) == total_entries(run(colls, words, any)),
    ensures
        forall|k: int| 0 <= k < matched.len() ==> covered_by(#[trigger] matched[k], totals),
{
    let t = run(colls, words, any);
    lemma_empty_balanced();
    lemma_add_collections(empty_tally(), colls, words, any);
    lemma_match_entries_within(t, t.authors.len() as int);
    assert(entries_view(totals).len() == t.authors.len());
    assert forall|k: int| 0 <= k < matched.len() implies covered_by(
        #[trigger] matched[k],
        totals,
    ) by {
        let me = match_entries(t, t.authors.len() as int);
        assert(entries_view(matched)[k] == me[k]);
        let i = choose|i: int|
            0 <= i < t.authors.len() && (#[trigger] me[k]).0 == t.authors[i] && me[k].1
                <= t.totals[i];
        assert(entries_view(totals)[i] == total_entries(t)[i]);
        assert(entries_view(matched)[k] == (matched[k].0@, matched[k].1 as nat));
        assert(entries_view(totals)[i] == (totals[i].0@, totals[i].1 as nat));
        assert(0 <= i < totals.len() && totals[i].0@ == matched[k].0@ && matched[k].1
            <= totals[i].1);
    }
}

/// In match-any mode every token is a match: each author's matches equal
/// their token total, and the month counts add up to the token total.
pub proof fn lemma_run_any_matches_all(colls: Seq<Seq<RecordView>>, words: Seq<Seq<char>>)
    ensures
        run(colls, words, true).matches == run(colls, words, true).totals,
        sum(run(colls, words, true).months) == run(colls, words, true).total,
{
    lemma_empty_balanced();
    assert(empty_tally().matches =~= empty_tally().totals);
    lemma_add_collections(empty_tally(), colls, words, true);
}

} // verus!

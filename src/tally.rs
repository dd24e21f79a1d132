//! Aggregating token counts per author and per month over chat records.
use vstd::prelude::*;
use crate::date::{export_date, parse_export_date};
use crate::lookup::{distinct, find_position, first_position, lemma_first_position, lemma_distinct_push};
use crate::record::{records_view, Record, RecordView};
use crate::text::{tokenize, tokens};

verus! {

/// The aggregate counts: matches per month (index 0 for January), and per
/// author (in order of first appearance) the matches and the token total,
/// and the token total over all authors.
pub struct Tally {
    pub months: Seq<nat>,
    pub authors: Seq<Seq<char>>,
    pub matches: Seq<nat>,
    pub totals: Seq<nat>,
    pub total: nat,
}

/// No records seen yet.
pub open spec fn empty_tally() -> Tally {
    Tally {
        months: Seq::new(12, |m: int| 0nat),
        authors: Seq::empty(),
        matches: Seq::empty(),
        totals: Seq::empty(),
        total: 0,
    }
}

/// Whether a token counts as a match: in match-any mode every token does,
/// otherwise those among `words`.
pub open spec fn is_match(tok: Seq<char>, words: Seq<Seq<char>>, any: bool) -> bool {
    any || words.contains(tok)
}

/// The tally with an entry for author `a`, added with zero counts if new.
pub open spec fn with_author(t: Tally, a: Seq<char>) -> Tally {
    if first_position(t.authors, a) is Some {
        t
    } else {
        Tally {
            authors: t.authors.push(a),
            matches: t.matches.push(0),
            totals: t.totals.push(0),
            ..t
        }
    }
}

/// The entry of author `a` once it has one.
pub open spec fn author_slot(t: Tally, a: Seq<char>) -> int {
    first_position(with_author(t, a).authors, a)->0
}

/// One token of the author at entry `i`, in month index `m`.
pub open spec fn count_token(t: Tally, i: int, m: int, hit: bool) -> Tally {
    Tally {
        total: t.total + 1,
        totals: t.totals.update(i, t.totals[i] + 1),
        matches: if hit {
            t.matches.update(i, t.matches[i] + 1)
        } else {
            t.matches
        },
        months: if hit {
            t.months.update(m, t.months[m] + 1)
        } else {
            t.months
        },
        authors: t.authors,
    }
}

/// The tokens `toks` of the author at entry `i`, in month index `m`, in order.
pub open spec fn count_tokens(
    t: Tally,
    i: int,
    m: int,
    toks: Seq<Seq<char>>,
    words: Seq<Seq<char>>,
    any: bool,
) -> Tally
    decreases toks.len(),
{
    if toks.len() == 0 {
        t
    } else {
        count_token(
            count_tokens(t, i, m, toks.drop_last(), words, any),
            i,
            m,
            is_match(toks.last(), words, any),
        )
    }
}

/// One record dated in `month` (1 to 12).
pub open spec fn add_record(
    t: Tally,
    r: RecordView,
    month: int,
    words: Seq<Seq<char>>,
    any: bool,
) -> Tally {
    count_tokens(
        with_author(t, r.author),
        author_slot(t, r.author),
        month - 1,
        tokens(r.content),
        words,
        any,
    )
}

/// The month (1 to 12) of a record's date, if it parses.
pub open spec fn record_month(date: Seq<char>) -> Option<int> {
    match export_date(date) {
        Some(d) => if 1 <= d.1 <= 12 {
            Some(d.1 as int)
        } else {
            None
        },
        None => None,
    }
}

/// One collection, in order, up to (not including) its first record whose
/// date does not parse.
pub open spec fn add_collection(
    t: Tally,
    recs: Seq<RecordView>,
    words: Seq<Seq<char>>,
    any: bool,
) -> Tally
    decreases recs.len(),
{
    if recs.len() == 0 {
        t
    } else {
        match record_month(recs[0].date) {
            None => t,
            Some(month) => add_collection(
                add_record(t, recs[0], month, words, any),
                recs.drop_first(),
                words,
                any,
            ),
        }
    }
}

/// Several collections, in order.
pub open spec fn add_collections(
    t: Tally,
    colls: Seq<Seq<RecordView>>,
    words: Seq<Seq<char>>,
    any: bool,
) -> Tally
    decreases colls.len(),
{
    if colls.len() == 0 {
        t
    } else {
        add_collections(add_collection(t, colls[0], words, any), colls.drop_first(), words, any)
    }
}

/// The tally of a whole run.
pub open spec fn run(colls: Seq<Seq<RecordView>>, words: Seq<Seq<char>>, any: bool) -> Tally {
    add_collections(empty_tally(), colls, words, any)
}

/// The number of characters of message content in a collection.
pub open spec fn content_len(recs: Seq<RecordView>) -> nat
    decreases recs.len(),
{
    if recs.len() == 0 {
        0
    } else {
        recs[0].content.len() + content_len(recs.drop_first())
    }
}

/// The number of characters of message content in several collections.
pub open spec fn contents_len(colls: Seq<Seq<RecordView>>) -> nat
    decreases colls.len(),
{
    if colls.len() == 0 {
        0
    } else {
        content_len(colls[0]) + contents_len(colls.drop_first())
    }
}

/// The collections' records, without their names.
pub open spec fn collections_view(colls: Seq<(String, Vec<Record>)>) -> Seq<Seq<RecordView>> {
    colls.map_values(|c: (String, Vec<Record>)| records_view(c.1@))
}

/// Named counts as character sequences and integers.
pub open spec fn entries_view(v: Seq<(String, u64)>) -> Seq<(Seq<char>, nat)> {
    v.map_values(|e: (String, u64)| (e.0@, e.1 as nat))
}

/// Each author with their token total, in order of first appearance.
pub open spec fn total_entries(t: Tally) -> Seq<(Seq<char>, nat)> {
    Seq::new(t.authors.len(), |i: int| (t.authors[i], t.totals[i]))
}

/// Among the first `n` authors, those with at least one match, with their
/// match counts, in order of first appearance.
pub open spec fn match_entries(t: Tally, n: int) -> Seq<(Seq<char>, nat)>
    decreases n,
{
    if n <= 0 {
        Seq::empty()
    } else {
        let rest = match_entries(t, n - 1);
        if t.matches[n - 1] > 0 {
            rest.push((t.authors[n - 1], t.matches[n - 1]))
        } else {
            rest
        }
    }
}

/// Running counts of tokens and matches.
pub struct Aggregate {
    months: Vec<u64>,
    authors: Vec<String>,
    matches: Vec<u64>,
    totals: Vec<u64>,
    total: u64,
}

impl View for Aggregate {
    type V = Tally;

    closed spec fn view(&self) -> Tally {
        Tally {
            months: self.months@.map_values(|x: u64| x as nat),
            authors: self.authors.deep_view(),
            matches: self.matches@.map_values(|x: u64| x as nat),
            totals: self.totals@.map_values(|x: u64| x as nat),
            total: self.total as nat,
        }
    }
}

impl Aggregate {
    /// Twelve months, one entry per author, each author once, and no count
    /// above the total.
    pub closed spec fn wf(&self) -> bool {
        &&& self.months.len() == 12
        &&& distinct(self.authors.deep_view())
        &&& self.matches.len() == self.authors.len()
        &&& self.totals.len() == self.authors.len()
        &&& forall|m: int| 0 <= m < 12 ==> #[trigger] self.months[m] <= self.total
        &&& forall|i: int|
            0 <= i < self.authors.len() ==> #[trigger] self.totals[i] <= self.total
                && self.matches[i] <= self.totals[i]
    }

    /// An aggregate with all counts zero.
    pub fn new() -> (r: Aggregate)
        ensures
            r.wf(),
            r@ == empty_tally(),
    {
        let r = Aggregate {
            months: vec![0u64; 12],
            authors: Vec::new(),
            matches: Vec::new(),
            totals: Vec::new(),
            total: 0,
        };
        assert(r@.months =~= empty_tally().months);
        assert(r@.authors =~= empty_tally().authors);
        assert(r@.matches =~= empty_tally().matches);
        assert(r@.totals =~= empty_tally().totals);
        r
    }

    /// The number of tokens counted.
    pub fn total_tokens(&self) -> (r: u64)
        ensures
            r == self@.total,
    {
        self.total
    }

    /// Each author with their token total, in order of first appearance.
    pub fn author_totals(&self) -> (r: Vec<(String, u64)>)
        requires
            self.wf(),
        ensures
            entries_view(r@) == total_entries(self@),
            distinct(self@.authors),
    {
        let mut out: Vec<(String, u64)> = Vec::new();
        let mut i: usize = 0;
        while i < self.authors.len()
            invariant
                self.wf(),
                i <= self.authors.len(),
                entries_view(out@) == total_entries(self@).take(i as int),
            decreases self.authors.len() - i,
        {
            out.push((self.authors[i].clone(), self.totals[i]));
            assert(self@.authors[i as int] == self.authors[i as int]@);
            assert(self@.totals[i as int] == self.totals[i as int] as nat);
            assert(entries_view(out@) =~= total_entries(self@).take(i as int).push(
                (self@.authors[i as int], self@.totals[i as int]),
            ));
            assert(total_entries(self@).take(i + 1) =~= total_entries(self@).take(i as int).push(
                (self@.authors[i as int], self@.totals[i as int]),
            ));
            i = i + 1;
        }
        assert(total_entries(self@).take(i as int) =~= total_entries(self@));
        out
    }

    /// Each author with at least one match, with their match count, in
    /// order of first appearance.
    pub fn author_matches(&self) -> (r: Vec<(String, u64)>)
        requires
            self.wf(),
        ensures
            entries_view(r@) == match_entries(self@, self@.authors.len() as int),
    {
        let mut out: Vec<(String, u64)> = Vec::new();
        let mut i: usize = 0;
        while i < self.authors.len()
            invariant
                self.wf(),
                i <= self.authors.len(),
                entries_view(out@) == match_entries(self@, i as int),
            decreases self.authors.len() - i,
        {
            assert(self@.authors[i as int] == self.authors[i as int]@);
            assert(self@.matches[i as int] == self.matches[i as int] as nat);
            if self.matches[i] > 0 {
                out.push((self.authors[i].clone(), self.matches[i]));
                assert(entries_view(out@) =~= match_entries(self@, i as int).push(
                    (self@.authors[i as int], self@.matches[i as int]),
                ));
            }
            i = i + 1;
        }
        out
    }

    /// The match count of each month, as (month index, count) for the
    /// twelve month indices 0 (January) to 11 in order.
    pub fn month_series(&self) -> (r: Vec<(u32, u64)>)
        requires
            self.wf(),
        ensures
            r.len() == 12,
            forall|m: int| 0 <= m < 12 ==> #[trigger] r[m].0 == m && r[m].1 == self@.months[m],
    {
        let mut out: Vec<(u32, u64)> = Vec::new();
        let mut m: u32 = 0;
        while m < 12
            invariant
                self.wf(),
                m <= 12,
                out.len() == m,
                forall|j: int| 0 <= j < m ==> #[trigger] out[j].0 == j && out[j].1 == self@.months[j],
            decreases 12 - m,
        {
            assert(self@.months[m as int] == self.months[m as int] as nat);
            let ghost before = out@;
            out.push((m, self.months[m as usize]));
            assert forall|j: int| 0 <= j <= m implies #[trigger] out[j].0 == j && out[j].1
                == self@.months[j] by {
                if j < m {
                    assert(out[j] == before[j]);
                }
            }
            m = m + 1;
        }
        out
    }

    fn count(&mut self, i: usize, m: usize, hit: bool)
        requires
            old(self).wf(),
            i < old(self).authors.len(),
            m < 12,
            old(self).total < u64::MAX,
        ensures
            final(self).wf(),
            final(self)@ == count_token(old(self)@, i as int, m as int, hit),
            final(self).total == old(self).total + 1,
            final(self).authors.len() == old(self).authors.len(),
    {
        self.total = self.total + 1;
        self.totals[i] = self.totals[i] + 1;
        if hit {
            self.matches[i] = self.matches[i] + 1;
            self.months[m] = self.months[m] + 1;
        }
        let ghost t = count_token(old(self)@, i as int, m as int, hit);
        assert(self@.totals =~= t.totals);
        assert(self@.matches =~= t.matches);
        assert(self@.months =~= t.months);
    }

    /// The entry of `author`, added with zero counts if new.
    fn slot(&mut self, author: &String) -> (r: usize)
        requires
            old(self).wf(),
        ensures
            final(self).wf(),
            final(self)@ == with_author(old(self)@, author@),
            r == author_slot(old(self)@, author@),
            r < final(self).authors.len(),
            final(self).total == old(self).total,
    {
        match find_position(&self.authors, author) {
            Some(i) => i,
            None => {
                proof {
                    lemma_first_position(self.authors.deep_view(), author@);
                    lemma_distinct_push(self.authors.deep_view(), author@);
                }
                self.authors.push(author.clone());
                self.matches.push(0);
                self.totals.push(0);
                let ghost t = with_author(old(self)@, author@);
                assert(self@.authors =~= t.authors);
                assert(self@.matches =~= t.matches);
                assert(self@.totals =~= t.totals);
                proof {
                    crate::lookup::lemma_first_position_push(old(self)@.authors, author@);
                }
                self.authors.len() - 1
            },
        }
    }

    /// Counts `toks` for `author`, dated in `month` (1 to 12): each token
    /// adds one to the total and to the author's total; a matching one also
    /// adds one to the author's matches and to the month's. The author gets
    /// an entry even where `toks` is empty.
    pub fn add_tokens(
        &mut self,
        author: &String,
        month: u32,
        toks: &Vec<String>,
        words: &Vec<String>,
        any: bool,
    )
        requires
            old(self).wf(),
            1 <= month <= 12,
            old(self)@.total + toks.len() <= u64::MAX,
        ensures
            final(self).wf(),
            final(self)@ == count_tokens(
                with_author(old(self)@, author@),
                author_slot(old(self)@, author@),
                month - 1,
                toks.deep_view(),
                words.deep_view(),
                any,
            ),
            final(self)@.total == old(self)@.total + toks.len(),
    {
        let i = self.slot(author);
        let ghost t0 = self@;
        let ghost tv = toks.deep_view();
        let m: usize = (month - 1) as usize;
        let mut k: usize = 0;
        while k < toks.len()
            invariant
                self.wf(),
                i < self.authors.len(),
                m < 12,
                k <= toks.len(),
                tv == toks.deep_view(),
                self.total == old(self).total + k,
                old(self).total + toks.len() <= u64::MAX,
                self@ == count_tokens(t0, i as int, m as int, tv.take(k as int), words.deep_view(), any),
            decreases toks.len() - k,
        {
            let hit = any || contains(words, &toks[k]);
            assert(tv.take(k + 1).drop_last() =~= tv.take(k as int));
            self.count(i, m, hit);
            k = k + 1;
        }
        assert(tv.take(k as int) =~= tv);
    }

    /// Counts the tokens of `record`'s content for its author, dated in
    /// `month` (1 to 12), as `add_tokens` does.
    pub fn add_record(&mut self, record: &Record, month: u32, words: &Vec<String>, any: bool)
        requires
            old(self).wf(),
            1 <= month <= 12,
            old(self)@.total + record.content@.len() <= u64::MAX,
        ensures
            final(self).wf(),
            final(self)@ == add_record(old(self)@, record@, month as int, words.deep_view(), any),
            final(self)@.total <= old(self)@.total + record.content@.len(),
    {
        let toks = tokenize(record.content.as_str());
        self.add_tokens(&record.author, month, &toks, words, any);
    }

    /// Counts a collection's records in order, stopping at the first record
    /// whose date does not parse: that record and those after it are not
    /// counted. Returns the index of that record, if there is one.
    pub fn add_collection(&mut self, records: &Vec<Record>, words: &Vec<String>, any: bool) -> (r:
        Option<usize>)
        requires
            old(self).wf(),
            old(self)@.total + content_len(records_view(records@)) <= u64::MAX,
        ensures
            final(self).wf(),
            final(self)@ == add_collection(
                old(self)@,
                records_view(records@),
                words.deep_view(),
                any,
            ),
            final(self)@.total <= old(self)@.total + content_len(records_view(records@)),
            match r {
                Some(k) => k < records.len() && record_month(records[k as int].date@) is None
                    && forall|j: int|
                    0 <= j < k ==> (#[trigger] record_month(records[j].date@)) is Some,
                None => forall|j: int|
                    0 <= j < records.len() ==> (#[trigger] record_month(records[j].date@)) is Some,
            },
    {
        let ghost rv = records_view(records@);
        assert(rv.skip(0) =~= rv);
        let mut k: usize = 0;
        while k < records.len()
            invariant
                self.wf(),
                k <= records.len(),
                rv == records_view(records@),
                self.total + content_len(rv.skip(k as int)) <= old(self).total + content_len(rv),
                old(self).total + content_len(rv) <= u64::MAX,
                add_collection(self@, rv.skip(k as int), words.deep_view(), any)
                    == add_collection(old(self)@, rv, words.deep_view(), any),
                forall|j: int| 0 <= j < k ==> (#[trigger] record_month(records[j].date@)) is Some,
            decreases records.len() - k,
        {
            let rec = &records[k];
            assert(rv.skip(k as int)[0] == rec@);
            assert(rv.skip(k as int).drop_first() =~= rv.skip(k + 1));
            match parse_export_date(rec.date.as_str()) {
                Some(d) => {
                    self.add_record(rec, d.month, words, any);
                },
                None => {
                    return Some(k);
                },
            }
            k = k + 1;
        }
        assert(rv.skip(k as int) =~= Seq::<RecordView>::empty());
        None
    }
}

/// Aggregates the collections in order: within each, the records up to
/// the first whose date does not parse. A token matches where `any` is set
/// or it is one of `words` (which are expected in lowercase).
pub fn aggregate(collections: &Vec<(String, Vec<Record>)>, words: &Vec<String>, any: bool) -> (r:
    Aggregate)
    requires
        contents_len(collections_view(collections@)) <= u64::MAX,
    ensures
        r.wf(),
        r@ == run(collections_view(collections@), words.deep_view(), any),
{
    let ghost cv = collections_view(collections@);
    let mut agg = Aggregate::new();
    assert(cv.skip(0) =~= cv);
    let mut k: usize = 0;
    while k < collections.len()
        invariant
            agg.wf(),
            k <= collections.len(),
            cv == collections_view(collections@),
            agg@.total + contents_len(cv.skip(k as int)) <= contents_len(cv),
            contents_len(cv) <= u64::MAX,
            add_collections(agg@, cv.skip(k as int), words.deep_view(), any) == run(
                cv,
                words.deep_view(),
                any,
            ),
        decreases collections.len() - k,
    {
        assert(cv.skip(k as int)[0] == records_view(collections[k as int].1@));
        assert(cv.skip(k as int).drop_first() =~= cv.skip(k + 1));
        let _ = agg.add_collection(&collections[k].1, words, any);
        k = k + 1;
    }
    assert(cv.skip(k as int) =~= Seq::<Seq<RecordView>>::empty());
    agg
}

/// Whether `words` holds `w`.
fn contains(words: &Vec<String>, w: &String) -> (r: bool)
    ensures
        r == words.deep_view().contains(w@),
{
    match find_position(words, w) {
        Some(i) => {
            assert(words.deep_view()[i as int] == w@) by {
                lemma_first_position(words.deep_view(), w@);
            }
            true
        },
        None => {
            proof {
                lemma_first_position(words.deep_view(), w@);
            }
            false
        },
    }
}

} // verus!

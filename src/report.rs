//! Ordering counts for ranked lists and chart series.
use vstd::prelude::*;
use crate::text::chars_of;

verus! {

broadcast use vstd::seq_lib::group_to_multiset_ensures;

/// Counts in ascending order.
pub open spec fn ascending(s: Seq<(String, u64)>) -> bool {
    forall|i: int, j: int| 0 <= i < j < s.len() ==> s[i].1 <= s[j].1
}

/// The display length of a ranked list over `n` entries.
pub open spec fn ranked_len(n: nat, limit: nat) -> nat {
    if limit < n {
        limit
    } else {
        n
    }
}

proof fn lemma_insert_to_multiset<A>(s: Seq<A>, i: int, x: A)
    requires
        0 <= i <= s.len(),
    ensures
        s.insert(i, x).to_multiset() =~= s.to_multiset().insert(x),
{
    let u = s.insert(i, x);
    assert(u.remove(i) =~= s);
    assert(u[i] == x);
    assert(u.to_multiset().count(x) > 0) by {
        assert(u.contains(x));
    }
}

/// The entries sorted by count, ascending. Entries with equal counts may
/// come in any order.
pub fn sorted_source(source: &Vec<(String, u64)>) -> (r: Vec<(String, u64)>)
    ensures
        r@.to_multiset() == source@.to_multiset(),
        ascending(r@),
{
    let mut out: Vec<(String, u64)> = Vec::new();
    let mut k: usize = 0;
    while k < source.len()
        invariant
            k <= source.len(),
            out@.to_multiset() == source@.take(k as int).to_multiset(),
            ascending(out@),
        decreases source.len() - k,
    {
        let c = source[k].1;
        let mut p: usize = 0;
        while p < out.len() && out[p].1 <= c
            invariant
                p <= out.len(),
                forall|i: int| 0 <= i < p ==> out[i].1 <= c,
            decreases out.len() - p,
        {
            p = p + 1;
        }
        let ghost before = out@;
        let e = (source[k].0.clone(), c);
        assert(e == source[k as int]);
        out.insert(p, e);
        proof {
            lemma_insert_to_multiset(before, p as int, e);
            assert(source@.take(k + 1) =~= source@.take(k as int).push(e));
            assert forall|i: int, j: int| 0 <= i < j < out.len() implies out[i].1 <= out[j].1 by {
                if j < p {
                } else if j == p {
                    assert(out[i] == before[i]);
                } else if i < p {
                    assert(out[i] == before[i]);
                    assert(out[j] == before[j - 1]);
                    assert(before[j - 1].1 > c || j - 1 >= p);
                } else if i == p {
                    assert(out[j] == before[j - 1]);
                } else {
                    assert(out[i] == before[i - 1]);
                    assert(out[j] == before[j - 1]);
                }
            }
        }
        k = k + 1;
    }
    assert(source@.take(k as int) =~= source@);
    out
}

/// The ranked list: the entries by count, highest first, cut to `limit`.
/// Entries with equal counts may come in either order.
pub fn ranked(source: &Vec<(String, u64)>, limit: usize) -> (r: Vec<(String, u64)>)
    ensures
        r.len() == ranked_len(source.len() as nat, limit as nat),
        exists|s: Seq<(String, u64)>|
            s.to_multiset() == source@.to_multiset() && ascending(s) && r@ == s.reverse().take(
                r.len() as int,
            ),
{
    let sorted = sorted_source(source);
    let n = sorted.len();
    assert(n == source.len()) by {
        assert(sorted@.to_multiset().len() == source@.to_multiset().len());
    }
    let k: usize = if limit < n {
        limit
    } else {
        n
    };
    let mut out: Vec<(String, u64)> = Vec::new();
    let mut j: usize = 0;
    while j < k
        invariant
            j <= k <= n,
            n == sorted.len(),
            out@ == sorted@.reverse().take(j as int),
        decreases k - j,
    {
        let e = (sorted[n - 1 - j].0.clone(), sorted[n - 1 - j].1);
        assert(e == sorted@.reverse()[j as int]);
        out.push(e);
        assert(out@ =~= sorted@.reverse().take(j + 1));
        j = j + 1;
    }
    out
}

/// The axis label of a month index (0 for January); `?` outside 0 to 11.
pub open spec fn month_name(m: u32) -> Seq<char> {
    if m == 0 {
        "Jan"@
    } else if m == 1 {
        "Feb"@
    } else if m == 2 {
        "Mar"@
    } else if m == 3 {
        "Apr"@
    } else if m == 4 {
        "Maj"@
    } else if m == 5 {
        "Jun"@
    } else if m == 6 {
        "Jul"@
    } else if m == 7 {
        "Aug"@
    } else if m == 8 {
        "Sep"@
    } else if m == 9 {
        "Oct"@
    } else if m == 10 {
        "Nov"@
    } else if m == 11 {
        "Dec"@
    } else {
        "?"@
    }
}

/// The axis label of a month index (0 for January).
pub fn month_label(m: u32) -> (r: &'static str)
    ensures
        r@ == month_name(m),
{
    match m {
        0 => "Jan",
        1 => "Feb",
        2 => "Mar",
        3 => "Apr",
        4 => "Maj",
        5 => "Jun",
        6 => "Jul",
        7 => "Aug",
        8 => "Sep",
        9 => "Oct",
        10 => "Nov",
        11 => "Dec",
        _ => "?",
    }
}

/// The largest count of a series, 0 for an empty one.
pub fn series_max(data: &Vec<(u32, u64)>) -> (r: u64)
    ensures
        forall|i: int| 0 <= i < data.len() ==> data[i].1 <= r,
        data.len() == 0 ==> r == 0,
        data.len() > 0 ==> exists|i: int| 0 <= i < data.len() && data[i].1 == r,
{
    let mut best: u64 = 0;
    let mut i: usize = 0;
    while i < data.len()
        invariant
            i <= data.len(),
            forall|j: int| 0 <= j < i ==> data[j].1 <= best,
            i == 0 ==> best == 0,
            i > 0 ==> exists|j: int| 0 <= j < i && data[j].1 == best,
        decreases data.len() - i,
    {
        if i == 0 || data[i].1 > best {
            best = data[i].1;
        }
        i = i + 1;
    }
    best
}

/// Whether `a` comes before `b` in the order of their character codes, a
/// proper prefix first.
pub open spec fn text_before(a: Seq<char>, b: Seq<char>) -> bool
    decreases a.len(),
{
    if a.len() == 0 {
        b.len() > 0
    } else if b.len() == 0 {
        false
    } else if a[0] != b[0] {
        a[0] < b[0]
    } else {
        text_before(a.drop_first(), b.drop_first())
    }
}

/// Texts in order, none before an earlier one.
pub open spec fn texts_sorted(s: Seq<Seq<char>>) -> bool {
    forall|i: int, j: int| 0 <= i < j < s.len() ==> !text_before(s[j], s[i])
}

/// The texts joined with `sep` between neighbours.
pub open spec fn join(ws: Seq<Seq<char>>, sep: Seq<char>) -> Seq<char>
    decreases ws.len(),
{
    if ws.len() == 0 {
        Seq::empty()
    } else if ws.len() == 1 {
        ws[0]
    } else {
        join(ws.drop_last(), sep) + sep + ws.last()
    }
}

/// A word between double quotes.
pub open spec fn quoted(w: Seq<char>) -> Seq<char> {
    seq!['"'] + w + seq!['"']
}

/// Each word between double quotes.
pub open spec fn quoted_all(ws: Seq<Seq<char>>) -> Seq<Seq<char>> {
    ws.map_values(|w: Seq<char>| quoted(w))
}

proof fn lemma_text_before_irreflexive(a: Seq<char>)
    ensures
        !text_before(a, a),
    decreases a.len(),
{
    if a.len() > 0 {
        lemma_text_before_irreflexive(a.drop_first());
    }
}

proof fn lemma_text_before_transitive(a: Seq<char>, b: Seq<char>, c: Seq<char>)
    requires
        text_before(a, b),
        text_before(b, c),
    ensures
        text_before(a, c),
    decreases a.len(),
{
    if a.len() > 0 && b.len() > 0 && c.len() > 0 && a[0] == b[0] && b[0] == c[0] {
        lemma_text_before_transitive(a.drop_first(), b.drop_first(), c.drop_first());
    }
}

/// Whether `a` comes before `b` in the order of their character codes.
fn chars_before(a: &Vec<char>, b: &Vec<char>) -> (r: bool)
    ensures
        r == text_before(a@, b@),
{
    let mut i: usize = 0;
    assert(a@.skip(0) =~= a@);
    assert(b@.skip(0) =~= b@);
    while i < a.len() && i < b.len()
        invariant
            i <= a.len(),
            i <= b.len(),
            text_before(a@.skip(i as int), b@.skip(i as int)) == text_before(a@, b@),
        decreases a.len() - i,
    {
        if a[i] != b[i] {
            assert(a@.skip(i as int)[0] == a[i as int]);
            assert(b@.skip(i as int)[0] == b[i as int]);
            return a[i] < b[i];
        }
        assert(a@.skip(i as int).drop_first() =~= a@.skip(i + 1));
        assert(b@.skip(i as int).drop_first() =~= b@.skip(i + 1));
        i = i + 1;
    }
    i < b.len()
}

/// Appends the characters of `s` to `out`.
fn push_all(out: &mut Vec<char>, s: &Vec<char>)
    ensures
        final(out)@ == old(out)@ + s@,
{
    let mut i: usize = 0;
    while i < s.len()
        invariant
            i <= s.len(),
            out@ == old(out)@ + s@.take(i as int),
        decreases s.len() - i,
    {
        out.push(s[i]);
        assert(old(out)@ + s@.take(i + 1) =~= out@);
        i = i + 1;
    }
    assert(s@.take(i as int) =~= s@);
}

/// Relies on collecting characters into a `String` (`FromIterator<char>`):
/// the string holds those characters in order.
#[verifier::external_body]
fn string_of(cs: &Vec<char>) -> (r: String)
    ensures
        r@ == cs@,
{
    cs.iter().collect()
}

/// Sorts texts by character codes.
fn sort_texts(ws: Vec<Vec<char>>) -> (r: Vec<Vec<char>>)
    ensures
        r.deep_view().to_multiset() == ws.deep_view().to_multiset(),
        texts_sorted(r.deep_view()),
{
    let mut out: Vec<Vec<char>> = Vec::new();
    let mut k: usize = 0;
    while k < ws.len()
        invariant
            k <= ws.len(),
            out.deep_view().to_multiset() == ws.deep_view().take(k as int).to_multiset(),
            texts_sorted(out.deep_view()),
        decreases ws.len() - k,
    {
        let x = ws[k].clone();
        let mut p: usize = 0;
        let mut found = false;
        while !found && p < out.len()
            invariant
                p <= out.len(),
                forall|i: int| 0 <= i < p ==> !text_before(x@, #[trigger] out.deep_view()[i]),
                found ==> p < out.len() && text_before(x@, out.deep_view()[p as int]),
            decreases out.len() - p + (if found {
                0int
            } else {
                1int
            }),
        {
            assert(out.deep_view()[p as int] == out[p as int]@);
            if chars_before(&x, &out[p]) {
                found = true;
            } else {
                p = p + 1;
            }
        }
        let ghost before = out.deep_view();
        assert(x@ == ws.deep_view()[k as int]);
        out.insert(p, x);
        proof {
            let now = out.deep_view();
            assert(now =~= before.insert(p as int, x@));
            lemma_insert_to_multiset(before, p as int, x@);
            assert(ws.deep_view().take(k + 1) =~= ws.deep_view().take(k as int).push(x@));
            assert forall|i: int, j: int| 0 <= i < j < now.len() implies !text_before(
                now[j],
                now[i],
            ) by {
                if j < p {
                } else if j == p {
                } else if i < p {
                    assert(now[j] == before[j - 1]);
                } else if i == p {
                    assert(now[j] == before[j - 1]);
                    if text_before(now[j], x@) {
                        if j - 1 == p {
                            lemma_text_before_transitive(x@, before[p as int], x@);
                            lemma_text_before_irreflexive(x@);
                        } else {
                            lemma_text_before_transitive(before[j - 1], x@, before[p as int]);
                        }
                    }
                } else {
                    assert(now[i] == before[i - 1]);
                    assert(now[j] == before[j - 1]);
                }
            }
        }
        k = k + 1;
    }
    assert(ws.deep_view().take(k as int) =~= ws.deep_view());
    out
}

/// The title of the word-usage report: `Words by month` where every token
/// matches, else `Uses of ` and the quoted words in order of their
/// character codes, joined by ` / `, then ` by month`.
pub fn word_report_title(words: &Vec<String>, any: bool) -> (r: String)
    ensures
        any ==> r@ == "Words by month"@,
        !any ==> exists|s: Seq<Seq<char>>|
            s.to_multiset() == quoted_all(words.deep_view()).to_multiset()
                && texts_sorted(s) && r@ == "Uses of "@ + join(s, " / "@) + " by month"@,
{
    if any {
        return String::from_str("Words by month");
    }
    let mut qs: Vec<Vec<char>> = Vec::new();
    let mut k: usize = 0;
    while k < words.len()
        invariant
            k <= words.len(),
            qs.len() == k,
            qs.deep_view() == quoted_all(words.deep_view().take(k as int)),
        decreases words.len() - k,
    {
        let mut q: Vec<char> = Vec::new();
        q.push('"');
        let w = chars_of(words[k].as_str());
        push_all(&mut q, &w);
        q.push('"');
        assert(words.deep_view()[k as int] == words[k as int]@);
        assert(q@ =~= quoted(words.deep_view()[k as int]));
        let ghost prev = qs.deep_view();
        assert(q.deep_view() =~= q@);
        let ghost qd = q.deep_view();
        qs.push(q);
        assert(qs.deep_view()[k as int] == qd);
        assert(qs.deep_view() =~= prev.push(quoted(words.deep_view()[k as int])));
        assert(quoted_all(words.deep_view().take(k + 1)) =~= quoted_all(
            words.deep_view().take(k as int),
        ).push(quoted(words.deep_view()[k as int])));
        k = k + 1;
    }
    assert(words.deep_view().take(k as int) =~= words.deep_view());
    let sorted = sort_texts(qs);
    let ghost s = sorted.deep_view();
    let mut out = chars_of("Uses of ");
    let sep = chars_of(" / ");
    let ghost head = out@;
    let mut j: usize = 0;
    while j < sorted.len()
        invariant
            j <= sorted.len(),
            s == sorted.deep_view(),
            sep@ == " / "@,
            out@ == head + join(s.take(j as int), " / "@),
        decreases sorted.len() - j,
    {
        let ghost prev = out@;
        if j > 0 {
            push_all(&mut out, &sep);
        }
        push_all(&mut out, &sorted[j]);
        assert(s.take(j + 1).drop_last() =~= s.take(j as int));
        if j == 0 {
            assert(join(s.take(1), " / "@) == s[0]);
            assert(out@ =~= head + join(s.take(1), " / "@));
        } else {
            assert(out@ =~= head + join(s.take(j + 1), " / "@));
        }
        j = j + 1;
    }
    assert(s.take(j as int) =~= s);
    let tail = chars_of(" by month");
    push_all(&mut out, &tail);
    string_of(&out)
}

} // verus!

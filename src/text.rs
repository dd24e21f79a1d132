//! Splitting message text into lowercase alphabetic tokens.
use vstd::prelude::*;

verus! {

/// Whether `c` belongs to the Unicode `Alphabetic` class.
pub uninterp spec fn alphabetic(c: char) -> bool;

/// The Unicode lowercase mapping of a character sequence.
pub uninterp spec fn lowercase_of(s: Seq<char>) -> Seq<char>;

/// Relies on `char::is_alphabetic`: whether the character is in the
/// Unicode `Alphabetic` class, which depends on the character alone.
#[verifier::external_body]
fn is_alphabetic(c: char) -> (r: bool)
    ensures
        r == alphabetic(c),
{
    c.is_alphabetic()
}

/// Relies on `str::to_lowercase` (applied to the characters collected into a
/// string): the result depends on the characters alone, and an empty input
/// gives an empty output.
#[verifier::external_body]
pub(crate) fn lowercase(s: &Vec<char>) -> (r: String)
    ensures
        r@ == lowercase_of(s@),
        s@.len() == 0 ==> r@.len() == 0,
{
    s.iter().collect::<String>().to_lowercase()
}

/// The pieces of `s` between non-alphabetic characters, empty pieces
/// included: a text with `n` delimiters has `n + 1` pieces.
pub open spec fn pieces(s: Seq<char>) -> Seq<Seq<char>>
    decreases s.len(),
{
    if s.len() == 0 {
        seq![Seq::empty()]
    } else {
        let p = pieces(s.drop_last());
        if alphabetic(s.last()) {
            p.update(p.len() - 1, p.last().push(s.last()))
        } else {
            p.push(Seq::empty())
        }
    }
}

/// The lowercase forms of the pieces, in order, with empty results dropped.
pub open spec fn keep_tokens(ps: Seq<Seq<char>>) -> Seq<Seq<char>>
    decreases ps.len(),
{
    if ps.len() == 0 {
        Seq::empty()
    } else {
        let rest = keep_tokens(ps.drop_last());
        let w = lowercase_of(ps.last());
        if w.len() > 0 {
            rest.push(w)
        } else {
            rest
        }
    }
}

/// The tokens of a message text.
pub open spec fn tokens(s: Seq<char>) -> Seq<Seq<char>> {
    keep_tokens(pieces(s))
}

proof fn lemma_pieces_len(s: Seq<char>)
    ensures
        pieces(s).len() >= 1,
    decreases s.len(),
{
    if s.len() > 0 {
        lemma_pieces_len(s.drop_last());
    }
}

/// Splits `s` at every non-alphabetic character, lowercases each piece and
/// keeps the non-empty results, in order.
pub fn tokenize(s: &str) -> (r: Vec<String>)
    ensures
        r.deep_view() == tokens(s@),
        r.len() <= s@.len(),
{
    let mut out: Vec<String> = Vec::new();
    let mut cur: Vec<char> = Vec::new();
    proof {
        lemma_pieces_len(s@.take(0));
    }
    for c in it: s.chars()
        invariant
            it.seq() == s@,
            pieces(s@.take(it.index() as int)).len() >= 1,
            out.deep_view() == keep_tokens(pieces(s@.take(it.index() as int)).drop_last()),
            cur@ == pieces(s@.take(it.index() as int)).last(),
            out.len() + cur.len() <= it.index(),
    {
        let ghost i = it.index() as int;
        let ghost pre = s@.take(i);
        let ghost p = pieces(pre);
        assert(s@.take(i + 1).drop_last() =~= pre);
        assert(s@.take(i + 1).last() == c);
        if is_alphabetic(c) {
            cur.push(c);
            assert(p.update(p.len() - 1, p.last().push(c)).drop_last() =~= p.drop_last());
        } else {
            let w = lowercase(&cur);
            assert(p.push(Seq::empty()).drop_last() =~= p);
            if w.unicode_len() > 0 {
                out.push(w);
                assert(out.deep_view() =~= keep_tokens(p.drop_last()).push(w@));
            }
            cur = Vec::new();
        }
        proof {
            lemma_pieces_len(s@.take(i + 1));
        }
    }
    let ghost n = s@.len();
    assert(s@.take(n as int) =~= s@);
    let ghost p = pieces(s@);
    let w = lowercase(&cur);
    if w.unicode_len() > 0 {
        out.push(w);
        assert(out.deep_view() =~= keep_tokens(p.drop_last()).push(w@));
    }
    out
}

/// The characters of `s`, in order.
pub fn chars_of(s: &str) -> (r: Vec<char>)
    ensures
        r@ == s@,
{
    let mut out: Vec<char> = Vec::new();
    for c in it: s.chars()
        invariant
            it.seq() == s@,
            out@ == s@.take(it.index() as int),
    {
        assert(s@.take(it.index() + 1) =~= out@.push(c));
        out.push(c);
    }
    assert(s@.take(s@.len() as int) =~= s@);
    out
}

/// The lowercase form of a whole text.
pub fn lowercase_text(s: &str) -> (r: String)
    ensures
        r@ == lowercase_of(s@),
{
    let cs = chars_of(s);
    lowercase(&cs)
}

} // verus!

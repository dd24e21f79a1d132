//! Reading the command-line options.
use vstd::prelude::*;
use crate::text::{chars_of, lowercase_of, lowercase_text};

verus! {

/// Whether `c` is an ASCII decimal digit.
pub open spec fn is_digit(c: char) -> bool {
    '0' <= c <= '9'
}

/// The value of a sequence of decimal digits.
pub open spec fn numeral_value(d: Seq<char>) -> int
    decreases d.len(),
{
    if d.len() == 0 {
        0
    } else {
        10 * numeral_value(d.drop_last()) + (d.last() as u32 - '0' as u32)
    }
}

/// The digits of a count: the text without one leading `+`.
pub open spec fn count_digits(s: Seq<char>) -> Seq<char> {
    if s.len() > 0 && s[0] == '+' {
        s.drop_first()
    } else {
        s
    }
}

/// The value of a count written in decimal, with an optional leading `+`,
/// or `None` where the text is not one or the value exceeds `usize`.
pub open spec fn usize_of(s: Seq<char>) -> Option<usize> {
    let d = count_digits(s);
    if d.len() > 0 && (forall|i: int| 0 <= i < d.len() ==> is_digit(#[trigger] d[i]))
        && numeral_value(d) <= usize::MAX {
        Some(numeral_value(d) as usize)
    } else {
        None
    }
}

proof fn lemma_numeral_prefix(d: Seq<char>, k: int)
    requires
        0 <= k <= d.len(),
        forall|i: int| 0 <= i < d.len() ==> is_digit(#[trigger] d[i]),
    ensures
        0 <= numeral_value(d.take(k)) <= numeral_value(d),
    decreases d.len(),
{
    if k == d.len() {
        assert(d.take(k) =~= d);
        if d.len() > 0 {
            lemma_numeral_prefix(d.drop_last(), k - 1);
        }
    } else {
        let e = d.drop_last();
        assert(e.take(k) =~= d.take(k));
        lemma_numeral_prefix(e, k);
        assert(is_digit(d[d.len() - 1]));
    }
}

/// Reads a count written in decimal, such as `20` or `+7`.
pub fn parse_usize(s: &str) -> (r: Option<usize>)
    ensures
        r == usize_of(s@),
{
    let cs = chars_of(s);
    let n = cs.len();
    let start: usize = if n > 0 && cs[0] == '+' {
        1
    } else {
        0
    };
    let ghost d = count_digits(s@);
    assert(d =~= cs@.skip(start as int));
    if start == n {
        return None;
    }
    let mut acc: usize = 0;
    let mut i: usize = start;
    while i < n
        invariant
            start <= i <= n,
            n == cs.len(),
            cs@ == s@,
            d == cs@.skip(start as int),
            d == count_digits(s@),
            forall|j: int| 0 <= j < i - start ==> is_digit(#[trigger] d[j]),
            acc as int == numeral_value(d.take(i - start)),
        decreases n - i,
    {
        let c = cs[i];
        assert(c == d[i - start]);
        if !('0' <= c && c <= '9') {
            assert(!is_digit(d[i - start]));
            return None;
        }
        let dig = (c as u32 - '0' as u32) as usize;
        let ghost k = i - start + 1;
        assert(d.take(k).drop_last() =~= d.take(i - start));
        assert(d.take(k).last() == c);
        assert(numeral_value(d.take(k)) == 10 * acc + dig);
        if acc > (usize::MAX - dig) / 10 {
            proof {
                assert(acc * 10 + dig > usize::MAX) by (nonlinear_arith)
                    requires
                        acc > (usize::MAX - dig) / 10,
                        dig <= 9,
                ;
                if forall|j: int| 0 <= j < d.len() ==> is_digit(#[trigger] d[j]) {
                    lemma_numeral_prefix(d, k);
                }
            }
            return None;
        }
        assert(acc * 10 + dig <= usize::MAX) by (nonlinear_arith)
            requires
                acc <= (usize::MAX - dig) / 10,
                dig <= 9,
        ;
        acc = acc * 10 + dig;
        i = i + 1;
    }
    assert(d.take(n - start) =~= d);
    Some(acc)
}

/// What a run reports on.
#[derive(Debug)]
pub struct Options {
    /// The lowercase words to match, each once.
    pub words: Vec<String>,
    /// Match every token.
    pub any: bool,
    /// Print the ranked list of token totals.
    pub count: bool,
    /// Draw the distribution of contributions.
    pub dist: bool,
    /// The length of the ranked lists.
    pub limit: usize,
}

/// What the arguments ask for.
#[derive(Debug)]
pub enum Command {
    Help,
    Run(Options),
}

/// Why the arguments were refused.
#[derive(Clone, Copy, Debug, PartialEq, Eq, Structural)]
pub enum ArgError {
    /// `--word` is the last argument.
    MissingWord,
    /// `--limit` is the last argument.
    MissingLimit,
    /// The argument after `--limit` is not a count.
    BadLimit,
    /// The argument at this index is not an option.
    Unsupported(usize),
}

/// Options as plain values.
pub struct Settings {
    pub words: Seq<Seq<char>>,
    pub any: bool,
    pub count: bool,
    pub dist: bool,
    pub limit: usize,
}

impl View for Options {
    type V = Settings;

    open spec fn view(&self) -> Settings {
        Settings {
            words: self.words.deep_view(),
            any: self.any,
            count: self.count,
            dist: self.dist,
            limit: self.limit,
        }
    }
}

impl Options {
    /// Whether the word-usage report is asked for: some word is given, or
    /// every token matches.
    pub fn wants_word_report(&self) -> (r: bool)
        ensures
            r == (self@.words.len() > 0 || self@.any),
    {
        self.words.len() > 0 || self.any
    }
}

/// No words, no flags, lists of 20.
pub open spec fn default_settings() -> Settings {
    Settings { words: Seq::empty(), any: false, count: false, dist: false, limit: 20 }
}

/// `w` added to the words unless it is there already.
pub open spec fn add_word(ws: Seq<Seq<char>>, w: Seq<char>) -> Seq<Seq<char>> {
    if ws.contains(w) {
        ws
    } else {
        ws.push(w)
    }
}

/// The outcome of reading `args` from index `i` on, with `o` read so far:
/// `Ok(None)` where help is asked for.
pub open spec fn parse_from(args: Seq<Seq<char>>, i: int, o: Settings) -> Result<
    Option<Settings>,
    ArgError,
>
    decreases args.len() - i,
{
    if i < 0 || i >= args.len() {
        Ok(Some(o))
    } else {
        let a = args[i];
        if a == "--word"@ {
            if i + 1 >= args.len() {
                Err(ArgError::MissingWord)
            } else {
                parse_from(
                    args,
                    i + 2,
                    Settings { words: add_word(o.words, lowercase_of(args[i + 1])), ..o },
                )
            }
        } else if a == "--any"@ {
            parse_from(args, i + 1, Settings { any: true, ..o })
        } else if a == "--count"@ {
            parse_from(args, i + 1, Settings { count: true, ..o })
        } else if a == "--dist"@ {
            parse_from(args, i + 1, Settings { dist: true, ..o })
        } else if a == "--limit"@ {
            if i + 1 >= args.len() {
                Err(ArgError::MissingLimit)
            } else {
                match usize_of(args[i + 1]) {
                    Some(n) => parse_from(args, i + 2, Settings { limit: n, ..o }),
                    None => Err(ArgError::BadLimit),
                }
            }
        } else if a == "-h"@ || a == "--help"@ {
            Ok(None)
        } else {
            Err(ArgError::Unsupported(i as usize))
        }
    }
}

/// Whether the word list holds `w`.
fn has_word(ws: &Vec<String>, w: &String) -> (r: bool)
    ensures
        r == ws.deep_view().contains(w@),
{
    let mut i: usize = 0;
    while i < ws.len()
        invariant
            i <= ws.len(),
            forall|k: int| 0 <= k < i ==> ws.deep_view()[k] != w@,
        decreases ws.len() - i,
    {
        if ws[i] == *w {
            assert(ws.deep_view()[i as int] == w@);
            return true;
        }
        i = i + 1;
    }
    false
}

/// Reads the arguments that follow the program name: `--word <w>` (kept
/// in lowercase, each word once), `--any`, `--count`, `--dist`,
/// `--limit <n>` (20 by default), and `-h` or `--help`, which asks for help
/// whatever stands after it.
pub fn parse_args(args: &Vec<String>) -> (r: Result<Command, ArgError>)
    ensures
        match r {
            Ok(Command::Help) => parse_from(args.deep_view(), 0, default_settings()) == Ok::<
                Option<Settings>,
                ArgError,
            >(None),
            Ok(Command::Run(o)) => parse_from(args.deep_view(), 0, default_settings()) == Ok::<
                Option<Settings>,
                ArgError,
            >(Some(o@)),
            Err(e) => parse_from(args.deep_view(), 0, default_settings()) == Err::<
                Option<Settings>,
                ArgError,
            >(e),
        },
{
    let ghost av = args.deep_view();
    let mut o = Options { words: Vec::new(), any: false, count: false, dist: false, limit: 20 };
    assert(o@.words =~= default_settings().words);
    let word = String::from_str("--word");
    let any = String::from_str("--any");
    let count = String::from_str("--count");
    let dist = String::from_str("--dist");
    let limit = String::from_str("--limit");
    let short_help = String::from_str("-h");
    let help = String::from_str("--help");
    let mut i: usize = 0;
    while i < args.len()
        invariant
            i <= args.len(),
            av == args.deep_view(),
            word@ == "--word"@,
            any@ == "--any"@,
            count@ == "--count"@,
            dist@ == "--dist"@,
            limit@ == "--limit"@,
            short_help@ == "-h"@,
            help@ == "--help"@,
            parse_from(av, i as int, o@) == parse_from(av, 0, default_settings()),
        decreases args.len() - i,
    {
        let a = &args[i];
        assert(a@ == av[i as int]);
        if *a == word {
            if i + 1 >= args.len() {
                return Err(ArgError::MissingWord);
            }
            assert(args[i + 1]@ == av[i + 1]);
            let w = lowercase_text(args[i + 1].as_str());
            let ghost before = o.words.deep_view();
            if !has_word(&o.words, &w) {
                o.words.push(w);
                assert(o.words.deep_view() =~= before.push(w@));
            }
            assert(o.words.deep_view() == add_word(before, w@));
            i = i + 2;
        } else if *a == any {
            o.any = true;
            i = i + 1;
        } else if *a == count {
            o.count = true;
            i = i + 1;
        } else if *a == dist {
            o.dist = true;
            i = i + 1;
        } else if *a == limit {
            if i + 1 >= args.len() {
                return Err(ArgError::MissingLimit);
            }
            assert(args[i + 1]@ == av[i + 1]);
            match parse_usize(args[i + 1].as_str()) {
                Some(n) => {
                    o.limit = n;
                },
                None => {
                    return Err(ArgError::BadLimit);
                },
            }
            i = i + 2;
        } else if *a == short_help || *a == help {
            return Ok(Command::Help);
        } else {
            return Err(ArgError::Unsupported(i));
        }
    }
    Ok(Command::Run(o))
}

} // verus!

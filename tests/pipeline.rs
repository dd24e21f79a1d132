use chat::{
    aggregate, load_collection, month_label, parse_export_date, ranked, records_from_table,
    series_max, sorted_source, tokenize, Aggregate, CalendarDate, LoadError, Record,
};

fn rec(author: &str, date: &str, content: &str) -> Record {
    Record {
        author_id: format!("id-{}", author),
        author: author.to_string(),
        date: date.to_string(),
        content: content.to_string(),
        attachments: String::new(),
        reactions: String::new(),
    }
}

fn strings(v: &[&str]) -> Vec<String> {
    v.iter().map(|s| s.to_string()).collect()
}

fn entry(name: &str, n: u64) -> (String, u64) {
    (name.to_string(), n)
}

#[test]
fn tokenize_splits_on_digits_and_punctuation() {
    assert_eq!(tokenize("Hello, World! 123go"), strings(&["hello", "world", "go"]));
}

#[test]
fn tokenize_edge_cases() {
    assert_eq!(tokenize(""), Vec::<String>::new());
    assert_eq!(tokenize("123 !?"), Vec::<String>::new());
    assert_eq!(tokenize("ÀBC déf"), strings(&["àbc", "déf"]));
    assert_eq!(tokenize("a1b"), strings(&["a", "b"]));
}

#[test]
fn parse_export_date_reads_the_pattern() {
    assert_eq!(
        parse_export_date("05-Jan-23 10:15 PM"),
        Some(CalendarDate { year: 2023, month: 1, day: 5 })
    );
    assert_eq!(
        parse_export_date("17-May-21 09:00 AM"),
        Some(CalendarDate { year: 2021, month: 5, day: 17 })
    );
    assert_eq!(parse_export_date("garbage"), None);
    assert_eq!(parse_export_date(""), None);
}

#[test]
fn date_fail_fast_stops_the_collection() {
    let records = vec![
        rec("alice", "01-Jan-23 10:00 AM", "one two"),
        rec("bob", "garbage", "three"),
        rec("carol", "02-Feb-23 10:00 AM", "four five six"),
    ];
    let colls = vec![("c".to_string(), records)];
    let agg = aggregate(&colls, &Vec::new(), true);
    let mut step = Aggregate::new();
    assert_eq!(step.add_collection(&colls[0].1, &Vec::new(), true), Some(1));
    assert_eq!(step.author_totals(), agg.author_totals());
    assert_eq!(agg.total_tokens(), 2);
    assert_eq!(agg.author_totals(), vec![entry("alice", 2)]);
    assert_eq!(agg.author_matches(), vec![entry("alice", 2)]);
    let months = agg.month_series();
    assert_eq!(months[0], (0, 2));
    assert_eq!(months[1], (1, 0));
}

#[test]
fn fail_fast_is_per_collection() {
    let colls = vec![
        ("a".to_string(), vec![rec("x", "garbage", "lost words")]),
        ("b".to_string(), vec![rec("y", "03-Mar-23 01:00 PM", "kept")]),
    ];
    let agg = aggregate(&colls, &Vec::new(), false);
    assert_eq!(agg.total_tokens(), 1);
    assert_eq!(agg.author_totals(), vec![entry("y", 1)]);
    assert_eq!(agg.author_matches(), vec![]);
}

#[test]
fn any_mode_counts_every_token() {
    let colls = vec![(
        "c".to_string(),
        vec![
            rec("alice", "01-Jan-23 10:00 AM", "Hi there, hi!"),
            rec("bob", "05-Jun-23 10:00 PM", "ok"),
        ],
    )];
    let agg = aggregate(&colls, &Vec::new(), true);
    assert_eq!(agg.total_tokens(), 4);
    assert_eq!(agg.author_matches(), agg.author_totals());
    let months = agg.month_series();
    assert_eq!(months[0], (0, 3));
    assert_eq!(months[5], (5, 1));
}

#[test]
fn word_set_matches_only_its_words() {
    let colls = vec![(
        "c".to_string(),
        vec![
            rec("alice", "01-Jan-23 10:00 AM", "Hi there, HI!"),
            rec("bob", "05-May-23 10:00 PM", "hi"),
            rec("carol", "06-May-23 10:00 PM", "nothing"),
            rec("alice", "07-Jul-23 10:00 PM", ""),
        ],
    )];
    let agg = aggregate(&colls, &strings(&["hi"]), false);
    assert_eq!(agg.total_tokens(), 5);
    assert_eq!(
        agg.author_totals(),
        vec![entry("alice", 3), entry("bob", 1), entry("carol", 1)]
    );
    assert_eq!(agg.author_matches(), vec![entry("alice", 2), entry("bob", 1)]);
    let months = agg.month_series();
    assert_eq!(months.len(), 12);
    assert_eq!(months[0], (0, 2));
    assert_eq!(months[4], (4, 1));
    assert_eq!(months[6], (6, 0));
}

#[test]
fn sums_balance_and_matches_within_totals() {
    let colls = vec![
        (
            "a".to_string(),
            vec![
                rec("alice", "01-Jan-23 10:00 AM", "cat dog cat"),
                rec("bob", "02-Feb-23 10:00 AM", "dog bird"),
            ],
        ),
        ("b".to_string(), vec![rec("alice", "03-Dec-22 10:00 AM", "cat")]),
    ];
    let agg = aggregate(&colls, &strings(&["cat", "bird"]), false);
    let totals = agg.author_totals();
    let matches = agg.author_matches();
    let total_sum: u64 = totals.iter().map(|e| e.1).sum();
    let match_sum: u64 = matches.iter().map(|e| e.1).sum();
    let month_sum: u64 = agg.month_series().iter().map(|e| e.1).sum();
    assert_eq!(agg.total_tokens(), total_sum);
    assert_eq!(month_sum, match_sum);
    assert_eq!(match_sum, 4);
    assert_eq!(totals, vec![entry("alice", 4), entry("bob", 2)]);
    for (name, m) in &matches {
        let t = totals.iter().find(|e| &e.0 == name).unwrap().1;
        assert!(*m <= t);
    }
    assert_eq!(agg.month_series()[11], (11, 1));
}

#[test]
fn zero_files_give_zero_aggregates() {
    let agg = aggregate(&Vec::new(), &Vec::new(), false);
    assert_eq!(agg.total_tokens(), 0);
    assert_eq!(agg.author_totals(), vec![]);
    assert_eq!(agg.author_matches(), vec![]);
    assert!(agg.month_series().iter().all(|e| e.1 == 0));
    let fresh = Aggregate::new();
    assert_eq!(fresh.total_tokens(), 0);
}

#[test]
fn add_record_counts_one_message() {
    let mut agg = Aggregate::new();
    agg.add_record(&rec("dave", "x", "a b c"), 3, &strings(&["b"]), false);
    assert_eq!(agg.total_tokens(), 3);
    assert_eq!(agg.author_matches(), vec![entry("dave", 1)]);
    assert_eq!(agg.month_series()[2], (2, 1));
    let stop =
        agg.add_collection(&vec![rec("erin", "04-Apr-23 11:11 AM", "b")], &strings(&["b"]), false);
    assert_eq!(stop, None);
    assert_eq!(agg.author_totals(), vec![entry("dave", 3), entry("erin", 1)]);
    assert_eq!(agg.month_series()[3], (3, 1));
}

#[test]
fn ranked_list_shows_highest_first_up_to_limit() {
    let counts = vec![entry("alice", 5), entry("bob", 9), entry("carol", 9)];
    let top = ranked(&counts, 2);
    assert_eq!(top.len(), 2);
    assert_eq!(top[0].1, 9);
    assert_eq!(top[1].1, 9);
    let mut names: Vec<&str> = top.iter().map(|e| e.0.as_str()).collect();
    names.sort();
    assert_eq!(names, vec!["bob", "carol"]);
    let lines: Vec<String> = top
        .iter()
        .enumerate()
        .map(|(i, e)| format!("#{:02}: {}", i + 1, e.0))
        .collect();
    assert!(lines[0].starts_with("#01: "));
    assert!(lines[1].starts_with("#02: "));
    assert_eq!(ranked(&counts, 20).len(), 3);
    assert_eq!(ranked(&counts, 20)[2], entry("alice", 5));
    assert_eq!(ranked(&Vec::new(), 5), vec![]);
}

#[test]
fn sorted_source_is_ascending() {
    let counts = vec![entry("x", 3), entry("y", 1), entry("z", 3), entry("w", 2)];
    let sorted = sorted_source(&counts);
    let ns: Vec<u64> = sorted.iter().map(|e| e.1).collect();
    assert_eq!(ns, vec![1, 2, 3, 3]);
    assert_eq!(sorted[0], entry("y", 1));
    assert_eq!(sorted[1], entry("w", 2));
    let mut tied: Vec<&str> = sorted[2..].iter().map(|e| e.0.as_str()).collect();
    tied.sort();
    assert_eq!(tied, vec!["x", "z"]);
}

#[test]
fn contribution_distribution_is_ascending_fractions() {
    let colls = vec![(
        "c".to_string(),
        vec![
            rec("b", "01-Jan-23 10:00 AM", "x y z"),
            rec("a", "01-Jan-23 10:00 AM", "w"),
        ],
    )];
    let agg = aggregate(&colls, &Vec::new(), false);
    assert_eq!(agg.total_tokens(), 4);
    let sorted_sum: u64 = sorted_source(&agg.author_totals()).iter().map(|e| e.1).sum();
    assert_eq!(sorted_sum, agg.total_tokens());
    let total = agg.total_tokens() as f64;
    let fractions: Vec<f64> = sorted_source(&agg.author_totals())
        .into_iter()
        .map(|(_, n)| n as f64 / total)
        .collect();
    assert_eq!(fractions, vec![0.25, 0.75]);
}

#[test]
fn month_labels_and_series_max() {
    assert_eq!(month_label(0), "Jan");
    assert_eq!(month_label(4), "Maj");
    assert_eq!(month_label(11), "Dec");
    assert_eq!(month_label(12), "?");
    assert_eq!(series_max(&vec![(0, 3), (1, 7), (2, 5)]), 7);
    assert_eq!(series_max(&vec![]), 0);
}

#[test]
fn load_collection_reads_rows_by_header_name() {
    let csv = "Date,AuthorID,Author,Content,Attachments,Reactions\n\
               01-Jan-23 10:00 AM,1,alice,\"hello, world\",,\n\
               02-Jan-23 11:00 AM,2,bob,hi,file.png,:)\n";
    let (name, records) =
        load_collection("general".to_string(), Some(csv.as_bytes().to_vec())).unwrap();
    assert_eq!(name, "general");
    assert_eq!(records.len(), 2);
    assert_eq!(records[0].author, "alice");
    assert_eq!(records[0].author_id, "1");
    assert_eq!(records[0].content, "hello, world");
    assert_eq!(records[0].date, "01-Jan-23 10:00 AM");
    assert_eq!(records[1].attachments, "file.png");
    assert_eq!(records[1].reactions, ":)");
}

#[test]
fn load_collection_skips_unreadable_files() {
    let (_, records) = load_collection("gone".to_string(), None).unwrap();
    assert!(records.is_empty());
    let bad = vec![b'A', b',', 0xff, 0xfe, b'\n', b'x', b',', 0xff, b'\n'];
    let (_, records) = load_collection("bad".to_string(), Some(bad)).unwrap();
    assert!(records.is_empty());
    let (_, records) = load_collection("empty".to_string(), Some(Vec::new())).unwrap();
    assert!(records.is_empty());
}

#[test]
fn load_collection_rejects_schema_violations() {
    let missing = "AuthorID,Author,Date,Content,Attachments\n1,a,d,c,x\n";
    let (name, records) =
        load_collection("m".to_string(), Some(missing.as_bytes().to_vec())).unwrap();
    assert_eq!(name, "m");
    assert!(records.is_empty());
    let mut bad_row = "AuthorID,Author,Date,Content,Attachments,Reactions\n1,a,d,c,x,r\n"
        .as_bytes()
        .to_vec();
    bad_row.extend_from_slice(&[b'2', b',', 0xff, b',', b'd', b',', b'c', b',', b'x', b',', b'r', b'\n']);
    assert_eq!(
        load_collection("t".to_string(), Some(bad_row)).unwrap_err(),
        LoadError::RowText(2)
    );
    let mut bad_first = "AuthorID,Author,Date,Content,Attachments,Reactions\n".as_bytes().to_vec();
    bad_first.extend_from_slice(&[0xfe, b',', b'a', b',', b'd', b',', b'c', b',', b'x', b',', b'r', b'\n']);
    assert_eq!(
        load_collection("u".to_string(), Some(bad_first)).unwrap_err(),
        LoadError::RowText(1)
    );
    let mut bad_missing = "AuthorID,Author\n".as_bytes().to_vec();
    bad_missing.extend_from_slice(&[0xff, b',', b'a', b'\n']);
    assert!(load_collection("v".to_string(), Some(bad_missing)).unwrap().1.is_empty());
    let header_only = "AuthorID,Author\n";
    assert!(load_collection("h".to_string(), Some(header_only.as_bytes().to_vec()))
        .unwrap()
        .1
        .is_empty());
    let short = "AuthorID,Author,Date,Content,Attachments,Reactions\n1,a,d,c,x,r\n2,b,d\n";
    assert_eq!(
        load_collection("s".to_string(), Some(short.as_bytes().to_vec())).unwrap_err(),
        LoadError::RowWidth(2)
    );
}

#[test]
fn records_from_table_maps_columns() {
    let table = vec![
        strings(&["Reactions", "Attachments", "Content", "Date", "Author", "AuthorID", "Extra"]),
        strings(&["r", "a", "c", "d", "au", "id", "e"]),
    ];
    let recs = records_from_table(&table).unwrap();
    assert_eq!(recs.len(), 1);
    assert_eq!(recs[0].author_id, "id");
    assert_eq!(recs[0].author, "au");
    assert_eq!(recs[0].date, "d");
    assert_eq!(recs[0].content, "c");
    assert_eq!(recs[0].attachments, "a");
    assert_eq!(recs[0].reactions, "r");
    assert_eq!(records_from_table(&vec![]).unwrap().len(), 0);
    let partial = vec![strings(&["AuthorID", "Author"]), strings(&["1", "a"])];
    assert_eq!(records_from_table(&partial).unwrap().len(), 0);
}

fn args(v: &[&str]) -> Vec<String> {
    strings(v)
}

#[test]
fn parse_args_reads_options() {
    match chat::parse_args(&args(&["--word", "Hej", "--any", "--count", "--dist", "--limit", "5", "--word", "hej"])) {
        Ok(chat::Command::Run(o)) => {
            assert_eq!(o.words, strings(&["hej"]));
            assert!(o.any && o.count && o.dist);
            assert!(o.wants_word_report());
            assert_eq!(o.limit, 5);
        }
        other => panic!("unexpected {:?}", other),
    }
    match chat::parse_args(&Vec::new()) {
        Ok(chat::Command::Run(o)) => {
            assert!(o.words.is_empty());
            assert!(!o.any && !o.count && !o.dist);
            assert!(!o.wants_word_report());
            assert_eq!(o.limit, 20);
        }
        other => panic!("unexpected {:?}", other),
    }
}

#[test]
fn parse_args_help_and_errors() {
    assert!(matches!(chat::parse_args(&args(&["--count", "-h", "--bogus"])), Ok(chat::Command::Help)));
    assert!(matches!(chat::parse_args(&args(&["--help"])), Ok(chat::Command::Help)));
    assert_eq!(chat::parse_args(&args(&["--word"])).unwrap_err(), chat::ArgError::MissingWord);
    assert_eq!(chat::parse_args(&args(&["--limit"])).unwrap_err(), chat::ArgError::MissingLimit);
    assert_eq!(chat::parse_args(&args(&["--limit", "x"])).unwrap_err(), chat::ArgError::BadLimit);
    assert_eq!(chat::parse_args(&args(&["--limit", "-1"])).unwrap_err(), chat::ArgError::BadLimit);
    assert_eq!(chat::parse_args(&args(&["--any", "--bogus"])).unwrap_err(), chat::ArgError::Unsupported(1));
}

#[test]
fn parse_usize_reads_counts() {
    assert_eq!(chat::parse_usize("20"), Some(20));
    assert_eq!(chat::parse_usize("+7"), Some(7));
    assert_eq!(chat::parse_usize("007"), Some(7));
    assert_eq!(chat::parse_usize(""), None);
    assert_eq!(chat::parse_usize("+"), None);
    assert_eq!(chat::parse_usize("-1"), None);
    assert_eq!(chat::parse_usize("1a"), None);
    assert_eq!(chat::parse_usize("++1"), None);
    let max = usize::MAX.to_string();
    assert_eq!(chat::parse_usize(&max), Some(usize::MAX));
    let over = format!("{}0", max);
    assert_eq!(chat::parse_usize(&over), None);
    for t in ["0", "42", "+0", " 1", "1 ", "٣", "99999999999999999999999", "", "+-1"] {
        assert_eq!(chat::parse_usize(t), t.parse::<usize>().ok(), "{:?}", t);
    }
}

#[test]
fn word_report_title_quotes_and_sorts() {
    assert_eq!(chat::word_report_title(&strings(&["hej", "abc"]), false), "Uses of \"abc\" / \"hej\" by month");
    assert_eq!(chat::word_report_title(&strings(&["solo"]), false), "Uses of \"solo\" by month");
    assert_eq!(chat::word_report_title(&strings(&["a", "a!"]), false), "Uses of \"a!\" / \"a\" by month");
    assert_eq!(chat::word_report_title(&strings(&["x"]), true), "Words by month");
    assert_eq!(chat::word_report_title(&Vec::new(), true), "Words by month");
}

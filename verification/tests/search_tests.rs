use minigrep::search::{search, search_case_insensitive, search_iter};

#[test]
fn one_result() {
    let query = "duct";
    let contents = "\
Rust:
safe, fast, productive.
Pick three.";

    assert_eq!(vec![(2, "safe, fast, productive.")], search(query, contents));
}

#[test]
fn case_insensitive() {
    let query = "rUsT";
    let contents = "\
Rust:
safe, fast, productive.
Pick three.";

    assert_eq!(vec![(1, "Rust:")], search_case_insensitive(query, contents))
}

#[test]
fn sensitive_search_misses_other_case() {
    let query = "rUsT";
    let contents = "\
Rust:
safe, fast, productive.
Pick three.";

    assert_eq!(search(query, contents), Vec::<(usize, &str)>::new());
}

#[test]
fn empty_contents_yields_empty_result() {
    assert_eq!(search("", ""), Vec::<(usize, &str)>::new());
    assert_eq!(search("anything", ""), Vec::<(usize, &str)>::new());
    assert_eq!(search_case_insensitive("", ""), Vec::<(usize, &str)>::new());
    assert_eq!(
        search_case_insensitive("anything", ""),
        Vec::<(usize, &str)>::new()
    );
}

#[test]
fn empty_query_matches_every_line() {
    let contents = "alpha\nbeta\ngamma";
    assert_eq!(
        search("", contents),
        vec![(1, "alpha"), (2, "beta"), (3, "gamma")]
    );
    assert_eq!(
        search_case_insensitive("", contents),
        vec![(1, "alpha"), (2, "beta"), (3, "gamma")]
    );
}

#[test]
fn crlf_line_endings_are_stripped() {
    let contents = "one\r\ntwo\r\nthree";
    assert_eq!(search("two", contents), vec![(2, "two")]);
    assert_eq!(search_iter(contents), vec![(1, "one"), (2, "two"), (3, "three")]);
}

#[test]
fn lone_carriage_return_is_kept() {
    let contents = "a\rb\nc";
    assert_eq!(search_iter(contents), vec![(1, "a\rb"), (2, "c")]);
    assert_eq!(search("a\rb", contents), vec![(1, "a\rb")]);
}

#[test]
fn trailing_newline_opens_no_extra_line() {
    assert_eq!(search("hit", "hit\n"), vec![(1, "hit")]);
    assert_eq!(search_iter("hit\n"), vec![(1, "hit")]);
    assert_eq!(search_iter("hit\n\n"), vec![(1, "hit"), (2, "")]);
}

#[test]
fn search_iter_numbers_lines_from_one() {
    assert_eq!(search_iter(""), Vec::<(usize, &str)>::new());
    assert_eq!(search_iter("a\nb"), vec![(1, "a"), (2, "b")]);
    assert_eq!(search_iter("\n\n"), vec![(1, ""), (2, "")]);
}

#[test]
fn line_numbers_are_ascending_and_bounded() {
    let contents = "ant\nbee\nant\nbee";
    let hits = search("bee", contents);
    assert_eq!(hits, vec![(2, "bee"), (4, "bee")]);
    let line_count = search_iter(contents).len();
    for window in hits.windows(2) {
        assert!(window[0].0 < window[1].0);
    }
    for (n, _) in &hits {
        assert!(1 <= *n && *n <= line_count);
    }
}

#[test]
fn repeated_calls_agree() {
    let contents = "Rust:\nsafe, fast, productive.\nPick three.";
    assert_eq!(search("t", contents), search("t", contents));
    assert_eq!(
        search_case_insensitive("PICK", contents),
        search_case_insensitive("PICK", contents)
    );
}

#[test]
fn sensitive_matches_are_a_subset_of_insensitive() {
    let contents = "Stone\nfirst\nlast\nSTOP";
    let query = "st";
    let sensitive = search(query, contents);
    let insensitive = search_case_insensitive(query, contents);
    assert_eq!(sensitive, vec![(2, "first"), (3, "last")]);
    assert_eq!(insensitive, vec![(1, "Stone"), (2, "first"), (3, "last"), (4, "STOP")]);
    for hit in &sensitive {
        assert!(insensitive.contains(hit));
    }
}

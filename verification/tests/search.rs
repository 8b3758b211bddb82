use minigrep::error::exit_status;
use minigrep::search::{contains, split_first_line};
use minigrep::{search, Config, Error};

/// What the standard library finds for the same question.
fn expected<'a>(query: &str, contents: &'a str) -> Vec<&'a str> {
    contents.lines().filter(|line| line.contains(query)).collect()
}

#[test]
fn both_lines_hold_nobody() {
    let contents = "I'm nobody! Who are you?\nI'm nobody too!";
    assert_eq!(
        search("nobody", contents),
        vec!["I'm nobody! Who are you?", "I'm nobody too!"]
    );
}

#[test]
fn no_line_holds_xyz() {
    assert_eq!(search("xyz", "a\nb\nc"), Vec::<&str>::new());
}

#[test]
fn search_is_case_sensitive() {
    assert_eq!(search("RUST", "rust is great"), Vec::<&str>::new());
    assert_eq!(search("rust", "rust is great"), vec!["rust is great"]);
    assert_eq!(search("Rust", "Rust\nrust\nRUST\ntRust"), vec!["Rust", "tRust"]);
}

#[test]
fn end_to_end_the_quick_fox() {
    let args = vec![
        String::from("minigrep"),
        String::from("the"),
        String::from("fox.txt"),
    ];
    let config = match Config::new(&args) {
        Ok(config) => config,
        Err(_) => panic!("three arguments are enough"),
    };
    let contents = ["the quick fox", "a lazy dog"].join("\n");
    let printed = search(config.query, &contents);
    assert_eq!(printed, vec!["the quick fox"]);
    let outcome: Result<(), Error> = Ok(());
    assert_eq!(exit_status(&outcome), 0);
}

#[test]
fn a_run_without_matches_still_exits_with_zero() {
    let printed = search("cat", "the quick fox\na lazy dog\n");
    assert!(printed.is_empty());
    assert_eq!(exit_status(&Ok(())), 0);
}

#[test]
fn one_result() {
    let contents = "Rust:\nsafe, fast, productive.\nPick three.";
    assert_eq!(search("duct", contents), vec!["safe, fast, productive."]);
}

#[test]
fn lines_come_in_their_original_order() {
    let contents = "b1\na\nb2\nb3\nc\nb4";
    assert_eq!(search("b", contents), vec!["b1", "b2", "b3", "b4"]);
}

#[test]
fn a_line_that_matches_twice_is_returned_once() {
    assert_eq!(search("na", "banana\nnone"), vec!["banana"]);
}

#[test]
fn equal_lines_are_each_returned() {
    assert_eq!(search("x", "x\ny\nx\nx"), vec!["x", "x", "x"]);
}

#[test]
fn empty_contents_have_no_lines() {
    assert_eq!(search("a", ""), Vec::<&str>::new());
    assert_eq!(search("", ""), Vec::<&str>::new());
}

#[test]
fn the_empty_query_selects_every_line() {
    assert_eq!(search("", "a\n\nb\n"), vec!["a", "", "b"]);
    assert_eq!(search("", "\n"), vec![""]);
    assert_eq!(search("", "\n\n"), vec!["", ""]);
}

#[test]
fn a_final_line_ending_opens_no_line() {
    assert_eq!(search("a", "a\n"), vec!["a"]);
    assert_eq!(search("a", "a"), vec!["a"]);
    assert_eq!(search("a", "a\na\n"), vec!["a", "a"]);
}

#[test]
fn a_query_never_matches_across_a_line_ending() {
    assert_eq!(search("ab", "a\nb"), Vec::<&str>::new());
    assert_eq!(search("a\nb", "a\nb"), Vec::<&str>::new());
    assert_eq!(search("\n", "a\nb\n"), Vec::<&str>::new());
}

#[test]
fn carriage_return_before_line_feed_belongs_to_the_line_ending() {
    assert_eq!(search("o", "one\r\ntwo\r\nsix\r\n"), vec!["one", "two"]);
    assert_eq!(search("\r", "one\r\ntwo\r\n"), Vec::<&str>::new());
    assert_eq!(search("", "\r\n"), vec![""]);
}

#[test]
fn only_one_carriage_return_is_taken_off() {
    assert_eq!(search("a", "a\r\r\nb"), vec!["a\r"]);
}

#[test]
fn a_lone_carriage_return_stays_in_the_line() {
    assert_eq!(search("a", "a\rb\nc"), vec!["a\rb"]);
    assert_eq!(search("\r", "a\rb\nc"), vec!["a\rb"]);
    assert_eq!(search("b", "a\nb\r"), vec!["b\r"]);
}

#[test]
fn the_query_may_be_the_whole_line() {
    assert_eq!(search("whole", "whole\nwhole line\nwhol"), vec!["whole", "whole line"]);
}

#[test]
fn the_query_may_stand_at_either_end_of_a_line() {
    assert_eq!(search("ab", "abxx\nxxab\nxabx\naxb"), vec!["abxx", "xxab", "xabx"]);
}

#[test]
fn a_query_longer_than_every_line_matches_none() {
    assert_eq!(search("a long query", "a\nlong\nquery"), Vec::<&str>::new());
}

#[test]
fn a_repetitive_query_is_found_after_a_false_start() {
    assert_eq!(search("aab", "aaab\naaba\nabab"), vec!["aaab", "aaba"]);
}

#[test]
fn text_beyond_ascii_is_searched_by_character() {
    let contents = "na\u{ef}ve caf\u{e9}\n\u{65e5}\u{672c}\u{8a9e}\nemoji \u{1f980} crab\nplain";
    assert_eq!(search("caf\u{e9}", contents), vec!["na\u{ef}ve caf\u{e9}"]);
    assert_eq!(search("\u{672c}", contents), vec!["\u{65e5}\u{672c}\u{8a9e}"]);
    assert_eq!(search("\u{1f980}", contents), vec!["emoji \u{1f980} crab"]);
    assert_eq!(search("e", contents), vec!["na\u{ef}ve caf\u{e9}", "emoji \u{1f980} crab"]);
    assert_eq!(search("\u{e8}", contents), Vec::<&str>::new());
}

#[test]
fn found_lines_are_parts_of_the_contents() {
    let contents = String::from("first line\r\nsecond line\nthird");
    let start = contents.as_ptr() as usize;
    let end = start + contents.len();
    let found = search("i", &contents);
    assert_eq!(found, vec!["first line", "second line", "third"]);
    for line in found {
        let at = line.as_ptr() as usize;
        assert!(start <= at && at + line.len() <= end);
    }
}

#[test]
fn search_twice_finds_the_same() {
    let contents = "one\ntwo\nthree\nfour";
    assert_eq!(search("o", contents), search("o", contents));
}

#[test]
fn search_agrees_with_the_standard_library() {
    let texts = [
        "",
        "\n",
        "\r",
        "\r\n",
        "\n\n",
        "\n\r",
        "\r\r\n",
        "abc",
        "abc\n",
        "abc\r\n",
        "abc\r",
        "\nabc",
        "a\n\nb",
        "a\r\n\r\nb\r\n",
        "ab\rcd\nef",
        "the quick fox\na lazy dog",
        "I'm nobody! Who are you?\nI'm nobody too!",
        "\u{e9}\n\u{e9}\u{e9}\r\n\u{1f980}\u{e9}\n",
    ];
    let queries = ["", "a", "b", "ab", "bc", "\r", "\n", "o", "the", "nobody", "\u{e9}", "\u{1f980}"];
    for contents in texts {
        for query in queries {
            assert_eq!(search(query, contents), expected(query, contents));
        }
    }
}

#[test]
fn contains_finds_a_part_anywhere() {
    assert!(contains("haystack", "hay"));
    assert!(contains("haystack", "yst"));
    assert!(contains("haystack", "stack"));
    assert!(contains("haystack", "haystack"));
    assert!(contains("haystack", ""));
    assert!(contains("", ""));
}

#[test]
fn contains_refuses_what_is_not_a_part() {
    assert!(!contains("haystack", "needle"));
    assert!(!contains("haystack", "haystacks"));
    assert!(!contains("haystack", "hs"));
    assert!(!contains("haystack", "Hay"));
    assert!(!contains("", "a"));
}

#[test]
fn contains_agrees_with_the_standard_library() {
    let texts = ["", "a", "aa", "ab", "ba", "aab", "abab", "\u{e9}a", "a\u{e9}", "\u{1f980}"];
    for haystack in texts {
        for needle in texts {
            assert_eq!(contains(haystack, needle), haystack.contains(needle));
        }
    }
}

#[test]
fn split_first_line_cuts_at_the_first_line_feed() {
    assert_eq!(split_first_line("one\ntwo\nthree"), ("one", "two\nthree"));
    assert_eq!(split_first_line("one\r\ntwo"), ("one", "two"));
    assert_eq!(split_first_line("\nrest"), ("", "rest"));
    assert_eq!(split_first_line("last\n"), ("last", ""));
}

#[test]
fn split_first_line_takes_all_of_a_text_without_line_feed() {
    assert_eq!(split_first_line("only"), ("only", ""));
    assert_eq!(split_first_line("only\r"), ("only\r", ""));
}

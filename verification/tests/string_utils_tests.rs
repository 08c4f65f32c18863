use cli_table::string_utils::adapt_to_width;
use cli_table::string_utils::char_n_times;
use cli_table::string_utils::is_empty;
use cli_table::string_utils::num_chars;

#[test]
fn adapt_to_width_width_zero_works() {
    assert_eq!(adapt_to_width("foo", 0), "")
}

#[test]
fn adapt_to_width_works() {
    vec![
        ("foo", "foo"),
        ("foo bar baz", "foo bar\nbaz"),
        ("foobarbaz", "foobarb"),
        ("foo barbazoof", "foo\nbarbazo"),
    ]
    .into_iter()
    .for_each(|(l, r)| assert_eq!(adapt_to_width(l, 7), r))
}

#[test]
fn num_chars_works() {
    vec!["abcd", "äöüß", "abäö"]
        .into_iter()
        .for_each(|s| assert_eq!(num_chars(s), 4))
}

#[test]
fn is_empty_works() {
    vec![("", true), ("foo", false), ("  foo  ", false), ("      ", true)]
        .into_iter()
        .for_each(|(s, expected)| assert_eq!(is_empty(s), expected))
}

#[test]
fn char_n_times_works() {
    vec![('a', "aaaa"), (' ', "    "), ('ö', "öööö")]
        .into_iter()
        .for_each(|(c, expected)| assert_eq!(char_n_times(c, 4), expected))
}

#[test]
fn adapt_to_width_is_idempotent_on_examples() {
    for s in [
        "foo bar baz",
        "foobarbaz",
        "foo barbazoof",
        "one two three four five",
        "pre\nset lines stay  put\n",
        "   spaced   out   ",
    ] {
        for w in 1..10 {
            let once = adapt_to_width(s, w);
            assert_eq!(adapt_to_width(&once, w), once);
        }
    }
}

#[test]
fn adapt_to_width_bounds_every_line() {
    for s in [
        "foo bar baz",
        "foobarbaz",
        "a bb ccc dddd eeeee ffffff",
        "several\nexplicit\nlines that are rather long",
    ] {
        for w in 1..9 {
            let wrapped = adapt_to_width(s, w);
            for line in wrapped.split('\n') {
                assert!(num_chars(line) <= w);
            }
        }
        assert_eq!(adapt_to_width(s, 0), "");
    }
}

#[test]
fn adapt_to_width_keeps_explicit_breaks() {
    assert_eq!(adapt_to_width("foo\nbar", 7), "foo\nbar");
    assert_eq!(adapt_to_width("foo bar\nbaz quux", 7), "foo bar\nbaz\nquux");
}

#[test]
fn adapt_to_width_keeps_whitespace_only_lines() {
    assert_eq!(adapt_to_width("aaaa\n        \nbb", 3), "aaa\n\nbb");
    assert_eq!(adapt_to_width("a\n\nb", 5), "a\n\nb");
}

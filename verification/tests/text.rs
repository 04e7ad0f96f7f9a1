use tach::sorting::sort_names;
use tach::text::{
    chars_eq, chars_lt, chars_range_eq, digit_str, find_last, join_strings, str_chars, str_eq,
    str_lt, strings_contain, usize_to_string,
};

fn strings(items: &[&str]) -> Vec<String> {
    items.iter().map(|s| s.to_string()).collect()
}

#[test]
fn str_chars_lists_the_characters() {
    assert_eq!(str_chars("a.b"), vec!['a', '.', 'b']);
    assert_eq!(str_chars(""), Vec::<char>::new());
    assert_eq!(str_chars("ä€"), vec!['ä', '€']);
}

#[test]
fn lexicographic_order_agrees_with_the_order_of_strings() {
    let samples = ["", "a", "ab", "abc", "b", "a.b", "a-b", "a/b", "B", "ä", "z", "zz", "€"];
    for left in samples {
        for right in samples {
            assert_eq!(str_lt(left, right), left < right, "{:?} < {:?}", left, right);
            assert_eq!(str_eq(left, right), left == right, "{:?} == {:?}", left, right);
        }
    }
}

#[test]
fn a_prefix_comes_before_its_extensions() {
    assert!(chars_lt(&str_chars("pkg"), &str_chars("pkg.sub")));
    assert!(!chars_lt(&str_chars("pkg.sub"), &str_chars("pkg")));
    assert!(!chars_lt(&str_chars("pkg"), &str_chars("pkg")));
    assert!(chars_eq(&str_chars("pkg"), &str_chars("pkg")));
    assert!(!chars_eq(&str_chars("pkg"), &str_chars("pkh")));
}

#[test]
fn range_comparison() {
    let text = str_chars("pkg.sub.member");
    assert!(chars_range_eq(&text, 0, 7, &str_chars("pkg.sub")));
    assert!(chars_range_eq(&text, 8, 14, &str_chars("member")));
    assert!(!chars_range_eq(&text, 8, 14, &str_chars("membex")));
    assert!(!chars_range_eq(&text, 8, 13, &str_chars("member")));
    assert!(chars_range_eq(&text, 3, 3, &str_chars("")));
}

#[test]
fn find_last_finds_the_last_occurrence() {
    assert_eq!(find_last(&str_chars("a.b.c"), '.'), Some(3));
    assert_eq!(find_last(&str_chars(".abc"), '.'), Some(0));
    assert_eq!(find_last(&str_chars("abc"), '.'), None);
    assert_eq!(find_last(&str_chars(""), '.'), None);
}

#[test]
fn join_puts_the_separator_between_neighbours() {
    assert_eq!(join_strings(&strings(&[]), "\n"), "");
    assert_eq!(join_strings(&strings(&["a"]), "\n"), "a");
    assert_eq!(join_strings(&strings(&["a", "b", "c"]), "\n"), "a\nb\nc");
    assert_eq!(join_strings(&strings(&["", ""]), ", "), ", ");
}

#[test]
fn decimal_numerals() {
    assert_eq!(usize_to_string(0), "0");
    assert_eq!(usize_to_string(7), "7");
    assert_eq!(usize_to_string(10), "10");
    assert_eq!(usize_to_string(1234567890), "1234567890");
    assert_eq!(usize_to_string(usize::MAX), usize::MAX.to_string());
    for d in 0..10 {
        assert_eq!(digit_str(d), d.to_string());
    }
}

#[test]
fn strings_contain_compares_whole_strings() {
    let names = strings(&["pkg", "pkg.sub"]);
    assert!(strings_contain(&names, "pkg"));
    assert!(strings_contain(&names, "pkg.sub"));
    assert!(!strings_contain(&names, "pkg.su"));
    assert!(!strings_contain(&strings(&[]), "pkg"));
}

#[test]
fn sort_names_sorts_and_drops_repetitions() {
    assert_eq!(sort_names(&strings(&["b", "a", "c", "a", "b"])), strings(&["a", "b", "c"]));
    assert_eq!(sort_names(&strings(&[])), strings(&[]));
    assert_eq!(sort_names(&strings(&["x"])), strings(&["x"]));
    assert_eq!(
        sort_names(&strings(&["pkg.sub", "pkg", "pkg-x", "pkg.a", "pkg"])),
        strings(&["pkg", "pkg-x", "pkg.a", "pkg.sub"])
    );
}

#[test]
fn sort_names_agrees_with_sort_and_dedup() {
    let names = strings(&["delta", "alpha", "charlie", "alpha", "bravo", "delta", "", "Alpha"]);
    let mut expected = names.clone();
    expected.sort();
    expected.dedup();
    assert_eq!(sort_names(&names), expected);
}

#[test]
fn sort_names_ignores_the_order_of_its_input() {
    let forward = strings(&["a", "b", "c", "d"]);
    let backward = strings(&["d", "c", "c", "b", "a", "a"]);
    assert_eq!(sort_names(&forward), sort_names(&backward));
    assert_eq!(sort_names(&sort_names(&backward)), sort_names(&backward));
}

use adventura::utilities::{eq_ignore_ascii_case, indexize, progress_bar, same_text};

#[test]
fn indexize_reads_a_number_of_the_list() {
    assert_eq!(indexize("1", 5), Some(0));
    assert_eq!(indexize("5", 5), Some(4));
    assert_eq!(indexize("3", 3), Some(2));
    assert_eq!(indexize("12", 20), Some(11));
    assert_eq!(indexize("1", 1), Some(0));
}

#[test]
fn indexize_refuses_numbers_outside_the_list() {
    assert_eq!(indexize("0", 5), None);
    assert_eq!(indexize("6", 5), None);
    assert_eq!(indexize("1", 0), None);
    assert_eq!(indexize("100000000000000000000000000000000000", 5), None);
    assert_eq!(indexize("18446744073709551616", usize::MAX), None);
}

#[test]
fn indexize_accepts_a_plus_sign_and_leading_zeros() {
    assert_eq!(indexize("+3", 5), Some(2));
    assert_eq!(indexize("003", 5), Some(2));
    assert_eq!(indexize("+003", 5), Some(2));
    assert_eq!(indexize("000000000000000000000000000000000002", 2), Some(1));
}

#[test]
fn indexize_refuses_what_is_no_number() {
    for input in ["", "+", "-1", "-0", "++1", "1+", " 1", "1 ", "1.0", "one", "0x1", "1_0", "١", "²"] {
        assert_eq!(indexize(input, 50), None, "{input:?}");
    }
}

#[test]
fn indexize_agrees_with_the_standard_parser() {
    let inputs = [
        "", "+", "-", "0", "1", "2", "9", "10", "11", "+0", "+1", "+10", "-1", "01", "0010", "99",
        "100", "a", "1a", "a1", "+-1", "4294967295", "4294967296", "18446744073709551615",
        "18446744073709551616", "٣", "1٣",
    ];
    for range in [0usize, 1, 2, 10, 99, usize::MAX] {
        for input in inputs {
            let expected = match input.parse::<usize>() {
                Ok(n) if (1..=range).contains(&n) => Some(n - 1),
                _ => None,
            };
            assert_eq!(indexize(input, range), expected, "{input:?} in {range}");
        }
    }
}

#[test]
fn indexize_reaches_the_largest_number() {
    let largest = usize::MAX.to_string();
    assert_eq!(indexize(&largest, usize::MAX), Some(usize::MAX - 1));
    assert_eq!(indexize(&largest, usize::MAX - 1), None);
}

#[test]
fn progress_bar_fills_one_segment_per_share() {
    assert_eq!(progress_bar(0, 100, 10), "          ");
    assert_eq!(progress_bar(9, 100, 10), "          ");
    assert_eq!(progress_bar(10, 100, 10), "=         ");
    assert_eq!(progress_bar(55, 100, 10), "=====     ");
    assert_eq!(progress_bar(99, 100, 10), "========= ");
    assert_eq!(progress_bar(100, 100, 10), "==========");
}

#[test]
fn progress_bar_never_overfills() {
    assert_eq!(progress_bar(250, 100, 10), "==========");
    assert_eq!(progress_bar(u16::MAX, 15, 15), "===============");
    // 115 / 15 = 7 to a segment, so 105 already fills all fifteen
    assert_eq!(progress_bar(105, 115, 15), "===============");
    assert_eq!(progress_bar(104, 115, 15), "============== ");
}

#[test]
fn progress_bar_of_one_segment() {
    assert_eq!(progress_bar(0, 1, 1), " ");
    assert_eq!(progress_bar(1, 1, 1), "=");
    assert_eq!(progress_bar(4, 5, 1), " ");
    assert_eq!(progress_bar(5, 5, 1), "=");
}

#[test]
fn progress_bar_is_as_long_as_its_segments() {
    for segs in [1u16, 2, 10, 15, 40] {
        for current in [0u16, 1, 39, 40, 41, 1000] {
            let bar = progress_bar(current, 40, segs.min(40));
            assert_eq!(bar.len(), segs.min(40) as usize);
            let filled = bar.chars().take_while(|c| *c == '=').count();
            assert!(bar.chars().skip(filled).all(|c| c == ' '));
            let share = 40 / segs.min(40);
            assert_eq!(filled as u16, (current / share).min(segs.min(40)));
        }
    }
}

#[test]
fn case_of_basic_letters_is_ignored() {
    assert!(eq_ignore_ascii_case("", ""));
    assert!(eq_ignore_ascii_case("god", "GOD"));
    assert!(eq_ignore_ascii_case("GaBrIeL", "gabriel"));
    assert!(eq_ignore_ascii_case("a-1 z", "A-1 Z"));
    assert!(!eq_ignore_ascii_case("god", "good"));
    assert!(!eq_ignore_ascii_case("god", "go"));
    assert!(!eq_ignore_ascii_case("a", "b"));
    // characters 32 apart that are no letters stay different
    assert!(!eq_ignore_ascii_case("@", "`"));
    assert!(!eq_ignore_ascii_case("[", "{"));
    assert!(!eq_ignore_ascii_case("0", "P"));
    // letters outside the basic alphabet keep their case
    assert!(!eq_ignore_ascii_case("ä", "Ä"));
    assert!(eq_ignore_ascii_case("Äa", "ÄA"));
}

#[test]
fn case_comparison_agrees_with_the_standard_one() {
    let words = ["", "a", "A", "z", "Z", "@", "`", "[", "{", "aB", "Ab", "ab ", "é", "É", "K", "k", "\u{212A}"];
    for a in words {
        for b in words {
            assert_eq!(eq_ignore_ascii_case(a, b), a.eq_ignore_ascii_case(b), "{a:?} {b:?}");
        }
    }
}

#[test]
fn same_text_compares_whole_strings() {
    assert!(same_text("", ""));
    assert!(same_text("Apple", "Apple"));
    assert!(!same_text("Apple", "apple"));
    assert!(!same_text("Apple", "Apple "));
    assert!(!same_text("1", "١"));
}

use cipher_chat::word_frequency::{
    char_len, classify, count_words, fold_case, is_long_enough, keep_long_words, split_words,
    take_top, tally, word_frequencies,
};
use cipher_chat::word_order::WordCount;

fn chars(text: &str) -> Vec<char> {
    text.chars().collect()
}

fn words(list: &[&str]) -> Vec<Vec<char>> {
    list.iter().map(|w| chars(w)).collect()
}

fn entry(word: &str, count: usize) -> WordCount {
    WordCount { word: chars(word), count }
}

fn entries(list: &[(&str, usize)]) -> Vec<WordCount> {
    list.iter().map(|(w, c)| entry(w, *c)).collect()
}

#[test]
fn classify_marks_letters_and_digits() {
    assert_eq!(
        classify(&chars("ab 1-é_中!")),
        vec![true, true, false, true, false, true, false, true, false]
    );
    assert_eq!(classify(&chars("")), Vec::<bool>::new());
}

#[test]
fn classify_agrees_with_the_standard_library() {
    let text = chars("Hello, World! 123 ça va? ١٢٣ x² ½ \t\n_-–");
    let expected: Vec<bool> = text.iter().map(|c| c.is_alphanumeric()).collect();
    assert_eq!(classify(&text), expected);
}

#[test]
fn split_words_cuts_at_unmarked_characters() {
    let text = chars("ab cd,,ef");
    let mask = vec![true, true, false, true, true, false, false, true, true];
    assert_eq!(split_words(&text, &mask), Some(words(&["ab", "cd", "ef"])));
}

#[test]
fn split_words_follows_the_mask_alone() {
    let text = chars("abcdef");
    assert_eq!(
        split_words(&text, &[true, false, true, true, false, true]),
        Some(words(&["a", "cd", "f"]))
    );
    assert_eq!(split_words(&text, &[false; 6]), Some(words(&[])));
    assert_eq!(split_words(&text, &[true; 6]), Some(words(&["abcdef"])));
    assert_eq!(
        split_words(&text, &[false, true, true, false, false, false]),
        Some(words(&["bc"]))
    );
    assert_eq!(split_words(&[], &[]), Some(words(&[])));
}

#[test]
fn split_words_refuses_a_mask_of_another_length() {
    assert_eq!(split_words(&chars("abc"), &[true, true]), None);
    assert_eq!(split_words(&chars("abc"), &[true, true, true, true]), None);
    assert_eq!(split_words(&chars(""), &[true]), None);
}

#[test]
fn fold_case_lowers_only_when_asked() {
    let list = words(&["Hello", "WORLD", "ÉCOLE", "mixed9"]);
    assert_eq!(fold_case(list.clone(), false), list);
    assert_eq!(fold_case(list, true), words(&["hello", "world", "école", "mixed9"]));
}

#[test]
fn fold_case_may_change_the_length_of_a_word() {
    assert_eq!(fold_case(words(&["İ"]), true), words(&["i\u{307}"]));
    assert_eq!(fold_case(words(&["ΟΔΟΣ"]), true), words(&["οδος"]));
}

#[test]
fn char_len_is_the_length_in_utf8() {
    for c in ['a', '\u{7f}', '\u{80}', 'é', '\u{7ff}', '\u{800}', '中', '\u{ffff}', '\u{10000}', '😀']
    {
        assert_eq!(char_len(c), c.len_utf8());
    }
    assert_eq!(char_len('a'), 1);
    assert_eq!(char_len('é'), 2);
    assert_eq!(char_len('中'), 3);
    assert_eq!(char_len('😀'), 4);
}

#[test]
fn is_long_enough_counts_bytes() {
    assert!(is_long_enough(&chars("abc"), 3));
    assert!(!is_long_enough(&chars("abc"), 4));
    assert!(is_long_enough(&chars("é"), 2));
    assert!(!is_long_enough(&chars("é"), 3));
    assert!(is_long_enough(&chars("中文"), 6));
    assert!(!is_long_enough(&chars("中文"), 7));
    assert!(is_long_enough(&chars(""), 0));
    assert!(!is_long_enough(&chars(""), 1));
    assert!(is_long_enough(&chars("a"), 0));
    assert!(!is_long_enough(&chars("abc"), usize::MAX));
}

#[test]
fn keep_long_words_drops_the_short_ones() {
    let list = words(&["a", "to", "the", "é", "word", "I"]);
    assert_eq!(keep_long_words(&list, 0), list);
    assert_eq!(keep_long_words(&list, 1), list);
    assert_eq!(keep_long_words(&list, 2), words(&["to", "the", "é", "word"]));
    assert_eq!(keep_long_words(&list, 3), words(&["the", "word"]));
    assert_eq!(keep_long_words(&list, 5), words(&[]));
}

fn by_word(mut list: Vec<WordCount>) -> Vec<WordCount> {
    list.sort_by(|a, b| a.word.cmp(&b.word));
    list
}

#[test]
fn tally_counts_each_word_once() {
    let list = words(&["b", "a", "b", "c", "a", "b"]);
    assert_eq!(by_word(tally(&list)), entries(&[("a", 2), ("b", 3), ("c", 1)]));
    assert_eq!(tally(&words(&[])), entries(&[]));
    assert_eq!(tally(&words(&["x", "x", "x"])), entries(&[("x", 3)]));
}

#[test]
fn tally_tells_words_apart_by_case() {
    let list = words(&["The", "the", "THE", "the"]);
    assert_eq!(by_word(tally(&list)), entries(&[("THE", 1), ("The", 1), ("the", 2)]));
}

#[test]
fn count_words_lists_the_most_frequent_first() {
    let list = words(&["pear", "apple", "fig", "apple", "fig", "apple", "date", "date"]);
    assert_eq!(
        count_words(&list),
        entries(&[("apple", 3), ("date", 2), ("fig", 2), ("pear", 1)])
    );
}

#[test]
fn take_top_cuts_the_list() {
    let list = entries(&[("a", 3), ("b", 2), ("c", 1)]);
    assert_eq!(take_top(entries(&[("a", 3), ("b", 2), ("c", 1)]), 2), entries(&[("a", 3), ("b", 2)]));
    assert_eq!(take_top(entries(&[("a", 3), ("b", 2), ("c", 1)]), 0), entries(&[]));
    assert_eq!(take_top(entries(&[("a", 3), ("b", 2), ("c", 1)]), 3), list);
    assert_eq!(take_top(entries(&[("a", 3), ("b", 2), ("c", 1)]), 10), list);
}

#[test]
fn word_frequencies_of_a_sentence() {
    let text = chars("the quick brown fox jumps over the lazy dog. The dog barks; the fox runs!");
    assert_eq!(
        word_frequencies(&text, 10, 1, false),
        entries(&[
            ("the", 3),
            ("dog", 2),
            ("fox", 2),
            ("The", 1),
            ("barks", 1),
            ("brown", 1),
            ("jumps", 1),
            ("lazy", 1),
            ("over", 1),
            ("quick", 1),
        ])
    );
}

#[test]
fn word_frequencies_ignoring_case() {
    let text = chars("the quick brown fox jumps over the lazy dog. The dog barks; the fox runs!");
    assert_eq!(
        word_frequencies(&text, 3, 1, true),
        entries(&[("the", 4), ("dog", 2), ("fox", 2)])
    );
}

#[test]
fn word_frequencies_with_a_least_length() {
    let text = chars("a bb ccc a bb ccc dddd é éé");
    assert_eq!(
        word_frequencies(&text, 10, 3, false),
        entries(&[("ccc", 2), ("dddd", 1), ("éé", 1)])
    );
    assert_eq!(
        word_frequencies(&text, 10, 2, false),
        entries(&[("bb", 2), ("ccc", 2), ("dddd", 1), ("é", 1), ("éé", 1)])
    );
}

#[test]
fn word_frequencies_of_nothing() {
    assert_eq!(word_frequencies(&chars(""), 10, 1, false), entries(&[]));
    assert_eq!(word_frequencies(&chars(" ,.;!? \n\t"), 10, 1, false), entries(&[]));
    assert_eq!(word_frequencies(&chars("some words here"), 0, 1, false), entries(&[]));
}

#[test]
fn word_frequencies_split_at_every_other_character() {
    let text = chars("don't stop-me_now 2fast4you  x²");
    assert_eq!(
        word_frequencies(&text, 10, 1, false),
        entries(&[
            ("2fast4you", 1),
            ("don", 1),
            ("me", 1),
            ("now", 1),
            ("stop", 1),
            ("t", 1),
            ("x²", 1),
        ])
    );
}

#[test]
fn word_frequencies_agree_with_a_plain_count() {
    let source = "It was the best of times, it was the worst of times, it was the age of \
                  wisdom, it was the age of foolishness, it was the epoch of belief, it was \
                  the epoch of incredulity, it was the season of Light, it was the season of \
                  Darkness";
    for ignore_case in [false, true] {
        for min_length in [0usize, 1, 3, 5] {
            let mut counts: std::collections::HashMap<String, usize> =
                std::collections::HashMap::new();
            for word in source.split(|c: char| !c.is_alphanumeric()).filter(|s| !s.is_empty()) {
                let mut processed = word.to_string();
                if ignore_case {
                    processed = processed.to_lowercase();
                }
                if processed.len() >= min_length {
                    *counts.entry(processed).or_insert(0) += 1;
                }
            }
            let mut sorted: Vec<(String, usize)> = counts.into_iter().collect();
            sorted.sort_by(|a, b| b.1.cmp(&a.1).then_with(|| a.0.cmp(&b.0)));
            for top in [0usize, 1, 4, 100] {
                let expected: Vec<WordCount> =
                    sorted.iter().take(top).map(|(w, c)| entry(w, *c)).collect();
                assert_eq!(word_frequencies(&chars(source), top, min_length, ignore_case), expected);
            }
        }
    }
}

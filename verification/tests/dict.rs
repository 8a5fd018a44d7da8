use hangman::dict::Dict;

fn words(ws: &[&str]) -> Vec<String> {
    ws.iter().map(|w| w.to_string()).collect()
}

#[test]
fn from_words_sorts_by_length_stably() {
    let d = Dict::from_words(words(&["DOG", "A", "CAT", "BE", "AT"]));
    assert_eq!(d.inner, words(&["A", "BE", "AT", "DOG", "CAT"]));
}

#[test]
fn get_len_index_gives_each_length_range() {
    let d = Dict::from_words(words(&["DOG", "A", "CAT", "BE", "AT", "HORSE"]));
    assert_eq!(d.get_len_index(0), (0, 0));
    assert_eq!(d.get_len_index(1), (0, 1));
    assert_eq!(d.get_len_index(2), (1, 3));
    assert_eq!(d.get_len_index(3), (3, 5));
    assert_eq!(d.get_len_index(4), (5, 5));
    assert_eq!(d.get_len_index(5), (5, 6));
}

#[test]
fn lengths_count_bytes() {
    // "É" takes two bytes, so "ÉA" sorts with the three-letter words.
    let d = Dict::from_words(words(&["ÉA", "AB", "ABC"]));
    assert_eq!(d.inner, words(&["AB", "ÉA", "ABC"]));
    assert_eq!(d.get_len_index(3), (1, 3));
}

#[test]
fn words_of_len_copies_the_range() {
    let d = Dict::from_words(words(&["DOG", "A", "CAT", "BE", "AT"]));
    assert_eq!(d.words_of_len(3), words(&["DOG", "CAT"]));
    assert_eq!(d.words_of_len(0), Vec::<String>::new());
}

#[test]
fn single_word_dictionary() {
    let d = Dict::from_words(words(&["WORD"]));
    assert_eq!(d.get_len_index(4), (0, 1));
    assert_eq!(d.get_len_index(2), (0, 0));
}

#[test]
fn reaches_finds_long_enough_words() {
    let d = Dict::from_words(words(&["DOG", "A"]));
    assert!(d.reaches(3));
    assert!(d.reaches(0));
    assert!(!d.reaches(4));
}

#[test]
fn index_ranges_count_shorter_words() {
    let input = words(&["ABE", "AEB", "ACD", "X", "YZ", "QQQQ"]);
    let d = Dict::from_words(input.clone());
    for len in 0..=4 {
        let shorter = input.iter().filter(|w| w.len() < len).count();
        let not_longer = input.iter().filter(|w| w.len() <= len).count();
        assert_eq!(d.get_len_index(len), (shorter, not_longer));
    }
}

use hangman::dict::Dict;

fn dict(ws: &[&str]) -> Dict {
    Dict::from_words(ws.iter().map(|w| w.to_string()).collect())
}

#[test]
fn first_guess_is_most_frequent_letter_first_in_order() {
    let d = dict(&["CAT", "COT", "DOG", "CUT", "HORSE"]);
    let mut g = d.guess();
    // C and T occur three times each; C comes first.
    assert_eq!(g.guess("***"), Some('C'));
}

#[test]
fn guesses_narrow_down_a_word() {
    let d = dict(&["CAT", "COT", "DOG", "CUT"]);
    let mut g = d.guess();
    assert_eq!(g.guess("***"), Some('C'));
    // C shown at 0: CAT, COT, CUT remain; T occurs three times.
    assert_eq!(g.guess("C**"), Some('T'));
    // T shown at 2: A, O and U once each; A comes first.
    assert_eq!(g.guess("C*T"), Some('A'));
    // Nothing new shown: A was wrong, so CAT goes; O comes before U.
    assert_eq!(g.guess("C*T"), Some('O'));
    // O was wrong too: only CUT is left.
    assert_eq!(g.guess("C*T"), Some('U'));
    // Every letter of CUT has been guessed.
    assert_eq!(g.guess("CUT"), None);
}

#[test]
fn no_letter_left_gives_none() {
    let d = dict(&["AA"]);
    let mut g = d.guess();
    assert_eq!(g.guess("**"), Some('A'));
    assert_eq!(g.guess("AA"), None);
}

#[test]
fn no_candidate_gives_none() {
    let d = dict(&["AB", "CD"]);
    let mut g = d.guess();
    assert_eq!(g.guess("Z*"), None);
}

#[test]
fn history_letters_are_not_guessed_again() {
    let d = dict(&["CAT", "COT", "CUT"]);
    let mut g = d.guess();
    g.set_history(vec!['C', 'T']);
    // Nothing shown and the last history letter T was wrong: no word lacks T.
    assert_eq!(g.guess("***"), None);
}

#[test]
fn history_excludes_letters_from_the_count() {
    let d = dict(&["CAT", "COT", "CUT", "DOG"]);
    let mut g = d.guess();
    g.set_history(vec!['C']);
    g.set_last_input("***".to_string());
    // C is shown at 0 and was hidden before: CAT, COT, CUT remain; T is next.
    assert_eq!(g.guess("C**"), Some('T'));
}

#[test]
fn last_input_hides_old_letters() {
    let d = dict(&["COT", "CUT", "DOG"]);
    let mut g = d.guess();
    g.set_history(vec!['C', 'Q']);
    g.set_last_input("C**".to_string());
    // C was already shown, so nothing is new and Q, the last guess, is ruled out;
    // O and T occur twice each, O first.
    assert_eq!(g.guess("C**"), Some('O'));
}

#[test]
fn wrong_letter_without_history_is_zero() {
    let d = dict(&["A0", "AB"]);
    let mut g = d.guess();
    // Nothing shown and no history: words holding '0' are ruled out.
    assert_eq!(g.guess("**"), Some('A'));
    assert_eq!(g.guess("A*"), Some('B'));
}

#[test]
fn accepts_checks_the_pattern() {
    let d = dict(&["CAT", "COT"]);
    let mut g = d.guess();
    // No word is four bytes long.
    assert!(!g.accepts("****"));
    assert!(g.accepts("***"));
    assert_eq!(g.guess("***"), Some('C'));
    // The previous pattern "***" has no byte at 3.
    assert!(!g.accepts("***A"));
    // Only the C at 0 is looked up and checked, within the previous pattern and the words.
    assert!(g.accepts("C***"));
    let mut g2 = d.guess();
    g2.set_last_input("****".to_string());
    assert!(g2.accepts("***"));
}

#[test]
fn accepts_checks_slices_and_scans() {
    let d = dict(&["CAT", "COT"]);
    let mut g = d.guess();
    // "\u{e9}" takes two bytes: position 1 falls inside it.
    g.set_last_input("\u{e9}*".to_string());
    assert!(!g.accepts("*A*"));
    let mut g = d.guess();
    assert_eq!(g.guess("***"), Some('C'));
    g.set_last_input("*****".to_string());
    // The shown letter at 4 lies past the end of CAT and COT.
    assert!(!g.accepts("C***A"));
    // A mismatch at 0 stops the check before position 4.
    assert!(g.accepts("X***A"));
}

use balancebeam::words::{
    chars_to_string, is_char_in_word, word_statistics, GuessOutcome, HangmanGame, Index,
};

#[test]
fn chars_to_string_joins_the_letters() {
    assert_eq!(chars_to_string(&vec!['h', 'e', 'l', 'l', 'o']), "hello");
    assert_eq!(chars_to_string(&Vec::new()), "");
}

#[test]
fn occurrences_are_revealed_in_positional_order() {
    let word: Vec<char> = "hello".chars().collect();
    let mut stats = word_statistics(&word);
    assert_eq!(is_char_in_word('l', &mut stats), Index::Yes(2));
    assert_eq!(is_char_in_word('l', &mut stats), Index::Yes(3));
    assert_eq!(is_char_in_word('l', &mut stats), Index::No);
    assert_eq!(is_char_in_word('h', &mut stats), Index::Yes(0));
    assert_eq!(is_char_in_word('z', &mut stats), Index::No);
}

#[test]
fn statistics_of_empty_word_know_no_letters() {
    let word: Vec<char> = Vec::new();
    let mut stats = word_statistics(&word);
    assert_eq!(is_char_in_word('a', &mut stats), Index::No);
}

#[test]
fn winning_game_reveals_the_word() {
    let word: Vec<char> = "abca".chars().collect();
    let mut game = HangmanGame::new(&word);
    assert_eq!(game.current_board(), "----");
    assert_eq!(game.guess('a'), GuessOutcome::Hit);
    assert_eq!(game.current_board(), "a---");
    assert_eq!(game.guess('z'), GuessOutcome::Miss);
    assert_eq!(game.guess('b'), GuessOutcome::Hit);
    assert_eq!(game.guess('c'), GuessOutcome::Hit);
    assert_eq!(game.current_board(), "abc-");
    assert_eq!(game.guess('a'), GuessOutcome::Won);
    assert_eq!(game.current_board(), "abca");
}

#[test]
fn five_wrong_guesses_lose_the_game() {
    let word: Vec<char> = "abc".chars().collect();
    let mut game = HangmanGame::new(&word);
    assert_eq!(game.guess('z'), GuessOutcome::Miss);
    assert_eq!(game.guess('y'), GuessOutcome::Miss);
    assert_eq!(game.guess('x'), GuessOutcome::Miss);
    assert_eq!(game.guess('w'), GuessOutcome::Miss);
    assert_eq!(game.guess('v'), GuessOutcome::Lost);
}

#[test]
fn repeated_wrong_letter_keeps_costing_guesses() {
    let word: Vec<char> = "ab".chars().collect();
    let mut game = HangmanGame::new(&word);
    assert_eq!(game.guess('a'), GuessOutcome::Hit);
    assert_eq!(game.guess('a'), GuessOutcome::Miss);
    assert_eq!(game.guess('a'), GuessOutcome::Miss);
}

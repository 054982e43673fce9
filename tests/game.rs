use guess_word::guess::build_guess;
use guess_word::{
    Dictionary, Game, GameError, GameStatus, GuessLetter, GuessResult, HitAccuracy, WordGuess,
    GUESS_MAX,
};

const WORDS: &[&str] = &[
    "hello", "world", "haste", "heart", "sleep", "spell", "slump", "pasta", "admit", "adorn",
    "adult", "affix", "afire", "after", "adept", "aping", "agony",
];

fn dictionary() -> Dictionary {
    Dictionary::new(WORDS.iter().map(|w| w.to_string()).collect())
}

fn game_with(answer: &str) -> Game {
    Game::with_answer(dictionary(), answer.to_string())
}

fn letter(letter: char, accuracy: HitAccuracy) -> GuessLetter {
    GuessLetter { letter, accuracy }
}

#[test]
fn test_guess() {
    let mut game = game_with("hello");
    game.guess("world");
    assert_eq!(game.guesses().len(), 1);
}

#[test]
fn test_guess_accuracy() {
    let mut game = game_with("haste");
    game.guess("heart");
    let spell_guess = WordGuess {
        letters: vec![
            letter('h', HitAccuracy::InRightPlace),
            letter('e', HitAccuracy::InWord),
            letter('a', HitAccuracy::InWord),
            letter('r', HitAccuracy::NotInWord),
            letter('t', HitAccuracy::InWord),
        ],
    };
    assert_eq!(game.guesses()[0], spell_guess);
}

#[test]
fn test_guess_count_of_letters() {
    let mut game = game_with("sleep");
    game.guess("spell");
    let spell_guess = WordGuess {
        letters: vec![
            letter('s', HitAccuracy::InRightPlace),
            letter('p', HitAccuracy::InWord),
            letter('e', HitAccuracy::InRightPlace),
            letter('l', HitAccuracy::InWord),
            letter('l', HitAccuracy::NotInWord),
        ],
    };
    assert_eq!(game.guesses()[0], spell_guess);
}

#[test]
fn test_duplicate_guess() {
    let mut game = game_with("slump");
    game.guess("pasta");
    let (_, result) = game.guess("pasta");
    assert_eq!(result, GuessResult::DuplicateGuess);
}

#[test]
fn test_win_game() {
    let mut game = game_with("slump");
    let (status, _) = game.guess("slump");
    assert_eq!(status, GameStatus::Won);
}

#[test]
fn test_incorrect_word() {
    let mut game = game_with("slump");
    let (_, result) = game.guess("slp");
    assert_eq!(result, GuessResult::IncorrectLength);
    let (_, result) = game.guess("slumaaaap");
    assert_eq!(result, GuessResult::IncorrectLength);
}

#[test]
fn test_lose_game() {
    let mut game = game_with("slump");
    game.guess("admit");
    game.guess("adorn");
    game.guess("adult");
    game.guess("affix");
    game.guess("afire");
    let (status, _) = game.guess("after");
    assert_eq!(status, GameStatus::Lost);
}

#[test]
fn test_gameover() {
    let mut game = game_with("slump");
    game.guess("slump");
    let (status, result) = game.guess("adept");
    assert_eq!(status, GameStatus::Won);
    assert_eq!(result, GuessResult::GameOver);
}

#[test]
fn test_lose_game_with_gameover() {
    let mut game = game_with("slump");
    game.guess("admit");
    game.guess("adorn");
    game.guess("adult");
    game.guess("affix");
    game.guess("afire");
    game.guess("aping");
    let (status, result) = game.guess("agony");
    assert_eq!(status, GameStatus::Lost);
    assert_eq!(result, GuessResult::GameOver);
}

#[test]
fn test_not_in_dictionary() {
    let mut game = game_with("slump");
    let (status, result) = game.guess("abcde");
    assert_eq!(status, GameStatus::InProgress);
    assert_eq!(result, GuessResult::NotInDictionary);
}

#[test]
fn incorrect_length_leaves_history_unchanged() {
    let mut game = game_with("slump");
    game.guess("pasta");
    assert_eq!(game.guess(""), (GameStatus::InProgress, GuessResult::IncorrectLength));
    assert_eq!(game.guess("abcdef"), (GameStatus::InProgress, GuessResult::IncorrectLength));
    assert_eq!(game.guesses().len(), 1);
}

#[test]
fn duplicate_leaves_history_unchanged() {
    let mut game = game_with("slump");
    game.guess("pasta");
    assert_eq!(game.guess("pasta"), (GameStatus::InProgress, GuessResult::DuplicateGuess));
    assert_eq!(game.guesses().len(), 1);
    assert_eq!(game.guesses()[0].word(), "pasta");
}

#[test]
fn duplicate_check_is_case_sensitive() {
    let mut game = game_with("slump");
    game.guess("pasta");
    assert_eq!(game.guess("PASTA"), (GameStatus::InProgress, GuessResult::NotInDictionary));
}

#[test]
fn not_in_dictionary_leaves_history_unchanged() {
    let mut game = game_with("slump");
    game.guess("abcde");
    game.guess("zzzzz");
    assert!(game.guesses().is_empty());
    assert_eq!(game.game_status(), GameStatus::InProgress);
}

#[test]
fn checks_length_before_dictionary() {
    let mut game = game_with("slump");
    assert_eq!(game.guess("abc"), (GameStatus::InProgress, GuessResult::IncorrectLength));
}

#[test]
fn game_over_after_win_leaves_state_unchanged() {
    let mut game = game_with("slump");
    game.guess("pasta");
    game.guess("slump");
    assert_eq!(game.guess("abc"), (GameStatus::Won, GuessResult::GameOver));
    assert_eq!(game.guess("adept"), (GameStatus::Won, GuessResult::GameOver));
    assert_eq!(game.guesses().len(), 2);
    assert_eq!(game.game_status(), GameStatus::Won);
}

#[test]
fn exact_guess_is_all_right_place_and_wins() {
    let mut game = game_with("heart");
    assert_eq!(game.guess("heart"), (GameStatus::Won, GuessResult::Valid));
    let letters = game.guesses()[0].letters();
    assert_eq!(letters.len(), 5);
    assert!(letters.iter().all(|l| l.accuracy == HitAccuracy::InRightPlace));
}

#[test]
fn scoring_twice_gives_the_same_guess() {
    assert_eq!(build_guess("spell", "sleep"), build_guess("spell", "sleep"));
    assert_eq!(build_guess("heart", "haste"), build_guess("heart", "haste"));
}

#[test]
fn build_guess_heart_against_haste() {
    let accuracies: Vec<HitAccuracy> =
        build_guess("heart", "haste").letters().iter().map(|l| l.accuracy).collect();
    assert_eq!(
        accuracies,
        vec![
            HitAccuracy::InRightPlace,
            HitAccuracy::InWord,
            HitAccuracy::InWord,
            HitAccuracy::NotInWord,
            HitAccuracy::InWord,
        ]
    );
}

#[test]
fn exact_match_takes_budget_before_earlier_misplaced_letter() {
    // Both 'l's of the answer go to the exact matches, so the earlier misplaced
    // 'l' finds none left.
    let accuracies: Vec<HitAccuracy> =
        build_guess("lolly", "hello").letters().iter().map(|l| l.accuracy).collect();
    assert_eq!(
        accuracies,
        vec![
            HitAccuracy::NotInWord,
            HitAccuracy::InWord,
            HitAccuracy::InRightPlace,
            HitAccuracy::InRightPlace,
            HitAccuracy::NotInWord,
        ]
    );
}

#[test]
fn repeated_letter_hits_bounded_by_answer_count() {
    let g = build_guess("lllll", "hello");
    let hits = g.letters().iter().filter(|l| l.accuracy != HitAccuracy::NotInWord).count();
    assert_eq!(hits, 2);
    let g = build_guess("eeeee", "haste");
    let hits = g.letters().iter().filter(|l| l.accuracy != HitAccuracy::NotInWord).count();
    assert_eq!(hits, 1);
    assert_eq!(g.letters()[4].accuracy, HitAccuracy::InRightPlace);
}

#[test]
fn absent_letter_is_not_in_word() {
    let g = build_guess("zzzzz", "hello");
    assert!(g.letters().iter().all(|l| l.accuracy == HitAccuracy::NotInWord));
}

#[test]
fn word_spells_the_guess() {
    assert_eq!(build_guess("heart", "haste").word(), "heart");
}

#[test]
fn lost_after_guess_max_misses_and_answer_revealed() {
    let mut game = game_with("slump");
    let misses = ["admit", "adorn", "adult", "affix", "afire", "after"];
    assert_eq!(misses.len(), GUESS_MAX);
    for (i, w) in misses.iter().enumerate() {
        assert_eq!(game.get_answer().unwrap_err(), GameError::GameNotLostError);
        let (status, result) = game.guess(w);
        assert_eq!(result, GuessResult::Valid);
        if i + 1 < GUESS_MAX {
            assert_eq!(status, GameStatus::InProgress);
        } else {
            assert_eq!(status, GameStatus::Lost);
        }
    }
    assert_eq!(game.get_answer().unwrap(), "slump");
}

#[test]
fn win_on_last_attempt_is_won() {
    let mut game = game_with("slump");
    for w in ["admit", "adorn", "adult", "affix", "afire"] {
        game.guess(w);
    }
    assert_eq!(game.guess("slump"), (GameStatus::Won, GuessResult::Valid));
    assert_eq!(game.get_answer().unwrap(), "slump");
}

#[test]
fn answer_hidden_while_in_progress() {
    let game = game_with("slump");
    assert_eq!(game.get_answer(), Err(GameError::GameNotLostError));
}

#[test]
fn dictionary_keeps_unique_words_of_game_length() {
    let d = Dictionary::new(
        ["apple", "", "pear", "apple", "grape", "bananas", "Apple"]
            .iter()
            .map(|w| w.to_string())
            .collect(),
    );
    assert_eq!(d.len(), 3);
    assert!(d.contains("apple"));
    assert!(d.contains("grape"));
    assert!(d.contains("Apple"));
    assert!(!d.contains("pear"));
    assert!(!d.contains(""));
    assert!(!d.contains("bananas"));
    assert_eq!(d.word_at(0), "apple");
    assert_eq!(d.word_at(1), "grape");
}

#[test]
fn dictionary_counts_characters_not_bytes() {
    let d = Dictionary::new(vec!["héllo".to_string(), "hellö".to_string()]);
    assert_eq!(d.len(), 2);
    assert!(d.contains("héllo"));
}

#[test]
fn empty_dictionary() {
    let d = Dictionary::new(Vec::new());
    assert_eq!(d.len(), 0);
    assert!(!d.contains("hello"));
}

#[test]
fn random_word_comes_from_dictionary() {
    let d = dictionary();
    for _ in 0..20 {
        let w = d.get_random_words();
        assert!(d.contains(&w));
    }
    let single = Dictionary::new(vec!["haste".to_string()]);
    assert_eq!(single.get_random_words(), "haste");
}

#[test]
fn new_game_answers_from_dictionary() {
    let mut game = Game::new(Dictionary::new(vec!["haste".to_string()]));
    assert_eq!(game.game_status(), GameStatus::InProgress);
    assert!(game.guesses().is_empty());
    assert!(game.in_dictionary("haste"));
    assert!(!game.in_dictionary("heart"));
    assert_eq!(game.guess("haste"), (GameStatus::Won, GuessResult::Valid));
    assert_eq!(game.get_answer().unwrap(), "haste");
}

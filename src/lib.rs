//! A word-guessing game: a dictionary of fixed-length words, two-pass letter
//! scoring, and the game's state machine over a bounded number of attempts.
use vstd::prelude::*;
use vstd::string::StrSliceExecFns;

pub mod dictionary;
pub mod guess;

pub use dictionary::Dictionary;
pub use guess::{GuessLetter, HitAccuracy, WordGuess};
use guess::{build_guess, score, word_of};

verus! {

/// Number of letters in the answer and in every guess.
pub const GUESS_LENGTH: usize = 5;

/// Number of attempts before the game is lost.
pub const GUESS_MAX: usize = 6;

/// What became of one call of `Game::guess`.
#[derive(Copy, Clone, Debug, PartialEq, Eq, Structural)]
pub enum GuessResult {
    /// The word was guessed before.
    DuplicateGuess,
    /// The word does not have `GUESS_LENGTH` letters.
    IncorrectLength,
    /// The word is not in the dictionary.
    NotInDictionary,
    /// The guess was scored and recorded.
    Valid,
    /// The game had already ended.
    GameOver,
}

/// Where the game stands.
#[derive(Copy, Clone, Debug, PartialEq, Eq, Structural)]
pub enum GameStatus {
    Won,
    InProgress,
    Lost,
}

/// Why the answer cannot be revealed.
#[derive(Copy, Clone, Debug, PartialEq, Eq, Structural)]
pub enum GameError {
    /// The game has not ended yet.
    GameNotLostError,
}

/// Some recorded guess spells `w`.
pub open spec fn guessed(history: Seq<Seq<GuessLetter>>, w: Seq<char>) -> bool {
    exists|k: int| 0 <= k < history.len() && word_of(#[trigger] history[k]) == w
}

/// The status that a history implies for a given answer.
pub open spec fn status_of(history: Seq<Seq<GuessLetter>>, answer: Seq<char>) -> GameStatus {
    if guessed(history, answer) {
        GameStatus::Won
    } else if history.len() == GUESS_MAX {
        GameStatus::Lost
    } else {
        GameStatus::InProgress
    }
}

/// One game: a hidden answer, the dictionary, the scored guesses so far, and the status.
pub struct Game {
    guesses: Vec<WordGuess>,
    answer: String,
    game_status: GameStatus,
    dictionary: Dictionary,
}

impl Game {
    /// The scored guesses, oldest first.
    pub closed spec fn history(&self) -> Seq<Seq<GuessLetter>> {
        self.guesses@.map_values(|g: WordGuess| g@)
    }

    /// The hidden answer.
    pub closed spec fn secret(&self) -> Seq<char> {
        self.answer@
    }

    pub closed spec fn status(&self) -> GameStatus {
        self.game_status
    }

    /// The dictionary's words.
    pub closed spec fn words(&self) -> Seq<Seq<char>> {
        self.dictionary@
    }

    /// The answer has the game's length, at most `GUESS_MAX` guesses are recorded,
    /// and the status is the one the history implies.
    pub open spec fn wf(&self) -> bool {
        &&& self.secret().len() == GUESS_LENGTH
        &&& self.history().len() <= GUESS_MAX
        &&& self.status() == status_of(self.history(), self.secret())
    }

    /// A game against a random word of `dictionary`, which must not be empty.
    pub fn new(dictionary: Dictionary) -> (r: Game)
        requires
            dictionary.wf(),
            dictionary@.len() > 0,
        ensures
            r.wf(),
            r.history().len() == 0,
            r.status() == GameStatus::InProgress,
            r.words() == dictionary@,
            dictionary@.contains(r.secret()),
    {
        let answer = dictionary.get_random_words();
        proof {
            let i = choose|i: int| 0 <= i < dictionary@.len() && dictionary@[i] == answer@;
            assert(dictionary@[i].len() == GUESS_LENGTH);
        }
        Game::with_answer(dictionary, answer)
    }

    /// A game against a chosen answer of `GUESS_LENGTH` letters.
    pub fn with_answer(dictionary: Dictionary, answer: String) -> (r: Game)
        requires
            answer@.len() == GUESS_LENGTH,
        ensures
            r.wf(),
            r.history().len() == 0,
            r.status() == GameStatus::InProgress,
            r.words() == dictionary@,
            r.secret() == answer@,
    {
        let r = Game {
            guesses: Vec::new(),
            answer,
            game_status: GameStatus::InProgress,
            dictionary,
        };
        assert(r.history() =~= Seq::<Seq<GuessLetter>>::empty());
        r
    }

    /// The answer, once the game has ended (won or lost).
    pub fn get_answer(&self) -> (r: Result<String, GameError>)
        ensures
            self.status() != GameStatus::InProgress ==> (r matches Ok(a) && a@ == self.secret()),
            self.status() == GameStatus::InProgress ==> r == Err::<String, GameError>(
                GameError::GameNotLostError,
            ),
    {
        if self.game_status != GameStatus::InProgress {
            Ok(self.answer.clone())
        } else {
            Err(GameError::GameNotLostError)
        }
    }

    /// The scored guesses, oldest first.
    pub fn guesses(&self) -> (r: &[WordGuess])
        ensures
            r@.map_values(|g: WordGuess| g@) == self.history(),
    {
        self.guesses.as_slice()
    }

    /// Membership of `word` in the game's dictionary.
    pub fn in_dictionary(&self, word: &str) -> (r: bool)
        ensures
            r == self.words().contains(word@),
    {
        self.dictionary.contains(word)
    }

    pub fn game_status(&self) -> (r: GameStatus)
        ensures
            r == self.status(),
    {
        self.game_status
    }

    /// Some recorded guess spells `guess_input` exactly.
    fn guess_already_exists(&self, guess_input: &str) -> (r: bool)
        ensures
            r == guessed(self.history(), guess_input@),
    {
        let target = guess_input.to_owned();
        let mut k: usize = 0;
        while k < self.guesses.len()
            invariant
                k <= self.guesses@.len(),
                target@ == guess_input@,
                forall|j: int|
                    0 <= j < k ==> word_of(#[trigger] self.history()[j]) != guess_input@,
            decreases self.guesses@.len() - k,
        {
            let w = self.guesses[k].word();
            if w == target {
                proof {
                    assert(word_of(self.history()[k as int]) == guess_input@);
                }
                return true;
            }
            k = k + 1;
        }
        false
    }

    /// Takes one guess: checks, in order, that the game is still running, that the
    /// word has `GUESS_LENGTH` letters, that it was not guessed before and that it
    /// is in the dictionary; if so, scores it, records it and updates the status.
    pub fn guess(&mut self, guess_input: &str) -> (r: (GameStatus, GuessResult))
        requires
            old(self).wf(),
        ensures
            final(self).wf(),
            old(self).status() != GameStatus::InProgress ==> r == (old(self).status(),
            GuessResult::GameOver) && *final(self) == *old(self),
            old(self).status() == GameStatus::InProgress && guess_input@.len()
                != GUESS_LENGTH ==> r == (old(self).status(), GuessResult::IncorrectLength)
                && *final(self) == *old(self),
            old(self).status() == GameStatus::InProgress && guess_input@.len() == GUESS_LENGTH
                && guessed(old(self).history(), guess_input@) ==> r == (old(self).status(),
            GuessResult::DuplicateGuess) && *final(self) == *old(self),
            old(self).status() == GameStatus::InProgress && guess_input@.len() == GUESS_LENGTH
                && !guessed(old(self).history(), guess_input@) && !old(self).words().contains(
                guess_input@,
            ) ==> r == (old(self).status(), GuessResult::NotInDictionary) && *final(self)
                == *old(self),
            old(self).status() == GameStatus::InProgress && guess_input@.len() == GUESS_LENGTH
                && !guessed(old(self).history(), guess_input@) && old(self).words().contains(
                guess_input@,
            ) ==> {
                &&& final(self).history() == old(self).history().push(
                    score(guess_input@, old(self).secret()),
                )
                &&& final(self).secret() == old(self).secret()
                &&& final(self).words() == old(self).words()
                &&& final(self).status() == if guess_input@ == old(self).secret() {
                    GameStatus::Won
                } else if final(self).history().len() == GUESS_MAX {
                    GameStatus::Lost
                } else {
                    GameStatus::InProgress
                }
                &&& r == (final(self).status(), GuessResult::Valid)
            },
    {
        if self.game_status == GameStatus::Won || self.game_status == GameStatus::Lost {
            return (self.game_status, GuessResult::GameOver);
        }
        if guess_input.unicode_len() != GUESS_LENGTH {
            return (self.game_status, GuessResult::IncorrectLength);
        }
        if self.guess_already_exists(guess_input) {
            return (self.game_status, GuessResult::DuplicateGuess);
        }
        if !self.in_dictionary(guess_input) {
            return (self.game_status, GuessResult::NotInDictionary);
        }
        let ghost old_history = self.history();
        let guess = build_guess(guess_input, self.answer.as_str());
        proof {
            guess::lemma_score_spells_guess(guess_input@, self.answer@);
        }
        self.guesses.push(guess);
        proof {
            assert(self.history() =~= old_history.push(score(guess_input@, self.answer@)));
            assert(word_of(self.history()[old_history.len() as int]) == guess_input@);
            if guessed(self.history(), self.answer@) {
                let k = choose|k: int|
                    0 <= k < self.history().len() && word_of(#[trigger] self.history()[k])
                        == self.answer@;
                if k < old_history.len() {
                    assert(self.history()[k] == old_history[k]);
                }
            }
        }
        let target = guess_input.to_owned();
        if target == self.answer {
            self.game_status = GameStatus::Won;
            return (self.game_status, GuessResult::Valid);
        }
        if self.guesses.len() == GUESS_MAX {
            self.game_status = GameStatus::Lost;
        }
        (self.game_status, GuessResult::Valid)
    }
}

/// Once `GUESS_MAX` guesses are recorded and none of them spells the answer,
/// the game is lost (and `get_answer` reveals the answer).
pub proof fn lemma_full_history_is_lost(game: Game)
    requires
        game.wf(),
        game.history().len() == GUESS_MAX,
        !guessed(game.history(), game.secret()),
    ensures
        game.status() == GameStatus::Lost,
{
}

} // verus!

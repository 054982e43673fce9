//! The set of valid words: unique words of the game's fixed length.
use vstd::prelude::*;
use vstd::string::StrSliceExecFns;
use rand::seq::SliceRandom;

use crate::GUESS_LENGTH;

verus! {

/// Unique words of length `GUESS_LENGTH`, in the order they were first given.
pub struct Dictionary {
    words: Vec<String>,
}

impl View for Dictionary {
    type V = Seq<Seq<char>>;

    closed spec fn view(&self) -> Seq<Seq<char>> {
        self.words@.map_values(|w: String| w@)
    }
}

/// `w` is one of the given words.
pub open spec fn listed(words: Seq<String>, w: Seq<char>) -> bool {
    exists|i: int| 0 <= i < words.len() && (#[trigger] words[i])@ == w
}

/// Relies on rand's `SliceRandom::choose` with `thread_rng`: `None` exactly for an
/// empty slice, otherwise one of its elements (cloned).
#[verifier::external_body]
fn choose_word(words: &Vec<String>) -> (r: Option<String>)
    ensures
        r is None <==> words@.len() == 0,
        r matches Some(w) ==> exists|i: int| 0 <= i < words@.len() && (#[trigger] words@[i])@ == w@,
{
    words.as_slice().choose(&mut rand::thread_rng()).cloned()
}

impl Dictionary {
    /// Every word has the game's length and no word occurs twice.
    pub open spec fn wf(&self) -> bool {
        &&& self@.no_duplicates()
        &&& forall|i: int| 0 <= i < self@.len() ==> (#[trigger] self@[i]).len() == GUESS_LENGTH
    }

    /// Builds the dictionary from a pre-loaded word list: words of another length
    /// are left out, and repeated words are kept once.
    pub fn new(words: Vec<String>) -> (r: Self)
        ensures
            r.wf(),
            forall|w: Seq<char>|
                #[trigger] r@.contains(w) <==> (w.len() == GUESS_LENGTH && listed(words@, w)),
    {
        let mut d = Dictionary { words: Vec::new() };
        let mut i: usize = 0;
        while i < words.len()
            invariant
                i <= words@.len(),
                d.wf(),
                forall|w: Seq<char>|
                    #[trigger] d@.contains(w) <==> (w.len() == GUESS_LENGTH && listed(
                        words@.subrange(0, i as int),
                        w,
                    )),
            decreases words@.len() - i,
        {
            let w = &words[i];
            let keep = w.as_str().unicode_len() == GUESS_LENGTH && !d.contains(w.as_str());
            let ghost prev = d@;
            if keep {
                d.words.push(w.clone());
            }
            proof {
                let next = words@.subrange(0, i + 1);
                let before = words@.subrange(0, i as int);
                assert(d@ == if keep {
                    prev.push(w@)
                } else {
                    prev
                });
                assert forall|v: Seq<char>|
                    #[trigger] d@.contains(v) <==> (v.len() == GUESS_LENGTH && listed(next, v)) by {
                    if listed(next, v) && !listed(before, v) {
                        let j = choose|j: int| 0 <= j < next.len() && (#[trigger] next[j])@ == v;
                        assert(j == i);
                    }
                    if listed(before, v) {
                        let j = choose|j: int| 0 <= j < before.len() && (#[trigger] before[j])@ == v;
                        assert(next[j] == before[j]);
                    }
                    if keep && v == w@ {
                        assert(next[i as int] == words@[i as int]);
                        assert(d@[prev.len() as int] == v);
                    }
                    if prev.contains(v) {
                        let j = choose|j: int| 0 <= j < prev.len() && prev[j] == v;
                        assert(d@[j] == v);
                    }
                }
            }
            i = i + 1;
        }
        proof {
            assert(words@.subrange(0, words@.len() as int) == words@);
        }
        d
    }

    /// Case-sensitive exact membership.
    pub fn contains(&self, word: &str) -> (r: bool)
        ensures
            r == self@.contains(word@),
    {
        let target = word.to_owned();
        let mut k: usize = 0;
        while k < self.words.len()
            invariant
                k <= self.words@.len(),
                target@ == word@,
                forall|j: int| 0 <= j < k ==> self@[j] != word@,
            decreases self.words@.len() - k,
        {
            if self.words[k] == target {
                proof {
                    assert(self@[k as int] == word@);
                }
                return true;
            }
            k = k + 1;
        }
        false
    }

    /// Number of words.
    pub fn len(&self) -> (r: usize)
        ensures
            r == self@.len(),
    {
        self.words.len()
    }

    /// The word at `index`, in the order the words were first given.
    pub fn word_at(&self, index: usize) -> (r: String)
        requires
            index < self@.len(),
        ensures
            r@ == self@[index as int],
    {
        self.words[index].clone()
    }

    /// A word drawn at random from the dictionary, which must not be empty.
    pub fn get_random_words(&self) -> (r: String)
        requires
            self@.len() > 0,
        ensures
            self@.contains(r@),
    {
        match choose_word(&self.words) {
            Some(w) => {
                proof {
                    let i = choose|i: int|
                        0 <= i < self.words@.len() && (#[trigger] self.words@[i])@ == w@;
                    assert(self@[i] == w@);
                }
                w
            },
            None => self.word_at(0),
        }
    }
}

} // verus!

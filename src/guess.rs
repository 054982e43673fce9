//! Scored guesses and the two-pass scoring of a guess against the answer.
use vstd::prelude::*;

verus! {

/// How a guessed letter relates to the answer.
#[derive(Copy, Clone, Debug, PartialEq, Eq, Structural)]
pub enum HitAccuracy {
    /// The answer has this letter at this position.
    InRightPlace,
    /// The answer has this letter elsewhere, with budget left for it.
    InWord,
    /// The answer has no (more) use for this letter.
    NotInWord,
}

/// One letter of a guess with its classification.
#[derive(Copy, Clone, Debug, PartialEq, Eq, Structural)]
pub struct GuessLetter {
    pub letter: char,
    pub accuracy: HitAccuracy,
}

/// One scored attempt: a classification per letter, in input order.
#[derive(Debug, PartialEq, Eq)]
pub struct WordGuess {
    pub letters: Vec<GuessLetter>,
}

impl View for WordGuess {
    type V = Seq<GuessLetter>;

    open spec fn view(&self) -> Seq<GuessLetter> {
        self.letters@
    }
}

/// Relies on `String::push`: appends `c` to the string's characters.
#[verifier::external_body]
fn push_char(s: &mut String, c: char)
    ensures
        final(s)@ == old(s)@.push(c),
{
    s.push(c)
}

impl WordGuess {
    /// The guessed word.
    pub fn word(&self) -> (r: String)
        ensures
            r@ == word_of(self@),
    {
        let mut r = String::new();
        let mut i: usize = 0;
        while i < self.letters.len()
            invariant
                i <= self@.len(),
                r@ == word_of(self@).subrange(0, i as int),
            decreases self@.len() - i,
        {
            push_char(&mut r, self.letters[i].letter);
            proof {
                assert(word_of(self@).subrange(0, i + 1) =~= word_of(self@).subrange(
                    0,
                    i as int,
                ).push(self@[i as int].letter));
            }
            i = i + 1;
        }
        proof {
            assert(word_of(self@).subrange(0, self@.len() as int) =~= word_of(self@));
        }
        r
    }

    /// The scored letters, in input order.
    pub fn letters(&self) -> (r: &[GuessLetter])
        ensures
            r@ == self@,
    {
        self.letters.as_slice()
    }
}

/// The word spelled by a scored guess.
pub open spec fn word_of(g: Seq<GuessLetter>) -> Seq<char> {
    g.map_values(|l: GuessLetter| l.letter)
}

/// Number of positions `j < n` of `s` that hold `c`.
pub open spec fn count_prefix(s: Seq<char>, c: char, n: int) -> nat
    decreases n,
{
    if n <= 0 {
        0
    } else {
        count_prefix(s, c, n - 1) + if s[n - 1] == c {
            1nat
        } else {
            0nat
        }
    }
}

/// Number of occurrences of `c` in `s`.
pub open spec fn occurrences(s: Seq<char>, c: char) -> nat {
    count_prefix(s, c, s.len() as int)
}

/// Number of positions `j < n` where the guess matches the answer with letter `c`.
pub open spec fn exact_hits(g: Seq<char>, a: Seq<char>, c: char, n: int) -> nat
    decreases n,
{
    if n <= 0 {
        0
    } else {
        exact_hits(g, a, c, n - 1) + if g[n - 1] == c && a[n - 1] == c {
            1nat
        } else {
            0nat
        }
    }
}

/// Number of positions `j < n` where the guess holds `c` but the answer differs.
pub open spec fn misplaced_before(g: Seq<char>, a: Seq<char>, c: char, n: int) -> nat
    decreases n,
{
    if n <= 0 {
        0
    } else {
        misplaced_before(g, a, c, n - 1) + if g[n - 1] == c && a[n - 1] != c {
            1nat
        } else {
            0nat
        }
    }
}

/// What the answer has left of letter `c` once every exact match has taken its share.
pub open spec fn budget(g: Seq<char>, a: Seq<char>, c: char) -> int {
    occurrences(a, c) - exact_hits(g, a, c, a.len() as int)
}

/// Classification of position `i`: exact matches first; then, left to right, a
/// misplaced letter is in the word while the answer's remaining budget for it lasts.
pub open spec fn accuracy_at(g: Seq<char>, a: Seq<char>, i: int) -> HitAccuracy {
    if g[i] == a[i] {
        HitAccuracy::InRightPlace
    } else if misplaced_before(g, a, g[i], i) < budget(g, a, g[i]) {
        HitAccuracy::InWord
    } else {
        HitAccuracy::NotInWord
    }
}

/// A letter with its classification.
pub open spec fn scored(letter: char, accuracy: HitAccuracy) -> GuessLetter {
    GuessLetter { letter, accuracy }
}

/// The scored guess of `g` against answer `a`.
pub open spec fn score(g: Seq<char>, a: Seq<char>) -> Seq<GuessLetter> {
    Seq::new(g.len(), |i: int| scored(g[i], accuracy_at(g, a, i)))
}

/// Exact matches of `c` never outnumber the answer's occurrences of `c`.
pub proof fn lemma_exact_hits_bounded(g: Seq<char>, a: Seq<char>, c: char, n: int)
    requires
        n <= a.len(),
        n <= g.len(),
    ensures
        exact_hits(g, a, c, n) <= count_prefix(a, c, n),
    decreases n,
{
    if n > 0 {
        lemma_exact_hits_bounded(g, a, c, n - 1);
    }
}

/// Exact matches only accumulate along the word.
pub proof fn lemma_exact_hits_monotone(g: Seq<char>, a: Seq<char>, c: char, m: int, n: int)
    requires
        m <= n,
    ensures
        exact_hits(g, a, c, m) <= exact_hits(g, a, c, n),
    decreases n - m,
{
    if m < n {
        lemma_exact_hits_monotone(g, a, c, m, n - 1);
    }
}

/// A scored guess spells the guessed word.
pub proof fn lemma_score_spells_guess(g: Seq<char>, a: Seq<char>)
    ensures
        word_of(score(g, a)) == g,
{
    assert(word_of(score(g, a)) =~= g);
}

/// Scoring is a function of the guess and the answer: two scorings of the same
/// pair give the same scored guess.
pub proof fn lemma_scoring_deterministic(g: Seq<char>, a: Seq<char>, r1: WordGuess, r2: WordGuess)
    requires
        r1@ == score(g, a),
        r2@ == score(g, a),
    ensures
        r1@ == r2@,
{
}

/// A guess equal to the answer has every letter in the right place.
pub proof fn lemma_exact_guess_all_right(w: Seq<char>)
    ensures
        forall|i: int|
            0 <= i < w.len() ==> (#[trigger] score(w, w)[i]).accuracy == HitAccuracy::InRightPlace,
{
}

/// Number of positions `j < n` of a scored guess that hold `c` and count as a hit
/// (right place or in the word).
pub open spec fn hits(s: Seq<GuessLetter>, c: char, n: int) -> nat
    decreases n,
{
    if n <= 0 {
        0
    } else {
        hits(s, c, n - 1) + if s[n - 1].letter == c && s[n - 1].accuracy
            != HitAccuracy::NotInWord {
            1nat
        } else {
            0nat
        }
    }
}

/// Over a prefix, the hits on `c` are its exact matches plus its misplaced
/// occurrences, the latter capped by the budget.
proof fn lemma_hits_prefix(g: Seq<char>, a: Seq<char>, c: char, n: int)
    requires
        g.len() == a.len(),
        0 <= n <= g.len(),
    ensures
        hits(score(g, a), c, n) == exact_hits(g, a, c, n) + if misplaced_before(g, a, c, n) < budget(
            g,
            a,
            c,
        ) {
            misplaced_before(g, a, c, n) as int
        } else {
            budget(g, a, c)
        },
    decreases n,
{
    lemma_exact_hits_bounded(g, a, c, a.len() as int);
    if n > 0 {
        lemma_hits_prefix(g, a, c, n - 1);
        let j = n - 1;
        assert(score(g, a)[j] == scored(g[j], accuracy_at(g, a, j)));
    }
}

/// A letter never counts as a hit (right place or in the word) more often than
/// it occurs in the answer.
pub proof fn lemma_hits_bounded(g: Seq<char>, a: Seq<char>, c: char)
    requires
        g.len() == a.len(),
    ensures
        hits(score(g, a), c, g.len() as int) <= occurrences(a, c),
{
    lemma_hits_prefix(g, a, c, g.len() as int);
}

/// A count table over letters: `letters` are distinct, `counts[k]` belongs to `letters[k]`.
struct LetterCounts {
    letters: Vec<char>,
    counts: Vec<usize>,
}

impl LetterCounts {
    spec fn wf(&self) -> bool {
        &&& self.letters@.len() == self.counts@.len()
        &&& self.letters@.no_duplicates()
    }

    /// The count held for `c`; zero for a letter without an entry.
    #[verifier::opaque]
    spec fn count_of(&self, c: char) -> int {
        if self.letters@.contains(c) {
            self.counts@[self.letters@.index_of(c)] as int
        } else {
            0
        }
    }

    proof fn lemma_count_at(&self, k: int)
        requires
            self.wf(),
            0 <= k < self.letters@.len(),
        ensures
            self.count_of(self.letters@[k]) == self.counts@[k] as int,
    {
        reveal(LetterCounts::count_of);
        let c = self.letters@[k];
        assert(self.letters@.contains(c));
        self.letters@.index_of_first_ensures(c);
        let j = self.letters@.index_of(c);
        assert(self.letters@[j] == c);
    }

    fn find(&self, c: char) -> (r: Option<usize>)
        requires
            self.wf(),
        ensures
            match r {
                Some(k) => k < self.letters@.len() && self.letters@[k as int] == c,
                None => !self.letters@.contains(c),
            },
    {
        let mut k: usize = 0;
        while k < self.letters.len()
            invariant
                k <= self.letters@.len(),
                forall|j: int| 0 <= j < k ==> self.letters@[j] != c,
            decreases self.letters@.len() - k,
        {
            if self.letters[k] == c {
                return Some(k);
            }
            k = k + 1;
        }
        None
    }

    fn get(&self, c: char) -> (r: usize)
        requires
            self.wf(),
        ensures
            r as int == self.count_of(c),
    {
        match self.find(c) {
            Some(k) => {
                proof {
                    self.lemma_count_at(k as int);
                }
                self.counts[k]
            },
            None => {
                proof {
                    reveal(LetterCounts::count_of);
                }
                0
            },
        }
    }

    fn decrement(&mut self, c: char)
        requires
            old(self).wf(),
            old(self).count_of(c) > 0,
        ensures
            final(self).wf(),
            forall|d: char|
                #[trigger] final(self).count_of(d) == if d == c {
                    old(self).count_of(d) - 1
                } else {
                    old(self).count_of(d)
                },
    {
        match self.find(c) {
            Some(k) => {
                proof {
                    self.lemma_count_at(k as int);
                }
                let v = self.counts[k];
                self.counts.set(k, v - 1);
                proof {
                    assert forall|d: char|
                        #[trigger] self.count_of(d) == if d == c {
                            old(self).count_of(d) - 1
                        } else {
                            old(self).count_of(d)
                        } by {
                        reveal(LetterCounts::count_of);
                        if self.letters@.contains(d) {
                            let j = choose|j: int|
                                0 <= j < self.letters@.len() && self.letters@[j] == d;
                            self.lemma_count_at(j);
                            old(self).lemma_count_at(j);
                        }
                    }
                }
            },
            None => {
                proof {
                    reveal(LetterCounts::count_of);
                }
            },
        }
    }
}

/// The count table of the letters of `word`.
fn build_letter_counts(word: &Vec<char>) -> (r: LetterCounts)
    ensures
        r.wf(),
        forall|c: char| #[trigger] r.count_of(c) == occurrences(word@, c) as int,
{
    let mut t = LetterCounts { letters: Vec::new(), counts: Vec::new() };
    proof {
        reveal(LetterCounts::count_of);
    }
    let mut i: usize = 0;
    while i < word.len()
        invariant
            i <= word@.len(),
            t.wf(),
            forall|c: char| #[trigger] t.count_of(c) == count_prefix(word@, c, i as int) as int,
            forall|k: int| 0 <= k < t.counts@.len() ==> t.counts@[k] <= i,
        decreases word@.len() - i,
    {
        let c = word[i];
        let ghost prev = t;
        match t.find(c) {
            Some(k) => {
                proof {
                    prev.lemma_count_at(k as int);
                }
                let v = t.counts[k];
                t.counts.set(k, v + 1);
                proof {
                    assert forall|d: char| #[trigger]
                        t.count_of(d) == count_prefix(word@, d, i + 1) as int by {
                        assert(prev.count_of(d) == count_prefix(word@, d, i as int) as int);
                        reveal(LetterCounts::count_of);
                        if t.letters@.contains(d) {
                            let j = choose|j: int|
                                0 <= j < t.letters@.len() && t.letters@[j] == d;
                            t.lemma_count_at(j);
                            prev.lemma_count_at(j);
                        }
                    }
                }
            },
            None => {
                t.letters.push(c);
                t.counts.push(1);
                proof {
                    assert(t.letters@.no_duplicates());
                    assert(t.letters@[prev.letters@.len() as int] == c);
                    assert forall|d: char| #[trigger]
                        t.count_of(d) == count_prefix(word@, d, i + 1) as int by {
                        assert(prev.count_of(d) == count_prefix(word@, d, i as int) as int);
                        reveal(LetterCounts::count_of);
                        if t.letters@.contains(d) {
                            let j = choose|j: int|
                                0 <= j < t.letters@.len() && t.letters@[j] == d;
                            t.lemma_count_at(j);
                            if j < prev.letters@.len() {
                                prev.lemma_count_at(j);
                            }
                        } else {
                            assert(d != c);
                            if prev.letters@.contains(d) {
                                let j = choose|j: int|
                                    0 <= j < prev.letters@.len() && prev.letters@[j] == d;
                                assert(t.letters@[j] == d);
                            }
                        }
                    }
                }
            },
        }
        i = i + 1;
    }
    t
}

/// Classifies `letter` at `letter_index` and takes its share from `available`:
/// an exact match always takes one; a misplaced letter takes one if any is left.
fn build_guess_letter_with_accuracy(
    answer: &Vec<char>,
    letter_index: usize,
    letter: char,
    available: &mut LetterCounts,
) -> (r: GuessLetter)
    requires
        old(available).wf(),
        letter_index < answer@.len(),
        letter == answer@[letter_index as int] ==> old(available).count_of(letter) > 0,
    ensures
        final(available).wf(),
        r.letter == letter,
        r.accuracy == if letter == answer@[letter_index as int] {
            HitAccuracy::InRightPlace
        } else if old(available).count_of(letter) > 0 {
            HitAccuracy::InWord
        } else {
            HitAccuracy::NotInWord
        },
        forall|d: char|
            #[trigger] final(available).count_of(d) == if d == letter && r.accuracy
                != HitAccuracy::NotInWord {
                old(available).count_of(d) - 1
            } else {
                old(available).count_of(d)
            },
{
    let accuracy = if letter == answer[letter_index] {
        available.decrement(letter);
        HitAccuracy::InRightPlace
    } else if available.get(letter) >= 1 {
        available.decrement(letter);
        HitAccuracy::InWord
    } else {
        HitAccuracy::NotInWord
    };
    make_letter(letter, accuracy)
}

/// A letter with its classification.
fn make_letter(letter: char, accuracy: HitAccuracy) -> (r: GuessLetter)
    ensures
        r == scored(letter, accuracy),
{
    GuessLetter { letter, accuracy }
}

/// The characters of `s`, in order.
pub(crate) fn chars_of(s: &str) -> (r: Vec<char>)
    ensures
        r@ == s@,
{
    let n = s.unicode_len();
    let mut r: Vec<char> = Vec::new();
    let mut i: usize = 0;
    while i < n
        invariant
            n == s@.len(),
            i <= n,
            r@ == s@.subrange(0, i as int),
        decreases n - i,
    {
        r.push(s.get_char(i));
        i = i + 1;
    }
    assert(r@ =~= s@);
    r
}

/// The classification after the exact pass: right place where the letters
/// agree, undecided (`NotInWord` for now) elsewhere.
pub open spec fn exact_only(g: Seq<char>, a: Seq<char>, j: int) -> GuessLetter {
    scored(
        g[j],
        if g[j] == a[j] {
            HitAccuracy::InRightPlace
        } else {
            HitAccuracy::NotInWord
        },
    )
}

/// First pass: every exact match takes its letter from `available`.
fn exact_pass(g: &Vec<char>, a: &Vec<char>, available: &mut LetterCounts) -> (r: Vec<GuessLetter>)
    requires
        g@.len() == a@.len(),
        old(available).wf(),
        forall|c: char| #[trigger] old(available).count_of(c) == occurrences(a@, c) as int,
    ensures
        final(available).wf(),
        forall|c: char| #[trigger] final(available).count_of(c) == budget(g@, a@, c),
        r@.len() == g@.len(),
        forall|j: int| 0 <= j < g@.len() ==> #[trigger] r@[j] == exact_only(g@, a@, j),
{
    let n = g.len();
    let mut letters: Vec<GuessLetter> = Vec::new();
    let mut i: usize = 0;
    while i < n
        invariant
            n == g@.len(),
            n == a@.len(),
            i <= n,
            available.wf(),
            forall|c: char| #[trigger]
                available.count_of(c) == occurrences(a@, c) - exact_hits(g@, a@, c, i as int),
            letters@.len() == i,
            forall|j: int| 0 <= j < i ==> #[trigger] letters@[j] == exact_only(g@, a@, j),
        decreases n - i,
    {
        let c = g[i];
        if c == a[i] {
            proof {
                lemma_exact_hits_monotone(g@, a@, c, i + 1, n as int);
                lemma_exact_hits_bounded(g@, a@, c, n as int);
            }
            let gl = build_guess_letter_with_accuracy(a, i, c, available);
            letters.push(gl);
        } else {
            letters.push(make_letter(c, HitAccuracy::NotInWord));
        }
        proof {
            assert forall|d: char| #[trigger]
                available.count_of(d) == occurrences(a@, d) - exact_hits(g@, a@, d, i + 1) by {
                assert(exact_hits(g@, a@, d, i + 1) == exact_hits(g@, a@, d, i as int) + if g@[i as int] == d
                    && a@[i as int] == d {
                    1nat
                } else {
                    0nat
                });
            }
        }
        i = i + 1;
    }
    letters
}

/// Second pass: each position left undecided, from left to right, is in the
/// word if `available` still holds its letter, and takes one if so.
fn misplaced_pass(
    g: &Vec<char>,
    a: &Vec<char>,
    available: &mut LetterCounts,
    letters: &mut Vec<GuessLetter>,
)
    requires
        g@.len() == a@.len(),
        old(available).wf(),
        forall|c: char| #[trigger] old(available).count_of(c) == budget(g@, a@, c),
        old(letters)@.len() == g@.len(),
        forall|j: int| 0 <= j < g@.len() ==> #[trigger] old(letters)@[j] == exact_only(g@, a@, j),
    ensures
        final(letters)@ == score(g@, a@),
{
    let n = g.len();
    proof {
        assert forall|c: char| #[trigger]
            available.count_of(c) == if misplaced_before(g@, a@, c, 0) < budget(g@, a@, c) {
                budget(g@, a@, c) - misplaced_before(g@, a@, c, 0)
            } else {
                0
            } by {
            lemma_exact_hits_bounded(g@, a@, c, n as int);
        }
    }
    let mut i: usize = 0;
    while i < n
        invariant
            n == g@.len(),
            n == a@.len(),
            i <= n,
            available.wf(),
            forall|c: char| #[trigger]
                available.count_of(c) == if misplaced_before(g@, a@, c, i as int) < budget(
                    g@,
                    a@,
                    c,
                ) {
                    budget(g@, a@, c) - misplaced_before(g@, a@, c, i as int)
                } else {
                    0
                },
            letters@.len() == n,
            forall|j: int| 0 <= j < i ==> #[trigger] letters@[j] == score(g@, a@)[j],
            forall|j: int| i <= j < n ==> #[trigger] letters@[j] == exact_only(g@, a@, j),
        decreases n - i,
    {
        let c = g[i];
        if c != a[i] {
            let gl = build_guess_letter_with_accuracy(a, i, c, available);
            letters.set(i, gl);
        }
        proof {
            assert forall|d: char| #[trigger]
                available.count_of(d) == if misplaced_before(g@, a@, d, i + 1) < budget(
                    g@,
                    a@,
                    d,
                ) {
                    budget(g@, a@, d) - misplaced_before(g@, a@, d, i + 1)
                } else {
                    0
                } by {
                lemma_exact_hits_bounded(g@, a@, d, n as int);
            }
        }
        i = i + 1;
    }
    assert(letters@ =~= score(g@, a@));
}

/// Scores `guess_input` against `answer` in two passes: exact positions first,
/// then the remaining positions from left to right against what is left of
/// each letter's count in the answer.
pub fn build_guess(guess_input: &str, answer: &str) -> (r: WordGuess)
    requires
        guess_input@.len() == answer@.len(),
    ensures
        r@ == score(guess_input@, answer@),
{
    let g = chars_of(guess_input);
    let a = chars_of(answer);
    let mut available = build_letter_counts(&a);
    let mut letters = exact_pass(&g, &a, &mut available);
    misplaced_pass(&g, &a, &mut available, &mut letters);
    WordGuess { letters }
}

} // verus!

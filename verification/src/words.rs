//! The letter-guessing game around a secret word: per-letter
//! statistics of the word, revealing occurrences one at a time, and
//! the round-by-round game state. Reading the player's input and
//! printing the board happen outside; this is the game's logic.

use vstd::prelude::*;

verus! {

broadcast use vstd::seq_lib::lemma_seq_contains_after_push;

/// How many wrong guesses end the game.
pub const NUM_INCORRECT_GUESSES: u32 = 5;

/// The placeholder shown for a letter not yet revealed.
pub const HIDDEN: char = '-';

/// The positions at which `c` occurs in `chars`, in increasing order.
pub open spec fn positions_of(chars: Seq<char>, c: char) -> Seq<int>
    decreases chars.len(),
{
    if chars.len() == 0 {
        Seq::empty()
    } else if chars.last() == c {
        positions_of(chars.drop_last(), c).push(chars.len() - 1)
    } else {
        positions_of(chars.drop_last(), c)
    }
}

/// How often `c` occurs in `chars`.
pub open spec fn count_of(chars: Seq<char>, c: char) -> nat {
    positions_of(chars, c).len()
}

/// The recorded positions point at occurrences of the letter inside
/// the word, there are no more of them than the word has letters,
/// and there are none exactly when the word lacks the letter.
pub proof fn lemma_positions_facts(chars: Seq<char>, c: char)
    ensures
        forall|k: int|
            0 <= k < positions_of(chars, c).len() ==> 0 <= #[trigger] positions_of(chars, c)[k]
                < chars.len(),
        forall|k: int|
            0 <= k < positions_of(chars, c).len() ==> chars[#[trigger] positions_of(chars, c)[k]]
                == c,
        count_of(chars, c) <= chars.len(),
        count_of(chars, c) == 0 <==> !chars.contains(c),
    decreases chars.len(),
{
    if chars.len() > 0 {
        let rest = chars.drop_last();
        lemma_positions_facts(rest, c);
        assert forall|k: int|
            0 <= k < positions_of(chars, c).len() implies 0 <= #[trigger] positions_of(chars, c)[k]
            < chars.len() && chars[positions_of(chars, c)[k]] == c by {
            if k < positions_of(rest, c).len() {
                assert(positions_of(chars, c)[k] == positions_of(rest, c)[k]);
                assert(rest[positions_of(rest, c)[k]] == c);
            }
        }
        if chars.contains(c) {
            let w = choose|w: int| 0 <= w < chars.len() && chars[w] == c;
            if w < chars.len() - 1 {
                assert(rest[w] == c);
                assert(rest.contains(c));
            }
            assert(count_of(chars, c) > 0);
        }
        if count_of(chars, c) > 0 {
            if chars.last() == c {
                assert(chars.contains(c));
            } else {
                assert(rest.contains(c));
                let w = choose|w: int| 0 <= w < rest.len() && rest[w] == c;
                assert(chars[w] == c);
            }
        }
    }
}

/// One letter's record in the word statistics: how often it occurs,
/// how many of those occurrences have been revealed, and where they
/// all are, in order.
#[derive(Debug)]
pub struct CharInWord {
    pub num: u32,
    pub guessed_num: u32,
    pub idxs: Vec<u32>,
}

/// Whether one letter's record states exactly the occurrences of `c`
/// in the word.
pub open spec fn entry_ok(chars: Seq<char>, c: char, e: CharInWord) -> bool {
    &&& e.num as nat == count_of(chars, c)
    &&& e.idxs@.map_values(|x: u32| x as int) == positions_of(chars, c)
}

/// The per-letter statistics of a secret word, one record per
/// distinct letter.
pub struct WordStatistics {
    entries: Vec<(char, CharInWord)>,
}

impl WordStatistics {
    /// The records, one per distinct letter.
    pub closed spec fn spec_entries(self) -> Seq<(char, CharInWord)> {
        self.entries@
    }

    /// Each letter has at most one record, and no record lists more
    /// positions than a `u32` can count.
    pub open spec fn wf(self) -> bool {
        &&& forall|i: int, j: int|
            0 <= i < j < self.spec_entries().len() ==> #[trigger] self.spec_entries()[i].0
                != #[trigger] self.spec_entries()[j].0
        &&& forall|i: int|
            0 <= i < self.spec_entries().len() ==> (#[trigger] self.spec_entries()[i].1).idxs@.len()
                < u32::MAX
    }

    /// Whether a letter has a record.
    pub open spec fn spec_has(self, c: char) -> bool {
        exists|i: int| 0 <= i < self.spec_entries().len() && #[trigger] self.spec_entries()[i].0 == c
    }

    /// The record of a letter that has one.
    pub open spec fn spec_stat(self, c: char) -> CharInWord {
        let i = choose|i: int|
            0 <= i < self.spec_entries().len() && #[trigger] self.spec_entries()[i].0 == c;
        self.spec_entries()[i].1
    }

    /// The statistics describe the word: every record states its
    /// letter's occurrences, and every letter of the word has a
    /// record.
    pub open spec fn matches_word(self, chars: Seq<char>) -> bool {
        &&& forall|i: int|
            0 <= i < self.spec_entries().len() ==> entry_ok(
                chars,
                self.spec_entries()[i].0,
                (#[trigger] self.spec_entries()[i]).1,
            )
        &&& forall|c: char| #[trigger] chars.contains(c) ==> self.spec_has(c)
    }

    /// The next occurrence a correct guess of `c` would reveal: the
    /// first recorded position not yet revealed, if any occurrence of
    /// `c` is left.
    pub open spec fn spec_next_index(self, c: char) -> Option<u32> {
        if self.spec_has(c) && (self.spec_stat(c).guessed_num as int) < self.spec_stat(
            c,
        ).idxs@.len() {
            Some(self.spec_stat(c).idxs@[self.spec_stat(c).guessed_num as int])
        } else {
            None
        }
    }

    /// Under the uniqueness invariant, a letter determines the index
    /// of its record.
    proof fn lemma_key_index_unique(self, a: int, b: int)
        requires
            self.wf(),
            0 <= a < self.spec_entries().len(),
            0 <= b < self.spec_entries().len(),
            self.spec_entries()[a].0 == self.spec_entries()[b].0,
        ensures
            a == b,
    {
        if a < b {
            assert(self.spec_entries()[a].0 != self.spec_entries()[b].0);
        }
        if b < a {
            assert(self.spec_entries()[b].0 != self.spec_entries()[a].0);
        }
    }

    /// The record of the letter stored at an index is that index's
    /// record.
    proof fn lemma_stat_at_index(self, i: int)
        requires
            self.wf(),
            0 <= i < self.spec_entries().len(),
        ensures
            self.spec_has(self.spec_entries()[i].0),
            self.spec_stat(self.spec_entries()[i].0) == self.spec_entries()[i].1,
    {
        let c = self.spec_entries()[i].0;
        assert(self.spec_has(c));
        let k = choose|k: int|
            0 <= k < self.spec_entries().len() && #[trigger] self.spec_entries()[k].0 == c;
        self.lemma_key_index_unique(k, i);
    }

    /// Finds the record of a letter, exactly when it has one.
    fn find(&self, c: char) -> (r: Option<usize>)
        ensures
            r matches Some(w) ==> w < self.spec_entries().len() && self.spec_entries()[w as int].0
                == c,
            r is None ==> !self.spec_has(c),
    {
        let mut i: usize = 0;
        while i < self.entries.len()
            invariant
                i <= self.entries@.len(),
                forall|k: int| 0 <= k < i as int ==> #[trigger] self.entries@[k].0 != c,
            decreases self.entries@.len() - i,
        {
            if self.entries[i].0 == c {
                return Some(i);
            }
            i = i + 1;
        }
        None
    }
}

/// Copies a list of positions.
fn copy_positions(src: &Vec<u32>) -> (r: Vec<u32>)
    ensures
        r@ == src@,
{
    let mut r: Vec<u32> = Vec::new();
    let mut i: usize = 0;
    while i < src.len()
        invariant
            i <= src@.len(),
            r@ == src@.take(i as int),
        decreases src@.len() - i,
    {
        r.push(src[i]);
        proof {
            assert(src@.take(i + 1) =~= src@.take(i as int).push(src@[i as int]));
        }
        i = i + 1;
    }
    proof {
        assert(src@.take(src@.len() as int) =~= src@);
    }
    r
}

/// Builds the statistics of a secret word: one record per distinct
/// letter, stating its occurrence count and all its positions in
/// order, with nothing revealed yet.
pub fn word_statistics(secret_word_chars: &Vec<char>) -> (st: WordStatistics)
    requires
        secret_word_chars@.len() < u32::MAX,
    ensures
        st.wf(),
        st.matches_word(secret_word_chars@),
        forall|i: int|
            0 <= i < st.spec_entries().len() ==> (#[trigger] st.spec_entries()[i].1).guessed_num
                == 0,
        forall|i: int|
            0 <= i < st.spec_entries().len() ==> secret_word_chars@.contains(
                #[trigger] st.spec_entries()[i].0,
            ),
{
    let ghost word: Seq<char> = secret_word_chars@;
    let mut entries: Vec<(char, CharInWord)> = Vec::new();
    let n = secret_word_chars.len();
    let mut i: usize = 0;
    while i < n
        invariant
            n == word.len(),
            word == secret_word_chars@,
            word.len() < u32::MAX,
            i <= n,
            forall|a: int, b: int|
                0 <= a < b < entries@.len() ==> #[trigger] entries@[a].0 != #[trigger] entries@[b].0,
            forall|k: int|
                0 <= k < entries@.len() ==> entry_ok(word, entries@[k].0, (#[trigger] entries@[k]).1),
            forall|k: int| 0 <= k < entries@.len() ==> (#[trigger] entries@[k].1).guessed_num == 0,
            forall|k: int|
                0 <= k < entries@.len() ==> (#[trigger] entries@[k].1).idxs@.len() < u32::MAX,
            forall|k: int| 0 <= k < entries@.len() ==> word.contains(#[trigger] entries@[k].0),
            forall|c: char|
                #[trigger] word.take(i as int).contains(c) ==> exists|k: int|
                    0 <= k < entries@.len() && #[trigger] entries@[k].0 == c,
        decreases n - i,
    {
        let c = secret_word_chars[i];
        let mut present = false;
        let mut w: usize = 0;
        while w < entries.len()
            invariant
                w <= entries@.len(),
                present ==> exists|k: int|
                    0 <= k < entries@.len() && #[trigger] entries@[k].0 == c,
                !present ==> forall|k: int| 0 <= k < w as int ==> #[trigger] entries@[k].0 != c,
            decreases entries@.len() - w,
        {
            if entries[w].0 == c {
                present = true;
            }
            w = w + 1;
        }
        if !present {
            let mut idxs: Vec<u32> = Vec::new();
            let mut j: usize = 0;
            while j < n
                invariant
                    n == word.len(),
                    word == secret_word_chars@,
                    word.len() < u32::MAX,
                    j <= n,
                    idxs@.map_values(|x: u32| x as int) == positions_of(word.take(j as int), c),
                    idxs@.len() <= j,
                decreases n - j,
            {
                proof {
                    assert(word.take(j + 1).drop_last() =~= word.take(j as int));
                    assert(word.take(j + 1).last() == word[j as int]);
                }
                if secret_word_chars[j] == c {
                    idxs.push(j as u32);
                    proof {
                        assert(idxs@.map_values(|x: u32| x as int) =~= idxs@.drop_last().map_values(
                            |x: u32| x as int,
                        ).push(j as int));
                    }
                }
                j = j + 1;
            }
            proof {
                assert(word.take(n as int) =~= word);
                lemma_positions_facts(word, c);
            }
            let cnt: u32 = idxs.len() as u32;
            let entry = CharInWord { num: cnt, guessed_num: 0, idxs };
            let ghost before = entries@;
            entries.push((c, entry));
            proof {
                assert(entries@[before.len() as int].0 == c);
                assert(word.take(i as int + 1) =~= word.take(i as int).push(word[i as int]));
                assert(word[i as int] == c);
                assert(word.contains(c)) by {
                    assert(word[i as int] == c);
                }
                assert forall|cc: char| #[trigger] word.take(i as int + 1).contains(cc) implies
                    exists|k: int|
                        0 <= k < entries@.len() && #[trigger] entries@[k].0 == cc by {
                    if cc == c {
                        assert(entries@[before.len() as int].0 == cc);
                    } else {
                        assert(word.take(i as int).contains(cc));
                        let k = choose|k: int|
                            0 <= k < before.len() && #[trigger] before[k].0 == cc;
                        assert(entries@[k].0 == cc);
                    }
                }
            }
        } else {
            proof {
                assert(word.take(i as int + 1) =~= word.take(i as int).push(word[i as int]));
                assert forall|cc: char| #[trigger] word.take(i as int + 1).contains(cc) implies
                    exists|k: int|
                        0 <= k < entries@.len() && #[trigger] entries@[k].0 == cc by {
                    if cc == c {
                    } else {
                        assert(word.take(i as int).contains(cc));
                    }
                }
            }
        }
        i = i + 1;
    }
    let ghost es = entries@;
    let st = WordStatistics { entries };
    proof {
        assert(st.spec_entries() == es);
        assert(word.take(n as int) =~= word);
        assert forall|c: char| #[trigger] word.contains(c) implies st.spec_has(c) by {
            assert(word.take(n as int).contains(c));
            let k = choose|k: int| 0 <= k < es.len() && #[trigger] es[k].0 == c;
            assert(st.spec_entries()[k].0 == c);
        }
    }
    st
}

/// Whether, and where, a guessed letter reveals a further occurrence.
#[derive(Debug, PartialEq, Eq, Structural, Clone, Copy)]
pub enum Index {
    /// The letter occurs and its next occurrence is at this position.
    Yes(u32),
    /// The letter has no record, or no occurrence of it is left.
    No,
}

/// Looks up a guessed letter in the statistics: if an unrevealed
/// occurrence is left, reveals it (counting it revealed) and returns
/// its position; otherwise leaves the statistics untouched. Record
/// order, letters, occurrence counts and positions never change;
/// only the revealed count of the guessed letter can grow, by one.
pub fn is_char_in_word(ch: char, statistics: &mut WordStatistics) -> (r: Index)
    requires
        old(statistics).wf(),
    ensures
        final(statistics).wf(),
        final(statistics).spec_entries().len() == old(statistics).spec_entries().len(),
        forall|i: int|
            0 <= i < old(statistics).spec_entries().len() ==> {
                &&& (#[trigger] final(statistics).spec_entries()[i]).0 == old(
                    statistics,
                ).spec_entries()[i].0
                &&& final(statistics).spec_entries()[i].1.num == old(
                    statistics,
                ).spec_entries()[i].1.num
                &&& final(statistics).spec_entries()[i].1.idxs@ == old(
                    statistics,
                ).spec_entries()[i].1.idxs@
            },
        match old(statistics).spec_next_index(ch) {
            Some(idx) => r == Index::Yes(idx) && forall|i: int|
                0 <= i < old(statistics).spec_entries().len()
                    ==> (#[trigger] final(statistics).spec_entries()[i]).1.guessed_num == if old(
                    statistics,
                ).spec_entries()[i].0 == ch {
                    old(statistics).spec_entries()[i].1.guessed_num + 1
                } else {
                    old(statistics).spec_entries()[i].1.guessed_num as int
                },
            None => r == Index::No && *final(statistics) == *old(statistics),
        },
{
    let found = statistics.find(ch);
    match found {
        Some(w) => {
            proof {
                statistics.lemma_stat_at_index(w as int);
            }
            let g: u32 = statistics.entries[w].1.guessed_num;
            let cnt: u32 = statistics.entries[w].1.num;
            if (g as usize) < statistics.entries[w].1.idxs.len() {
                let idx: u32 = statistics.entries[w].1.idxs[g as usize];
                let idxs2 = copy_positions(&statistics.entries[w].1.idxs);
                let entry = CharInWord { num: cnt, guessed_num: g + 1, idxs: idxs2 };
                statistics.entries.set(w, (ch, entry));
                proof {
                    assert(old(statistics).spec_next_index(ch) == Some(idx));
                    assert forall|a: int, b: int|
                        0 <= a < b < statistics.spec_entries().len() implies #[trigger] statistics
                        .spec_entries()[a].0 != #[trigger] statistics.spec_entries()[b].0 by {
                        assert(statistics.spec_entries()[a].0 == old(
                            statistics,
                        ).spec_entries()[a].0);
                        assert(statistics.spec_entries()[b].0 == old(
                            statistics,
                        ).spec_entries()[b].0);
                    }
                }
                Index::Yes(idx)
            } else {
                proof {
                    assert(old(statistics).spec_next_index(ch) is None);
                }
                Index::No
            }
        },
        None => {
            proof {
                assert(old(statistics).spec_next_index(ch) is None);
            }
            Index::No
        },
    }
}

/// Relies on `String::push`: appends one character at the end of the
/// string.
#[verifier::external_body]
fn push_char(s: &mut String, c: char)
    ensures
        final(s)@ == old(s)@.push(c),
{
    s.push(c);
}

/// Renders a list of characters as the string of exactly those
/// characters.
pub fn chars_to_string(chars: &Vec<char>) -> (r: String)
    ensures
        r@ == chars@,
{
    let mut r = String::new();
    let mut i: usize = 0;
    while i < chars.len()
        invariant
            i <= chars@.len(),
            r@ == chars@.take(i as int),
        decreases chars@.len() - i,
    {
        push_char(&mut r, chars[i]);
        proof {
            assert(chars@.take(i + 1) =~= chars@.take(i as int).push(chars@[i as int]));
        }
        i = i + 1;
    }
    proof {
        assert(chars@.take(chars@.len() as int) =~= chars@);
    }
    r
}

/// Compares two letter boards.
fn boards_equal(a: &Vec<char>, b: &Vec<char>) -> (r: bool)
    ensures
        r == (a@ == b@),
{
    if a.len() != b.len() {
        return false;
    }
    let mut i: usize = 0;
    while i < a.len()
        invariant
            a@.len() == b@.len(),
            i <= a@.len(),
            forall|k: int| 0 <= k < i as int ==> a@[k] == b@[k],
        decreases a@.len() - i,
    {
        if a[i] != b[i] {
            return false;
        }
        i = i + 1;
    }
    proof {
        assert(a@ =~= b@);
    }
    true
}

/// How one guessed letter changed the round.
#[derive(Debug, PartialEq, Eq, Structural, Clone, Copy)]
pub enum GuessOutcome {
    /// An occurrence was revealed and the word is not yet complete.
    Hit,
    /// An occurrence was revealed and it completed the word.
    Won,
    /// No occurrence was left to reveal; a guess was used up.
    Miss,
    /// No occurrence was left and it was the last allowed wrong
    /// guess.
    Lost,
}

/// One game around one secret word: the board shown to the player,
/// the letter statistics, the wrong guesses spent and the letters
/// tried.
pub struct HangmanGame {
    secret: Vec<char>,
    current: Vec<char>,
    statistics: WordStatistics,
    num_incorrect_guesses: u32,
    guessed: Vec<char>,
}

impl HangmanGame {
    /// The secret word.
    pub closed spec fn spec_secret(self) -> Seq<char> {
        self.secret@
    }

    /// The board: revealed letters, placeholders elsewhere.
    pub closed spec fn spec_current(self) -> Seq<char> {
        self.current@
    }

    /// The letter statistics driving revelation.
    pub closed spec fn spec_statistics(self) -> WordStatistics {
        self.statistics
    }

    /// How many wrong guesses have been spent.
    pub closed spec fn spec_incorrect(self) -> u32 {
        self.num_incorrect_guesses
    }

    /// The letters guessed so far, in order.
    pub closed spec fn spec_guessed(self) -> Seq<char> {
        self.guessed@
    }

    /// The game's invariant: the statistics describe the secret word,
    /// the board is as long as the word, and the game has not
    /// overspent its wrong guesses.
    pub open spec fn wf(self) -> bool {
        &&& self.spec_statistics().wf()
        &&& self.spec_statistics().matches_word(self.spec_secret())
        &&& self.spec_current().len() == self.spec_secret().len()
        &&& self.spec_incorrect() <= NUM_INCORRECT_GUESSES
    }

    /// Sets up a game: the full board hidden, the statistics built
    /// from the word, no guesses spent.
    pub fn new(secret_word_chars: &Vec<char>) -> (g: Self)
        requires
            secret_word_chars@.len() < u32::MAX,
        ensures
            g.wf(),
            g.spec_secret() == secret_word_chars@,
            g.spec_current().len() == secret_word_chars@.len(),
            forall|i: int| 0 <= i < g.spec_current().len() ==> g.spec_current()[i] == HIDDEN,
            g.spec_incorrect() == 0,
            g.spec_guessed() == Seq::<char>::empty(),
    {
        let statistics = word_statistics(secret_word_chars);
        let n = secret_word_chars.len();
        let current: Vec<char> = vec![HIDDEN; n];
        let mut secret: Vec<char> = Vec::new();
        let mut i: usize = 0;
        while i < secret_word_chars.len()
            invariant
                i <= secret_word_chars@.len(),
                secret@ == secret_word_chars@.take(i as int),
            decreases secret_word_chars@.len() - i,
        {
            secret.push(secret_word_chars[i]);
            proof {
                assert(secret_word_chars@.take(i + 1) =~= secret_word_chars@.take(i as int).push(
                    secret_word_chars@[i as int],
                ));
            }
            i = i + 1;
        }
        proof {
            assert(secret_word_chars@.take(secret_word_chars@.len() as int)
                =~= secret_word_chars@);
        }
        HangmanGame {
            secret,
            current,
            statistics,
            num_incorrect_guesses: 0,
            guessed: Vec::new(),
        }
    }

    /// The board as the player sees it: revealed letters in place,
    /// placeholders elsewhere.
    pub fn current_board(&self) -> (s: String)
        ensures
            s@ == self.spec_current(),
    {
        chars_to_string(&self.current)
    }

    /// Plays one guessed letter. A letter with an unrevealed
    /// occurrence reveals it on the board, winning if the board now
    /// spells the word (a winning guess is not added to the guessed
    /// letters, as the round ends at once); any other letter spends
    /// one wrong guess, losing the game on the last one.
    pub fn guess(&mut self, ch: char) -> (r: GuessOutcome)
        requires
            old(self).wf(),
            old(self).spec_incorrect() < NUM_INCORRECT_GUESSES,
        ensures
            final(self).wf(),
            final(self).spec_secret() == old(self).spec_secret(),
            match old(self).spec_statistics().spec_next_index(ch) {
                Some(idx) => {
                    &&& final(self).spec_current() == old(self).spec_current().update(
                        idx as int,
                        ch,
                    )
                    &&& final(self).spec_incorrect() == old(self).spec_incorrect()
                    &&& (r == GuessOutcome::Won || r == GuessOutcome::Hit)
                    &&& (r == GuessOutcome::Won <==> final(self).spec_current() == old(
                        self,
                    ).spec_secret())
                    &&& final(self).spec_guessed() == if r == GuessOutcome::Won {
                        old(self).spec_guessed()
                    } else {
                        old(self).spec_guessed().push(ch)
                    }
                },
                None => {
                    &&& final(self).spec_current() == old(self).spec_current()
                    &&& final(self).spec_incorrect() == old(self).spec_incorrect() + 1
                    &&& (r == GuessOutcome::Miss || r == GuessOutcome::Lost)
                    &&& (r == GuessOutcome::Lost <==> final(self).spec_incorrect()
                        == NUM_INCORRECT_GUESSES)
                    &&& final(self).spec_guessed() == old(self).spec_guessed().push(ch)
                },
            },
    {
        let res = is_char_in_word(ch, &mut self.statistics);
        match res {
            Index::Yes(idx) => {
                proof {
                    let stats = old(self).spec_statistics();
                    let k = choose|k: int|
                        0 <= k < stats.spec_entries().len() && #[trigger] stats.spec_entries()[k].0
                            == ch;
                    assert(entry_ok(old(self).spec_secret(), ch, stats.spec_entries()[k].1));
                    lemma_positions_facts(old(self).spec_secret(), ch);
                    let g = stats.spec_stat(ch).guessed_num as int;
                    assert(stats.spec_stat(ch).idxs@.map_values(|x: u32| x as int)[g]
                        == positions_of(old(self).spec_secret(), ch)[g]);
                    assert(idx as int == positions_of(old(self).spec_secret(), ch)[g]);
                    assert(idx < old(self).spec_secret().len());
                }
                self.current.set(idx as usize, ch);
                proof {
                    let word = old(self).spec_secret();
                    let olds = old(self).spec_statistics();
                    let news = self.statistics;
                    assert forall|i: int| 0 <= i < news.spec_entries().len() implies entry_ok(
                        word,
                        news.spec_entries()[i].0,
                        (#[trigger] news.spec_entries()[i]).1,
                    ) by {
                        assert(news.spec_entries()[i].0 == olds.spec_entries()[i].0);
                        assert(entry_ok(word, olds.spec_entries()[i].0, olds.spec_entries()[i].1));
                        assert(news.spec_entries()[i].1.num == olds.spec_entries()[i].1.num);
                        assert(news.spec_entries()[i].1.idxs@ == olds.spec_entries()[i].1.idxs@);
                    }
                    assert forall|c: char| #[trigger] word.contains(c) implies news.spec_has(
                        c,
                    ) by {
                        assert(olds.spec_has(c));
                        let k = choose|k: int|
                            0 <= k < olds.spec_entries().len() && #[trigger] olds.spec_entries()[k].0
                                == c;
                        assert(news.spec_entries()[k].0 == c);
                    }
                    assert(news.matches_word(word));
                }
                let won = boards_equal(&self.current, &self.secret);
                if won {
                    GuessOutcome::Won
                } else {
                    self.guessed.push(ch);
                    GuessOutcome::Hit
                }
            },
            Index::No => {
                self.num_incorrect_guesses = self.num_incorrect_guesses + 1;
                self.guessed.push(ch);
                if self.num_incorrect_guesses == NUM_INCORRECT_GUESSES {
                    GuessOutcome::Lost
                } else {
                    GuessOutcome::Miss
                }
            },
        }
    }
}

} // verus!

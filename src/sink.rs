//! The transcript sink: word pools, word accuracy scoring, de-duplication of
//! partial hypotheses and stop-phrase detection on final ones.
use crate::recognizer::FinalResult;
use crate::text::{contains_phrase, contains_seq, split_words, texts, words};
use vstd::prelude::*;

verus! {

/// The pieces of `s` between its line feeds, in order; there is one more piece
/// than there are line feeds.
pub open spec fn pieces(s: Seq<char>) -> Seq<Seq<char>>
    decreases s.len(),
{
    if s.len() == 0 {
        seq![seq![]]
    } else {
        let prev = pieces(s.drop_last());
        let c = s.last();
        if c == '\n' {
            prev.push(seq![])
        } else {
            prev.drop_last().push(prev.last().push(c))
        }
    }
}

/// A line that ended in a line feed, without the carriage return before it.
pub open spec fn strip_cr(l: Seq<char>) -> Seq<char> {
    if l.len() > 0 && l.last() == '\r' {
        l.drop_last()
    } else {
        l
    }
}

/// The lines of `s` as a buffered reader yields them: each line that ends in a
/// line feed loses it and a carriage return just before it; a last line
/// without a line feed is kept as it is unless it is empty.
pub open spec fn lines(s: Seq<char>) -> Seq<Seq<char>> {
    let p = pieces(s);
    let body = p.drop_last().map_values(|l: Seq<char>| strip_cr(l));
    if p.last().len() == 0 {
        body
    } else {
        body.push(p.last())
    }
}

proof fn lemma_push_to_set(s: Seq<Seq<char>>, x: Seq<char>)
    ensures
        s.push(x).to_set() == s.to_set().insert(x),
{
    assert forall|y: Seq<char>| #[trigger] s.push(x).to_set().contains(y) <==> s.to_set().insert(
        x,
    ).contains(y) by {
        if s.push(x).contains(y) && y != x {
            let k = choose|k: int| 0 <= k < s.push(x).len() && s.push(x)[k] == y;
            assert(k < s.len());
            assert(s[k] == y);
        }
        if s.contains(y) {
            let k = choose|k: int| 0 <= k < s.len() && s[k] == y;
            assert(s.push(x)[k] == y);
        }
        if y == x {
            assert(s.push(x)[s.len() as int] == y);
        }
    }
    assert(s.push(x).to_set() =~= s.to_set().insert(x));
}

/// A set of words: the reference vocabulary of a word accuracy score.
pub struct WordPool {
    words: Vec<String>,
}

impl View for WordPool {
    type V = Set<Seq<char>>;

    closed spec fn view(&self) -> Set<Seq<char>> {
        texts(self.words@).to_set()
    }
}

impl WordPool {
    /// The empty pool.
    pub fn new() -> (r: WordPool)
        ensures
            r@ == Set::<Seq<char>>::empty(),
    {
        let r = WordPool { words: Vec::new() };
        assert(r@ =~= Set::<Seq<char>>::empty());
        r
    }

    /// Whether `word` is in the pool.
    pub fn contains(&self, word: &String) -> (r: bool)
        ensures
            r == self@.contains(word@),
    {
        let mut i: usize = 0;
        while i < self.words.len()
            invariant
                0 <= i <= self.words@.len(),
                forall|k: int| 0 <= k < i ==> self.words@[k]@ != word@,
            decreases self.words@.len() - i,
        {
            if self.words[i] == *word {
                assert(texts(self.words@)[i as int] == word@);
                return true;
            }
            i = i + 1;
        }
        proof {
            if texts(self.words@).contains(word@) {
                let k = choose|k: int| 0 <= k < texts(self.words@).len() && texts(self.words@)[k] == word@;
                assert(self.words@[k]@ == word@);
            }
        }
        false
    }

    /// Adds `word` to the pool.
    pub fn insert(&mut self, word: String)
        ensures
            final(self)@ == old(self)@.insert(word@),
    {
        if !self.contains(&word) {
            let ghost before = texts(self.words@);
            self.words.push(word);
            proof {
                assert(texts(self.words@) =~= before.push(word@));
                lemma_push_to_set(before, word@);
            }
        } else {
            assert(self@.insert(word@) =~= self@);
        }
    }

    /// The pool of the lines of `text`, one word per line.
    pub fn from_lines(text: &str) -> (r: WordPool)
        ensures
            r@ == lines(text@).to_set(),
    {
        let n = text.unicode_len();
        let mut pool = WordPool::new();
        let ghost done: Seq<Seq<char>> = seq![];
        let mut start: usize = 0;
        let mut i: usize = 0;
        assert(text@.subrange(0, 0) =~= Seq::<char>::empty());
        assert(done.push(text@.subrange(0, 0)) =~= seq![Seq::<char>::empty()]);
        assert(done.map_values(|l: Seq<char>| strip_cr(l)).to_set() =~= Set::<Seq<char>>::empty());
        while i < n
            invariant
                n == text@.len(),
                0 <= start <= i <= n,
                pieces(text@.subrange(0, i as int)) == done.push(text@.subrange(start as int, i as int)),
                pool@ == done.map_values(|l: Seq<char>| strip_cr(l)).to_set(),
            decreases n - i,
        {
            let c = text.get_char(i);
            let ghost prefix = text@.subrange(0, i as int);
            assert(text@.subrange(0, i + 1).drop_last() =~= prefix);
            if c == '\n' {
                let end: usize = if i > start && text.get_char(i - 1) == '\r' {
                    i - 1
                } else {
                    i
                };
                let line = String::from_str(text.substring_char(start, end));
                proof {
                    let raw = text@.subrange(start as int, i as int);
                    if i > start && text@[i - 1] == '\r' {
                        assert(raw.drop_last() =~= line@);
                    } else {
                        assert(raw =~= line@);
                    }
                    assert(strip_cr(raw) == line@);
                }
                let ghost old_done = done;
                pool.insert(line);
                proof {
                    done = done.push(text@.subrange(start as int, i as int));
                    assert(done.map_values(|l: Seq<char>| strip_cr(l)) =~= old_done.map_values(
                        |l: Seq<char>| strip_cr(l),
                    ).push(line@));
                    lemma_push_to_set(
                        old_done.map_values(|l: Seq<char>| strip_cr(l)),
                        line@,
                    );
                    assert(text@.subrange(i + 1, i + 1) =~= Seq::<char>::empty());
                }
                start = i + 1;
            } else {
                proof {
                    assert(text@.subrange(start as int, i + 1) =~= text@.subrange(
                        start as int,
                        i as int,
                    ).push(c));
                }
            }
            i = i + 1;
        }
        assert(text@.subrange(0, n as int) =~= text@);
        let ghost body = done.map_values(|l: Seq<char>| strip_cr(l));
        assert(pieces(text@).drop_last() =~= done);
        if start < n {
            let last = String::from_str(text.substring_char(start, n));
            pool.insert(last);
            proof {
                lemma_push_to_set(body, last@);
            }
        } else {
            assert(text@.subrange(start as int, n as int).len() == 0);
        }
        pool
    }
}

/// The number of entries of `ws` that are in `pool`.
pub open spec fn count_known(ws: Seq<Seq<char>>, pool: Set<Seq<char>>) -> nat
    decreases ws.len(),
{
    if ws.len() == 0 {
        0
    } else {
        count_known(ws.drop_last(), pool) + if pool.contains(ws.last()) {
            1nat
        } else {
            0nat
        }
    }
}

/// How many recognized words a vocabulary holds.
#[derive(Debug, Clone, Copy, PartialEq, Eq, Structural)]
pub enum WordScore {
    /// The text held no words: there is no rate to give.
    NoWords,
    /// `known` of the `total` words are in the vocabulary (`total > 0`).
    Rate { known: usize, total: usize },
}

/// The score of `text` against `pool`.
pub open spec fn score_of(text: Seq<char>, pool: Set<Seq<char>>) -> WordScore {
    let ws = words(text);
    if ws.len() == 0 {
        WordScore::NoWords
    } else {
        WordScore::Rate { known: count_known(ws, pool) as usize, total: ws.len() as usize }
    }
}

proof fn lemma_count_known_le(ws: Seq<Seq<char>>, pool: Set<Seq<char>>)
    ensures
        count_known(ws, pool) <= ws.len(),
    decreases ws.len(),
{
    if ws.len() > 0 {
        lemma_count_known_le(ws.drop_last(), pool);
    }
}

/// Scores `text` against `pool`: the number of its words, and how many of them
/// the pool holds.
pub fn score_words(text: &str, pool: &WordPool) -> (r: WordScore)
    ensures
        r == score_of(text@, pool@),
        r matches WordScore::Rate { known, total } ==> 0 < total && known <= total
            && total == words(text@).len(),
{
    let ws = split_words(text);
    let ghost all = texts(ws@);
    if ws.len() == 0 {
        return WordScore::NoWords;
    }
    let mut known: usize = 0;
    let mut i: usize = 0;
    while i < ws.len()
        invariant
            all == texts(ws@),
            0 <= i <= ws@.len(),
            known == count_known(all.subrange(0, i as int), pool@),
            known <= i,
        decreases ws@.len() - i,
    {
        assert(all.subrange(0, i + 1).drop_last() =~= all.subrange(0, i as int));
        if pool.contains(&ws[i]) {
            known = known + 1;
        }
        i = i + 1;
    }
    assert(all.subrange(0, ws@.len() as int) =~= all);
    WordScore::Rate { known, total: ws.len() }
}

/// What the sink passes on for a partial hypothesis `text` after the partial
/// hypothesis `last`: nothing when they are equal, else `text`.
pub open spec fn partial_step(last: Seq<char>, text: Seq<char>) -> Option<Seq<char>> {
    if text == last {
        None
    } else {
        Some(text)
    }
}

/// What a sink whose last partial hypothesis is `last` passes on, in order,
/// when it receives the partial hypotheses `xs`.
pub open spec fn partial_emits(last: Seq<char>, xs: Seq<Seq<char>>) -> Seq<Seq<char>>
    decreases xs.len(),
{
    if xs.len() == 0 {
        seq![]
    } else {
        let prev = partial_emits(last, xs.drop_last());
        let before = if xs.len() > 1 {
            xs[xs.len() - 2]
        } else {
            last
        };
        match partial_step(before, xs.last()) {
            Some(t) => prev.push(t),
            None => prev,
        }
    }
}

/// A sink never passes on the same partial hypothesis twice in a row, never
/// passes on first the hypothesis it last received, and passes on no more
/// hypotheses than it received.
pub proof fn lemma_partials_deduplicated(last: Seq<char>, xs: Seq<Seq<char>>)
    ensures
        partial_emits(last, xs).len() <= xs.len(),
        partial_emits(last, xs).len() > 0 ==> partial_emits(last, xs)[0] != last,
        forall|k: int|
            0 <= k < partial_emits(last, xs).len() - 1 ==> #[trigger] partial_emits(last, xs)[k]
                != partial_emits(last, xs)[k + 1],
        partial_emits(last, xs).len() > 0 ==> partial_emits(last, xs).last() == xs.last(),
        partial_emits(last, xs).len() == 0 ==> forall|k: int| 0 <= k < xs.len() ==> #[trigger] xs[k] == last,
    decreases xs.len(),
{
    if xs.len() > 0 {
        let prev = partial_emits(last, xs.drop_last());
        lemma_partials_deduplicated(last, xs.drop_last());
        let before = if xs.len() > 1 {
            xs[xs.len() - 2]
        } else {
            last
        };
        if xs.len() > 1 && prev.len() > 0 {
            assert(prev.last() == xs.drop_last().last());
        }
        if xs.len() > 1 && prev.len() == 0 {
            assert(xs.drop_last()[xs.len() - 2] == last);
        }
        if partial_emits(last, xs).len() == 0 {
            assert forall|k: int| 0 <= k < xs.len() implies #[trigger] xs[k] == last by {
                if k < xs.len() - 1 {
                    assert(xs.drop_last()[k] == last);
                }
            }
        }
        if xs.last() != before {
            assert forall|k: int|
                0 <= k < prev.push(xs.last()).len() - 1 implies #[trigger] prev.push(xs.last())[k]
                != prev.push(xs.last())[k + 1] by {
                if k < prev.len() - 1 {
                    assert(prev[k] != prev[k + 1]);
                }
            }
        }
    }
}

/// What the sink reports for one final result.
#[derive(Debug)]
pub struct FinalReport {
    /// The transcript.
    pub text: String,
    /// Its score, when the sink has a vocabulary.
    pub score: Option<WordScore>,
    /// Whether the transcript holds the stop phrase.
    pub stop: bool,
}

/// Consumes recognition results: passes on partial hypotheses that differ from
/// the one before, and scores and checks final ones.
pub struct TranscriptSink {
    last_partial: String,
    stop_phrase: String,
    pool: Option<WordPool>,
}

impl TranscriptSink {
    /// The last partial hypothesis received (empty before the first).
    pub closed spec fn last_partial(&self) -> Seq<char> {
        self.last_partial@
    }

    pub closed spec fn stop_phrase(&self) -> Seq<char> {
        self.stop_phrase@
    }

    pub closed spec fn vocabulary(&self) -> Option<Set<Seq<char>>> {
        match self.pool {
            Some(p) => Some(p@),
            None => None,
        }
    }

    /// A sink that stops on `stop_phrase` and scores against `pool`, if any.
    pub fn new(stop_phrase: String, pool: Option<WordPool>) -> (r: TranscriptSink)
        ensures
            r.last_partial() == Seq::<char>::empty(),
            r.stop_phrase() == stop_phrase@,
            r.vocabulary() == (match pool {
                Some(p) => Some(p@),
                None => None::<Set<Seq<char>>>,
            }),
    {
        TranscriptSink { last_partial: String::new(), stop_phrase, pool }
    }

    /// Receives a partial hypothesis: returns it to be shown unless it equals
    /// the one received just before.
    pub fn on_partial(&mut self, text: String) -> (r: Option<String>)
        ensures
            final(self).last_partial() == text@,
            final(self).stop_phrase() == old(self).stop_phrase(),
            final(self).vocabulary() == old(self).vocabulary(),
            r is Some <==> partial_step(old(self).last_partial(), text@) is Some,
            r is Some ==> r->Some_0@ == text@,
    {
        if text == self.last_partial {
            return None;
        }
        self.last_partial = text.clone();
        Some(text)
    }

    /// Receives a final result: its text, its score when there is a
    /// vocabulary, and whether it holds the stop phrase.
    pub fn on_final(&self, result: &FinalResult) -> (r: FinalReport)
        ensures
            r.text@ == result.text@,
            r.stop == contains_seq(result.text@, self.stop_phrase()),
            r.score == (match self.vocabulary() {
                Some(v) => Some(score_of(result.text@, v)),
                None => None::<WordScore>,
            }),
    {
        let score = match &self.pool {
            Some(p) => Some(score_words(result.text.as_str(), p)),
            None => None,
        };
        let stop = contains_phrase(result.text.as_str(), self.stop_phrase.as_str());
        FinalReport { text: result.text.clone(), score, stop }
    }
}

} // verus!

//! The statistical word model: a first-order Markov chain over the words of a corpus.
//!
//! The chain itself is `markov::Chain<String>`. What the library knows of it is the set
//! of steps it has recorded: which word may open a line, which word may follow which,
//! and which word may close a line.

use crate::error::BuildError;
use crate::text::{
    free_of, lemma_split_ends, lemma_split_join, lemma_split_nonempty, lemma_split_pieces,
    spec_join, spec_split, Separator,
};
use vstd::multiset::Multiset;
use vstd::prelude::*;

verus! {

/// One recorded step: from a word to the word after it. `None` on the left is the
/// start of a line, `None` on the right its end.
pub type Transition = (Option<Seq<char>>, Option<Seq<char>>);

/// The tokens of a line as the chain reads it: the pieces between single spaces.
pub open spec fn line_tokens(line: Seq<char>) -> Seq<Seq<char>> {
    spec_split(line, Separator::Char(' '))
}

/// The tokens with the line's start before them and its end after them.
pub open spec fn padded(tokens: Seq<Seq<char>>) -> Seq<Option<Seq<char>>> {
    seq![None] + tokens.map_values(|token: Seq<char>| Some(token)) + seq![None]
}

/// The steps taken when `tokens` are read from the start of a line to its end.
pub open spec fn steps(tokens: Seq<Seq<char>>) -> Set<Transition> {
    Set::new(
        |t: Transition|
            exists|i: int|
                0 <= i <= tokens.len() && t == (#[trigger] padded(tokens)[i], padded(tokens)[i + 1]),
    )
}

/// The steps recorded by reading every line of a corpus.
pub open spec fn corpus_transitions(lines: Seq<Seq<char>>) -> Set<Transition> {
    Set::new(
        |t: Transition|
            exists|i: int| 0 <= i < lines.len() && #[trigger] steps(line_tokens(lines[i])).contains(t),
    )
}

/// The steps taken when `tokens` are read from the start of a line to its end, in the
/// order in which they are taken.
pub open spec fn step_seq(tokens: Seq<Seq<char>>) -> Seq<Transition> {
    padded(tokens).drop_last().zip_with(padded(tokens).drop_first())
}

/// How often each step is taken when `tokens` are read from the start of a line to its
/// end.
pub open spec fn step_counts(tokens: Seq<Seq<char>>) -> Multiset<Transition> {
    step_seq(tokens).to_multiset()
}

/// How often each step is taken when every line of a corpus is read: each line adds its
/// own steps to those of the lines before it.
pub open spec fn corpus_counts(lines: Seq<Seq<char>>) -> Multiset<Transition>
    decreases lines.len(),
{
    if lines.len() == 0 {
        Multiset::empty()
    } else {
        corpus_counts(lines.drop_last()).add(step_counts(line_tokens(lines.last())))
    }
}

/// Whether some word may open a line.
pub open spec fn has_start(recorded: Set<Transition>) -> bool {
    exists|token: Seq<char>| recorded.contains((None, Some(token)))
}

/// Whether `tokens` is a walk through the recorded steps from the start of a line to
/// its end, over at least one token.
pub open spec fn is_walk(recorded: Set<Transition>, tokens: Seq<Seq<char>>) -> bool {
    tokens.len() > 0 && steps(tokens).subset_of(recorded)
}

/// Whether `text` is a walk through the recorded steps, its tokens joined by single
/// spaces.
pub open spec fn can_say(recorded: Set<Transition>, text: Seq<char>) -> bool {
    exists|tokens: Seq<Seq<char>>| is_walk(recorded, tokens) && text == spec_join(tokens, ' ')
}

/// Reading nothing records nothing.
pub proof fn lemma_corpus_empty()
    ensures
        corpus_transitions(Seq::empty()) == Set::<Transition>::empty(),
{
    assert(corpus_transitions(Seq::empty()) =~= Set::<Transition>::empty());
}

/// Reading one more line adds that line's steps to what the lines before it recorded.
pub proof fn lemma_corpus_push(lines: Seq<Seq<char>>, line: Seq<char>)
    ensures
        corpus_transitions(lines.push(line)) == corpus_transitions(lines).union(
            steps(line_tokens(line)),
        ),
{
    let more = lines.push(line);
    let joint = corpus_transitions(lines).union(steps(line_tokens(line)));
    assert forall|t: Transition| corpus_transitions(more).contains(t) implies joint.contains(
        t,
    ) by {
        let i = choose|i: int|
            0 <= i < more.len() && #[trigger] steps(line_tokens(more[i])).contains(t);
        if i < lines.len() {
            assert(steps(line_tokens(lines[i])).contains(t));
        }
    }
    assert forall|t: Transition| joint.contains(t) implies corpus_transitions(more).contains(
        t,
    ) by {
        if steps(line_tokens(line)).contains(t) {
            assert(steps(line_tokens(more[lines.len() as int])).contains(t));
        } else {
            let i = choose|i: int|
                0 <= i < lines.len() && #[trigger] steps(line_tokens(lines[i])).contains(t);
            assert(steps(line_tokens(more[i])).contains(t));
        }
    }
    assert(corpus_transitions(more) =~= joint);
}

/// The first token of a line is recorded as one that may open a line.
pub proof fn lemma_steps_start(tokens: Seq<Seq<char>>)
    requires
        tokens.len() > 0,
    ensures
        steps(tokens).contains((None, Some(tokens[0]))),
{
    assert(padded(tokens)[0] == None::<Seq<char>>);
    assert(padded(tokens)[1] == Some(tokens[0]));
}

/// A corpus of at least one line records a word that may open a line.
pub proof fn lemma_corpus_has_start(lines: Seq<Seq<char>>)
    requires
        lines.len() > 0,
    ensures
        has_start(corpus_transitions(lines)),
{
    let tokens = line_tokens(lines[0]);
    lemma_split_nonempty(lines[0], Separator::Char(' '));
    lemma_steps_start(tokens);
    assert(steps(line_tokens(lines[0])).contains((None, Some(tokens[0]))));
    assert(corpus_transitions(lines).contains((None, Some(tokens[0]))));
}

/// The steps that are taken at least once when `tokens` are read are the steps of
/// `tokens`.
pub proof fn lemma_step_counts_support(tokens: Seq<Seq<char>>)
    ensures
        step_counts(tokens).dom() == steps(tokens),
{
    let taken = step_seq(tokens);
    taken.to_multiset_ensures();
    assert forall|t: Transition| step_counts(tokens).dom().contains(t) implies steps(
        tokens,
    ).contains(t) by {
        assert(taken.contains(t));
        let i = choose|i: int| 0 <= i < taken.len() && taken[i] == t;
        assert(t == (padded(tokens)[i], padded(tokens)[i + 1]));
    }
    assert forall|t: Transition| steps(tokens).contains(t) implies step_counts(
        tokens,
    ).dom().contains(t) by {
        let i = choose|i: int|
            0 <= i <= tokens.len() && t == (#[trigger] padded(tokens)[i], padded(tokens)[i + 1]);
        assert(taken[i] == t);
        assert(taken.contains(t));
    }
    assert(step_counts(tokens).dom() =~= steps(tokens));
}

/// The steps that are taken at least once when a corpus is read are the steps the
/// corpus records.
pub proof fn lemma_corpus_counts_support(lines: Seq<Seq<char>>)
    ensures
        corpus_counts(lines).dom() == corpus_transitions(lines),
    decreases lines.len(),
{
    if lines.len() == 0 {
        lemma_corpus_empty();
        assert(lines == Seq::<Seq<char>>::empty());
        assert(corpus_counts(lines).dom() =~= Set::<Transition>::empty());
    } else {
        let init = lines.drop_last();
        lemma_corpus_counts_support(init);
        lemma_step_counts_support(line_tokens(lines.last()));
        lemma_corpus_push(init, lines.last());
        assert(init.push(lines.last()) == lines);
        assert(corpus_counts(lines).dom() =~= corpus_counts(init).dom().union(
            step_counts(line_tokens(lines.last())).dom(),
        ));
    }
}

/// The counts of a corpus are those of the corpus without one of its lines, and that
/// line's own.
pub proof fn lemma_corpus_counts_remove(lines: Seq<Seq<char>>, at: int)
    requires
        0 <= at < lines.len(),
    ensures
        corpus_counts(lines) == corpus_counts(lines.remove(at)).add(
            step_counts(line_tokens(lines[at])),
        ),
    decreases lines.len(),
{
    let init = lines.drop_last();
    if at == lines.len() - 1 {
        assert(lines.remove(at) == init);
    } else {
        lemma_corpus_counts_remove(init, at);
        let rest = lines.remove(at);
        assert(rest.drop_last() == init.remove(at));
        assert(rest.last() == lines.last());
        assert(init[at] == lines[at]);
        assert(corpus_counts(lines) =~= corpus_counts(rest).add(
            step_counts(line_tokens(lines[at])),
        ));
    }
}

/// Reordering the lines of a corpus leaves every count as it was: how often a step is
/// taken depends on how often each line occurs, not on where.
pub proof fn lemma_training_counts(a: Seq<Seq<char>>, b: Seq<Seq<char>>)
    requires
        a.to_multiset() == b.to_multiset(),
    ensures
        corpus_counts(a) == corpus_counts(b),
    decreases a.len(),
{
    a.to_multiset_ensures();
    b.to_multiset_ensures();
    if a.len() == 0 {
        assert(b.len() == 0);
    } else {
        let line = a.last();
        let init = a.drop_last();
        assert(a.contains(line)) by {
            assert(a[a.len() - 1] == line);
        }
        assert(a.to_multiset().count(line) > 0);
        assert(b.to_multiset().count(line) > 0);
        assert(b.contains(line));
        let at = choose|at: int| 0 <= at < b.len() && b[at] == line;
        let rest = b.remove(at);
        assert(init == a.remove(a.len() - 1));
        assert(init.to_multiset() =~= a.to_multiset().remove(line));
        assert(rest.to_multiset() =~= b.to_multiset().remove(line));
        lemma_training_counts(init, rest);
        lemma_corpus_counts_remove(b, at);
    }
}

/// What a corpus records depends only on which lines it holds, not on their order nor
/// on how often each occurs.
pub proof fn lemma_training_order(a: Seq<Seq<char>>, b: Seq<Seq<char>>)
    requires
        forall|line: Seq<char>| a.contains(line) <==> b.contains(line),
    ensures
        corpus_transitions(a) == corpus_transitions(b),
{
    assert forall|t: Transition| corpus_transitions(a).contains(t) implies corpus_transitions(
        b,
    ).contains(t) by {
        let i = choose|i: int| 0 <= i < a.len() && #[trigger] steps(line_tokens(a[i])).contains(t);
        assert(a.contains(a[i]));
        let j = choose|j: int| 0 <= j < b.len() && b[j] == a[i];
        assert(steps(line_tokens(b[j])).contains(t));
    }
    assert forall|t: Transition| corpus_transitions(b).contains(t) implies corpus_transitions(
        a,
    ).contains(t) by {
        let i = choose|i: int| 0 <= i < b.len() && #[trigger] steps(line_tokens(b[i])).contains(t);
        assert(b.contains(b[i]));
        let j = choose|j: int| 0 <= j < a.len() && a[j] == b[i];
        assert(steps(line_tokens(a[j])).contains(t));
    }
    assert(corpus_transitions(a) =~= corpus_transitions(b));
}

/// The last token of a line is recorded as one that may close a line.
pub proof fn lemma_steps_end(tokens: Seq<Seq<char>>)
    requires
        tokens.len() > 0,
    ensures
        steps(tokens).contains((Some(tokens.last()), None)),
{
    let n = tokens.len() as int;
    assert(padded(tokens)[n] == Some(tokens[n - 1]));
    assert(padded(tokens)[n + 1] == None::<Seq<char>>);
}

/// What a step of a line can be: a word on either side is a token of the line, the
/// start of the line leads to its first token, and only its last token leads to its end.
pub proof fn lemma_step_shape(tokens: Seq<Seq<char>>, t: Transition)
    requires
        tokens.len() > 0,
        steps(tokens).contains(t),
    ensures
        t.0 matches Some(from) ==> tokens.contains(from),
        t.1 matches Some(to) ==> tokens.contains(to),
        t.0 is None ==> t.1 == Some(tokens.first()),
        t.1 is None ==> t.0 == Some(tokens.last()),
{
    let i = choose|i: int|
        0 <= i <= tokens.len() && t == (#[trigger] padded(tokens)[i], padded(tokens)[i + 1]);
    if i > 0 {
        assert(padded(tokens)[i] == Some(tokens[i - 1]));
    }
    if i < tokens.len() {
        assert(padded(tokens)[i + 1] == Some(tokens[i]));
    }
}

/// The tokens of a corpus: every token of every line.
pub open spec fn vocabulary(lines: Seq<Seq<char>>) -> Set<Seq<char>> {
    Set::new(
        |token: Seq<char>|
            exists|i: int, j: int|
                0 <= i < lines.len() && 0 <= j < line_tokens(lines[i]).len() && #[trigger] line_tokens(
                    lines[i],
                )[j] == token,
    )
}

/// Whether the line opens with an empty token: it is empty or begins with a space.
pub open spec fn opens_blank(line: Seq<char>) -> bool {
    line.len() == 0 || line.first() == ' '
}

/// Whether the line closes with an empty token: it is empty or ends with a space.
pub open spec fn closes_blank(line: Seq<char>) -> bool {
    line.len() == 0 || line.last() == ' '
}

/// Whether the empty token may both open and close a line of the corpus.
pub open spec fn can_fall_silent(lines: Seq<Seq<char>>) -> bool {
    &&& exists|i: int| 0 <= i < lines.len() && opens_blank(#[trigger] lines[i])
    &&& exists|i: int| 0 <= i < lines.len() && closes_blank(#[trigger] lines[i])
}

/// Every token of a walk through a corpus is a token of the corpus and holds no space.
proof fn lemma_walk_tokens(lines: Seq<Seq<char>>, tokens: Seq<Seq<char>>, k: int)
    requires
        is_walk(corpus_transitions(lines), tokens),
        0 <= k < tokens.len(),
    ensures
        vocabulary(lines).contains(tokens[k]),
        free_of(tokens[k], Separator::Char(' ')),
{
    let t = (padded(tokens)[k + 1], padded(tokens)[k + 2]);
    assert(padded(tokens)[k + 1] == Some(tokens[k]));
    assert(steps(tokens).contains(t));
    assert(corpus_transitions(lines).contains(t));
    let i = choose|i: int|
        0 <= i < lines.len() && #[trigger] steps(line_tokens(lines[i])).contains(t);
    let read = line_tokens(lines[i]);
    lemma_split_nonempty(lines[i], Separator::Char(' '));
    lemma_step_shape(read, t);
    let j = choose|j: int| 0 <= j < read.len() && read[j] == tokens[k];
    assert(line_tokens(lines[i])[j] == tokens[k]);
    lemma_split_pieces(lines[i], Separator::Char(' '));
}

/// An utterance of a model trained on `lines` is made of the corpus's own tokens: cut at
/// its single spaces, it falls into tokens of the corpus. It holds at least one
/// character, unless the empty token may both open and close a line of the corpus.
pub proof fn lemma_utterance_of_corpus(lines: Seq<Seq<char>>, text: Seq<char>)
    requires
        can_say(corpus_transitions(lines), text),
    ensures
        forall|k: int|
            0 <= k < line_tokens(text).len() ==> vocabulary(lines).contains(
                #[trigger] line_tokens(text)[k],
            ),
        text.len() == 0 ==> can_fall_silent(lines),
{
    let recorded = corpus_transitions(lines);
    let tokens = choose|tokens: Seq<Seq<char>>|
        is_walk(recorded, tokens) && text == spec_join(tokens, ' ');
    assert forall|k: int| 0 <= k < tokens.len() implies vocabulary(lines).contains(tokens[k])
        && free_of(#[trigger] tokens[k], Separator::Char(' ')) by {
        lemma_walk_tokens(lines, tokens, k);
    }
    lemma_split_join(tokens, ' ');
    assert(line_tokens(text) == tokens);
    if text.len() == 0 {
        assert(tokens.len() == 1 && tokens[0].len() == 0) by {
            lemma_split_ends(text, Separator::Char(' '));
        }
        let silent = tokens[0];
        lemma_steps_start(tokens);
        lemma_steps_end(tokens);
        let opening = (None::<Seq<char>>, Some(silent));
        let closing = (Some(silent), None::<Seq<char>>);
        assert(recorded.contains(opening));
        assert(recorded.contains(closing));
        let a = choose|a: int|
            0 <= a < lines.len() && #[trigger] steps(line_tokens(lines[a])).contains(opening);
        lemma_split_ends(lines[a], Separator::Char(' '));
        lemma_step_shape(line_tokens(lines[a]), opening);
        assert(opens_blank(lines[a]));
        let b = choose|b: int|
            0 <= b < lines.len() && #[trigger] steps(line_tokens(lines[b])).contains(closing);
        lemma_split_ends(lines[b], Separator::Char(' '));
        lemma_step_shape(line_tokens(lines[b]), closing);
        assert(closes_blank(lines[b]));
    }
}

/// Where the empty token may both open and close a line of the corpus, the empty text
/// is an utterance of the model.
pub proof fn lemma_silence_of_corpus(lines: Seq<Seq<char>>)
    requires
        can_fall_silent(lines),
    ensures
        can_say(corpus_transitions(lines), Seq::empty()),
{
    let recorded = corpus_transitions(lines);
    let silent = Seq::<char>::empty();
    let tokens = seq![silent];
    let a = choose|a: int| 0 <= a < lines.len() && opens_blank(#[trigger] lines[a]);
    let b = choose|b: int| 0 <= b < lines.len() && closes_blank(#[trigger] lines[b]);
    lemma_split_ends(lines[a], Separator::Char(' '));
    lemma_split_ends(lines[b], Separator::Char(' '));
    lemma_steps_start(line_tokens(lines[a]));
    lemma_steps_end(line_tokens(lines[b]));
    assert(line_tokens(lines[a]).first() == silent);
    assert(line_tokens(lines[b]).last() == silent);
    assert forall|t: Transition| steps(tokens).contains(t) implies recorded.contains(t) by {
        lemma_step_shape(tokens, t);
        let i = choose|i: int|
            0 <= i <= tokens.len() && t == (#[trigger] padded(tokens)[i], padded(tokens)[i + 1]);
        if i == 0 {
            assert(t == (None::<Seq<char>>, Some(silent)));
            assert(steps(line_tokens(lines[a])).contains(t));
        } else {
            assert(t == (Some(silent), None::<Seq<char>>));
            assert(steps(line_tokens(lines[b])).contains(t));
        }
    }
    assert(is_walk(recorded, tokens));
    assert(spec_join(tokens, ' ') == silent);
}

/// A `markov::Chain<String>` of order one.
#[verifier::external_body]
pub struct WordChain {
    inner: markov::Chain<String>,
}

/// How often a chain has recorded each step: for a step from one token to the next, the
/// number the chain keeps for the next token in its table of followers of the first.
pub uninterp spec fn counts(chain: WordChain) -> Multiset<Transition>;

/// The steps that a chain has recorded at least once.
pub open spec fn transitions(chain: WordChain) -> Set<Transition> {
    counts(chain).dom()
}

impl WordChain {
    /// `markov::Chain::new`: a chain of order one that has recorded nothing.
    #[verifier::external_body]
    fn new() -> (chain: WordChain)
        ensures
            counts(chain) == Multiset::<Transition>::empty(),
    {
        WordChain { inner: markov::Chain::new() }
    }

    /// `markov::Chain::feed_str`: cuts the line at every single space and records the
    /// steps from the line's start through its tokens to its end, adding one to the
    /// count of a step each time the line takes it. What was recorded before stays.
    #[verifier::external_body]
    fn feed_str(&mut self, line: &str)
        ensures
            counts(*final(self)) == counts(*old(self)).add(step_counts(line_tokens(line@))),
    {
        self.inner.feed_str(line);
    }

    /// `markov::Chain::generate_str`: a random walk from the start of a line along
    /// recorded steps until the end of a line is drawn, the tokens joined by single
    /// spaces. Each draw is made among the recorded successors of the current token, by
    /// their counts, so the chain must hold a first token; every token it then reaches
    /// was recorded with a successor, and a line's end is reachable from each.
    #[verifier::external_body]
    fn generate_str(&self) -> (text: String)
        requires
            has_start(transitions(*self)),
        ensures
            can_say(transitions(*self), text@),
    {
        self.inner.generate_str()
    }
}

/// A chain that has been trained on at least one line.
pub struct ChainModel {
    chain: WordChain,
}

impl View for ChainModel {
    type V = Set<Transition>;

    /// The steps the model has recorded.
    closed spec fn view(&self) -> Set<Transition> {
        transitions(self.chain)
    }
}

impl ChainModel {
    #[verifier::type_invariant]
    spec fn trained(self) -> bool {
        has_start(transitions(self.chain))
    }

    /// How often the model has recorded each step. The steps of the view are those
    /// recorded at least once.
    pub closed spec fn weights(&self) -> Multiset<Transition> {
        counts(self.chain)
    }

    /// The view holds the steps that the model has recorded at least once.
    pub proof fn lemma_view_is_support(&self)
        ensures
            self@ == self.weights().dom(),
    {
    }

    /// Trains a model on every line, each read on its own from its start to its end:
    /// every line adds its own steps to the counts, also a line that occurred before.
    /// With no line there is nothing to learn from.
    pub fn train(lines: &Vec<String>) -> (model: Result<ChainModel, BuildError>)
        ensures
            lines.len() == 0 <==> model is Err,
            model matches Err(e) ==> e == BuildError::EmptyCorpus,
            model matches Ok(m) ==> m.weights() == corpus_counts(lines.deep_view()),
            model matches Ok(m) ==> m@ == corpus_transitions(lines.deep_view()),
    {
        if lines.len() == 0 {
            return Err(BuildError::EmptyCorpus);
        }
        let mut chain = WordChain::new();
        let mut i: usize = 0;
        proof {
            assert(lines.deep_view().take(0).len() == 0);
        }
        while i < lines.len()
            invariant
                i <= lines.len(),
                counts(chain) == corpus_counts(lines.deep_view().take(i as int)),
            decreases lines.len() - i,
        {
            chain.feed_str(lines[i].as_str());
            proof {
                let upto = lines.deep_view().take(i + 1);
                assert(upto.drop_last() == lines.deep_view().take(i as int));
                assert(upto.last() == lines[i as int]@);
            }
            i += 1;
        }
        proof {
            assert(lines.deep_view().take(lines.len() as int) == lines.deep_view());
            lemma_corpus_counts_support(lines.deep_view());
            lemma_corpus_has_start(lines.deep_view());
        }
        Ok(ChainModel { chain })
    }

    /// One utterance: a fresh random walk through the model.
    pub fn generate_one(&self) -> (text: String)
        ensures
            can_say(self@, text@),
    {
        proof {
            use_type_invariant(self);
        }
        self.chain.generate_str()
    }
}

} // verus!

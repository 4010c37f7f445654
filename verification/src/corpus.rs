//! The corpus loader: from a blob of text to the lines a model is trained on.

use crate::chain::{corpus_counts, corpus_transitions, ChainModel};
use crate::error::BuildError;
use crate::text::{nonempty_pieces, spec_split, split, Separator};
use vstd::prelude::*;
use vstd::string::StrSliceExecFns;

verus! {

/// `piece` without the carriage return at its end, if it ends in one.
pub open spec fn without_cr(piece: Seq<char>) -> Seq<char> {
    if piece.len() > 0 && piece.last() == '\r' {
        piece.drop_last()
    } else {
        piece
    }
}

/// The lines of a blob. The blob is cut at every line feed; a piece that a line feed
/// ends also loses one carriage return just before that line feed. What follows the
/// last line feed is a line as it stands.
pub open spec fn raw_lines(blob: Seq<char>) -> Seq<Seq<char>> {
    let pieces = spec_split(blob, Separator::Char('\n'));
    Seq::new(
        pieces.len(),
        |i: int|
            if i + 1 < pieces.len() {
                without_cr(pieces[i])
            } else {
                pieces[i]
            },
    )
}

/// The training lines of a blob: its lines that hold at least one character, in order.
pub open spec fn corpus_lines(blob: Seq<char>) -> Seq<Seq<char>> {
    nonempty_pieces(raw_lines(blob))
}

/// The empty blob holds no training line.
pub proof fn lemma_empty_blob()
    ensures
        corpus_lines(Seq::empty()).len() == 0,
{
    reveal(Seq::filter);
    let lines = raw_lines(Seq::empty());
    let none = lines.drop_last();
    assert(lines.len() == 1 && lines.last().len() == 0);
    assert(nonempty_pieces(none) == none);
    assert(nonempty_pieces(lines) == nonempty_pieces(none));
}

/// `piece` without the carriage return at its end, if it ends in one.
pub fn strip_cr(piece: &str) -> (line: String)
    ensures
        line@ == without_cr(piece@),
{
    let n = piece.unicode_len();
    if n > 0 && piece.get_char(n - 1) == '\r' {
        let kept = piece.substring_char(0, n - 1);
        assert(kept@ == piece@.drop_last());
        kept.to_owned()
    } else {
        piece.to_owned()
    }
}

/// Reads the training lines out of a blob. A blob without a single non-empty line is
/// refused: there would be nothing to train on.
pub fn load_corpus(blob: &str) -> (corpus: Result<Vec<String>, BuildError>)
    ensures
        corpus_lines(blob@).len() == 0 <==> corpus is Err,
        corpus matches Err(e) ==> e == BuildError::EmptyCorpus,
        corpus matches Ok(lines) ==> lines.deep_view() == corpus_lines(blob@),
{
    let pieces = split(blob, &Separator::Char('\n'));
    let mut lines: Vec<String> = Vec::new();
    let mut i: usize = 0;
    while i < pieces.len()
        invariant
            i <= pieces.len(),
            pieces.deep_view() == spec_split(blob@, Separator::Char('\n')),
            lines.deep_view() == nonempty_pieces(raw_lines(blob@).take(i as int)),
        decreases pieces.len() - i,
    {
        let line = if i + 1 < pieces.len() {
            strip_cr(pieces[i].as_str())
        } else {
            pieces[i].clone()
        };
        proof {
            reveal(Seq::filter);
            let upto = raw_lines(blob@).take(i + 1);
            assert(upto.drop_last() == raw_lines(blob@).take(i as int));
            assert(upto.last() == line@);
        }
        if !line.as_str().is_empty() {
            let ghost before = lines.deep_view();
            lines.push(line);
            assert(lines.deep_view() == before.push(lines@.last()@));
        }
        i += 1;
    }
    assert(raw_lines(blob@).take(pieces.len() as int) == raw_lines(blob@));
    if lines.len() == 0 {
        Err(BuildError::EmptyCorpus)
    } else {
        Ok(lines)
    }
}

/// Trains a model on the training lines of a blob.
pub fn make_chain(blob: &str) -> (model: Result<ChainModel, BuildError>)
    ensures
        corpus_lines(blob@).len() == 0 <==> model is Err,
        model matches Err(e) ==> e == BuildError::EmptyCorpus,
        model matches Ok(m) ==> m.weights() == corpus_counts(corpus_lines(blob@)),
        model matches Ok(m) ==> m@ == corpus_transitions(corpus_lines(blob@)),
{
    match load_corpus(blob) {
        Ok(lines) => ChainModel::train(&lines),
        Err(e) => Err(e),
    }
}

} // verus!

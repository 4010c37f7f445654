//! Text primitives: whitespace, splitting, joining and character rewriting.
//!
//! Every string is handled through its view, a `Seq<char>`.

use vstd::prelude::*;
use vstd::string::StringExecFns;

verus! {

/// `String::push` appends one character and leaves the rest of the string as it was.
pub assume_specification[ String::push ](s: &mut String, c: char)
    ensures
        final(s)@ == old(s)@.push(c),
;

/// The characters with the Unicode `White_Space` property.
pub open spec fn spec_is_whitespace(c: char) -> bool {
    ||| '\u{0009}' <= c <= '\u{000D}'
    ||| c == '\u{0020}'
    ||| c == '\u{0085}'
    ||| c == '\u{00A0}'
    ||| c == '\u{1680}'
    ||| '\u{2000}' <= c <= '\u{200A}'
    ||| c == '\u{2028}'
    ||| c == '\u{2029}'
    ||| c == '\u{202F}'
    ||| c == '\u{205F}'
    ||| c == '\u{3000}'
}

/// Whether `c` is a whitespace character.
#[verifier::when_used_as_spec(spec_is_whitespace)]
pub fn is_whitespace(c: char) -> (b: bool)
    ensures
        b == spec_is_whitespace(c),
{
    ('\u{0009}' <= c && c <= '\u{000D}') || c == '\u{0020}' || c == '\u{0085}' || c == '\u{00A0}'
        || c == '\u{1680}' || ('\u{2000}' <= c && c <= '\u{200A}') || c == '\u{2028}' || c
        == '\u{2029}' || c == '\u{202F}' || c == '\u{205F}' || c == '\u{3000}'
}

/// Where a text is cut into pieces.
pub enum Separator {
    /// At every occurrence of one character.
    Char(char),
    /// At every whitespace character.
    Whitespace,
}

impl Separator {
    /// Whether the text is cut at `c`.
    pub open spec fn spec_matches(&self, c: char) -> bool {
        match self {
            Separator::Char(d) => c == d,
            Separator::Whitespace => is_whitespace(c),
        }
    }

    /// Whether the text is cut at `c`.
    #[verifier::when_used_as_spec(spec_matches)]
    pub fn matches(&self, c: char) -> (b: bool)
        ensures
            b == self.spec_matches(c),
    {
        match self {
            Separator::Char(d) => c == *d,
            Separator::Whitespace => is_whitespace(c),
        }
    }
}

/// The pieces of `s` between separators, read left to right: a separator opens a new,
/// empty piece, and any other character extends the last piece. There is always at
/// least one piece, and `n` separators give `n + 1` pieces.
pub open spec fn spec_split(s: Seq<char>, sep: Separator) -> Seq<Seq<char>>
    decreases s.len(),
{
    if s.len() == 0 {
        seq![Seq::empty()]
    } else {
        let before = spec_split(s.drop_last(), sep);
        if sep.matches(s.last()) {
            before.push(Seq::empty())
        } else {
            before.drop_last().push(before.last().push(s.last()))
        }
    }
}

/// A split never comes out empty.
pub proof fn lemma_split_nonempty(s: Seq<char>, sep: Separator)
    ensures
        spec_split(s, sep).len() >= 1,
    decreases s.len(),
{
    if s.len() > 0 {
        lemma_split_nonempty(s.drop_last(), sep);
    }
}

/// Whether no character of `piece` is a separator.
pub open spec fn free_of(piece: Seq<char>, sep: Separator) -> bool {
    forall|j: int| 0 <= j < piece.len() ==> !sep.matches(#[trigger] piece[j])
}

/// No piece of a split holds a separator, and every character of a piece is a character
/// of the text that was split.
pub proof fn lemma_split_pieces(s: Seq<char>, sep: Separator)
    ensures
        forall|k: int|
            0 <= k < spec_split(s, sep).len() ==> free_of(#[trigger] spec_split(s, sep)[k], sep),
        forall|k: int, j: int|
            0 <= k < spec_split(s, sep).len() && 0 <= j < spec_split(s, sep)[k].len()
                ==> s.contains(#[trigger] spec_split(s, sep)[k][j]),
    decreases s.len(),
{
    if s.len() > 0 {
        let init = s.drop_last();
        let before = spec_split(init, sep);
        lemma_split_nonempty(init, sep);
        lemma_split_pieces(init, sep);
        let pieces = spec_split(s, sep);
        assert forall|k: int, j: int|
            0 <= k < pieces.len() && 0 <= j < pieces[k].len() implies s.contains(
            #[trigger] pieces[k][j],
        ) by {
            if k == pieces.len() - 1 && j == pieces[k].len() - 1 && !sep.matches(s.last()) {
                assert(pieces[k][j] == s[s.len() - 1]);
            } else {
                let kb = if k < before.len() { k } else { before.len() - 1 };
                assert(pieces[k][j] == before[kb][j]);
                assert(init.contains(before[kb][j]));
                let at = choose|at: int| 0 <= at < init.len() && init[at] == before[kb][j];
                assert(s[at] == pieces[k][j]);
            }
        }
        assert forall|k: int| 0 <= k < pieces.len() implies free_of(#[trigger] pieces[k], sep) by {
            if k < before.len() - 1 {
                assert(pieces[k] == before[k]);
            } else if k == before.len() - 1 && !sep.matches(s.last()) {
                assert(free_of(before[k], sep));
            } else if k == before.len() - 1 {
                assert(pieces[k] == before[k]);
            }
        }
    }
}

/// A split is a single piece exactly when the text holds no separator. Its first piece
/// is empty exactly when the text is empty or opens with a separator, and its last piece
/// is empty exactly when the text is empty or closes with one.
pub proof fn lemma_split_ends(s: Seq<char>, sep: Separator)
    ensures
        spec_split(s, sep).len() >= 1,
        spec_split(s, sep).len() == 1 <==> free_of(s, sep),
        spec_split(s, sep).first().len() == 0 <==> (s.len() == 0 || sep.matches(s.first())),
        spec_split(s, sep).last().len() == 0 <==> (s.len() == 0 || sep.matches(s.last())),
    decreases s.len(),
{
    if s.len() > 0 {
        let init = s.drop_last();
        let before = spec_split(init, sep);
        lemma_split_ends(init, sep);
        if init.len() > 0 {
            assert(init.first() == s.first());
        }
        if sep.matches(s.last()) {
            assert(sep.matches(s[s.len() - 1]));
        } else {
            if free_of(init, sep) {
                assert forall|j: int| 0 <= j < s.len() implies !sep.matches(#[trigger] s[j]) by {
                    if j < init.len() {
                        assert(s[j] == init[j]);
                    }
                }
                if init.len() > 0 {
                    assert(!sep.matches(init[0]));
                }
            } else {
                let j = choose|j: int| 0 <= j < init.len() && sep.matches(#[trigger] init[j]);
                assert(sep.matches(s[j]));
            }
        }
    }
}

/// Splitting `head`, a separator and then a piece without separators gives the pieces of
/// `head` and then that piece.
pub proof fn lemma_split_append(head: Seq<char>, sep: Separator, mark: char, piece: Seq<char>)
    requires
        sep.matches(mark),
        free_of(piece, sep),
    ensures
        spec_split(head.push(mark) + piece, sep) == spec_split(head, sep).push(piece),
    decreases piece.len(),
{
    let whole = head.push(mark) + piece;
    if piece.len() == 0 {
        assert(whole == head.push(mark));
        assert(whole.drop_last() == head);
        assert(piece == Seq::<char>::empty());
    } else {
        let shorter = piece.drop_last();
        assert(free_of(shorter, sep)) by {
            assert forall|j: int| 0 <= j < shorter.len() implies !sep.matches(
                #[trigger] shorter[j],
            ) by {
                assert(shorter[j] == piece[j]);
            }
        }
        lemma_split_append(head, sep, mark, shorter);
        assert(whole.drop_last() == head.push(mark) + shorter);
        assert(whole.last() == piece.last());
        assert(!sep.matches(piece[piece.len() - 1]));
        let before = spec_split(head, sep).push(shorter);
        assert(before.drop_last() == spec_split(head, sep));
        assert(shorter.push(piece.last()) == piece);
    }
}

/// A text without separators is a single piece.
pub proof fn lemma_split_single(piece: Seq<char>, sep: Separator)
    requires
        free_of(piece, sep),
    ensures
        spec_split(piece, sep) == seq![piece],
    decreases piece.len(),
{
    if piece.len() == 0 {
        assert(piece == Seq::<char>::empty());
    } else {
        let shorter = piece.drop_last();
        assert(free_of(shorter, sep)) by {
            assert forall|j: int| 0 <= j < shorter.len() implies !sep.matches(
                #[trigger] shorter[j],
            ) by {
                assert(shorter[j] == piece[j]);
            }
        }
        lemma_split_single(shorter, sep);
        assert(!sep.matches(piece[piece.len() - 1]));
        assert(shorter.push(piece.last()) == piece);
        assert(seq![shorter].drop_last().push(piece) =~= seq![piece]);
    }
}

/// Cuts `text` at every separator.
pub fn split(text: &str, sep: &Separator) -> (pieces: Vec<String>)
    ensures
        pieces.deep_view() == spec_split(text@, *sep),
{
    broadcast use vstd::string::group_string_axioms;
    let mut done: Vec<String> = Vec::new();
    let mut current = String::new();
    for c in it: text.chars()
        invariant
            it.seq() == text@,
            done.deep_view().push(current@) == spec_split(text@.take(it.index() as int), *sep),
    {
        let ghost n = it.index() as int;
        proof {
            lemma_split_nonempty(text@.take(n), *sep);
            assert(text@.take(n + 1).drop_last() == text@.take(n));
            assert(text@.take(n + 1).last() == c);
        }
        if sep.matches(c) {
            let ghost before = done.deep_view();
            done.push(current);
            current = String::new();
            assert(done.deep_view() == before.push(done@.last()@));
        } else {
            let ghost before = done.deep_view().push(current@);
            current.push(c);
            assert(done.deep_view().push(current@) == before.drop_last().push(before.last().push(c)));
        }
    }
    assert(text@.take(text@.len() as int) == text@);
    let ghost before = done.deep_view();
    done.push(current);
    assert(done.deep_view() == before.push(done@.last()@));
    done
}

/// The parts written one after another with `sep` between neighbours.
pub open spec fn spec_join(parts: Seq<Seq<char>>, sep: char) -> Seq<char>
    decreases parts.len(),
{
    if parts.len() == 0 {
        Seq::empty()
    } else if parts.len() == 1 {
        parts[0]
    } else {
        spec_join(parts.drop_last(), sep).push(sep) + parts.last()
    }
}

/// Writes the parts one after another with `sep` between neighbours.
pub fn join(parts: &Vec<String>, sep: char) -> (text: String)
    ensures
        text@ == spec_join(parts.deep_view(), sep),
{
    let mut text = String::new();
    let mut i: usize = 0;
    while i < parts.len()
        invariant
            i <= parts.len(),
            text@ == spec_join(parts.deep_view().take(i as int), sep),
        decreases parts.len() - i,
    {
        proof {
            let upto = parts.deep_view().take(i + 1);
            assert(upto.drop_last() == parts.deep_view().take(i as int));
            assert(upto.last() == parts[i as int]@);
        }
        if i > 0 {
            text.push(sep);
        }
        text.append(parts[i].as_str());
        i += 1;
    }
    assert(parts.deep_view().take(parts.len() as int) == parts.deep_view());
    text
}

/// Joining parts and cutting the result at the joints gives the parts back, as long as
/// there is at least one part and no part holds the separator.
pub proof fn lemma_split_join(parts: Seq<Seq<char>>, sep: char)
    requires
        parts.len() >= 1,
        forall|k: int| 0 <= k < parts.len() ==> free_of(#[trigger] parts[k], Separator::Char(sep)),
    ensures
        spec_split(spec_join(parts, sep), Separator::Char(sep)) == parts,
    decreases parts.len(),
{
    if parts.len() == 1 {
        lemma_split_single(parts[0], Separator::Char(sep));
        assert(seq![parts[0]] == parts);
    } else {
        let init = parts.drop_last();
        assert forall|k: int| 0 <= k < init.len() implies free_of(
            #[trigger] init[k],
            Separator::Char(sep),
        ) by {
            assert(init[k] == parts[k]);
        }
        lemma_split_join(init, sep);
        lemma_split_append(spec_join(init, sep), Separator::Char(sep), sep, parts.last());
        assert(init.push(parts.last()) == parts);
    }
}

/// Cutting a text at a character and joining the pieces with that character gives the
/// text back.
pub proof fn lemma_join_split(s: Seq<char>, sep: char)
    ensures
        spec_join(spec_split(s, Separator::Char(sep)), sep) == s,
    decreases s.len(),
{
    let cut = Separator::Char(sep);
    if s.len() == 0 {
        assert(spec_join(seq![Seq::<char>::empty()], sep) == s);
    } else {
        let init = s.drop_last();
        let before = spec_split(init, cut);
        lemma_split_nonempty(init, cut);
        lemma_join_split(init, sep);
        let pieces = spec_split(s, cut);
        if cut.matches(s.last()) {
            assert(pieces.drop_last() == before);
            assert(spec_join(pieces, sep) == spec_join(before, sep).push(sep) + Seq::<char>::empty());
            assert(init.push(sep) + Seq::<char>::empty() == s);
        } else {
            let grown = before.last().push(s.last());
            assert(pieces.last() == grown);
            if before.len() == 1 {
                assert(pieces == seq![grown]);
                assert(before[0] == init);
                assert(grown == s);
            } else {
                assert(pieces.drop_last() == before.drop_last());
                let stem = spec_join(before.drop_last(), sep).push(sep);
                assert(spec_join(pieces, sep) == stem + grown);
                assert(init == stem + before.last());
                assert(stem + grown == (stem + before.last()).push(s.last()));
                assert(init.push(s.last()) == s);
            }
        }
    }
}

/// The test that a piece holds at least one character.
pub open spec fn holds_text() -> spec_fn(Seq<char>) -> bool {
    |piece: Seq<char>| piece.len() > 0
}

/// The pieces that hold at least one character, in order.
pub open spec fn nonempty_pieces(pieces: Seq<Seq<char>>) -> Seq<Seq<char>> {
    pieces.filter(holds_text())
}

/// The words of `s`: its maximal runs of characters that are not whitespace.
pub open spec fn spec_words(s: Seq<char>) -> Seq<Seq<char>> {
    nonempty_pieces(spec_split(s, Separator::Whitespace))
}

/// Whether `word` holds at least one character and no whitespace.
pub open spec fn is_word(word: Seq<char>) -> bool {
    word.len() > 0 && free_of(word, Separator::Whitespace)
}

/// Every word of a text holds at least one character and no whitespace, and each of its
/// characters is a character of the text.
pub proof fn lemma_words(s: Seq<char>)
    ensures
        forall|k: int| 0 <= k < spec_words(s).len() ==> is_word(#[trigger] spec_words(s)[k]),
        forall|k: int, j: int|
            0 <= k < spec_words(s).len() && 0 <= j < spec_words(s)[k].len() ==> s.contains(
                #[trigger] spec_words(s)[k][j],
            ),
{
    let pieces = spec_split(s, Separator::Whitespace);
    let kept = holds_text();
    lemma_split_pieces(s, Separator::Whitespace);
    assert forall|k: int| 0 <= k < spec_words(s).len() implies is_word(
        #[trigger] spec_words(s)[k],
    ) && pieces.contains(spec_words(s)[k]) by {
        pieces.lemma_filter_pred(kept, k);
        assert(pieces.filter(kept).contains(spec_words(s)[k]));
        pieces.lemma_filter_contains_rev(kept, spec_words(s)[k]);
    }
    assert forall|k: int, j: int|
        0 <= k < spec_words(s).len() && 0 <= j < spec_words(s)[k].len() implies s.contains(
        #[trigger] spec_words(s)[k][j],
    ) by {
        assert(pieces.contains(spec_words(s)[k]));
        let at = choose|at: int| 0 <= at < pieces.len() && pieces[at] == spec_words(s)[k];
        assert(s.contains(pieces[at][j]));
    }
}

/// The words of `text`, in order.
pub fn words(text: &str) -> (found: Vec<String>)
    ensures
        found.deep_view() == spec_words(text@),
{
    let pieces = split(text, &Separator::Whitespace);
    let mut found: Vec<String> = Vec::new();
    let mut i: usize = 0;
    while i < pieces.len()
        invariant
            i <= pieces.len(),
            found.deep_view() == nonempty_pieces(pieces.deep_view().take(i as int)),
        decreases pieces.len() - i,
    {
        proof {
            reveal(Seq::filter);
            let upto = pieces.deep_view().take(i + 1);
            assert(upto.drop_last() == pieces.deep_view().take(i as int));
            assert(upto.last() == pieces[i as int]@);
        }
        if !pieces[i].as_str().is_empty() {
            let ghost before = found.deep_view();
            found.push(pieces[i].clone());
            assert(found.deep_view() == before.push(pieces[i as int]@));
        }
        i += 1;
    }
    assert(pieces.deep_view().take(pieces.len() as int) == pieces.deep_view());
    found
}

/// The test that a character is another one than `c`.
pub open spec fn other_than(c: char) -> spec_fn(char) -> bool {
    |x: char| x != c
}

/// `s` with every occurrence of `c` taken out.
pub open spec fn spec_without(s: Seq<char>, c: char) -> Seq<char> {
    s.filter(other_than(c))
}

/// What is left holds no `c`, and each of its characters is a character of `s`.
pub proof fn lemma_without(s: Seq<char>, c: char)
    ensures
        !spec_without(s, c).contains(c),
        forall|j: int|
            0 <= j < spec_without(s, c).len() ==> s.contains(#[trigger] spec_without(s, c)[j]),
{
    let other = other_than(c);
    assert forall|j: int| 0 <= j < spec_without(s, c).len() implies spec_without(s, c)[j] != c
        && s.contains(#[trigger] spec_without(s, c)[j]) by {
        s.lemma_filter_pred(other, j);
        assert(s.filter(other).contains(spec_without(s, c)[j]));
        s.lemma_filter_contains_rev(other, spec_without(s, c)[j]);
    }
}

/// `text` with every occurrence of `c` taken out.
pub fn without(text: &str, c: char) -> (kept: String)
    ensures
        kept@ == spec_without(text@, c),
{
    broadcast use vstd::string::group_string_axioms;
    let mut kept = String::new();
    for x in it: text.chars()
        invariant
            it.seq() == text@,
            kept@ == spec_without(text@.take(it.index() as int), c),
    {
        let ghost n = it.index() as int;
        proof {
            reveal(Seq::filter);
            assert(text@.take(n + 1).drop_last() == text@.take(n));
            assert(text@.take(n + 1).last() == x);
        }
        if x != c {
            kept.push(x);
        }
    }
    assert(text@.take(text@.len() as int) == text@);
    kept
}

/// `s` with `with` in place of every whitespace character.
pub open spec fn spec_replace_whitespace(s: Seq<char>, with: char) -> Seq<char> {
    s.map_values(|c: char| if is_whitespace(c) { with } else { c })
}

/// `s` with `with` in place of every occurrence of `c`.
pub open spec fn spec_replace_char(s: Seq<char>, c: char, with: char) -> Seq<char> {
    s.map_values(|x: char| if x == c { with } else { x })
}

/// Where a text holds no whitespace but plain spaces, replacing its whitespace is
/// replacing its spaces.
pub proof fn lemma_replace_plain_spaces(s: Seq<char>, with: char)
    requires
        forall|j: int| 0 <= j < s.len() && is_whitespace(#[trigger] s[j]) ==> s[j] == ' ',
    ensures
        spec_replace_whitespace(s, with) == spec_replace_char(s, ' ', with),
{
    assert(spec_replace_whitespace(s, with) =~= spec_replace_char(s, ' ', with));
}

/// `text` with `with` in place of every whitespace character.
pub fn replace_whitespace(text: &str, with: char) -> (out: String)
    ensures
        out@ == spec_replace_whitespace(text@, with),
{
    broadcast use vstd::string::group_string_axioms;
    let mut out = String::new();
    for c in it: text.chars()
        invariant
            it.seq() == text@,
            out@ == spec_replace_whitespace(text@.take(it.index() as int), with),
    {
        if is_whitespace(c) {
            out.push(with);
        } else {
            out.push(c);
        }
    }
    assert(text@.take(text@.len() as int) == text@);
    out
}

/// What `capitalize::Capitalize::capitalize` makes of a word.
pub uninterp spec fn capitalized(word: Seq<char>) -> Seq<char>;

/// `capitalize::Capitalize::capitalize`: the word with its first character in upper
/// case and every other character in lower case, each by the Unicode mapping of that
/// character alone. The result is a function of the word.
#[verifier::external_body]
pub(crate) fn capitalize(word: &str) -> (out: String)
    ensures
        out@ == capitalized(word@),
{
    capitalize::Capitalize::capitalize(&word)
}

/// What `str::to_lowercase` makes of a text.
pub uninterp spec fn lowercased(text: Seq<char>) -> Seq<char>;

/// `str::to_lowercase`: the text in lower case by the Unicode mapping. The result is a
/// function of the text.
pub assume_specification[ str::to_lowercase ](text: &str) -> (lower: String)
    ensures
        lower@ == lowercased(text@),
;

} // verus!

//! The site writer's decisions: what to do to the output directory, in which order, and
//! when to stop.
//!
//! The writer itself is a loop around the file system. It asks this module for the step
//! to take, takes it, and reports whether it succeeded. The output tree is modelled as a
//! map from a file's path below the root to the file's text.

use crate::chain::Transition;
use crate::page::{is_site, PageView};
use crate::site::{is_layout, robots_path};
use crate::text::{lemma_split_ends, spec_split, split, Separator};
use vstd::prelude::*;
use vstd::string::StrSliceExecFns;

verus! {

/// What the writer does next.
#[derive(Debug, Clone, Copy, PartialEq, Eq, Structural)]
pub enum WriterStep {
    /// Delete everything below the output root, if the root exists.
    ClearRoot,
    /// Create the output root, with any missing ancestor, unless it exists.
    CreateRoot,
    /// Make the file at this position of the layout, which renders the page where the
    /// position holds one, and write it, creating the directories above it where they
    /// are missing and replacing a file already there.
    WriteFile(usize),
    /// Every step succeeded; nothing is left to do.
    Done,
    /// A step failed; nothing more is done.
    Failed,
}

impl WriterStep {
    /// Whether the step asks for nothing.
    pub open spec fn is_final(self) -> bool {
        self is Done || self is Failed
    }

    /// The step that writes file `i` of `files`, or the end where there is no such file.
    pub open spec fn write_or_done(i: nat, files: nat) -> WriterStep {
        if i < files {
            WriterStep::WriteFile(i as usize)
        } else {
            WriterStep::Done
        }
    }

    /// The step after this one, given whether this one succeeded and how many files the
    /// layout holds. A failure ends the build on the spot. Otherwise the root is cleared,
    /// then created, then the files are written in the layout's order.
    pub open spec fn spec_next(self, succeeded: bool, files: nat) -> WriterStep {
        match self {
            WriterStep::Done => WriterStep::Done,
            WriterStep::Failed => WriterStep::Failed,
            _ if !succeeded => WriterStep::Failed,
            WriterStep::ClearRoot => WriterStep::CreateRoot,
            WriterStep::CreateRoot => Self::write_or_done(0, files),
            WriterStep::WriteFile(i) => Self::write_or_done((i + 1) as nat, files),
        }
    }

    /// The step a build starts with.
    pub fn first() -> (step: WriterStep)
        ensures
            step == WriterStep::ClearRoot,
    {
        WriterStep::ClearRoot
    }

    /// The step after this one, given whether this one succeeded and how many files the
    /// layout holds.
    pub fn next(self, succeeded: bool, files: usize) -> (step: WriterStep)
        ensures
            step == self.spec_next(succeeded, files as nat),
    {
        match self {
            WriterStep::Done => WriterStep::Done,
            WriterStep::Failed => WriterStep::Failed,
            _ if !succeeded => WriterStep::Failed,
            WriterStep::ClearRoot => WriterStep::CreateRoot,
            WriterStep::CreateRoot => if files > 0 {
                WriterStep::WriteFile(0)
            } else {
                WriterStep::Done
            },
            WriterStep::WriteFile(i) => if i < files && i + 1 < files {
                WriterStep::WriteFile(i + 1)
            } else {
                WriterStep::Done
            },
        }
    }
}

/// The output tree as the writer sees it: the text of each file, by the file's path
/// below the root.
pub type Tree = Map<Seq<char>, Seq<char>>;

impl WriterStep {
    /// The tree after the step has been taken with success on `tree`. Clearing leaves
    /// nothing; writing puts the file at its path, in place of what was there.
    pub open spec fn perform(self, tree: Tree, files: Seq<(Seq<char>, Seq<char>)>) -> Tree {
        match self {
            WriterStep::ClearRoot => Map::empty(),
            WriterStep::WriteFile(i) => if i < files.len() {
                tree.insert(files[i as int].0, files[i as int].1)
            } else {
                tree
            },
            _ => tree,
        }
    }
}

/// The step the writer is at once each of `outcomes` has been reported, in order.
pub open spec fn step_after(outcomes: Seq<bool>, files: nat) -> WriterStep
    decreases outcomes.len(),
{
    if outcomes.len() == 0 {
        WriterStep::ClearRoot
    } else {
        step_after(outcomes.drop_last(), files).spec_next(outcomes.last(), files)
    }
}

/// The step of a build in which nothing fails, by how many steps came before it: clear,
/// create, one write per file in the layout's order, and then the end.
pub open spec fn nth_step(n: nat, files: nat) -> WriterStep {
    if n == 0 {
        WriterStep::ClearRoot
    } else if n == 1 {
        WriterStep::CreateRoot
    } else {
        WriterStep::write_or_done((n - 2) as nat, files)
    }
}

/// While every step succeeds, the writer clears the root, creates it, writes each file
/// of the layout once and in order, and is then done.
pub proof fn lemma_steps_in_order(outcomes: Seq<bool>, files: nat)
    requires
        files <= usize::MAX,
        forall|k: int| 0 <= k < outcomes.len() ==> outcomes[k],
    ensures
        step_after(outcomes, files) == nth_step(outcomes.len(), files),
    decreases outcomes.len(),
{
    if outcomes.len() > 0 {
        lemma_steps_in_order(outcomes.drop_last(), files);
    }
}

/// Once a step that was asked for has failed, the writer asks for nothing more, whatever
/// is reported to it afterwards.
pub proof fn lemma_stops_at_failure(outcomes: Seq<bool>, files: nat, failed: int)
    requires
        files <= usize::MAX,
        0 <= failed < outcomes.len(),
        failed < files + 2,
        !outcomes[failed],
    ensures
        step_after(outcomes, files) == WriterStep::Failed,
    decreases outcomes.len(),
{
    let init = outcomes.drop_last();
    if failed < init.len() {
        lemma_stops_at_failure(init, files, failed);
    } else if exists|k: int| 0 <= k < init.len() && !init[k] {
        let k = choose|k: int| 0 <= k < init.len() && !init[k];
        lemma_stops_at_failure(init, files, k);
    } else {
        lemma_steps_in_order(init, files);
    }
}

/// The tree after the first `n` steps of a build in which nothing fails.
pub open spec fn tree_after(n: nat, start: Tree, files: Seq<(Seq<char>, Seq<char>)>) -> Tree
    decreases n,
{
    if n == 0 {
        start
    } else {
        nth_step((n - 1) as nat, files.len()).perform(
            tree_after((n - 1) as nat, start, files),
            files,
        )
    }
}

/// The tree that writing `files` in order into an empty directory leaves: where two
/// files share a path, the later one is the one that stays.
pub open spec fn written(files: Seq<(Seq<char>, Seq<char>)>) -> Tree
    decreases files.len(),
{
    if files.len() == 0 {
        Map::empty()
    } else {
        written(files.drop_last()).insert(files.last().0, files.last().1)
    }
}

/// The paths of a layout.
pub open spec fn paths(files: Seq<(Seq<char>, Seq<char>)>) -> Set<Seq<char>> {
    Set::new(|path: Seq<char>| exists|i: int| 0 <= i < files.len() && (#[trigger] files[i]).0 == path)
}

/// What was written holds a file at exactly the paths of the layout.
pub proof fn lemma_written_paths(files: Seq<(Seq<char>, Seq<char>)>)
    ensures
        written(files).dom() == paths(files),
    decreases files.len(),
{
    if files.len() > 0 {
        let init = files.drop_last();
        lemma_written_paths(init);
        assert forall|path: Seq<char>| paths(files).contains(path) implies written(
            files,
        ).dom().contains(path) by {
            let i = choose|i: int| 0 <= i < files.len() && (#[trigger] files[i]).0 == path;
            if i < init.len() {
                assert(init[i].0 == path);
            }
        }
        assert forall|path: Seq<char>| written(files).dom().contains(path) implies paths(
            files,
        ).contains(path) by {
            if path == files.last().0 {
                assert(files[files.len() - 1].0 == path);
            } else {
                let i = choose|i: int| 0 <= i < init.len() && (#[trigger] init[i]).0 == path;
                assert(files[i].0 == path);
            }
        }
    }
    assert(written(files).dom() =~= paths(files));
}

/// Where two files of a layout share a path, the text of the later one is what stays.
pub proof fn lemma_later_file_stays(files: Seq<(Seq<char>, Seq<char>)>, i: int)
    requires
        0 <= i < files.len(),
        forall|k: int| i < k < files.len() ==> (#[trigger] files[k]).0 != files[i].0,
    ensures
        written(files).dom().contains(files[i].0),
        written(files)[files[i].0] == files[i].1,
    decreases files.len(),
{
    if i < files.len() - 1 {
        let init = files.drop_last();
        assert(files[files.len() - 1].0 != files[i].0);
        assert forall|k: int| i < k < init.len() implies (#[trigger] init[k]).0 != init[i].0 by {
            assert(files[k].0 != files[i].0);
        }
        lemma_later_file_stays(init, i);
    }
}

/// A build in which nothing fails ends after two steps and one more per file, and
/// leaves what writing the layout into an empty directory leaves, whatever the tree
/// held before.
pub proof fn lemma_build_replaces_tree(start: Tree, files: Seq<(Seq<char>, Seq<char>)>)
    requires
        files.len() <= usize::MAX,
    ensures
        nth_step(files.len() + 2, files.len()) == WriterStep::Done,
        forall|n: nat| n < files.len() + 2 ==> !(#[trigger] nth_step(n, files.len())).is_final(),
        tree_after(files.len() + 2, start, files) == written(files),
{
    lemma_tree_while_writing(start, files, files.len());
    assert(files.take(files.len() as int) == files);
}

/// After the root was cleared and created and the first `k` files were written, the
/// tree holds what writing those files into an empty directory leaves.
proof fn lemma_tree_while_writing(start: Tree, files: Seq<(Seq<char>, Seq<char>)>, k: nat)
    requires
        files.len() <= usize::MAX,
        k <= files.len(),
    ensures
        tree_after(k + 2, start, files) == written(files.take(k as int)),
    decreases k,
{
    if k == 0 {
        assert(tree_after(1, start, files) == Map::<Seq<char>, Seq<char>>::empty());
        assert(tree_after(2, start, files) == tree_after(1, start, files));
        assert(files.take(0).len() == 0);
    } else {
        lemma_tree_while_writing(start, files, (k - 1) as nat);
        let upto = files.take(k as int);
        assert(upto.drop_last() == files.take(k - 1));
        assert(upto.last() == files[k - 1]);
        assert(nth_step((k + 1) as nat, files.len()) == WriterStep::WriteFile((k - 1) as usize));
    }
}

/// The addresses of some pages.
pub open spec fn addresses(pages: Seq<PageView>) -> Set<Seq<char>> {
    Set::new(
        |address: Seq<char>| exists|i: int| 0 <= i < pages.len() && (#[trigger] pages[i]).address == address,
    )
}

/// No page of a site lives at the crawler policy's path: the entry page has its own
/// fixed address, and every other address ends in the suffix of a page.
pub proof fn lemma_policy_apart(recorded: Set<Transition>, pages: Seq<PageView>)
    requires
        is_site(recorded, pages),
    ensures
        !addresses(pages).contains(robots_path()),
{
    reveal_strlit("robots.txt");
    reveal_strlit("index.html");
    reveal_strlit("/index.html");
    assert forall|i: int| 0 <= i < pages.len() implies (#[trigger] pages[i]).address
        != robots_path() by {
        let address = pages[i].address;
        if i == 0 {
            assert(address[0] == 'i');
            assert(robots_path()[0] == 'r');
        } else {
            assert(address.last() == 'l');
            assert(robots_path().last() == 't');
        }
    }
}

/// After a build in which nothing fails, the tree holds a file at each page's address
/// and at the crawler policy's path, and nowhere else: nothing of what the tree held
/// before is left.
pub proof fn lemma_build_leaves_layout(
    start: Tree,
    pages: Seq<PageView>,
    robots: Seq<char>,
    files: Seq<(Seq<char>, Seq<char>)>,
)
    requires
        files.len() <= usize::MAX,
        is_layout(pages, robots, files),
    ensures
        tree_after(files.len() + 2, start, files).dom() == addresses(pages).insert(robots_path()),
        tree_after(files.len() + 2, start, files)[robots_path()] == robots,
{
    lemma_build_replaces_tree(start, files);
    lemma_written_paths(files);
    let expected = addresses(pages).insert(robots_path());
    assert forall|path: Seq<char>| paths(files).contains(path) implies expected.contains(path) by {
        let i = choose|i: int| 0 <= i < files.len() && (#[trigger] files[i]).0 == path;
        if i < pages.len() {
            assert(pages[i].address == path);
        }
    }
    assert forall|path: Seq<char>| expected.contains(path) implies paths(files).contains(path) by {
        if path == robots_path() {
            assert(files[files.len() - 1].0 == path);
        } else {
            let i = choose|i: int| 0 <= i < pages.len() && (#[trigger] pages[i]).address == path;
            assert(files[i].0 == path);
        }
    }
    assert(paths(files) =~= expected);
}

/// Building twice in a row from the same pages leaves the same set of files both
/// times, whatever the texts were.
pub proof fn lemma_rebuild_keeps_file_set(
    start: Tree,
    pages: Seq<PageView>,
    robots: Seq<char>,
    first: Seq<(Seq<char>, Seq<char>)>,
    second: Seq<(Seq<char>, Seq<char>)>,
)
    requires
        first.len() <= usize::MAX,
        is_layout(pages, robots, first),
        is_layout(pages, robots, second),
    ensures
        tree_after(
            second.len() + 2,
            tree_after(first.len() + 2, start, first),
            second,
        ).dom() == tree_after(first.len() + 2, start, first).dom(),
{
    lemma_build_leaves_layout(start, pages, robots, first);
    lemma_build_leaves_layout(tree_after(first.len() + 2, start, first), pages, robots, second);
}

/// The name that stands for the directory above.
pub open spec fn parent_name() -> Seq<char> {
    seq!['.', '.']
}

/// Whether a file at this address lies below the root the address is joined to: the
/// address is not empty, does not begin with a slash, and none of its parts between
/// slashes is the name of the directory above.
pub open spec fn spec_stays_below(address: Seq<char>) -> bool {
    &&& address.len() > 0
    &&& address.first() != '/'
    &&& forall|k: int|
        0 <= k < spec_split(address, Separator::Char('/')).len() ==> #[trigger] spec_split(
            address,
            Separator::Char('/'),
        )[k] != parent_name()
}

/// Whether a file at this address lies below the root the address is joined to.
pub fn stays_below(address: &str) -> (b: bool)
    ensures
        b == spec_stays_below(address@),
{
    let parts = split(address, &Separator::Char('/'));
    proof {
        lemma_split_ends(address@, Separator::Char('/'));
    }
    if parts[0].as_str().is_empty() {
        return false;
    }
    let mut i: usize = 0;
    while i < parts.len()
        invariant
            i <= parts.len(),
            parts.deep_view() == spec_split(address@, Separator::Char('/')),
            address@.len() > 0,
            address@.first() != '/',
            forall|k: int| 0 <= k < i ==> #[trigger] parts.deep_view()[k] != parent_name(),
        decreases parts.len() - i,
    {
        let part = parts[i].as_str();
        if part.unicode_len() == 2 && part.get_char(0) == '.' && part.get_char(1) == '.' {
            assert(parts.deep_view()[i as int] =~= parent_name());
            return false;
        }
        assert(parts.deep_view()[i as int] != parent_name());
        i += 1;
    }
    true
}

} // verus!

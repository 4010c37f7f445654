//! Pages: their titles, paragraphs and addresses, and the link index over them.

use crate::chain::{can_say, ChainModel, Transition};
use crate::text::{
    capitalize, capitalized, is_word, join, lemma_without, lemma_words, lowercased,
    replace_whitespace, spec_join, spec_replace_whitespace, spec_without, spec_words, without,
    words,
};
use vstd::prelude::*;
use vstd::string::StringExecFns;

verus! {

/// The most words a title keeps.
pub const TITLE_WORDS: usize = 5;

/// The sentences in a paragraph.
pub const SENTENCES_PER_PARAGRAPH: usize = 5;

/// The paragraphs on a page.
pub const PARAGRAPHS_PER_PAGE: usize = 6;

/// The pages of a site, unless the caller asks for another number.
pub const PAGE_COUNT: usize = 11;

/// The title of the entry page.
pub open spec fn home_title() -> Seq<char> {
    "Home Page"@
}

/// The address of the entry page.
pub open spec fn home_address() -> Seq<char> {
    "index.html"@
}

/// What every other page's address ends in.
pub open spec fn address_suffix() -> Seq<char> {
    "/index.html"@
}

/// The words a title is made of: the utterance loses its periods, is cut into words,
/// and the first `TITLE_WORDS` of them are kept (all of them where there are fewer).
pub open spec fn title_words(utterance: Seq<char>) -> Seq<Seq<char>> {
    let found = spec_words(spec_without(utterance, '.'));
    if found.len() > TITLE_WORDS {
        found.take(TITLE_WORDS as int)
    } else {
        found
    }
}

/// The title made from an utterance: its title words, each capitalized, joined by
/// single spaces.
pub open spec fn spec_title(utterance: Seq<char>) -> Seq<char> {
    spec_join(title_words(utterance).map_values(|word: Seq<char>| capitalized(word)), ' ')
}

/// A title is made of at most `TITLE_WORDS` words of the utterance, and of all its words
/// where the utterance has no more than that. Each of them holds at least one character,
/// no whitespace and no period before it is capitalized.
pub proof fn lemma_title_words(utterance: Seq<char>)
    ensures
        title_words(utterance).len() <= TITLE_WORDS,
        title_words(utterance).len() <= spec_words(spec_without(utterance, '.')).len(),
        title_words(utterance).len() < TITLE_WORDS ==> title_words(utterance) == spec_words(
            spec_without(utterance, '.'),
        ),
        forall|k: int|
            0 <= k < title_words(utterance).len() ==> is_word(#[trigger] title_words(utterance)[k])
                && !title_words(utterance)[k].contains('.'),
{
    let stripped = spec_without(utterance, '.');
    let found = spec_words(stripped);
    lemma_without(utterance, '.');
    lemma_words(stripped);
    assert forall|k: int| 0 <= k < title_words(utterance).len() implies is_word(
        #[trigger] title_words(utterance)[k],
    ) && !title_words(utterance)[k].contains('.') by {
        let word = title_words(utterance)[k];
        assert(word == found[k]);
        if word.contains('.') {
            let j = choose|j: int| 0 <= j < word.len() && word[j] == '.';
            assert(stripped.contains(found[k][j]));
        }
    }
}

/// The address of a page with this title: the title in lower case, a hyphen for each
/// whitespace character, and the suffix.
pub open spec fn spec_address(title: Seq<char>) -> Seq<char> {
    spec_address_of_lowercase(lowercased(title))
}

/// The address made from a title that is already in lower case.
pub open spec fn spec_address_of_lowercase(lower: Seq<char>) -> Seq<char> {
    spec_replace_whitespace(lower, '-') + address_suffix()
}

/// Whether `title` is the title made from some utterance of the model.
pub open spec fn is_title(recorded: Set<Transition>, title: Seq<char>) -> bool {
    exists|utterance: Seq<char>| can_say(recorded, utterance) && title == spec_title(utterance)
}

/// Whether `paragraph` is `SENTENCES_PER_PARAGRAPH` utterances of the model joined by
/// single spaces.
pub open spec fn is_paragraph(recorded: Set<Transition>, paragraph: Seq<char>) -> bool {
    exists|sentences: Seq<Seq<char>>|
        {
            &&& sentences.len() == SENTENCES_PER_PARAGRAPH
            &&& forall|i: int| 0 <= i < sentences.len() ==> can_say(recorded, #[trigger] sentences[i])
            &&& paragraph == spec_join(sentences, ' ')
        }
}

/// Whether `paragraphs` are the body of a page: `PARAGRAPHS_PER_PAGE` paragraphs of the
/// model.
pub open spec fn is_body(recorded: Set<Transition>, paragraphs: Seq<Seq<char>>) -> bool {
    &&& paragraphs.len() == PARAGRAPHS_PER_PAGE
    &&& forall|i: int| 0 <= i < paragraphs.len() ==> is_paragraph(recorded, #[trigger] paragraphs[i])
}

/// One generated document.
#[derive(Debug, Clone, PartialEq, Eq)]
pub struct Page {
    /// Where the page lives below the site's root.
    pub absolute_url: String,
    /// The heading.
    pub title: String,
    /// The body.
    pub paragraphs: Vec<String>,
}

/// A page as plain text.
pub struct PageView {
    /// The heading.
    pub title: Seq<char>,
    /// Where the page lives below the site's root.
    pub address: Seq<char>,
    /// The body.
    pub paragraphs: Seq<Seq<char>>,
}

impl View for Page {
    type V = PageView;

    open spec fn view(&self) -> PageView {
        PageView {
            title: self.title@,
            address: self.absolute_url@,
            paragraphs: self.paragraphs.deep_view(),
        }
    }
}

impl DeepView for Page {
    type V = PageView;

    open spec fn deep_view(&self) -> PageView {
        self.view()
    }
}

/// Whether `page` is a page generated from the model: a title of the model, the address
/// that goes with that title, and a body of the model.
pub open spec fn is_generated(recorded: Set<Transition>, page: PageView) -> bool {
    &&& is_title(recorded, page.title)
    &&& page.address == spec_address(page.title)
    &&& is_body(recorded, page.paragraphs)
}

impl Page {
    /// A page with a fresh title, the address that goes with it, and a fresh body.
    pub fn new(model: &ChainModel) -> (page: Page)
        ensures
            is_generated(model@, page@),
    {
        let title = Self::title(model);
        let paragraphs = Self::paragraphs(model);
        Self::from_parts(title, paragraphs)
    }

    /// The page with this title and body, at the address that goes with the title.
    pub fn from_parts(title: String, paragraphs: Vec<String>) -> (page: Page)
        ensures
            page@ == (PageView {
                title: title@,
                address: spec_address(title@),
                paragraphs: paragraphs.deep_view(),
            }),
    {
        let absolute_url = Self::address_for(title.as_str());
        Page { absolute_url, title, paragraphs }
    }

    /// The address of a page with this title.
    pub fn address_for(title: &str) -> (address: String)
        ensures
            address@ == spec_address(title@),
    {
        let lower = title.to_lowercase();
        Self::address_of_lowercase(lower.as_str())
    }

    /// The address made from a title that is already in lower case.
    pub fn address_of_lowercase(lower: &str) -> (address: String)
        ensures
            address@ == spec_address_of_lowercase(lower@),
    {
        let mut address = replace_whitespace(lower, '-');
        address.append("/index.html");
        address
    }

    /// A fresh title: the title made from one utterance of the model.
    pub fn title(model: &ChainModel) -> (title: String)
        ensures
            is_title(model@, title@),
    {
        let utterance = model.generate_one();
        Self::title_from(utterance.as_str())
    }

    /// The title made from an utterance.
    pub fn title_from(utterance: &str) -> (title: String)
        ensures
            title@ == spec_title(utterance@),
    {
        let stripped = without(utterance, '.');
        let mut kept = words(stripped.as_str());
        kept.truncate(TITLE_WORDS);
        assert(kept.deep_view() == title_words(utterance@));
        let mut parts: Vec<String> = Vec::new();
        let mut i: usize = 0;
        while i < kept.len()
            invariant
                i <= kept.len(),
                parts.deep_view() == kept.deep_view().take(i as int).map_values(
                    |word: Seq<char>| capitalized(word),
                ),
            decreases kept.len() - i,
        {
            let ghost before = parts.deep_view();
            parts.push(capitalize(kept[i].as_str()));
            assert(parts.deep_view() == before.push(capitalized(kept@[i as int]@)));
            i += 1;
        }
        assert(kept.deep_view().take(kept.len() as int) == kept.deep_view());
        join(&parts, ' ')
    }

    /// A fresh body: `PARAGRAPHS_PER_PAGE` fresh paragraphs.
    pub fn paragraphs(model: &ChainModel) -> (body: Vec<String>)
        ensures
            is_body(model@, body.deep_view()),
    {
        let mut body: Vec<String> = Vec::new();
        let mut i: usize = 0;
        while i < PARAGRAPHS_PER_PAGE
            invariant
                i <= PARAGRAPHS_PER_PAGE,
                body.len() == i,
                forall|k: int| 0 <= k < i ==> is_paragraph(model@, (#[trigger] body@[k])@),
            decreases PARAGRAPHS_PER_PAGE - i,
        {
            body.push(Self::paragraph(model));
            i += 1;
        }
        body
    }

    /// A fresh paragraph: `SENTENCES_PER_PARAGRAPH` fresh sentences joined by single
    /// spaces.
    pub fn paragraph(model: &ChainModel) -> (paragraph: String)
        ensures
            is_paragraph(model@, paragraph@),
    {
        let mut sentences: Vec<String> = Vec::new();
        let mut i: usize = 0;
        while i < SENTENCES_PER_PARAGRAPH
            invariant
                i <= SENTENCES_PER_PARAGRAPH,
                sentences.len() == i,
                forall|k: int| 0 <= k < i ==> can_say(model@, (#[trigger] sentences@[k])@),
            decreases SENTENCES_PER_PARAGRAPH - i,
        {
            sentences.push(Self::sentence(model));
            i += 1;
        }
        join(&sentences, ' ')
    }

    /// A fresh sentence: one utterance of the model, as it comes.
    pub fn sentence(model: &ChainModel) -> (sentence: String)
        ensures
            can_say(model@, sentence@),
    {
        model.generate_one()
    }
}

/// Whether `page` is an entry page: the fixed title and address, and a body of the
/// model.
pub open spec fn is_home(recorded: Set<Transition>, page: PageView) -> bool {
    &&& page.title == home_title()
    &&& page.address == home_address()
    &&& is_body(recorded, page.paragraphs)
}

/// Whether `pages` are a site's pages: an entry page first, generated pages after it.
pub open spec fn is_site(recorded: Set<Transition>, pages: Seq<PageView>) -> bool {
    &&& pages.len() > 0 ==> is_home(recorded, pages[0])
    &&& forall|i: int| 1 <= i < pages.len() ==> is_generated(recorded, #[trigger] pages[i])
}

/// Generates `count` pages and makes the first of them the entry page: whatever title
/// and address were generated for it give way to the fixed ones. Two later pages
/// may come out with the same address; nothing is done about that.
pub fn build_pages(model: &ChainModel, count: usize) -> (pages: Vec<Page>)
    ensures
        pages.len() == count,
        is_site(model@, pages.deep_view()),
{
    let mut pages: Vec<Page> = Vec::new();
    let mut i: usize = 0;
    while i < count
        invariant
            i <= count,
            pages.len() == i,
            i > 0 ==> is_home(model@, pages@[0]@),
            forall|k: int| 1 <= k < i ==> is_generated(model@, (#[trigger] pages@[k])@),
        decreases count - i,
    {
        let mut page = Page::new(model);
        if i == 0 {
            page.title = "Home Page".to_owned();
            page.absolute_url = "index.html".to_owned();
        }
        pages.push(page);
        i += 1;
    }
    pages
}

/// One entry of the navigation: a page's title and where the page lives.
#[derive(Debug, Clone, PartialEq, Eq)]
pub struct Link {
    /// The title of the page.
    pub title: String,
    /// The address of the page.
    pub address: String,
}

impl View for Link {
    type V = (Seq<char>, Seq<char>);

    open spec fn view(&self) -> (Seq<char>, Seq<char>) {
        (self.title@, self.address@)
    }
}

impl DeepView for Link {
    type V = (Seq<char>, Seq<char>);

    open spec fn deep_view(&self) -> (Seq<char>, Seq<char>) {
        self.view()
    }
}

/// The link index of some pages: the title and address of each, in the pages' order.
pub open spec fn spec_link_index(pages: Seq<PageView>) -> Seq<(Seq<char>, Seq<char>)> {
    pages.map_values(|page: PageView| (page.title, page.address))
}

/// The link index holds one link per page, in the pages' order, and opens with the
/// entry page wherever there is a page at all.
pub proof fn lemma_link_index_of_site(recorded: Set<Transition>, pages: Seq<PageView>)
    requires
        is_site(recorded, pages),
    ensures
        spec_link_index(pages).len() == pages.len(),
        forall|i: int|
            0 <= i < pages.len() ==> #[trigger] spec_link_index(pages)[i] == (
                pages[i].title,
                pages[i].address,
            ),
        pages.len() > 0 ==> spec_link_index(pages)[0] == (home_title(), home_address()),
{
}

/// The link index: one link per page, in the pages' order.
pub fn link_index(pages: &Vec<Page>) -> (links: Vec<Link>)
    ensures
        links.deep_view() == spec_link_index(pages.deep_view()),
{
    let mut links: Vec<Link> = Vec::new();
    let mut i: usize = 0;
    while i < pages.len()
        invariant
            i <= pages.len(),
            links.deep_view() == spec_link_index(pages.deep_view().take(i as int)),
        decreases pages.len() - i,
    {
        let ghost before = links.deep_view();
        links.push(Link { title: pages[i].title.clone(), address: pages[i].absolute_url.clone() });
        assert(links.deep_view() == before.push((pages@[i as int]@.title, pages@[i as int]@.address)));
        i += 1;
    }
    assert(pages.deep_view().take(pages.len() as int) == pages.deep_view());
    links
}

} // verus!

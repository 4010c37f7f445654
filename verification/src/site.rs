//! The site: every page rendered through the template, laid out as the files to write.

use crate::chain::{corpus_transitions, Transition};
use crate::corpus::{corpus_lines, make_chain};
use crate::error::BuildError;
use crate::page::{build_pages, is_site, link_index, spec_link_index, Link, Page, PageView};
use vstd::prelude::*;

verus! {

/// The error type of the template engine.
#[verifier::external_type_specification]
#[verifier::external_body]
pub struct ExTemplateError(minijinja::Error);

/// The page template. It shows the page's title, the link index as a list of links,
/// and the page's paragraphs.
pub const PAGE_TEMPLATE: &'static str = "<!DOCTYPE html>\n<html lang=\"en\">\n<head>\n<meta charset=\"utf-8\">\n<title>{{ title }}</title>\n</head>\n<body>\n<nav>\n<ul>\n{% for link in links %}<li><a href=\"/{{ link[1] }}\">{{ link[0] }}</a></li>\n{% endfor %}</ul>\n</nav>\n<main>\n<h1>{{ title }}</h1>\n{% for paragraph in paragraphs %}<p>{{ paragraph }}</p>\n{% endfor %}</main>\n</body>\n</html>\n";

/// The name the page template is compiled under. It has no extension, so the engine
/// escapes nothing.
pub const TEMPLATE_NAME: &'static str = "home-page-1";

/// The name of the variable that holds the page's title.
pub const TITLE_KEY: &'static str = "title";

/// The name of the variable that holds the page's paragraphs.
pub const PARAGRAPHS_KEY: &'static str = "paragraphs";

/// The name of the variable that holds the link index.
pub const LINKS_KEY: &'static str = "links";

/// What the template engine makes of a template, compiled under a name, and of three
/// named variables: a text, a list of texts, and a list of lists of texts. `None` where
/// the engine refuses the template or fails to render it.
pub uninterp spec fn rendered(
    name: Seq<char>,
    template: Seq<char>,
    text_key: Seq<char>,
    text: Seq<char>,
    list_key: Seq<char>,
    list: Seq<Seq<char>>,
    rows_key: Seq<char>,
    rows: Seq<Seq<Seq<char>>>,
) -> Option<Seq<char>>;

/// `minijinja::Environment::render_named_str` on an environment fresh from
/// `minijinja::Environment::new`: compiles the template under the given name and renders
/// it with the three variables, each under its key; where two keys are the same, the
/// later variable is the one the template sees.
///
/// Only the page template is handed over. The engine computes on numbers that a template
/// writes down, and some of that arithmetic is unchecked, so a template may make it
/// panic; the page template writes no number but the two positions in a link and calls
/// no function or filter.
///
/// The outcome is taken to be a function of the arguments: the environment is made anew
/// with the engine's defaults for every call, and the engine offers a template no clock,
/// no random source and nothing of the machine. Nothing is claimed of what an error
/// says.
#[verifier::external_body]
fn render_template(
    name: &str,
    template: &str,
    text_key: &str,
    text: &str,
    list_key: &str,
    list: &Vec<String>,
    rows_key: &str,
    rows: &Vec<Vec<String>>,
) -> (out: Result<String, minijinja::Error>)
    requires
        template@ == PAGE_TEMPLATE@,
    ensures
        out matches Ok(made) ==> rendered(
            name@,
            template@,
            text_key@,
            text@,
            list_key@,
            list.deep_view(),
            rows_key@,
            rows.deep_view(),
        ) == Some(made@),
        out is Err ==> rendered(
            name@,
            template@,
            text_key@,
            text@,
            list_key@,
            list.deep_view(),
            rows_key@,
            rows.deep_view(),
        ) is None,
{
    let mut context = std::collections::BTreeMap::new();
    context.insert(text_key, minijinja::Value::from(text));
    context.insert(list_key, minijinja::Value::from(list));
    context.insert(rows_key, minijinja::Value::from(rows));
    minijinja::Environment::new().render_named_str(name, template, context)
}

/// The text that `minijinja::Error` displays as.
#[verifier::external_body]
fn error_text(error: &minijinja::Error) -> (text: String) {
    format!("{}", error)
}

/// The link index as the template reads it: one row per link, the title first and the
/// address second.
pub open spec fn spec_link_rows(links: Seq<(Seq<char>, Seq<char>)>) -> Seq<Seq<Seq<char>>> {
    links.map_values(|link: (Seq<char>, Seq<char>)| seq![link.0, link.1])
}

/// The link index as the template reads it.
pub fn link_rows(links: &Vec<Link>) -> (rows: Vec<Vec<String>>)
    ensures
        rows.deep_view() == spec_link_rows(links.deep_view()),
{
    let mut rows: Vec<Vec<String>> = Vec::new();
    let mut i: usize = 0;
    while i < links.len()
        invariant
            i <= links.len(),
            rows.deep_view() == spec_link_rows(links.deep_view().take(i as int)),
        decreases links.len() - i,
    {
        let ghost before = rows.deep_view();
        let mut row: Vec<String> = Vec::new();
        row.push(links[i].title.clone());
        row.push(links[i].address.clone());
        assert(row.deep_view() == seq![links@[i as int]@.0, links@[i as int]@.1]);
        rows.push(row);
        assert(rows.deep_view() == before.push(seq![links@[i as int]@.0, links@[i as int]@.1]));
        i += 1;
    }
    assert(links.deep_view().take(links.len() as int) == links.deep_view());
    rows
}

/// What the template engine makes of a page: the page template, compiled under its
/// name, is handed the page's title, the page's paragraphs and the rows of the link
/// index, each under its key, and nothing else of the page.
pub open spec fn spec_render_page(page: PageView, links: Seq<(Seq<char>, Seq<char>)>) -> Option<
    Seq<char>,
> {
    rendered(
        TEMPLATE_NAME@,
        PAGE_TEMPLATE@,
        TITLE_KEY@,
        page.title,
        PARAGRAPHS_KEY@,
        page.paragraphs,
        LINKS_KEY@,
        spec_link_rows(links),
    )
}

/// Renders one page with the shared link index: the text the engine makes of the page,
/// or a `Render` error, with the engine's account of it, where the engine refuses.
pub fn render_page(page: &Page, links: &Vec<Link>) -> (out: Result<String, BuildError>)
    ensures
        out matches Ok(text) ==> spec_render_page(page@, links.deep_view()) == Some(text@),
        out matches Err(e) ==> e is Render && spec_render_page(page@, links.deep_view()) is None,
{
    let rows = link_rows(links);
    let outcome = render_template(
        TEMPLATE_NAME,
        PAGE_TEMPLATE,
        TITLE_KEY,
        page.title.as_str(),
        PARAGRAPHS_KEY,
        &page.paragraphs,
        LINKS_KEY,
        &rows,
    );
    match outcome {
        Ok(text) => Ok(text),
        Err(error) => Err(BuildError::Render(error_text(&error))),
    }
}

/// A file to write: where, below the output root, and what.
#[derive(Debug, Clone, PartialEq, Eq)]
pub struct OutputFile {
    /// The path below the output root.
    pub path: String,
    /// The text of the file.
    pub contents: String,
}

impl View for OutputFile {
    type V = (Seq<char>, Seq<char>);

    open spec fn view(&self) -> (Seq<char>, Seq<char>) {
        (self.path@, self.contents@)
    }
}

impl DeepView for OutputFile {
    type V = (Seq<char>, Seq<char>);

    open spec fn deep_view(&self) -> (Seq<char>, Seq<char>) {
        self.view()
    }
}

/// Where the crawler policy is written.
pub open spec fn robots_path() -> Seq<char> {
    "robots.txt"@
}

/// The file of a page: the rendered text at the page's address.
pub fn page_file(page: &Page, rendered: String) -> (file: OutputFile)
    ensures
        file@ == (page@.address, rendered@),
{
    OutputFile { path: page.absolute_url.clone(), contents: rendered }
}

/// The crawler policy file: the policy, word for word, at its fixed path.
pub fn robots_file(robots: &str) -> (file: OutputFile)
    ensures
        file@ == (robots_path(), robots@),
{
    OutputFile { path: "robots.txt".to_owned(), contents: robots.to_owned() }
}

/// Whether `files` lay out `pages`: one file per page, in the pages' order and each at
/// its page's address, then the crawler policy.
pub open spec fn is_layout(
    pages: Seq<PageView>,
    robots: Seq<char>,
    files: Seq<(Seq<char>, Seq<char>)>,
) -> bool {
    &&& files.len() == pages.len() + 1
    &&& forall|i: int| 0 <= i < pages.len() ==> (#[trigger] files[i]).0 == pages[i].address
    &&& files.last() == (robots_path(), robots)
}

/// Whether the text of each page's file is what the engine makes of that page.
pub open spec fn is_rendering(
    pages: Seq<PageView>,
    links: Seq<(Seq<char>, Seq<char>)>,
    files: Seq<(Seq<char>, Seq<char>)>,
) -> bool {
    forall|i: int|
        0 <= i < pages.len() ==> spec_render_page(#[trigger] pages[i], links) == Some(
            files[i].1,
        )
}

/// Whether the engine refuses one of the pages.
pub open spec fn refuses_some(pages: Seq<PageView>, links: Seq<(Seq<char>, Seq<char>)>) -> bool {
    exists|i: int| 0 <= i < pages.len() && spec_render_page(#[trigger] pages[i], links) is None
}

/// Renders every page and lays the site out: each page's file holds what the engine
/// makes of the page, and the crawler policy comes last. The work fails exactly when the
/// engine refuses one of the pages; with no page there is nothing to refuse.
pub fn plan_site(pages: &Vec<Page>, links: &Vec<Link>, robots: &str) -> (plan: Result<
    Vec<OutputFile>,
    BuildError,
>)
    ensures
        plan matches Ok(files) ==> is_layout(pages.deep_view(), robots@, files.deep_view())
            && is_rendering(pages.deep_view(), links.deep_view(), files.deep_view()),
        plan matches Err(e) ==> e is Render && refuses_some(pages.deep_view(), links.deep_view()),
{
    let mut files: Vec<OutputFile> = Vec::new();
    let mut i: usize = 0;
    while i < pages.len()
        invariant
            i <= pages.len(),
            files.len() == i,
            forall|k: int| 0 <= k < i ==> (#[trigger] files@[k])@.0 == pages@[k]@.address,
            forall|k: int|
                0 <= k < i ==> spec_render_page(pages@[k]@, links.deep_view()) == Some(
                    (#[trigger] files@[k])@.1,
                ),
        decreases pages.len() - i,
    {
        match render_page(&pages[i], links) {
            Ok(rendered) => {
                files.push(page_file(&pages[i], rendered));
            },
            Err(e) => {
                assert(spec_render_page(pages.deep_view()[i as int], links.deep_view()) is None);
                return Err(e);
            },
        }
        i += 1;
    }
    files.push(robots_file(robots));
    proof {
        let laid = files.deep_view();
        assert forall|k: int| 0 <= k < pages.len() implies spec_render_page(
            #[trigger] pages.deep_view()[k],
            links.deep_view(),
        ) == Some(laid[k].1) by {
            assert(laid[k] == files@[k]@);
        }
    }
    Ok(files)
}

/// The file at one position of the layout, made when it is asked for: a page's file,
/// rendered now, at a position that holds a page, and the crawler policy at any position
/// past the pages. It fails exactly where the engine refuses the page at that position.
pub fn layout_file(pages: &Vec<Page>, links: &Vec<Link>, robots: &str, position: usize) -> (out:
    Result<OutputFile, BuildError>)
    ensures
        position >= pages.len() ==> (out matches Ok(file) && file@ == (robots_path(), robots@)),
        position < pages.len() ==> match out {
            Ok(file) => file@.0 == pages@[position as int]@.address && spec_render_page(
                pages@[position as int]@,
                links.deep_view(),
            ) == Some(file@.1),
            Err(e) => e is Render && spec_render_page(
                pages@[position as int]@,
                links.deep_view(),
            ) is None,
        },
{
    if position < pages.len() {
        match render_page(&pages[position], links) {
            Ok(rendered) => Ok(page_file(&pages[position], rendered)),
            Err(e) => Err(e),
        }
    } else {
        Ok(robots_file(robots))
    }
}

/// Whether `files` lay out a site of `count` pages by a model with these recorded steps,
/// every page rendered with the link index of the site's own pages.
pub open spec fn is_site_layout(
    recorded: Set<Transition>,
    count: nat,
    robots: Seq<char>,
    files: Seq<(Seq<char>, Seq<char>)>,
) -> bool {
    exists|pages: Seq<PageView>|
        {
            &&& pages.len() == count
            &&& is_site(recorded, pages)
            &&& #[trigger] is_layout(pages, robots, files)
            &&& is_rendering(pages, spec_link_index(pages), files)
        }
}

/// Whether the engine refuses a page of some site of `count` pages by a model with these
/// recorded steps, given the link index of that site's own pages.
pub open spec fn is_refused_site(recorded: Set<Transition>, count: nat) -> bool {
    exists|pages: Seq<PageView>|
        {
            &&& pages.len() == count
            &&& is_site(recorded, pages)
            &&& #[trigger] refuses_some(pages, spec_link_index(pages))
        }
}

/// The whole site, laid out in memory: reads the corpus, trains the model, generates
/// `count` pages with the entry page first, builds the link index, renders every page
/// and lays the files out.
///
/// An empty corpus is refused before anything is generated. Past that, the build fails
/// only where the template engine refuses one of the pages that were generated, which
/// takes a page to render.
pub fn build_site(corpus: &str, robots: &str, count: usize) -> (site: Result<
    Vec<OutputFile>,
    BuildError,
>)
    ensures
        corpus_lines(corpus@).len() == 0 <==> site == Err::<Vec<OutputFile>, BuildError>(
            BuildError::EmptyCorpus,
        ),
        site matches Err(e) ==> e is EmptyCorpus || (e is Render && count > 0 && is_refused_site(
            corpus_transitions(corpus_lines(corpus@)),
            count as nat,
        )),
        site matches Ok(files) ==> is_site_layout(
            corpus_transitions(corpus_lines(corpus@)),
            count as nat,
            robots@,
            files.deep_view(),
        ),
{
    let model = match make_chain(corpus) {
        Ok(model) => model,
        Err(e) => {
            return Err(e);
        },
    };
    let pages = build_pages(&model, count);
    let links = link_index(&pages);
    let plan = plan_site(&pages, &links, robots);
    proof {
        if plan is Ok {
            assert(is_layout(pages.deep_view(), robots@, plan->Ok_0.deep_view()));
        } else {
            assert(refuses_some(pages.deep_view(), spec_link_index(pages.deep_view())));
        }
    }
    plan
}

} // verus!

use ai_honeypot_builder::error::BuildError;
use ai_honeypot_builder::page::{link_index, Link, Page};
use ai_honeypot_builder::site::{
    build_site, link_rows, page_file, plan_site, render_page, robots_file, LINKS_KEY,
    PAGE_TEMPLATE, PARAGRAPHS_KEY, TEMPLATE_NAME, TITLE_KEY,
};

fn strings(parts: &[&str]) -> Vec<String> {
    parts.iter().map(|part| part.to_string()).collect()
}

fn page(title: &str, paragraphs: &[&str]) -> Page {
    Page::from_parts(title.to_string(), strings(paragraphs))
}

fn link(title: &str, address: &str) -> Link {
    Link { title: title.to_string(), address: address.to_string() }
}

fn html(title: &str, paragraphs: &[&str], links: &[(&str, &str)]) -> String {
    let mut text = String::new();
    text.push_str("<!DOCTYPE html>\n<html lang=\"en\">\n<head>\n<meta charset=\"utf-8\">\n");
    text.push_str(&format!("<title>{}</title>\n</head>\n<body>\n<nav>\n<ul>\n", title));
    for (link_title, address) in links {
        text.push_str(&format!("<li><a href=\"/{}\">{}</a></li>\n", address, link_title));
    }
    text.push_str(&format!("</ul>\n</nav>\n<main>\n<h1>{}</h1>\n", title));
    for paragraph in paragraphs {
        text.push_str(&format!("<p>{}</p>\n", paragraph));
    }
    text.push_str("</main>\n</body>\n</html>");
    text
}

#[test]
fn template_names_have_their_values() {
    assert_eq!(TEMPLATE_NAME, "home-page-1");
    assert_eq!(TITLE_KEY, "title");
    assert_eq!(PARAGRAPHS_KEY, "paragraphs");
    assert_eq!(LINKS_KEY, "links");
    assert!(PAGE_TEMPLATE.contains("{{ title }}"));
    assert!(PAGE_TEMPLATE.contains("{% for paragraph in paragraphs %}"));
    assert!(PAGE_TEMPLATE.contains("{% for link in links %}"));
}

#[test]
fn link_rows_hold_title_then_address() {
    let links = vec![link("Home Page", "index.html"), link("One Two", "one-two/index.html")];
    assert_eq!(
        link_rows(&links),
        vec![strings(&["Home Page", "index.html"]), strings(&["One Two", "one-two/index.html"])]
    );
    assert!(link_rows(&Vec::new()).is_empty());
}

#[test]
fn render_hands_title_paragraphs_and_links_to_the_template() {
    let shown = page("One Two", &["first", "second"]);
    let links = vec![link("Home Page", "index.html"), link("One Two", "one-two/index.html")];
    assert_eq!(
        render_page(&shown, &links),
        Ok(html(
            "One Two",
            &["first", "second"],
            &[("Home Page", "index.html"), ("One Two", "one-two/index.html")]
        ))
    );
}

#[test]
fn render_of_an_empty_page_is_the_bare_frame() {
    assert_eq!(render_page(&page("", &[]), &Vec::new()), Ok(html("", &[], &[])));
}

#[test]
fn render_does_not_escape_markup() {
    let shown = page("a<b", &["x & y"]);
    assert_eq!(render_page(&shown, &Vec::new()), Ok(html("a<b", &["x & y"], &[])));
}

#[test]
fn render_takes_template_marks_in_the_text_as_text() {
    let shown = page("{{ title }}", &["{% for %}", "{{ range(9223372036854775807, -2, -1) }}"]);
    assert_eq!(
        render_page(&shown, &Vec::new()),
        Ok(html("{{ title }}", &["{% for %}", "{{ range(9223372036854775807, -2, -1) }}"], &[]))
    );
}

#[test]
fn render_of_the_same_page_is_the_same_text() {
    let shown = page("One Two", &["first", "second"]);
    let links = link_index(&vec![shown.clone()]);
    let once = render_page(&shown, &links);
    let again = render_page(&shown, &links);
    assert!(once.is_ok());
    assert_eq!(once, again);
}

#[test]
fn render_reads_nothing_of_the_page_but_title_and_paragraphs() {
    let mut moved = page("One Two", &["first"]);
    let stays = render_page(&moved, &Vec::new());
    moved.absolute_url = "elsewhere.html".to_string();
    assert_eq!(render_page(&moved, &Vec::new()), stays);
}

#[test]
fn page_file_is_the_rendered_text_at_the_page_address() {
    let file = page_file(&page("One Two", &[]), "<html>".to_string());
    assert_eq!(file.path, "one-two/index.html");
    assert_eq!(file.contents, "<html>");
}

#[test]
fn robots_file_is_the_policy_word_for_word() {
    let file = robots_file("User-agent: *\nDisallow:\n");
    assert_eq!(file.path, "robots.txt");
    assert_eq!(file.contents, "User-agent: *\nDisallow:\n");
}

#[test]
fn plan_has_one_file_per_page_and_then_the_policy() {
    let pages = vec![page("A", &["a"]), page("B", &["b"])];
    let links = link_index(&pages);
    let files = plan_site(&pages, &links, "policy").unwrap();
    let shown = [("A", "a/index.html"), ("B", "b/index.html")];
    assert_eq!(files.len(), 3);
    assert_eq!(files[0].path, "a/index.html");
    assert_eq!(files[0].contents, html("A", &["a"], &shown));
    assert_eq!(files[1].path, "b/index.html");
    assert_eq!(files[1].contents, html("B", &["b"], &shown));
    assert_eq!(files[2].path, "robots.txt");
    assert_eq!(files[2].contents, "policy");
}

#[test]
fn plan_holds_what_the_engine_makes_of_each_page() {
    let pages = vec![page("A", &["a"]), page("B", &["b"])];
    let links = link_index(&pages);
    let files = plan_site(&pages, &links, "policy").unwrap();
    for (file, shown) in files.iter().zip(pages.iter()) {
        assert_eq!(Ok(file.contents.clone()), render_page(shown, &links));
    }
}

#[test]
fn plan_of_no_pages_is_the_policy_alone() {
    let files = plan_site(&Vec::new(), &Vec::new(), "policy").unwrap();
    assert_eq!(files.len(), 1);
    assert_eq!(files[0].path, "robots.txt");
    assert_eq!(files[0].contents, "policy");
}

#[test]
fn plan_keeps_both_files_of_colliding_addresses() {
    let pages = vec![page("Same", &["one"]), page("Same", &["two"])];
    let files = plan_site(&pages, &Vec::new(), "").unwrap();
    assert_eq!(files[0].path, files[1].path);
    assert_eq!(files[0].contents, html("Same", &["one"], &[]));
    assert_eq!(files[1].contents, html("Same", &["two"], &[]));
}

#[test]
fn build_of_one_page_is_the_entry_page_and_the_policy() {
    let files = build_site("The cat sat.\nThe dog ran.\n", "User-agent: *\n", 1).unwrap();
    assert_eq!(files.len(), 2);
    assert_eq!(files[0].path, "index.html");
    assert!(files[0].contents.contains("<title>Home Page</title>"));
    assert!(files[0].contents.contains("<li><a href=\"/index.html\">Home Page</a></li>"));
    assert_eq!(files[0].contents.matches("<li>").count(), 1);
    assert_eq!(files[0].contents.matches("<p>").count(), 6);
    assert_eq!(files[1].path, "robots.txt");
    assert_eq!(files[1].contents, "User-agent: *\n");
}

#[test]
fn build_of_an_empty_corpus_fails_before_anything_is_laid_out() {
    assert_eq!(build_site("", "policy", 11).err(), Some(BuildError::EmptyCorpus));
    assert_eq!(build_site("\n\n", "policy", 0).err(), Some(BuildError::EmptyCorpus));
}

#[test]
fn build_lays_out_every_page_with_the_shared_links() {
    let files = build_site("alpha beta gamma.\n", "", 3).unwrap();
    let body = "alpha beta gamma. alpha beta gamma. alpha beta gamma. alpha beta gamma. alpha beta gamma.";
    let links = [
        ("Home Page", "index.html"),
        ("Alpha Beta Gamma", "alpha-beta-gamma/index.html"),
        ("Alpha Beta Gamma", "alpha-beta-gamma/index.html"),
    ];
    assert_eq!(files.len(), 4);
    assert_eq!(files[0].path, "index.html");
    assert_eq!(files[0].contents, html("Home Page", &[body; 6], &links));
    assert_eq!(files[1].path, "alpha-beta-gamma/index.html");
    assert_eq!(files[1].contents, html("Alpha Beta Gamma", &[body; 6], &links));
    assert_eq!(files[2].path, "alpha-beta-gamma/index.html");
    assert_eq!(files[3].path, "robots.txt");
    assert_eq!(files[3].contents, "");
}

#[test]
fn build_of_no_pages_is_the_policy_alone() {
    let files = build_site("a line\n", "policy", 0).unwrap();
    assert_eq!(files.len(), 1);
    assert_eq!(files[0].path, "robots.txt");
}

#[test]
fn error_messages_say_what_went_wrong() {
    assert_eq!(BuildError::EmptyCorpus.message(), "empty training corpus");
    assert_eq!(
        BuildError::Render("bad template".to_string()).message(),
        "template error: bad template"
    );
}

#[test]
fn layout_file_is_the_page_file_at_a_page_position() {
    let pages = vec![page("A", &["a"]), page("B", &["b"])];
    let links = link_index(&pages);
    let planned = plan_site(&pages, &links, "policy").unwrap();
    for position in 0..3 {
        let file = ai_honeypot_builder::site::layout_file(&pages, &links, "policy", position);
        assert_eq!(file, Ok(planned[position].clone()));
    }
}

#[test]
fn layout_file_is_the_policy_past_the_pages() {
    let pages = vec![page("A", &["a"])];
    for position in [1usize, 2, usize::MAX] {
        let file = ai_honeypot_builder::site::layout_file(&pages, &Vec::new(), "policy", position);
        assert_eq!(file, Ok(robots_file("policy")));
    }
}

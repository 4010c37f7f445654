use ai_honeypot_builder::writer::WriterStep;

fn run(outcomes: &[bool], files: usize) -> Vec<WriterStep> {
    let mut step = WriterStep::first();
    let mut visited = vec![step];
    for outcome in outcomes {
        step = step.next(*outcome, files);
        visited.push(step);
    }
    visited
}

#[test]
fn build_starts_by_clearing_the_root() {
    assert_eq!(WriterStep::first(), WriterStep::ClearRoot);
}

#[test]
fn steps_come_in_order_while_nothing_fails() {
    assert_eq!(
        run(&[true, true, true, true, true], 3),
        vec![
            WriterStep::ClearRoot,
            WriterStep::CreateRoot,
            WriterStep::WriteFile(0),
            WriterStep::WriteFile(1),
            WriterStep::WriteFile(2),
            WriterStep::Done,
        ]
    );
}

#[test]
fn build_without_files_is_done_after_the_root() {
    assert_eq!(
        run(&[true, true], 0),
        vec![WriterStep::ClearRoot, WriterStep::CreateRoot, WriterStep::Done]
    );
}

#[test]
fn failure_to_clear_ends_the_build() {
    assert_eq!(WriterStep::ClearRoot.next(false, 3), WriterStep::Failed);
}

#[test]
fn failure_to_create_ends_the_build() {
    assert_eq!(WriterStep::CreateRoot.next(false, 3), WriterStep::Failed);
}

#[test]
fn failure_to_write_ends_the_build() {
    assert_eq!(WriterStep::WriteFile(1).next(false, 3), WriterStep::Failed);
    assert_eq!(
        run(&[true, true, true, false, true, true], 3),
        vec![
            WriterStep::ClearRoot,
            WriterStep::CreateRoot,
            WriterStep::WriteFile(0),
            WriterStep::WriteFile(1),
            WriterStep::Failed,
            WriterStep::Failed,
            WriterStep::Failed,
        ]
    );
}

#[test]
fn final_steps_stay_where_they_are() {
    for outcome in [true, false] {
        assert_eq!(WriterStep::Done.next(outcome, 3), WriterStep::Done);
        assert_eq!(WriterStep::Failed.next(outcome, 3), WriterStep::Failed);
    }
}

#[test]
fn last_file_leads_to_the_end() {
    assert_eq!(WriterStep::WriteFile(2).next(true, 3), WriterStep::Done);
    assert_eq!(WriterStep::WriteFile(usize::MAX).next(true, usize::MAX), WriterStep::Done);
    assert_eq!(WriterStep::WriteFile(7).next(true, 3), WriterStep::Done);
}

fn write_all(
    tree: &mut std::collections::BTreeMap<String, String>,
    files: &[(&str, &str)],
) -> WriterStep {
    let mut step = WriterStep::first();
    loop {
        match step {
            WriterStep::ClearRoot => tree.clear(),
            WriterStep::CreateRoot => {}
            WriterStep::WriteFile(i) => {
                tree.insert(files[i].0.to_string(), files[i].1.to_string());
            }
            WriterStep::Done | WriterStep::Failed => return step,
        }
        step = step.next(true, files.len());
    }
}

#[test]
fn a_build_leaves_the_layout_and_nothing_older() {
    let mut tree = std::collections::BTreeMap::new();
    tree.insert("stale/index.html".to_string(), "old".to_string());
    tree.insert("index.html".to_string(), "old".to_string());
    let files = [("index.html", "home"), ("a-b/index.html", "page"), ("robots.txt", "policy")];
    assert_eq!(write_all(&mut tree, &files), WriterStep::Done);
    let paths: Vec<&str> = tree.keys().map(|path| path.as_str()).collect();
    assert_eq!(paths, vec!["a-b/index.html", "index.html", "robots.txt"]);
    assert_eq!(tree["index.html"], "home");
    assert_eq!(tree["robots.txt"], "policy");
}

#[test]
fn building_twice_leaves_the_same_file_set() {
    let mut tree = std::collections::BTreeMap::new();
    let first = [("index.html", "one"), ("x/index.html", "one"), ("robots.txt", "policy")];
    let second = [("index.html", "two"), ("x/index.html", "two"), ("robots.txt", "policy")];
    write_all(&mut tree, &first);
    let before: Vec<String> = tree.keys().cloned().collect();
    write_all(&mut tree, &second);
    let after: Vec<String> = tree.keys().cloned().collect();
    assert_eq!(before, after);
    assert_eq!(tree["x/index.html"], "two");
}

#[test]
fn the_later_of_two_files_at_one_path_stays() {
    let mut tree = std::collections::BTreeMap::new();
    let files = [("same/index.html", "earlier"), ("same/index.html", "later"), ("robots.txt", "")];
    write_all(&mut tree, &files);
    assert_eq!(tree.len(), 2);
    assert_eq!(tree["same/index.html"], "later");
}

#[test]
fn addresses_of_pages_stay_below_the_root() {
    for address in ["index.html", "the-cat-sat/index.html", "robots.txt", "a/b/c.html", "..a/b", "a../b", "a/.../b", "a/./b"] {
        assert!(ai_honeypot_builder::writer::stays_below(address), "{:?}", address);
    }
}

#[test]
fn addresses_that_lead_out_do_not_stay_below() {
    for address in ["", "/index.html", "/", "..", "../index.html", "a/../b", "a/..", "a/b/../../.."] {
        assert!(!ai_honeypot_builder::writer::stays_below(address), "{:?}", address);
    }
}

#[test]
fn address_of_an_empty_title_does_not_stay_below() {
    let address = ai_honeypot_builder::page::Page::address_for("");
    assert_eq!(address, "/index.html");
    assert!(!ai_honeypot_builder::writer::stays_below(&address));
}

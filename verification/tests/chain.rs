use ai_honeypot_builder::chain::ChainModel;
use ai_honeypot_builder::error::BuildError;

fn strings(parts: &[&str]) -> Vec<String> {
    parts.iter().map(|part| part.to_string()).collect()
}

#[test]
fn training_on_nothing_is_refused() {
    assert!(matches!(ChainModel::train(&Vec::new()), Err(BuildError::EmptyCorpus)));
}

#[test]
fn a_single_line_without_repeats_comes_back_as_it_is() {
    let model = ChainModel::train(&strings(&["The cat sat."])).unwrap();
    for _ in 0..20 {
        assert_eq!(model.generate_one(), "The cat sat.");
    }
}

#[test]
fn utterances_follow_recorded_steps() {
    let model = ChainModel::train(&strings(&["The cat sat.", "The dog ran."])).unwrap();
    for _ in 0..100 {
        let said = model.generate_one();
        assert!(said == "The cat sat." || said == "The dog ran.", "{:?}", said);
    }
}

#[test]
fn utterances_may_cross_between_lines() {
    let model = ChainModel::train(&strings(&["a b c", "d b e"])).unwrap();
    let allowed = ["a b c", "a b e", "d b c", "d b e"];
    for _ in 0..100 {
        let said = model.generate_one();
        assert!(allowed.contains(&said.as_str()), "{:?}", said);
    }
}

#[test]
fn utterances_are_made_of_corpus_tokens() {
    let lines = strings(&["the quick brown fox", "the lazy dog sleeps", "a quick dog barks"]);
    let model = ChainModel::train(&lines).unwrap();
    let vocabulary: Vec<&str> = lines.iter().flat_map(|line| line.split(' ')).collect();
    for _ in 0..100 {
        let said = model.generate_one();
        assert!(!said.is_empty());
        for token in said.split(' ') {
            assert!(vocabulary.contains(&token), "{:?} in {:?}", token, said);
        }
    }
}

#[test]
fn utterances_start_and_end_as_some_line_does() {
    let lines = strings(&["one two three", "four two five"]);
    let model = ChainModel::train(&lines).unwrap();
    for _ in 0..100 {
        let said = model.generate_one();
        let first = said.split(' ').next().unwrap();
        let last = said.split(' ').last().unwrap();
        assert!(first == "one" || first == "four", "{:?}", said);
        assert!(last == "three" || last == "five", "{:?}", said);
    }
}

#[test]
fn tokens_are_cut_at_single_spaces_only() {
    let model = ChainModel::train(&strings(&["tab\there  twice"])).unwrap();
    assert_eq!(model.generate_one(), "tab\there  twice");
}

#[test]
fn a_corpus_of_blank_edges_may_fall_silent() {
    let model = ChainModel::train(&strings(&[" a", "b "])).unwrap();
    let allowed = ["", " a", "b ", "b  a"];
    let mut silent = false;
    for _ in 0..400 {
        let said = model.generate_one();
        assert!(allowed.contains(&said.as_str()), "{:?}", said);
        silent = silent || said.is_empty();
    }
    assert!(silent);
}

#[test]
fn order_of_lines_does_not_change_what_can_be_said() {
    let forward = ChainModel::train(&strings(&["x y", "z"])).unwrap();
    let backward = ChainModel::train(&strings(&["z", "x y"])).unwrap();
    for _ in 0..50 {
        let a = forward.generate_one();
        let b = backward.generate_one();
        assert!(a == "x y" || a == "z");
        assert!(b == "x y" || b == "z");
    }
}

#[test]
fn a_line_that_occurs_more_often_weighs_more() {
    let mut lines = vec!["a x".to_string(); 9];
    lines.push("a y".to_string());
    let model = ChainModel::train(&lines).unwrap();
    let mut rare = 0;
    for _ in 0..2000 {
        let said = model.generate_one();
        assert!(said == "a x" || said == "a y", "{:?}", said);
        if said == "a y" {
            rare += 1;
        }
    }
    assert!(100 < rare && rare < 320, "{}", rare);
}

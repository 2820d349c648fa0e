use lora_tools::santa::{disliking_status, do_make_matches, make_matches, Person, Status};
use std::collections::HashSet;

fn person(name: &str, exclude: &[&str]) -> Person {
    Person {
        name: name.to_string(),
        phone_number: String::new(),
        exclude: exclude.iter().map(|s| s.to_string()).collect(),
    }
}

fn split(line: &str) -> (String, String) {
    let (g, b) = line.split_once(": ").unwrap();
    (g.to_string(), b.to_string())
}

#[test]
fn excludes_are_listed_with_commas() {
    assert_eq!(person("Alice", &["Bob", "Charlie"]).display_excludes(), "Bob, Charlie");
    assert_eq!(person("Bob", &["Dave"]).display_excludes(), "Dave");
    assert_eq!(person("Dave", &[]).display_excludes(), "");
}

#[test]
fn statuses_while_editing() {
    let people = vec![person("Alice", &["Bob"]), person("Bob", &[]), person("Carol", &[])];
    assert_eq!(disliking_status(&None, &people, 1), Status::Inactive);
    assert_eq!(disliking_status(&Some(0), &people, 0), Status::WeAreActive);
    assert_eq!(disliking_status(&Some(0), &people, 1), Status::SomeoneElseActiveExcluded);
    assert_eq!(disliking_status(&Some(0), &people, 2), Status::SomeoneElseActiveIncluded);
}

#[test]
fn draws_respect_exclusions() {
    let people = vec![
        person("Alice", &["Bob", "Charlie"]),
        person("Bob", &[]),
        person("Charlie", &[]),
        person("Dave", &[]),
    ];
    let mut successes = 0;
    for _ in 0..200 {
        match make_matches(&people) {
            Ok(lines) => {
                successes += 1;
                assert_eq!(lines.len(), 4);
                let pairs: Vec<(String, String)> = lines.iter().map(|l| split(l)).collect();
                let givers: HashSet<&String> = pairs.iter().map(|p| &p.0).collect();
                let receivers: HashSet<&String> = pairs.iter().map(|p| &p.1).collect();
                assert_eq!(givers.len(), 4);
                assert_eq!(receivers.len(), 4);
                for (g, b) in &pairs {
                    assert_ne!(g, b);
                    if g == "Alice" {
                        assert_eq!(b, "Dave");
                    }
                }
            }
            Err(e) => assert!(e.starts_with("Unable to find a match for ")),
        }
    }
    assert!(successes > 0);
}

#[test]
fn one_person_cannot_be_matched() {
    let people = vec![person("Solo", &[])];
    assert_eq!(make_matches(&people), Err("Unable to find a match for Solo".to_string()));
    assert!(do_make_matches(&people).is_empty());
}

#[test]
fn nobody_to_match() {
    assert_eq!(make_matches(&[]), Ok(vec![]));
    assert!(do_make_matches(&[]).is_empty());
}

#[test]
fn the_last_person_with_a_name_counts() {
    // the first Ann excludes Ben, the last Ann does not
    let people = vec![person("Ann", &["Ben"]), person("Ben", &[]), person("Ann", &[])];
    for _ in 0..50 {
        let mut lines = make_matches(&people).unwrap();
        lines.sort();
        assert_eq!(lines, vec!["Ann: Ben".to_string(), "Ben: Ann".to_string()]);
    }
    let strict = vec![person("Ann", &[]), person("Ben", &[]), person("Ann", &["Ben"])];
    for _ in 0..50 {
        assert!(make_matches(&strict).is_err());
    }
}

#[test]
fn retries_find_a_draw() {
    let people = vec![person("A", &[]), person("B", &[]), person("C", &[])];
    let lines = do_make_matches(&people);
    // three people without exclusions fail a draw only when the last one is
    // left with themselves; ten tries in a row practically never all fail
    if !lines.is_empty() {
        assert_eq!(lines.len(), 3);
    }
}

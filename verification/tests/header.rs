use planner::order::{at_most, sort};
use planner::pheader::{
    get_teams, parse_project, sorted_vector, sorted_vector_from_opt, Link, RawProject, RawTeam,
    Record,
};

fn entry(key: &str, value: &str) -> (String, String) {
    (key.to_string(), value.to_string())
}

fn pairs(records: &[Record]) -> Vec<(String, String)> {
    records.iter().map(|r| (r.key.clone(), r.value.clone())).collect()
}

#[test]
fn at_most_agrees_with_std() {
    let samples = [
        "", "a", "A", "aa", "ab", "b", "ba", "é", "e", "z", "zz", "日本", "日", "\u{10FFFF}",
        "\u{FFFF}", "a b", "a-b", "10", "9", "~",
    ];
    for a in samples {
        for b in samples {
            assert_eq!(at_most(a, b), a <= b, "{:?} {:?}", a, b);
        }
    }
}

#[test]
fn sorted_vector_orders_by_key() {
    let table = vec![entry("web", "Frontend"), entry("api", "Backend"), entry("db", "Storage")];
    let sorted = sorted_vector(table);
    assert_eq!(
        pairs(&sorted),
        vec![entry("api", "Backend"), entry("db", "Storage"), entry("web", "Frontend")]
    );
}

#[test]
fn sorted_vector_orders_equal_keys_by_value() {
    let table = vec![entry("k", "b"), entry("a", "z"), entry("k", "a"), entry("k", "")];
    let sorted = sorted_vector(table);
    assert_eq!(
        pairs(&sorted),
        vec![entry("a", "z"), entry("k", ""), entry("k", "a"), entry("k", "b")]
    );
}

#[test]
fn sorted_vector_of_nothing_is_empty() {
    assert!(sorted_vector(Vec::new()).is_empty());
    assert!(sorted_vector_from_opt(None).is_empty());
    assert!(sorted_vector_from_opt(Some(Vec::new())).is_empty());
}

#[test]
fn sorted_vector_from_opt_sorts_what_is_there() {
    let sorted = sorted_vector_from_opt(Some(vec![entry("s2", "two"), entry("s1", "one")]));
    assert_eq!(pairs(&sorted), vec![entry("s1", "one"), entry("s2", "two")]);
}

#[test]
fn sort_agrees_with_std() {
    let keys = ["pear", "apple", "fig", "", "apple", "Apple", "zebra", "élan", "fig2", "fi"];
    let items: Vec<Record> =
        keys.iter().map(|k| Record { key: k.to_string(), value: String::new() }).collect();
    let sorted = sort(items);
    let got: Vec<String> = sorted.iter().map(|r| r.key.clone()).collect();
    let mut want: Vec<String> = keys.iter().map(|k| k.to_string()).collect();
    want.sort();
    assert_eq!(got, want);
}

#[test]
fn teams_are_sorted_by_alias_name_contact() {
    let raw = |name: &str, contact: &str| RawTeam {
        name: name.to_string(),
        contact: contact.to_string(),
    };
    let table = vec![
        ("ops".to_string(), raw("Operations", "ops@x")),
        ("dev".to_string(), raw("Developers", "dev@x")),
        ("dev".to_string(), raw("Developers", "a@x")),
        ("dev".to_string(), raw("Builders", "z@x")),
    ];
    let teams = get_teams(Some(table));
    let got: Vec<(&str, &str, &str)> =
        teams.iter().map(|t| (t.alias.as_str(), t.name.as_str(), t.contact.as_str())).collect();
    assert_eq!(
        got,
        vec![
            ("dev", "Builders", "z@x"),
            ("dev", "Developers", "a@x"),
            ("dev", "Developers", "dev@x"),
            ("ops", "Operations", "ops@x"),
        ]
    );
    assert!(get_teams(None).is_empty());
}

#[test]
fn parse_project_builds_the_header() {
    let raw = RawProject {
        title: "Plan".to_string(),
        variables: Some(vec![entry("v2", "two"), entry("v1", "one")]),
        services: vec![entry("web", "Frontend"), entry("api", "Backend")],
        resources: vec![entry("bob", "Bob"), entry("ann", "Ann")],
        iterations: Some(vec![entry("i2", "Sprint 2"), entry("i1", "Sprint 1")]),
        teams: Some(vec![(
            "core".to_string(),
            RawTeam { name: "Core".to_string(), contact: "core@x".to_string() },
        )]),
        links: Some(vec![Link { label: "Wiki".to_string(), url: "http://w".to_string() }]),
    };
    let project = parse_project(Ok(raw)).unwrap();
    assert_eq!(project.title, "Plan");
    assert_eq!(project.variables, vec![entry("v2", "two"), entry("v1", "one")]);
    assert_eq!(pairs(&project.services), vec![entry("api", "Backend"), entry("web", "Frontend")]);
    assert_eq!(pairs(&project.resources), vec![entry("ann", "Ann"), entry("bob", "Bob")]);
    assert_eq!(
        pairs(&project.iterations),
        vec![entry("i1", "Sprint 1"), entry("i2", "Sprint 2")]
    );
    assert_eq!(project.teams.len(), 1);
    assert_eq!(project.teams[0].alias, "core");
    assert_eq!(project.teams[0].name, "Core");
    assert_eq!(project.teams[0].contact, "core@x");
    assert_eq!(project.links.len(), 1);
    assert_eq!(project.links[0].label, "Wiki");
    assert_eq!(project.links[0].url, "http://w");
}

#[test]
fn parse_project_fills_in_what_is_missing() {
    let raw = RawProject {
        title: "Bare".to_string(),
        variables: None,
        services: Vec::new(),
        resources: Vec::new(),
        iterations: None,
        teams: None,
        links: None,
    };
    let project = parse_project(Ok(raw)).unwrap();
    assert_eq!(project.title, "Bare");
    assert!(project.variables.is_empty());
    assert!(project.services.is_empty());
    assert!(project.resources.is_empty());
    assert!(project.iterations.is_empty());
    assert!(project.teams.is_empty());
    assert!(project.links.is_empty());
}

#[test]
fn parse_project_hands_a_failure_on() {
    let failed = parse_project(Err("missing field `title`".to_string()));
    assert_eq!(failed.err(), Some("missing field `title`".to_string()));
}

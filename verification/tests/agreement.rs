use planner::fplan::{get_plan, Dependency, Effort, Feature, Record, Resource, Task};

fn after<'a>(line: &'a str, marker: &str) -> &'a str {
    line.strip_prefix(marker).unwrap_or(line).trim()
}

fn expected_link(line: &str) -> Option<Record> {
    let parts: Vec<&str> = line.split(": ").collect();
    if parts.len() == 2 {
        Some(Record {
            label: parts[0].replace('-', "").trim().to_string(),
            value: parts[1].to_string(),
        })
    } else {
        None
    }
}

fn expected_dependency(line: &str) -> Option<Dependency> {
    let words: Vec<&str> = line.trim().split(' ').collect();
    if words.len() < 3 {
        return None;
    }
    Some(Dependency {
        team_alias: words[0].to_string(),
        by: Some(words[1].to_string()),
        description: words[2].to_string(),
    })
}

fn expected_effort(line: &str) -> Effort {
    let words: Vec<&str> = after(line, "effort:").split(' ').collect();
    let pds = if words.len() > 1 { words[1].parse::<isize>().unwrap_or(0) } else { 0 };
    Effort { pds, service: words[0].to_string() }
}

fn expected_resource(line: &str) -> Resource {
    let words: Vec<&str> = after(line, "by:").split(' ').collect();
    let when = if words.len() > 1 { words[1] } else { "" };
    Resource { name: words[0].to_string(), when: when.to_string() }
}

#[derive(Clone, Copy, PartialEq)]
enum Section {
    Other,
    Notes,
    Links,
    Dependencies,
}

fn expected_task(block: &[&str]) -> Task {
    let mut task = Task {
        title: after(block[0], "task:").to_string(),
        links: Vec::new(),
        by: None,
        effort: None,
        notes: Vec::new(),
        ticket: String::new(),
        dependencies: Vec::new(),
    };
    let mut section = Section::Other;
    for line in &block[1..] {
        if line.starts_with("effort:") {
            section = Section::Other;
            task.effort = Some(expected_effort(line));
        } else if line.starts_with("ticket:") {
            section = Section::Other;
            task.ticket = after(line, "ticket:").to_string();
        } else if line.starts_with("by:") {
            section = Section::Other;
            task.by = Some(expected_resource(line));
        } else if line.starts_with("notes:") {
            section = Section::Notes;
        } else if line.starts_with("links:") {
            section = Section::Links;
        } else if line.starts_with("dependencies:") {
            section = Section::Dependencies;
        } else if section == Section::Notes {
            task.notes.push(line.to_string());
        } else if section == Section::Links {
            task.links.extend(expected_link(line));
        } else if section == Section::Dependencies {
            task.dependencies.extend(expected_dependency(line));
        }
    }
    task
}

fn blocks_of<'a, 'b>(lines: &'b [&'a str], marker: &str) -> Vec<&'b [&'a str]> {
    let starts: Vec<usize> =
        (0..lines.len()).filter(|i| lines[*i].starts_with(marker)).collect();
    let mut blocks = Vec::new();
    for (k, start) in starts.iter().enumerate() {
        let end = if k + 1 < starts.len() { starts[k + 1] } else { lines.len() };
        blocks.push(&lines[*start..end]);
    }
    blocks
}

fn expected_feature(block: &[&str]) -> Feature {
    let body = &block[1..];
    let docs_end = body.iter().position(|l| l.starts_with("task:")).unwrap_or(body.len());
    let links = body[..docs_end]
        .iter()
        .filter(|l| !l.starts_with("docs:"))
        .filter_map(|l| expected_link(l))
        .collect();
    let tasks = blocks_of(body, "task:").iter().map(|b| expected_task(b)).collect();
    Feature { title: after(block[0], "feature:").to_string(), links, tasks }
}

fn expected_plan(text: &str) -> Vec<Feature> {
    let lines: Vec<&str> = text
        .lines()
        .map(|l| l.trim())
        .filter(|l| !l.is_empty() && !l.starts_with("//"))
        .collect();
    blocks_of(&lines, "feature:").iter().map(|b| expected_feature(b)).collect()
}

struct Dice {
    state: u64,
}

impl Dice {
    fn roll(&mut self, sides: usize) -> usize {
        self.state = self.state.wrapping_mul(6364136223846793005).wrapping_add(1442695040888963407);
        ((self.state >> 33) as usize) % sides
    }
}

const PIECES: [&str; 40] = [
    "feature:",
    "feature: ",
    "task:",
    "task: ",
    "docs:",
    "notes:",
    "links:",
    "dependencies:",
    "effort:",
    "effort: ",
    "by:",
    "by: ",
    "ticket:",
    "ticket: ",
    "//",
    ": ",
    ": ",
    ":",
    " ",
    " ",
    " ",
    "  ",
    "\t",
    "-",
    "- ",
    "a",
    "svc",
    "teamA",
    "2024-01-01",
    "needs-api-key",
    "http://x",
    "Ref",
    "3",
    "-7",
    "+12",
    "99999999999999999999",
    "é",
    "\u{a0}",
    "\r",
    "word",
];

fn random_line(dice: &mut Dice) -> String {
    let mut line = String::new();
    let parts = dice.roll(6);
    for _ in 0..parts {
        line.push_str(PIECES[dice.roll(PIECES.len())]);
    }
    line
}

fn random_text(dice: &mut Dice) -> String {
    let mut text = String::new();
    let count = dice.roll(30);
    for _ in 0..count {
        text.push_str(&random_line(dice));
        text.push_str(if dice.roll(4) == 0 { "\r\n" } else { "\n" });
    }
    if dice.roll(2) == 0 {
        text.push_str(&random_line(dice));
    }
    text
}

#[test]
fn random_texts_parse_as_expected() {
    let mut dice = Dice { state: 20240101 };
    let mut with_features = 0;
    for _ in 0..3000 {
        let text = random_text(&mut dice);
        let got = get_plan(&text).unwrap();
        let want = expected_plan(&text);
        if !want.is_empty() {
            with_features += 1;
        }
        assert_eq!(format!("{:?}", got), format!("{:?}", want), "{:?}", text);
    }
    assert!(with_features > 500);
}

#[test]
fn written_plan_parses_as_expected() {
    let text = "\
// Project plan
feature: Checkout
docs:
- Spec: http://wiki/spec
- Design - v2: http://wiki/design

task: Payment form
effort: web 5
by: ann sprint-1
ticket: SHOP-12
notes:
Card number needs masking
See design: section 3
links:
Mock: http://mock/1
dependencies:
payments 2024-03-01 sandbox-keys
payments soon
task: Receipt mail
effort: mail
feature: Search
task: Index
by: bob
";
    let got = get_plan(text).unwrap();
    assert_eq!(format!("{:?}", got), format!("{:?}", expected_plan(text)));
    assert_eq!(got.len(), 2);
    assert_eq!(got[0].links.len(), 2);
    assert_eq!(got[0].links[1].label, "Design  v2");
    assert_eq!(got[0].tasks.len(), 2);
    let form = &got[0].tasks[0];
    assert_eq!(form.notes, vec!["Card number needs masking", "See design: section 3"]);
    assert_eq!(form.links.len(), 1);
    assert_eq!(form.dependencies.len(), 1);
    assert_eq!(form.dependencies[0].description, "sandbox-keys");
    assert_eq!(got[0].tasks[1].effort.as_ref().unwrap().pds, 0);
    assert_eq!(got[1].tasks[0].by.as_ref().unwrap().when, "");
}

#[test]
fn long_plan_is_parsed() {
    let mut text = String::new();
    for f in 0..2000 {
        text.push_str(&format!("feature: F{}\n- Ref: http://x/{}\n", f, f));
        for t in 0..5 {
            text.push_str(&format!("task: T{}\neffort: svc {}\nnotes:\nline one\nline two\n", t, t));
        }
    }
    let plan = get_plan(&text).unwrap();
    assert_eq!(plan.len(), 2000);
    assert_eq!(plan[1999].title, "F1999");
    assert_eq!(plan[1999].tasks.len(), 5);
    assert_eq!(plan[1999].tasks[4].effort.as_ref().unwrap().pds, 4);
    assert_eq!(plan[0].tasks[0].notes.len(), 2);
}

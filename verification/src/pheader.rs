//! The header of a project: its title, its tables and its teams, with the
//! tables and teams put in order.
use crate::order::{
    at_most, is_sorting_of, lemma_text_le_antisymmetric, lemma_text_le_total,
    lemma_text_le_transitive, sort, text_le, Ranked,
};
use vstd::prelude::*;

verus! {

/// A link of the project.
#[derive(Debug)]
pub struct Link {
    pub label: String,
    pub url: String,
}

/// A team as the header lists it under its alias.
#[derive(Debug)]
pub struct RawTeam {
    pub name: String,
    pub contact: String,
}

/// A header as it was read: each table holds its entries, key and value, in
/// no particular order.
#[derive(Debug)]
pub struct RawProject {
    pub title: String,
    pub variables: Option<Vec<(String, String)>>,
    pub services: Vec<(String, String)>,
    pub resources: Vec<(String, String)>,
    pub iterations: Option<Vec<(String, String)>>,
    pub teams: Option<Vec<(String, RawTeam)>>,
    pub links: Option<Vec<Link>>,
}

/// An entry of a table.
#[derive(Debug)]
pub struct Record {
    pub key: String,
    pub value: String,
}

/// A team with its alias.
#[derive(Debug)]
pub struct Team {
    pub alias: String,
    pub name: String,
    pub contact: String,
}

/// The header of a project, with its tables and teams sorted.
#[derive(Debug)]
pub struct Project {
    pub title: String,
    pub variables: Vec<(String, String)>,
    pub services: Vec<Record>,
    pub resources: Vec<Record>,
    pub iterations: Vec<Record>,
    pub teams: Vec<Team>,
    pub links: Vec<Link>,
}

/// Records are ordered by key, and under one key by value.
impl Ranked for Record {
    open spec fn le(&self, other: &Self) -> bool {
        if self.key@ == other.key@ {
            text_le(self.value@, other.value@)
        } else {
            text_le(self.key@, other.key@)
        }
    }

    fn at_most(&self, other: &Self) -> (r: bool) {
        if self.key == other.key {
            at_most(self.value.as_str(), other.value.as_str())
        } else {
            at_most(self.key.as_str(), other.key.as_str())
        }
    }

    proof fn le_is_total(a: &Self, b: &Self) {
        lemma_text_le_total(a.key@, b.key@);
        lemma_text_le_total(a.value@, b.value@);
    }

    proof fn le_is_transitive(a: &Self, b: &Self, c: &Self) {
        if a.key@ == b.key@ && b.key@ == c.key@ {
            lemma_text_le_transitive(a.value@, b.value@, c.value@);
        } else if a.key@ != b.key@ && b.key@ != c.key@ {
            lemma_text_le_transitive(a.key@, b.key@, c.key@);
            if a.key@ == c.key@ {
                lemma_text_le_antisymmetric(a.key@, b.key@);
            }
        }
    }
}

/// Teams are ordered by alias, then by name, then by contact.
impl Ranked for Team {
    open spec fn le(&self, other: &Self) -> bool {
        if self.alias@ != other.alias@ {
            text_le(self.alias@, other.alias@)
        } else if self.name@ != other.name@ {
            text_le(self.name@, other.name@)
        } else {
            text_le(self.contact@, other.contact@)
        }
    }

    fn at_most(&self, other: &Self) -> (r: bool) {
        if self.alias != other.alias {
            at_most(self.alias.as_str(), other.alias.as_str())
        } else if self.name != other.name {
            at_most(self.name.as_str(), other.name.as_str())
        } else {
            at_most(self.contact.as_str(), other.contact.as_str())
        }
    }

    proof fn le_is_total(a: &Self, b: &Self) {
        lemma_text_le_total(a.alias@, b.alias@);
        lemma_text_le_total(a.name@, b.name@);
        lemma_text_le_total(a.contact@, b.contact@);
    }

    proof fn le_is_transitive(a: &Self, b: &Self, c: &Self) {
        if a.alias@ != b.alias@ && b.alias@ != c.alias@ {
            lemma_text_le_transitive(a.alias@, b.alias@, c.alias@);
            if a.alias@ == c.alias@ {
                lemma_text_le_antisymmetric(a.alias@, b.alias@);
            }
        } else if a.alias@ == b.alias@ && b.alias@ == c.alias@ {
            if a.name@ != b.name@ && b.name@ != c.name@ {
                lemma_text_le_transitive(a.name@, b.name@, c.name@);
                if a.name@ == c.name@ {
                    lemma_text_le_antisymmetric(a.name@, b.name@);
                }
            } else if a.name@ == b.name@ && b.name@ == c.name@ {
                lemma_text_le_transitive(a.contact@, b.contact@, c.contact@);
            }
        }
    }
}

/// The records of the entries of a table, in the order of the entries.
pub open spec fn records_of(entries: Seq<(String, String)>) -> Seq<Record> {
    Seq::new(entries.len(), |i: int| Record { key: entries[i].0, value: entries[i].1 })
}

/// The teams of the entries of a table of teams, in the order of the entries.
pub open spec fn teams_of(entries: Seq<(String, RawTeam)>) -> Seq<Team> {
    Seq::new(
        entries.len(),
        |i: int| Team { alias: entries[i].0, name: entries[i].1.name, contact: entries[i].1.contact },
    )
}

/// What an optional list holds: nothing, where there is none.
pub open spec fn or_empty<T>(list: Option<Vec<T>>) -> Seq<T> {
    match list {
        Some(v) => v@,
        None => Seq::empty(),
    }
}

/// The entries of a table as records, sorted by key and value.
pub fn sorted_vector(from_map: Vec<(String, String)>) -> (r: Vec<Record>)
    ensures
        is_sorting_of(r@, records_of(from_map@)),
{
    let ghost all = records_of(from_map@);
    let mut rest = from_map;
    let mut items: Vec<Record> = Vec::new();
    proof {
        items@.to_multiset_ensures();
        vstd::multiset::lemma_multiset_empty_len(items@.to_multiset());
        assert(items@.to_multiset().add(records_of(rest@).to_multiset()) =~= all.to_multiset());
    }
    while rest.len() > 0
        invariant
            items@.to_multiset().add(records_of(rest@).to_multiset()) == all.to_multiset(),
        decreases rest@.len(),
    {
        let ghost before = rest@;
        let (key, value) = rest.pop().unwrap();
        let record = Record { key, value };
        proof {
            assert(records_of(before) =~= records_of(rest@).push(record));
            vstd::seq_lib::to_multiset_build(records_of(rest@), record);
            vstd::seq_lib::to_multiset_build(items@, record);
            assert(items@.push(record).to_multiset().add(records_of(rest@).to_multiset())
                =~= items@.to_multiset().add(records_of(before).to_multiset()));
        }
        items.push(record);
    }
    proof {
        records_of(rest@).to_multiset_ensures();
        vstd::multiset::lemma_multiset_empty_len(records_of(rest@).to_multiset());
        assert(items@.to_multiset().add(records_of(rest@).to_multiset()) =~= items@.to_multiset());
    }
    sort(items)
}

/// The entries of a table as records, sorted by key and value; none where
/// there is no table.
pub fn sorted_vector_from_opt(from_map: Option<Vec<(String, String)>>) -> (r: Vec<Record>)
    ensures
        is_sorting_of(r@, records_of(or_empty(from_map))),
{
    match from_map {
        Some(m) => sorted_vector(m),
        None => {
            let none: Vec<Record> = Vec::new();
            assert(none@ =~= records_of(or_empty(from_map)));
            none
        },
    }
}

/// The teams of a table of teams, sorted by alias, name and contact; none
/// where there is no table.
pub fn get_teams(from: Option<Vec<(String, RawTeam)>>) -> (r: Vec<Team>)
    ensures
        is_sorting_of(r@, teams_of(or_empty(from))),
{
    let ghost all = teams_of(or_empty(from));
    let mut rest: Vec<(String, RawTeam)> = match from {
        Some(tm) => tm,
        None => Vec::new(),
    };
    let mut teams: Vec<Team> = Vec::new();
    proof {
        teams@.to_multiset_ensures();
        vstd::multiset::lemma_multiset_empty_len(teams@.to_multiset());
        assert(teams@.to_multiset().add(teams_of(rest@).to_multiset()) =~= all.to_multiset());
    }
    while rest.len() > 0
        invariant
            teams@.to_multiset().add(teams_of(rest@).to_multiset()) == all.to_multiset(),
        decreases rest@.len(),
    {
        let ghost before = rest@;
        let (alias, raw) = rest.pop().unwrap();
        let team = Team { alias, name: raw.name, contact: raw.contact };
        proof {
            assert(teams_of(before) =~= teams_of(rest@).push(team));
            vstd::seq_lib::to_multiset_build(teams_of(rest@), team);
            vstd::seq_lib::to_multiset_build(teams@, team);
            assert(teams@.push(team).to_multiset().add(teams_of(rest@).to_multiset())
                =~= teams@.to_multiset().add(teams_of(before).to_multiset()));
        }
        teams.push(team);
    }
    proof {
        teams_of(rest@).to_multiset_ensures();
        vstd::multiset::lemma_multiset_empty_len(teams_of(rest@).to_multiset());
        assert(teams@.to_multiset().add(teams_of(rest@).to_multiset()) =~= teams@.to_multiset());
    }
    sort(teams)
}

/// Whether `project` is the header made from `raw`: the title, variables and
/// links as they were read, each table sorted, and the teams sorted.
pub open spec fn is_project_of(project: Project, raw: RawProject) -> bool {
    &&& project.title == raw.title
    &&& project.variables@ == or_empty(raw.variables)
    &&& project.links@ == or_empty(raw.links)
    &&& is_sorting_of(project.services@, records_of(raw.services@))
    &&& is_sorting_of(project.resources@, records_of(raw.resources@))
    &&& is_sorting_of(project.iterations@, records_of(or_empty(raw.iterations)))
    &&& is_sorting_of(project.teams@, teams_of(or_empty(raw.teams)))
}

/// Whether `out` is what reading `from` comes to: the header made from what
/// was read, or the failure to read, as it is.
pub open spec fn is_header_of(
    out: Result<Project, String>,
    from: Result<RawProject, String>,
) -> bool {
    match from {
        Ok(raw) => out matches Ok(project) && is_project_of(project, raw),
        Err(e) => out == Err::<Project, String>(e),
    }
}

/// Makes the header of a project from what was read of it. Where reading
/// failed, the failure is handed on as it is.
pub fn parse_project(from: Result<RawProject, String>) -> (r: Result<Project, String>)
    ensures
        is_header_of(r, from),
{
    let project = match from {
        Ok(p) => p,
        Err(e) => {
            return Err(e);
        },
    };
    let variables = match project.variables {
        Some(v) => v,
        None => Vec::new(),
    };
    let links = match project.links {
        Some(l) => l,
        None => Vec::new(),
    };
    Ok(
        Project {
            title: project.title,
            variables,
            services: sorted_vector(project.services),
            resources: sorted_vector(project.resources),
            iterations: sorted_vector_from_opt(project.iterations),
            links,
            teams: get_teams(project.teams),
        },
    )
}

} // verus!

//! What holds of every plan: properties of the grammar, each proved.
use crate::fplan::{is_plan_of, Feature};
use crate::grammar::{
    block, content, context_after, dependency, effort, feature, is_content, keyword, link,
    markers, normalized, parse, payload, plan, task_after, tasks, Context, FeatureView,
};
use crate::text::{
    integer_isize, lemma_find_none, lemma_trimmed, lemma_trimmed_twice, lemma_without_char,
    occurs_at, pieces, trimmed, without_char,
};
use crate::views::views;
use vstd::prelude::*;

verus! {

/// The same text always has the same plan: any two results of parsing one
/// text hold the same features, tasks and fields.
pub proof fn same_text_same_plan(
    text: Seq<char>,
    first: Result<Vec<Feature>, String>,
    second: Result<Vec<Feature>, String>,
)
    requires
        is_plan_of(text, first),
        is_plan_of(text, second),
    ensures
        first is Ok,
        second is Ok,
        views(first->Ok_0@) == views(second->Ok_0@),
{
}

/// The markers are the positions of the marker lines: every one of them is
/// the position of a line that begins with `marker`, they rise strictly, and
/// no such line is left out.
pub proof fn markers_are_the_marker_lines(lines: Seq<Seq<char>>, marker: Seq<char>)
    ensures
        forall|k: int|
            0 <= k < markers(lines, marker).len() ==> 0 <= #[trigger] markers(lines, marker)[k]
                < lines.len() && marker.is_prefix_of(lines[markers(lines, marker)[k]]),
        forall|j: int, k: int|
            0 <= j < k < markers(lines, marker).len() ==> markers(lines, marker)[j] < markers(
                lines,
                marker,
            )[k],
        forall|i: int|
            0 <= i < lines.len() && marker.is_prefix_of(#[trigger] lines[i]) ==> markers(
                lines,
                marker,
            ).contains(i),
    decreases lines.len(),
{
    if lines.len() > 0 {
        let front = lines.drop_last();
        markers_are_the_marker_lines(front, marker);
        let m = markers(lines, marker);
        let before = markers(front, marker);
        assert forall|i: int|
            0 <= i < lines.len() && marker.is_prefix_of(#[trigger] lines[i]) implies m.contains(
            i,
        ) by {
            if i < lines.len() - 1 {
                assert(front[i] == lines[i]);
                assert(before.contains(i));
                let k: int = choose|k: int| 0 <= k < before.len() && before[k] == i;
                assert(m[k] == i);
            } else {
                assert(m[m.len() - 1] == i);
            }
        }
        assert forall|k: int| 0 <= k < m.len() implies 0 <= #[trigger] m[k] < lines.len()
            && marker.is_prefix_of(lines[m[k]]) by {
            if k < before.len() {
                assert(front[before[k]] == lines[before[k]]);
            }
        }
    }
}

/// A document none of whose lines begins with `feature:` has the empty plan.
pub proof fn no_feature_line_no_feature(text: Seq<char>)
    requires
        forall|i: int|
            0 <= i < normalized(text).len() ==> !"feature:"@.is_prefix_of(
                #[trigger] normalized(text)[i],
            ),
    ensures
        parse(text) == Seq::<FeatureView>::empty(),
{
    let lines = normalized(text);
    markers_are_the_marker_lines(lines, "feature:"@);
    let m = markers(lines, "feature:"@);
    if m.len() > 0 {
        assert("feature:"@.is_prefix_of(lines[m[0]]));
    }
    assert(parse(text) =~= Seq::empty());
}

/// Where two `feature:` lines stand one right after the other, the first of
/// them gives a feature without links and without tasks.
pub proof fn adjacent_markers_leave_feature_bare(lines: Seq<Seq<char>>, k: int)
    requires
        0 <= k,
        k + 1 < markers(lines, "feature:"@).len(),
        markers(lines, "feature:"@)[k + 1] == markers(lines, "feature:"@)[k] + 1,
    ensures
        plan(lines).len() == markers(lines, "feature:"@).len(),
        plan(lines)[k].links.len() == 0,
        plan(lines)[k].tasks.len() == 0,
{
    markers_are_the_marker_lines(lines, "feature:"@);
    let m = markers(lines, "feature:"@);
    assert(0 <= m[k] && m[k + 1] < lines.len());
    let b = block(lines, "feature:"@, k);
    assert(b.len() == 1);
    let body = b.drop_first();
    assert(body.len() == 0);
    assert(plan(lines)[k] == feature(b));
}

/// The scanner is never in the sections `Documents` and `Task`.
pub proof fn context_is_a_task_section(lines: Seq<Seq<char>>)
    ensures
        context_after(lines) != Context::Documents,
        context_after(lines) != Context::Task,
    decreases lines.len(),
{
    if lines.len() > 0 {
        context_is_a_task_section(lines.drop_last());
    }
}

/// The notes of a task are lines of its body, and none of them is a keyword
/// line: a line that opens a section is never taken for a note.
pub proof fn notes_hold_no_keyword_line(title: Seq<char>, lines: Seq<Seq<char>>)
    ensures
        forall|i: int|
            0 <= i < task_after(title, lines).notes.len() ==> {
                &&& keyword(#[trigger] task_after(title, lines).notes[i]) is None
                &&& lines.contains(task_after(title, lines).notes[i])
            },
    decreases lines.len(),
{
    if lines.len() > 0 {
        let front = lines.drop_last();
        notes_hold_no_keyword_line(title, front);
        let before = task_after(title, front).notes;
        let after = task_after(title, lines).notes;
        assert forall|i: int| 0 <= i < after.len() implies keyword(#[trigger] after[i]) is None
            && lines.contains(after[i]) by {
            if i < before.len() {
                assert(after[i] == before[i]);
                let j: int = choose|j: int| 0 <= j < front.len() && front[j] == before[i];
                assert(lines[j] == before[i]);
            } else {
                assert(after[i] == lines[lines.len() - 1]);
            }
        }
    }
}

/// A line in which `": "` stands nowhere is no link line.
pub proof fn link_needs_separator(line: Seq<char>)
    requires
        forall|i: int| !occurs_at(line, ": "@, i),
    ensures
        link(line) is None,
{
    lemma_find_none(line, ": "@);
}

/// The label of a record holds no hyphen.
pub proof fn label_holds_no_hyphen(line: Seq<char>)
    ensures
        link(line) matches Some(record) ==> !record.label.contains('-'),
{
    if let Some(record) = link(line) {
        let bare = without_char(pieces(line, ": "@)[0], '-');
        lemma_without_char(pieces(line, ": "@)[0], '-');
        let (a, b) = lemma_trimmed(bare);
        assert forall|i: int| 0 <= i < record.label.len() implies record.label[i] != '-' by {
            assert(record.label[i] == bare[a + i]);
        }
    }
}

/// Every line that the normalizer keeps is trimmed, is not empty and is no
/// comment.
pub proof fn normalized_lines_carry_content(text: Seq<char>)
    ensures
        forall|i: int|
            0 <= i < normalized(text).len() ==> {
                &&& is_content(#[trigger] normalized(text)[i])
                &&& trimmed(normalized(text)[i]) == normalized(text)[i]
            },
{
    content_is_content(pieces(text, "\n"@));
}

proof fn content_is_content(raw: Seq<Seq<char>>)
    ensures
        forall|i: int|
            0 <= i < content(raw).len() ==> {
                &&& is_content(#[trigger] content(raw)[i])
                &&& trimmed(content(raw)[i]) == content(raw)[i]
            },
    decreases raw.len(),
{
    if raw.len() > 0 {
        content_is_content(raw.drop_last());
        lemma_trimmed_twice(raw.last());
        let front = content(raw.drop_last());
        assert forall|i: int| 0 <= i < content(raw).len() implies is_content(
            #[trigger] content(raw)[i],
        ) && trimmed(content(raw)[i]) == content(raw)[i] by {
            if i < front.len() {
                assert(content(raw)[i] == front[i]);
            }
        }
    }
}

/// No line opens two sections: the markers of the sections exclude each
/// other, so the order in which a line is tested against them does not matter.
pub proof fn at_most_one_marker(line: Seq<char>)
    ensures
        "effort:"@.is_prefix_of(line) ==> keyword(line) == Some(Context::Effort),
        "ticket:"@.is_prefix_of(line) ==> keyword(line) == Some(Context::Ticket),
        "by:"@.is_prefix_of(line) ==> keyword(line) == Some(Context::By),
        "notes:"@.is_prefix_of(line) ==> keyword(line) == Some(Context::Notes),
        "links:"@.is_prefix_of(line) ==> keyword(line) == Some(Context::Links),
        "dependencies:"@.is_prefix_of(line) ==> keyword(line) == Some(Context::Dependency),
{
    reveal_strlit("effort:");
    reveal_strlit("ticket:");
    reveal_strlit("by:");
    reveal_strlit("notes:");
    reveal_strlit("links:");
    reveal_strlit("dependencies:");
    if line.len() > 0 {
        let c = line[0];
        assert("effort:"@.is_prefix_of(line) ==> line.subrange(0, 7)[0] == 'e');
        assert("ticket:"@.is_prefix_of(line) ==> line.subrange(0, 7)[0] == 't');
        assert("by:"@.is_prefix_of(line) ==> line.subrange(0, 3)[0] == 'b');
        assert("notes:"@.is_prefix_of(line) ==> line.subrange(0, 6)[0] == 'n');
        assert("links:"@.is_prefix_of(line) ==> line.subrange(0, 6)[0] == 'l');
        assert("dependencies:"@.is_prefix_of(line) ==> line.subrange(0, 13)[0] == 'd');
    }
}

/// The features of a plan stand in the order of their `feature:` lines, and
/// each has its title from its own line.
pub proof fn features_keep_line_order(lines: Seq<Seq<char>>, j: int, k: int)
    requires
        0 <= j < k < plan(lines).len(),
    ensures
        plan(lines).len() == markers(lines, "feature:"@).len(),
        markers(lines, "feature:"@)[j] < markers(lines, "feature:"@)[k],
        plan(lines)[j].title == payload(lines[markers(lines, "feature:"@)[j]], "feature:"@),
        plan(lines)[k].title == payload(lines[markers(lines, "feature:"@)[k]], "feature:"@),
{
    markers_are_the_marker_lines(lines, "feature:"@);
}

/// No line of the body changes the title of a task.
pub proof fn task_keeps_its_title(title: Seq<char>, lines: Seq<Seq<char>>)
    ensures
        task_after(title, lines).title == title,
    decreases lines.len(),
{
    if lines.len() > 0 {
        task_keeps_its_title(title, lines.drop_last());
    }
}

/// The tasks among the lines of a feature stand in the order of their
/// `task:` lines, and each has its title from its own line.
pub proof fn tasks_keep_line_order(lines: Seq<Seq<char>>, j: int, k: int)
    requires
        0 <= j < k < tasks(lines).len(),
    ensures
        tasks(lines).len() == markers(lines, "task:"@).len(),
        markers(lines, "task:"@)[j] < markers(lines, "task:"@)[k],
        tasks(lines)[j].title == payload(lines[markers(lines, "task:"@)[j]], "task:"@),
        tasks(lines)[k].title == payload(lines[markers(lines, "task:"@)[k]], "task:"@),
{
    markers_are_the_marker_lines(lines, "task:"@);
    let first = block(lines, "task:"@, j);
    let second = block(lines, "task:"@, k);
    task_keeps_its_title(payload(first[0], "task:"@), first.drop_first());
    task_keeps_its_title(payload(second[0], "task:"@), second.drop_first());
}

/// Whether `at` holds positions below `n` that rise strictly.
pub open spec fn rising_below(at: Seq<int>, n: int) -> bool {
    &&& forall|i: int| 0 <= i < at.len() ==> 0 <= #[trigger] at[i] < n
    &&& forall|i: int, j: int| 0 <= i < j < at.len() ==> at[i] < at[j]
}

/// The notes, links and dependencies of a task come from lines of its body
/// in the order of those lines. The three results hold, for each note, link
/// and dependency in turn, the position of the line it comes from.
pub proof fn task_lists_keep_line_order(title: Seq<char>, lines: Seq<Seq<char>>) -> (at: (
    Seq<int>,
    Seq<int>,
    Seq<int>,
))
    ensures
        rising_below(at.0, lines.len() as int),
        at.0.len() == task_after(title, lines).notes.len(),
        forall|i: int|
            0 <= i < at.0.len() ==> task_after(title, lines).notes[i] == lines[#[trigger] at.0[i]],
        rising_below(at.1, lines.len() as int),
        at.1.len() == task_after(title, lines).links.len(),
        forall|i: int|
            0 <= i < at.1.len() ==> Some(task_after(title, lines).links[i]) == link(
                lines[#[trigger] at.1[i]],
            ),
        rising_below(at.2, lines.len() as int),
        at.2.len() == task_after(title, lines).dependencies.len(),
        forall|i: int|
            0 <= i < at.2.len() ==> Some(task_after(title, lines).dependencies[i]) == dependency(
                lines[#[trigger] at.2[i]],
            ),
    decreases lines.len(),
{
    if lines.len() == 0 {
        (Seq::empty(), Seq::empty(), Seq::empty())
    } else {
        let front = lines.drop_last();
        let last: int = lines.len() - 1;
        let before = task_lists_keep_line_order(title, front);
        let old_task = task_after(title, front);
        let new_task = task_after(title, lines);
        let notes = if new_task.notes.len() > old_task.notes.len() {
            before.0.push(last)
        } else {
            before.0
        };
        let links = if new_task.links.len() > old_task.links.len() {
            before.1.push(last)
        } else {
            before.1
        };
        let dependencies = if new_task.dependencies.len() > old_task.dependencies.len() {
            before.2.push(last)
        } else {
            before.2
        };
        assert forall|i: int| 0 <= i < notes.len() implies new_task.notes[i]
            == lines[#[trigger] notes[i]] by {
            if i < before.0.len() {
                assert(front[before.0[i]] == lines[before.0[i]]);
            }
        }
        assert forall|i: int| 0 <= i < links.len() implies Some(new_task.links[i]) == link(
            lines[#[trigger] links[i]],
        ) by {
            if i < before.1.len() {
                assert(front[before.1[i]] == lines[before.1[i]]);
            }
        }
        assert forall|i: int| 0 <= i < dependencies.len() implies Some(new_task.dependencies[i])
            == dependency(lines[#[trigger] dependencies[i]]) by {
            if i < before.2.len() {
                assert(front[before.2[i]] == lines[before.2[i]]);
            }
        }
        (notes, links, dependencies)
    }
}

/// An effort line has zero person-days where it gives no second word, and
/// where that word is no integer that fits.
pub proof fn effort_without_number_is_zero(line: Seq<char>)
    ensures
        pieces(payload(line, "effort:"@), " "@).len() < 2 ==> effort(line).pds == 0,
        pieces(payload(line, "effort:"@), " "@).len() >= 2 && integer_isize(
            pieces(payload(line, "effort:"@), " "@)[1],
        ) is None ==> effort(line).pds == 0,
{
}

/// A line is a dependency line if and only if it has three words or more.
pub proof fn dependency_needs_three_words(line: Seq<char>)
    ensures
        dependency(line) is Some <==> pieces(trimmed(line), " "@).len() >= 3,
{
}

} // verus!

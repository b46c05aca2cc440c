//! The handoff document: what a session leaves for the next one, as
//! markdown, and how a note is added under one of its sections.
use vstd::prelude::*;
use std::path::PathBuf;
use crate::text::{
    lemma_first_occurrence_found, chars_of, concat, contains, find_from, first_occurrence_from, is_digit, occurs_at, string_of,
};

verus! {

/// Where the handoff document of a project is kept.
pub struct HandoffManager {
    handoff_path: PathBuf,
}

/// The items as a markdown list, each after `marker` and on its own line.
pub open spec fn bullet_list(items: Seq<String>, marker: Seq<char>) -> Seq<char>
    decreases items.len(),
{
    if items.len() == 0 {
        seq![]
    } else {
        bullet_list(items.drop_last(), marker) + marker + items.last()@ + "\n"@
    }
}

/// The prioritized tasks as a markdown list: `- [priority] task` lines.
pub open spec fn todo_list(items: Seq<(String, String)>) -> Seq<char>
    decreases items.len(),
{
    if items.len() == 0 {
        seq![]
    } else {
        todo_list(items.drop_last()) + "- ["@ + items.last().0@ + "] "@ + items.last().1@ + "\n"@
    }
}

/// The line of the todo list for one prioritized task.
pub open spec fn todo_line(item: (String, String)) -> Seq<char> {
    "- ["@ + item.0@ + "] "@ + item.1@ + "\n"@
}

/// The todo list keeps the tasks in their given order: the list of two runs
/// of tasks is the list of the first run followed by that of the second, and
/// a single task gives its own `- [priority] task` line.
pub proof fn lemma_todo_list_in_order(a: Seq<(String, String)>, b: Seq<(String, String)>)
    ensures
        todo_list(a + b) == todo_list(a) + todo_list(b),
        b.len() == 1 ==> todo_list(b) == todo_line(b[0]),
    decreases b.len(),
{
    if b.len() == 0 {
        assert(a + b =~= a);
        assert(todo_list(a) + todo_list(b) =~= todo_list(a));
    } else {
        let x = b.last();
        assert((a + b).drop_last() =~= a + b.drop_last());
        assert((a + b).last() == x);
        lemma_todo_list_in_order(a, b.drop_last());
        assert(todo_list(a + b) =~= todo_list(a) + (todo_list(b.drop_last()) + "- ["@ + x.0@
            + "] "@ + x.1@ + "\n"@));
        if b.len() == 1 {
            assert(b.drop_last().len() == 0);
            assert(todo_list(b) =~= todo_line(b[0]));
        }
    }
}

/// The line for the `i`-th task stands in the todo list after the lines of
/// the tasks before it and before those of the tasks after it.
pub proof fn lemma_todo_line_at(items: Seq<(String, String)>, i: int)
    requires
        0 <= i < items.len(),
    ensures
        todo_list(items) == todo_list(items.take(i)) + todo_line(items[i]) + todo_list(
            items.skip(i + 1),
        ),
{
    let pre = items.take(i);
    let one = seq![items[i]];
    let post = items.skip(i + 1);
    assert(items =~= pre + one + post);
    lemma_todo_list_in_order(pre + one, post);
    lemma_todo_list_in_order(pre, one);
}

/// A bullet list keeps the items in their given order: the list of two runs
/// of items is the list of the first run followed by that of the second, and
/// a single item gives its own line after the marker.
pub proof fn lemma_bullet_list_in_order(a: Seq<String>, b: Seq<String>, marker: Seq<char>)
    ensures
        bullet_list(a + b, marker) == bullet_list(a, marker) + bullet_list(b, marker),
        b.len() == 1 ==> bullet_list(b, marker) == marker + b[0]@ + "\n"@,
    decreases b.len(),
{
    if b.len() == 0 {
        assert(a + b =~= a);
        assert(bullet_list(a, marker) + bullet_list(b, marker) =~= bullet_list(a, marker));
    } else {
        let x = b.last();
        assert((a + b).drop_last() =~= a + b.drop_last());
        assert((a + b).last() == x);
        lemma_bullet_list_in_order(a, b.drop_last(), marker);
        assert(bullet_list(a + b, marker) =~= bullet_list(a, marker) + (bullet_list(
            b.drop_last(),
            marker,
        ) + marker + x@ + "\n"@));
        if b.len() == 1 {
            assert(b.drop_last().len() == 0);
            assert(bullet_list(b, marker) =~= marker + b[0]@ + "\n"@);
        }
    }
}

/// The heading of the handoff document, naming the phase.
pub open spec fn handoff_heading(phase: Seq<char>) -> Seq<char> {
    "## Phase: "@ + phase + "\n\n"@
}

/// A titled section of the handoff document around a list.
pub open spec fn handoff_section(title: Seq<char>, list: Seq<char>) -> Seq<char> {
    title + list + "\n"@
}

/// The closing lines of the handoff document, with the time of writing.
pub open spec fn handoff_footer(stamp: Seq<char>) -> Seq<char> {
    "\n---\n*Last updated: "@ + stamp + "*\n"@
}

/// The handoff document for a phase, with what was completed, what is left
/// in priority order, the technical decisions, and the time of writing.
pub open spec fn handoff_text(
    phase: Seq<char>,
    completed: Seq<String>,
    todo: Seq<(String, String)>,
    decisions: Seq<String>,
    stamp: Seq<char>,
) -> Seq<char> {
    handoff_heading(phase) + handoff_section("### Completed\n"@, bullet_list(completed, "- [x] "@))
        + handoff_section("### Todo (Prioritized)\n"@, todo_list(todo)) + handoff_section(
        "### Technical Decisions\n"@,
        bullet_list(decisions, "- "@),
    ) + handoff_footer(stamp)
}

/// The text shown when a project has no handoff document yet.
pub open spec fn missing_handoff_text() -> Seq<char> {
    "# No handoff document found\n"@
}

/// The document after adding `content` as a new line right after the line
/// that holds the first `### section` heading; `None` when there is no
/// such heading.
pub open spec fn section_insertion(current: Seq<char>, section: Seq<char>, content: Seq<char>) -> Option<
    Seq<char>,
> {
    match first_occurrence_from(current, "### "@ + section, 0) {
        None => None,
        Some(pos) => {
            let at = match first_occurrence_from(current, seq!['\n'], pos) {
                Some(k) => k + 1,
                None => current.len() as int,
            };
            Some(current.take(at) + content + seq!['\n'] + current.skip(at))
        },
    }
}

/// `at` is the position just after the line of `text` that holds the first
/// occurrence of `header`: after the first newline at or after the
/// heading's own position, or the end of the text when no newline follows.
pub open spec fn after_first_heading_line(text: Seq<char>, header: Seq<char>, at: int) -> bool {
    exists|pos: int|
        {
            &&& occurs_at(text, header, pos)
            &&& forall|j: int| 0 <= j < pos ==> !occurs_at(text, header, j)
            &&& pos < at <= text.len()
            &&& forall|j: int| pos <= j < at - 1 ==> text[j] != '\n'
            &&& (text[at - 1] == '\n' || at == text.len())
        }
}

/// A note goes into the document exactly when the `### section` heading
/// occurs in it, and then as a line of its own right after the line that
/// holds the first such heading; the rest of the document is kept as it was
/// around it.
pub proof fn lemma_insertion_after_first_heading_line(
    current: Seq<char>,
    section: Seq<char>,
    content: Seq<char>,
)
    ensures
        section_insertion(current, section, content) is None <==> !contains(
            current,
            "### "@ + section,
        ),
        section_insertion(current, section, content) matches Some(t) ==> exists|at: int|
            after_first_heading_line(current, "### "@ + section, at) && t == current.take(at)
                + content + seq!['\n'] + current.skip(at),
{
    let header = "### "@ + section;
    lemma_first_occurrence_found(current, header, 0);
    match first_occurrence_from(current, header, 0) {
        None => {},
        Some(pos) => {
            assert(contains(current, header));
            reveal_strlit("### ");
            assert(header.len() >= 4);
            let nl = seq!['\n'];
            lemma_first_occurrence_found(current, nl, pos);
            assert forall|j: int| 0 <= j < current.len() && current[j] == '\n' implies occurs_at(
                current,
                nl,
                j,
            ) by {
                assert(current.subrange(j, j + 1) =~= nl);
            }
            let at = match first_occurrence_from(current, nl, pos) {
                Some(k) => k + 1,
                None => current.len() as int,
            };
            if let Some(k) = first_occurrence_from(current, nl, pos) {
                assert(current.subrange(k, k + 1) == nl);
                assert(current[k] == current.subrange(k, k + 1)[0]);
            }
            assert(after_first_heading_line(current, header, at));
        },
    }
}

/// Text found in a piece is found in any text that has the piece inside.
proof fn lemma_contains_within(pre: Seq<char>, mid: Seq<char>, post: Seq<char>, p: Seq<char>)
    requires
        contains(mid, p),
    ensures
        contains(pre + mid + post, p),
{
    let i = choose|i: int| occurs_at(mid, p, i);
    let whole = pre + mid + post;
    assert(whole.subrange(pre.len() + i, pre.len() + i + p.len()) =~= mid.subrange(i, i + p.len()));
    assert(occurs_at(whole, p, pre.len() + i));
}

/// A text is found in itself.
proof fn lemma_contains_self(p: Seq<char>)
    ensures
        contains(p, p),
{
    assert(p.subrange(0, p.len() as int) =~= p);
    assert(occurs_at(p, p, 0));
}

/// Every item of a list is found in the list's text.
proof fn lemma_bullets_mention(items: Seq<String>, marker: Seq<char>, i: int)
    requires
        0 <= i < items.len(),
    ensures
        contains(bullet_list(items, marker), items[i]@),
    decreases items.len(),
{
    let prev = bullet_list(items.drop_last(), marker);
    if i == items.len() - 1 {
        lemma_contains_self(items[i]@);
        lemma_contains_within(prev + marker, items[i]@, "\n"@, items[i]@);
        assert(prev + marker + items.last()@ + "\n"@ =~= (prev + marker) + items[i]@ + "\n"@);
    } else {
        lemma_bullets_mention(items.drop_last(), marker, i);
        lemma_contains_within(Seq::empty(), prev, marker + items.last()@ + "\n"@, items[i]@);
        assert(prev + marker + items.last()@ + "\n"@ =~= Seq::<char>::empty() + prev + (marker
            + items.last()@ + "\n"@));
    }
}

/// Every task of a todo list, and its priority, is found in the list's text.
proof fn lemma_todo_mention(items: Seq<(String, String)>, i: int)
    requires
        0 <= i < items.len(),
    ensures
        contains(todo_list(items), items[i].1@),
        contains(todo_list(items), items[i].0@),
    decreases items.len(),
{
    let prev = todo_list(items.drop_last());
    let x = items.last();
    if i == items.len() - 1 {
        lemma_contains_self(x.1@);
        lemma_contains_self(x.0@);
        assert(todo_list(items) =~= (prev + "- ["@ + x.0@ + "] "@) + x.1@ + "\n"@);
        lemma_contains_within(prev + "- ["@ + x.0@ + "] "@, x.1@, "\n"@, x.1@);
        assert(todo_list(items) =~= (prev + "- ["@) + x.0@ + ("] "@ + x.1@ + "\n"@));
        lemma_contains_within(prev + "- ["@, x.0@, "] "@ + x.1@ + "\n"@, x.0@);
    } else {
        lemma_todo_mention(items.drop_last(), i);
        let post = "- ["@ + x.0@ + "] "@ + x.1@ + "\n"@;
        assert(todo_list(items) =~= Seq::<char>::empty() + prev + post);
        lemma_contains_within(Seq::empty(), prev, post, items[i].1@);
        lemma_contains_within(Seq::empty(), prev, post, items[i].0@);
    }
}

/// Text found in a piece is found after anything is put before it.
proof fn lemma_contains_prepend(x: Seq<char>, mid: Seq<char>, p: Seq<char>)
    requires
        contains(mid, p),
    ensures
        contains(x + mid, p),
{
    lemma_contains_within(x, mid, Seq::empty(), p);
    assert(x + mid + Seq::<char>::empty() =~= x + mid);
}

/// Text found in a piece is found after anything is put after it.
proof fn lemma_contains_append(mid: Seq<char>, y: Seq<char>, p: Seq<char>)
    requires
        contains(mid, p),
    ensures
        contains(mid + y, p),
{
    lemma_contains_within(Seq::empty(), mid, y, p);
    assert(Seq::<char>::empty() + mid + y =~= mid + y);
}

/// The handoff document names its phase, every completed item, every task
/// with its priority, and every technical decision.
pub proof fn lemma_handoff_mentions(
    phase: Seq<char>,
    completed: Seq<String>,
    todo: Seq<(String, String)>,
    decisions: Seq<String>,
    stamp: Seq<char>,
)
    ensures
        contains(handoff_text(phase, completed, todo, decisions, stamp), phase),
        forall|i: int|
            0 <= i < completed.len() ==> contains(
                handoff_text(phase, completed, todo, decisions, stamp),
                #[trigger] completed[i]@,
            ),
        forall|i: int|
            0 <= i < todo.len() ==> contains(
                handoff_text(phase, completed, todo, decisions, stamp),
                #[trigger] todo[i].1@,
            ) && contains(handoff_text(phase, completed, todo, decisions, stamp), todo[i].0@),
        forall|i: int|
            0 <= i < decisions.len() ==> contains(
                handoff_text(phase, completed, todo, decisions, stamp),
                #[trigger] decisions[i]@,
            ),
{
    let h = handoff_heading(phase);
    let c = handoff_section("### Completed\n"@, bullet_list(completed, "- [x] "@));
    let t = handoff_section("### Todo (Prioritized)\n"@, todo_list(todo));
    let d = handoff_section("### Technical Decisions\n"@, bullet_list(decisions, "- "@));
    let f = handoff_footer(stamp);
    let doc = handoff_text(phase, completed, todo, decisions, stamp);
    assert(doc == h + c + t + d + f);
    // A text found in the heading, or in one of the sections, is found in
    // the document.
    assert forall|p: Seq<char>| contains(h, p) implies contains(doc, p) by {
        lemma_contains_append(h, c, p);
        lemma_contains_append(h + c, t, p);
        lemma_contains_append(h + c + t, d, p);
        lemma_contains_append(h + c + t + d, f, p);
    }
    assert forall|p: Seq<char>| contains(c, p) implies contains(doc, p) by {
        lemma_contains_prepend(h, c, p);
        lemma_contains_append(h + c, t, p);
        lemma_contains_append(h + c + t, d, p);
        lemma_contains_append(h + c + t + d, f, p);
    }
    assert forall|p: Seq<char>| contains(t, p) implies contains(doc, p) by {
        lemma_contains_prepend(h + c, t, p);
        lemma_contains_append(h + c + t, d, p);
        lemma_contains_append(h + c + t + d, f, p);
    }
    assert forall|p: Seq<char>| contains(d, p) implies contains(doc, p) by {
        lemma_contains_prepend(h + c + t, d, p);
        lemma_contains_append(h + c + t + d, f, p);
    }
    lemma_contains_self(phase);
    lemma_contains_within("## Phase: "@, phase, "\n\n"@, phase);
    assert forall|i: int| 0 <= i < completed.len() implies contains(doc, #[trigger] completed[i]@) by {
        lemma_bullets_mention(completed, "- [x] "@, i);
        lemma_contains_within("### Completed\n"@, bullet_list(completed, "- [x] "@), "\n"@, completed[i]@);
    }
    assert forall|i: int| 0 <= i < todo.len() implies contains(doc, #[trigger] todo[i].1@)
        && contains(doc, todo[i].0@) by {
        lemma_todo_mention(todo, i);
        lemma_contains_within("### Todo (Prioritized)\n"@, todo_list(todo), "\n"@, todo[i].1@);
        lemma_contains_within("### Todo (Prioritized)\n"@, todo_list(todo), "\n"@, todo[i].0@);
    }
    assert forall|i: int| 0 <= i < decisions.len() implies contains(doc, #[trigger] decisions[i]@) by {
        lemma_bullets_mention(decisions, "- "@, i);
        lemma_contains_within("### Technical Decisions\n"@, bullet_list(decisions, "- "@), "\n"@, decisions[i]@);
    }
}

/// A local date and time as written by `%Y-%m-%d %H:%M:%S`: a year of at
/// least four digits (with a sign when outside 0..=9999), then
/// `-MM-DD HH:MM:SS` with two digits for each field.
pub open spec fn is_local_stamp(s: Seq<char>) -> bool {
    let n = s.len() as int;
    &&& n >= 19
    &&& forall|i: int| 0 <= i < n - 15 ==> is_digit(#[trigger] s[i]) || s[i] == '+' || s[i] == '-'
    &&& s[n - 15] == '-' && s[n - 12] == '-' && s[n - 9] == ' ' && s[n - 6] == ':' && s[n - 3] == ':'
    &&& forall|i: int|
        n - 15 <= i < n && i != n - 15 && i != n - 12 && i != n - 9 && i != n - 6 && i != n - 3
            ==> is_digit(#[trigger] s[i])
}

/// The local time as `YYYY-MM-DD HH:MM:SS`, from
/// `chrono::Local::now().format(..)`. Which time it shows depends on the
/// clock and the time zone and is not stated. Its layout is: chrono writes
/// the year zero-padded to four digits (with a sign outside 0..=9999), each
/// other field as two digits, and copies the format's `-`, `:` and space.
#[verifier::external_body]
fn local_time_stamp() -> (s: String)
    ensures
        is_local_stamp(s@),
{
    chrono::Local::now().format("%Y-%m-%d %H:%M:%S").to_string()
}

fn append_bullets(out: &mut String, items: &Vec<String>, marker: &str)
    ensures
        final(out)@ == old(out)@ + bullet_list(items@, marker@),
{
    let ghost start = out@;
    let n = items.len();
    for i in 0..n
        invariant
            n == items@.len(),
            out@ == start + bullet_list(items@.take(i as int), marker@),
    {
        assert(items@.take(i + 1).drop_last() =~= items@.take(i as int));
        out.append(marker);
        out.append(items[i].as_str());
        out.append("\n");
    }
    assert(items@.take(n as int) =~= items@);
}

fn append_todo(out: &mut String, items: &Vec<(String, String)>)
    ensures
        final(out)@ == old(out)@ + todo_list(items@),
{
    let ghost start = out@;
    let n = items.len();
    for i in 0..n
        invariant
            n == items@.len(),
            out@ == start + todo_list(items@.take(i as int)),
    {
        assert(items@.take(i + 1).drop_last() =~= items@.take(i as int));
        out.append("- [");
        out.append(items[i].0.as_str());
        out.append("] ");
        out.append(items[i].1.as_str());
        out.append("\n");
    }
    assert(items@.take(n as int) =~= items@);
}

/// `s` with `ins` inserted at position `at`.
fn splice(s: &Vec<char>, at: usize, ins: &Vec<char>) -> (out: Vec<char>)
    requires
        at <= s@.len(),
    ensures
        out@ == s@.take(at as int) + ins@ + s@.skip(at as int),
{
    let mut out: Vec<char> = Vec::new();
    for i in 0..at
        invariant
            at <= s@.len(),
            out@ == s@.take(i as int),
    {
        out.push(s[i]);
        assert(s@.take(i + 1) =~= s@.take(i as int).push(s@[i as int]));
    }
    for i in 0..ins.len()
        invariant
            out@ == s@.take(at as int) + ins@.take(i as int),
    {
        out.push(ins[i]);
        assert(ins@.take(i + 1) =~= ins@.take(i as int).push(ins@[i as int]));
    }
    assert(ins@.take(ins@.len() as int) =~= ins@);
    let n = s.len();
    for i in at..n
        invariant
            n == s@.len(),
            at <= n,
            out@ == s@.take(at as int) + ins@ + s@.subrange(at as int, i as int),
    {
        out.push(s[i]);
        assert(s@.subrange(at as int, i + 1) =~= s@.subrange(at as int, i as int).push(
            s@[i as int],
        ));
    }
    assert(s@.subrange(at as int, n as int) =~= s@.skip(at as int));
    out
}

impl HandoffManager {
    /// A manager of the document at the given path.
    pub fn at_path(handoff_path: PathBuf) -> (m: HandoffManager)
        ensures
            m.path() == handoff_path,
    {
        HandoffManager { handoff_path }
    }

    /// The path of the document.
    pub closed spec fn path(self) -> PathBuf {
        self.handoff_path
    }

    /// The path of the document.
    pub fn handoff_path(&self) -> (p: &PathBuf)
        ensures
            *p == self.path(),
    {
        &self.handoff_path
    }

    /// The handoff document with the given time of writing.
    pub fn render_handoff(
        phase: &str,
        completed: &Vec<String>,
        todo: &Vec<(String, String)>,
        decisions: &Vec<String>,
        stamp: &str,
    ) -> (doc: String)
        ensures
            doc@ == handoff_text(phase@, completed@, todo@, decisions@, stamp@),
    {
        let mut doc = concat("## Phase: ", phase);
        doc.append("\n\n");
        doc.append("### Completed\n");
        append_bullets(&mut doc, completed, "- [x] ");
        doc.append("\n");
        doc.append("### Todo (Prioritized)\n");
        append_todo(&mut doc, todo);
        doc.append("\n");
        doc.append("### Technical Decisions\n");
        append_bullets(&mut doc, decisions, "- ");
        doc.append("\n");
        doc.append("\n---\n*Last updated: ");
        doc.append(stamp);
        doc.append("*\n");
        assert(doc@ =~= handoff_text(phase@, completed@, todo@, decisions@, stamp@));
        doc
    }

    /// The handoff document, stamped with the current local time.
    pub fn compose_handoff(
        phase: &str,
        completed: Vec<String>,
        todo: Vec<(String, String)>,
        decisions: Vec<String>,
    ) -> (doc: String)
        ensures
            exists|stamp: Seq<char>|
                is_local_stamp(stamp) && doc@ == handoff_text(phase@, completed@, todo@, decisions@, stamp),
    {
        let stamp = local_time_stamp();
        Self::render_handoff(phase, &completed, &todo, &decisions, stamp.as_str())
    }

    /// What reading the document gives: its text, or a placeholder when it
    /// does not exist.
    pub fn handoff_or_placeholder(found: Option<String>) -> (text: String)
        ensures
            found matches Some(t) ==> text == t,
            found is None ==> text@ == missing_handoff_text(),
    {
        match found {
            Some(t) => t,
            None => "# No handoff document found\n".to_owned(),
        }
    }

    /// The document with `content` added as a line right after the first
    /// `### section` heading line, or `None` (nothing to write) when the
    /// document has no such heading.
    pub fn insert_into_section(current: &str, section: &str, content: &str) -> (r: Option<String>)
        ensures
            r matches Some(s) ==> section_insertion(current@, section@, content@) == Some(s@),
            r is None ==> section_insertion(current@, section@, content@) is None,
            r is None <==> !contains(current@, "### "@ + section@),
            r matches Some(s) ==> exists|at: int|
                after_first_heading_line(current@, "### "@ + section@, at) && s@ == current@.take(
                    at,
                ) + content@ + seq!['\n'] + current@.skip(at),
    {
        proof {
            lemma_insertion_after_first_heading_line(current@, section@, content@);
        }
        let cur = chars_of(current);
        let header_text = concat("### ", section);
        let header = chars_of(header_text.as_str());
        match find_from(&cur, &header, 0) {
            None => None,
            Some(pos) => {
                let mut newline: Vec<char> = Vec::new();
                newline.push('\n');
                assert(newline@ =~= seq!['\n']);
                let at = match find_from(&cur, &newline, pos) {
                    Some(k) => {
                        let n = cur.len();
                        assert(k + newline@.len() <= n);
                        k + 1
                    },
                    None => cur.len(),
                };
                let mut line = chars_of(content);
                line.push('\n');
                let out = splice(&cur, at, &line);
                assert(out@ =~= current@.take(at as int) + content@ + seq!['\n'] + current@.skip(
                    at as int,
                ));
                Some(string_of(out.as_slice()))
            },
        }
    }
}

} // verus!

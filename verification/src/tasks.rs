//! The task list: an ordered sequence of tasks with a selection cursor,
//! plus the parser that splits a typed line into a task name and its
//! `#`-prefixed tags.

use vstd::prelude::*;
use crate::clock::fresh_id;
use crate::text::chars_to_string;
use crate::text::str_to_chars;

verus! {

/// A task: name, completion flag, pomodoro counter and tag names (in the
/// order they were typed).
#[derive(Debug, PartialEq, Eq)]
pub struct Task {
    /// Random 128-bit identifier.
    pub id: u128,
    pub name: String,
    pub completed: bool,
    pub pomodoros_spent: u32,
    pub tags: Vec<String>,
}

impl Clone for Task {
    /// A copy with the same fields (the tag vector is rebuilt with the
    /// same names).
    fn clone(&self) -> (r: Task)
        ensures
            r.id == self.id,
            r.name == self.name,
            r.completed == self.completed,
            r.pomodoros_spent == self.pomodoros_spent,
            r.tags@ == self.tags@,
    {
        let mut tags: Vec<String> = Vec::new();
        let len = self.tags.len();
        let mut i: usize = 0;
        while i < len
            invariant
                i <= len,
                len == self.tags@.len(),
                tags@ =~= self.tags@.take(i as int),
            decreases len - i,
        {
            tags.push(self.tags[i].clone());
            proof {
                assert(tags@ =~= self.tags@.take(i as int + 1));
            }
            i = i + 1;
        }
        proof {
            assert(tags@ =~= self.tags@);
        }
        Task {
            id: self.id,
            name: self.name.clone(),
            completed: self.completed,
            pomodoros_spent: self.pomodoros_spent,
            tags,
        }
    }
}

impl Task {
    /// A fresh, uncompleted task with the given name and tags. The
    /// identifier is random; everything else is as given.
    pub fn with_tags(name: String, tags: Vec<String>) -> (t: Task)
        ensures
            t.name == name,
            !t.completed,
            t.pomodoros_spent == 0,
            t.tags == tags,
    {
        Task { id: fresh_id(), name, completed: false, pomodoros_spent: 0, tags }
    }
}

/// The abstract value of a `Task`.
pub struct TaskV {
    pub id: u128,
    pub name: Seq<char>,
    pub completed: bool,
    pub pomodoros_spent: u32,
    pub tags: Seq<Seq<char>>,
}

impl View for Task {
    type V = TaskV;

    open spec fn view(&self) -> TaskV {
        TaskV {
            id: self.id,
            name: self.name@,
            completed: self.completed,
            pomodoros_spent: self.pomodoros_spent,
            tags: self.tags@.map_values(|t: String| t@),
        }
    }
}

/// The ordered task list with its selection cursor.
///
/// Invariant (`wf`): the cursor is inside the list, or zero when the list
/// is empty.
#[derive(Debug, PartialEq, Eq)]
pub struct TaskList {
    pub tasks: Vec<Task>,
    pub selected: usize,
}

impl Default for TaskList {
    /// An empty list.
    fn default() -> (l: TaskList)
        ensures
            l.wf(),
            l.tasks@.len() == 0,
            l.selected == 0,
    {
        TaskList { tasks: Vec::new(), selected: 0 }
    }
}

/// The tasks that remain after clearing completed ones, in order.
pub open spec fn spec_keep_open(s: Seq<Task>) -> Seq<Task>
    decreases s.len(),
{
    if s.len() == 0 {
        Seq::empty()
    } else if !s.last().completed {
        spec_keep_open(s.drop_last()).push(s.last())
    } else {
        spec_keep_open(s.drop_last())
    }
}

impl TaskList {
    /// Structural invariant of the cursor.
    pub open spec fn wf(self) -> bool {
        if self.tasks@.len() == 0 {
            self.selected == 0
        } else {
            self.selected < self.tasks@.len()
        }
    }

    /// Appends a task and selects it.
    pub fn add(&mut self, task: Task)
        requires
            old(self).wf(),
        ensures
            final(self).wf(),
            final(self).tasks@ == old(self).tasks@.push(task),
            final(self).selected == old(self).tasks@.len(),
    {
        self.tasks.push(task);
        self.selected = self.tasks.len() - 1;
    }

    /// Moves the selection up one task, wrapping to the bottom; a no-op on
    /// an empty list.
    pub fn select_prev(&mut self)
        requires
            old(self).wf(),
        ensures
            final(self).wf(),
            final(self).tasks@ == old(self).tasks@,
            final(self).selected == if old(self).tasks@.len() == 0 {
                0int
            } else if old(self).selected > 0 {
                old(self).selected - 1
            } else {
                old(self).tasks@.len() - 1
            },
    {
        if !self.tasks.is_empty() {
            if self.selected > 0 {
                self.selected = self.selected - 1;
            } else {
                self.selected = self.tasks.len() - 1;
            }
        }
    }

    /// Moves the selection down one task, wrapping to the top; a no-op on
    /// an empty list.
    pub fn select_next(&mut self)
        requires
            old(self).wf(),
        ensures
            final(self).wf(),
            final(self).tasks@ == old(self).tasks@,
            final(self).selected == if old(self).tasks@.len() == 0 {
                0int
            } else if old(self).selected < old(self).tasks@.len() - 1 {
                old(self).selected + 1
            } else {
                0int
            },
    {
        if !self.tasks.is_empty() {
            if self.selected < self.tasks.len() - 1 {
                self.selected = self.selected + 1;
            } else {
                self.selected = 0;
            }
        }
    }

    /// Removes the selected task, clamping the cursor back into range; a
    /// no-op on an empty list.
    pub fn remove_selected(&mut self)
        requires
            old(self).wf(),
        ensures
            final(self).wf(),
            old(self).tasks@.len() == 0 ==> *final(self) == *old(self),
            old(self).tasks@.len() > 0 ==> final(self).tasks@ == old(self).tasks@.remove(
                old(self).selected as int,
            ),
            old(self).tasks@.len() > 0 ==> final(self).selected == if old(self).selected + 1
                < old(self).tasks@.len() {
                old(self).selected as int
            } else if old(self).selected > 0 {
                old(self).selected - 1
            } else {
                0int
            },
    {
        if !self.tasks.is_empty() {
            self.tasks.remove(self.selected);
            if self.tasks.is_empty() {
                self.selected = 0;
            } else if self.selected >= self.tasks.len() {
                self.selected = self.tasks.len() - 1;
            }
        }
    }

    /// Drops every completed task, keeping order, and clamps the cursor.
    pub fn clear_completed(&mut self)
        requires
            old(self).wf(),
        ensures
            final(self).wf(),
            final(self).tasks@ == spec_keep_open(old(self).tasks@),
            final(self).selected == if old(self).selected < final(self).tasks@.len() {
                old(self).selected as int
            } else if final(self).tasks@.len() > 0 {
                final(self).tasks@.len() - 1
            } else {
                0int
            },
    {
        let ghost orig = self.tasks@;
        let mut kept: Vec<Task> = Vec::new();
        let ghost mut i: int = 0;
        while self.tasks.len() > 0
            invariant
                0 <= i <= orig.len(),
                self.selected == old(self).selected,
                self.tasks@ == orig.skip(i),
                kept@ == spec_keep_open(orig.take(i)),
            decreases self.tasks@.len(),
        {
            proof {
                assert(orig.take(i + 1).drop_last() =~= orig.take(i));
                assert(orig.take(i + 1).last() == orig[i]);
            }
            let t = self.tasks.remove(0);
            proof {
                assert(t == orig[i]);
            }
            if !t.completed {
                kept.push(t);
            }
            proof {
                i = i + 1;
                assert(self.tasks@ =~= orig.skip(i));
            }
        }
        proof {
            assert(orig.take(i) =~= orig);
        }
        self.tasks = kept;
        if self.tasks.is_empty() {
            self.selected = 0;
        } else if self.selected >= self.tasks.len() {
            self.selected = self.tasks.len() - 1;
        }
    }

    /// Toggles the completion flag of the selected task; a no-op on an
    /// empty list.
    pub fn toggle_selected(&mut self)
        requires
            old(self).wf(),
        ensures
            final(self).wf(),
            final(self).selected == old(self).selected,
            old(self).tasks@.len() == 0 ==> final(self).tasks@ == old(self).tasks@,
            old(self).tasks@.len() > 0 ==> final(self).tasks@ == old(self).tasks@.update(
                old(self).selected as int,
                (Task {
                    completed: !old(self).tasks@[old(self).selected as int].completed,
                    ..old(self).tasks@[old(self).selected as int]
                }),
            ),
    {
        if !self.tasks.is_empty() {
            let c = self.tasks[self.selected].completed;
            self.tasks[self.selected].completed = !c;
        }
    }

    /// Adds one pomodoro to the selected task's counter (saturating); a
    /// no-op on an empty list. Called on natural Work completion only —
    /// skipping never counts.
    pub fn increment_selected_pomodoros(&mut self)
        requires
            old(self).wf(),
        ensures
            final(self).wf(),
            final(self).selected == old(self).selected,
            old(self).tasks@.len() == 0 ==> final(self).tasks@ == old(self).tasks@,
            old(self).tasks@.len() > 0 ==> final(self).tasks@ == old(self).tasks@.update(
                old(self).selected as int,
                (Task {
                    pomodoros_spent: if old(self).tasks@[old(self).selected as int].pomodoros_spent
                        == u32::MAX {
                        u32::MAX
                    } else {
                        (old(self).tasks@[old(self).selected as int].pomodoros_spent + 1) as u32
                    },
                    ..old(self).tasks@[old(self).selected as int]
                }),
            ),
    {
        if !self.tasks.is_empty() {
            let p = self.tasks[self.selected].pomodoros_spent;
            let bumped = if p < u32::MAX {
                p + 1
            } else {
                p
            };
            self.tasks[self.selected].pomodoros_spent = bumped;
        }
    }

    /// The selected task's name, if any task exists.
    pub fn selected_name(&self) -> (r: Option<String>)
        requires
            self.wf(),
        ensures
            self.tasks@.len() == 0 ==> r is None,
            self.tasks@.len() > 0 ==> (r matches Some(n) && n
                == self.tasks@[self.selected as int].name),
    {
        if self.tasks.is_empty() {
            None
        } else {
            Some(self.tasks[self.selected].name.clone())
        }
    }
}

/// An ASCII whitespace separator (space, tab, carriage return, newline).
pub open spec fn is_space(c: char) -> bool {
    c == ' ' || c == '\t' || c == '\r' || c == '\n'
}

/// One step of the word splitter: a separator closes the current word (if
/// one is open); any other character extends it.
pub open spec fn spec_split_step(acc: (Seq<Seq<char>>, Seq<char>), c: char) -> (
    Seq<Seq<char>>,
    Seq<char>,
) {
    if is_space(c) {
        if acc.1.len() > 0 {
            (acc.0.push(acc.1), Seq::empty())
        } else {
            acc
        }
    } else {
        (acc.0, acc.1.push(c))
    }
}

/// The splitter state after consuming `s`: the closed words and the word
/// still open.
pub open spec fn spec_split_state(s: Seq<char>) -> (Seq<Seq<char>>, Seq<char>)
    decreases s.len(),
{
    if s.len() == 0 {
        (Seq::empty(), Seq::empty())
    } else {
        spec_split_step(spec_split_state(s.drop_last()), s.last())
    }
}

/// The words of `s`: maximal runs of non-separator characters.
pub open spec fn spec_words(s: Seq<char>) -> Seq<Seq<char>> {
    let (ws, cur) = spec_split_state(s);
    if cur.len() > 0 {
        ws.push(cur)
    } else {
        ws
    }
}

/// A word that names a tag: a `#` followed by at least one character.
pub open spec fn is_tag_word(w: Seq<char>) -> bool {
    w.len() > 1 && w[0] == '#'
}

/// The tags among the words, in order, with the `#` stripped.
pub open spec fn spec_tags_of(ws: Seq<Seq<char>>) -> Seq<Seq<char>>
    decreases ws.len(),
{
    if ws.len() == 0 {
        Seq::empty()
    } else if is_tag_word(ws.last()) {
        spec_tags_of(ws.drop_last()).push(ws.last().drop_first())
    } else {
        spec_tags_of(ws.drop_last())
    }
}

/// The words that are not tags, in order.
pub open spec fn spec_name_words(ws: Seq<Seq<char>>) -> Seq<Seq<char>>
    decreases ws.len(),
{
    if ws.len() == 0 {
        Seq::empty()
    } else if !is_tag_word(ws.last()) {
        spec_name_words(ws.drop_last()).push(ws.last())
    } else {
        spec_name_words(ws.drop_last())
    }
}

/// The words joined by single spaces.
pub open spec fn spec_join_space(ws: Seq<Seq<char>>) -> Seq<char>
    decreases ws.len(),
{
    if ws.len() == 0 {
        Seq::empty()
    } else if ws.len() == 1 {
        ws[0]
    } else {
        spec_join_space(ws.drop_last()) + seq![' '] + ws.last()
    }
}

/// Splits a typed task line into the clean name and the tags: words are
/// separated by whitespace, a word of the shape `#tag` becomes the tag
/// `tag`, and the remaining words, joined by single spaces, become the
/// name.
pub fn parse_task_input(input: &str) -> (r: (String, Vec<String>))
    ensures
        r.0@ == spec_join_space(spec_name_words(spec_words(input@))),
        r.1@.len() == spec_tags_of(spec_words(input@)).len(),
        forall|i: int|
            0 <= i < r.1@.len() ==> (#[trigger] r.1@[i])@ == spec_tags_of(spec_words(input@))[i],
{
    let cs = str_to_chars(input);
    let n = cs.len();

    // Split into words.
    let mut words: Vec<Vec<char>> = Vec::new();
    let mut cur: Vec<char> = Vec::new();
    let mut i: usize = 0;
    while i < n
        invariant
            i <= n,
            n == cs@.len(),
            cs@ == input@,
            words@.len() == spec_split_state(cs@.take(i as int)).0.len(),
            forall|k: int|
                0 <= k < words@.len() ==> (#[trigger] words@[k])@ == spec_split_state(
                    cs@.take(i as int),
                ).0[k],
            cur@ == spec_split_state(cs@.take(i as int)).1,
        decreases n - i,
    {
        proof {
            assert(cs@.take(i as int + 1).drop_last() =~= cs@.take(i as int));
            assert(cs@.take(i as int + 1).last() == cs@[i as int]);
        }
        let c = cs[i];
        if c == ' ' || c == '\t' || c == '\r' || c == '\n' {
            if cur.len() > 0 {
                words.push(cur);
                cur = Vec::new();
            }
        } else {
            cur.push(c);
        }
        i = i + 1;
    }
    proof {
        assert(cs@.take(n as int) =~= cs@);
    }
    if cur.len() > 0 {
        words.push(cur);
    }
    let ghost ws = spec_words(input@);
    proof {
        assert(words@.len() == ws.len());
        assert(forall|k: int| 0 <= k < words@.len() ==> (#[trigger] words@[k])@ == ws[k]);
    }

    // Separate tags from name words and join the name.
    let m = words.len();
    let mut tags: Vec<String> = Vec::new();
    let mut name_chars: Vec<char> = Vec::new();
    let mut first = true;
    let mut k: usize = 0;
    while k < m
        invariant
            k <= m,
            m == words@.len(),
            ws.len() == m,
            forall|q: int| 0 <= q < m ==> (#[trigger] words@[q])@ == ws[q],
            tags@.len() == spec_tags_of(ws.take(k as int)).len(),
            forall|q: int|
                0 <= q < tags@.len() ==> (#[trigger] tags@[q])@ == spec_tags_of(
                    ws.take(k as int),
                )[q],
            name_chars@ == spec_join_space(spec_name_words(ws.take(k as int))),
            first == (spec_name_words(ws.take(k as int)).len() == 0),
        decreases m - k,
    {
        proof {
            assert(ws.take(k as int + 1).drop_last() =~= ws.take(k as int));
            assert(ws.take(k as int + 1).last() == ws[k as int]);
        }
        let w = &words[k];
        let wlen = w.len();
        if wlen > 1 && w[0] == '#' {
            let mut tag_chars: Vec<char> = Vec::new();
            let mut j: usize = 1;
            while j < wlen
                invariant
                    1 <= j <= wlen,
                    wlen == w@.len(),
                    tag_chars@ == w@.subrange(1, j as int),
                decreases wlen - j,
            {
                tag_chars.push(w[j]);
                proof {
                    assert(tag_chars@ =~= w@.subrange(1, j as int + 1));
                }
                j = j + 1;
            }
            proof {
                assert(tag_chars@ =~= w@.drop_first());
            }
            tags.push(chars_to_string(&tag_chars));
        } else {
            let ghost before = spec_name_words(ws.take(k as int));
            if !first {
                name_chars.push(' ');
            }
            let mut j: usize = 0;
            let ghost base = name_chars@;
            while j < wlen
                invariant
                    j <= wlen,
                    wlen == w@.len(),
                    name_chars@ == base + w@.take(j as int),
                decreases wlen - j,
            {
                name_chars.push(w[j]);
                proof {
                    assert(name_chars@ =~= base + w@.take(j as int + 1));
                }
                j = j + 1;
            }
            first = false;
            proof {
                assert(spec_name_words(ws.take(k as int + 1)) == before.push(ws[k as int]));
                if before.len() == 0 {
                    assert(name_chars@ =~= spec_join_space(before.push(ws[k as int])));
                } else {
                    assert(before.push(ws[k as int]).drop_last() =~= before);
                    assert(name_chars@ =~= spec_join_space(before) + seq![' '] + ws[k as int]);
                    assert(name_chars@ =~= spec_join_space(before.push(ws[k as int])));
                }
            }
        }
        k = k + 1;
    }
    proof {
        assert(ws.take(m as int) =~= ws);
    }
    (chars_to_string(&name_chars), tags)
}

} // verus!

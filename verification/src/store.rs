//! The task store: an ordered, index-addressed collection of tasks.
use crate::text;
use vstd::prelude::*;
use vstd::string::StringExecFns;

verus! {

/// The status glyph shown for a task: `[x]` when done, `[ ]` otherwise.
pub open spec fn status_glyph(done: bool) -> Seq<char> {
    if done {
        seq!['[', 'x', ']']
    } else {
        seq!['[', ' ', ']']
    }
}

/// One listing line: the status glyph, the 1-based position in decimal,
/// and the task's name, as in `[x] 1: Buy milk`.
pub open spec fn line_view(pos: nat, t: (Seq<char>, bool)) -> Seq<char> {
    status_glyph(t.1) + seq![' '] + text::dec_rep(pos) + seq![':', ' '] + t.0
}

/// A single unit of work: a name and a completion flag.
#[derive(Debug, Clone, PartialEq, Eq)]
pub struct Task {
    pub name: String,
    pub done: bool,
}

impl View for Task {
    type V = (Seq<char>, bool);

    open spec fn view(&self) -> (Seq<char>, bool) {
        (self.name@, self.done)
    }
}

/// The plain record shape in which a task is persisted: exactly the
/// fields `name` and `done`.
#[derive(Debug)]
pub struct TaskSerializable {
    pub name: String,
    pub done: bool,
}

impl View for TaskSerializable {
    type V = (Seq<char>, bool);

    open spec fn view(&self) -> (Seq<char>, bool) {
        (self.name@, self.done)
    }
}

impl<'a> From<&'a Task> for TaskSerializable {
    fn from(task: &'a Task) -> (r: Self)
        ensures
            r@ == task@,
    {
        TaskSerializable { name: task.name.clone(), done: task.done }
    }
}

impl<'a> vstd::std_specs::convert::FromSpecImpl<&'a Task> for TaskSerializable {
    open spec fn obeys_from_spec() -> bool {
        true
    }

    open spec fn from_spec(task: &'a Task) -> Self {
        TaskSerializable { name: task.name, done: task.done }
    }
}

impl From<TaskSerializable> for Task {
    fn from(s: TaskSerializable) -> (r: Self)
        ensures
            r@ == s@,
    {
        Task { name: s.name, done: s.done }
    }
}

impl vstd::std_specs::convert::FromSpecImpl<TaskSerializable> for Task {
    open spec fn obeys_from_spec() -> bool {
        true
    }

    open spec fn from_spec(s: TaskSerializable) -> Self {
        Task { name: s.name, done: s.done }
    }
}

/// The ordered in-memory collection of tasks for one run.
///
/// Its view is the sequence of `(name, done)` pairs in store order.
#[derive(Debug)]
pub struct TaskManager {
    pub tasks: Vec<Task>,
}

impl View for TaskManager {
    type V = Seq<(Seq<char>, bool)>;

    open spec fn view(&self) -> Seq<(Seq<char>, bool)> {
        self.tasks@.map_values(|t: Task| t@)
    }
}

impl TaskManager {
    /// Creates an empty store.
    pub fn new() -> (r: Self)
        ensures
            r@ == Seq::<(Seq<char>, bool)>::empty(),
    {
        let r = TaskManager { tasks: Vec::new() };
        proof {
            assert(r@ =~= Seq::<(Seq<char>, bool)>::empty());
        }
        r
    }

    /// Appends a new task with `done == false`; existing tasks keep
    /// their positions.
    pub fn add_task(&mut self, name: String)
        ensures
            final(self)@ == old(self)@.push((name@, false)),
    {
        let task = Task { name, done: false };
        let ghost tv = task@;
        self.tasks.push(task);
        proof {
            assert(final(self)@ =~= old(self)@.push(tv));
        }
    }

    /// Removes the task at 0-based `index`, shifting all later tasks one
    /// position earlier; an out-of-bounds index leaves the store unchanged.
    pub fn remove_task(&mut self, index: usize)
        ensures
            index < old(self)@.len() ==> final(self)@ == old(self)@.remove(index as int),
            index >= old(self)@.len() ==> final(self)@ == old(self)@,
    {
        if index < self.tasks.len() {
            self.tasks.remove(index);
            proof {
                assert(final(self)@ =~= old(self)@.remove(index as int));
            }
        }
    }

    /// Marks the task at 1-based `index` as done, leaving every other
    /// task unchanged; an out-of-bounds index leaves the store unchanged.
    pub fn mark_done(&mut self, index: usize)
        ensures
            1 <= index <= old(self)@.len() ==> final(self)@ == old(self)@.update(
                index - 1,
                (old(self)@[index - 1].0, true),
            ),
            !(1 <= index <= old(self)@.len()) ==> final(self)@ == old(self)@,
    {
        if 1 <= index && index <= self.tasks.len() {
            self.tasks[index - 1].done = true;
            proof {
                assert(final(self)@ =~= old(self)@.update(
                    index - 1,
                    (old(self)@[index - 1].0, true),
                ));
            }
        }
    }

    /// The number of tasks in the store.
    pub fn len(&self) -> (n: usize)
        ensures
            n == self@.len(),
    {
        self.tasks.len()
    }

    /// Renders one listing line per task, in store order: the status
    /// glyph, the 1-based position, and the name.
    pub fn list_tasks(&self) -> (lines: Vec<String>)
        ensures
            lines@.len() == self@.len(),
            forall|i: int|
                0 <= i < self@.len() ==> lines@[i]@ == line_view((i + 1) as nat, self@[i]),
    {
        let mut lines: Vec<String> = Vec::new();
        let mut i: usize = 0;
        while i < self.tasks.len()
            invariant
                i <= self.tasks.len(),
                lines@.len() == i,
                forall|j: int|
                    0 <= j < i ==> lines@[j]@ == line_view((j + 1) as nat, self@[j]),
            decreases self.tasks.len() - i,
        {
            let done = self.tasks[i].done;
            let mut prefix: Vec<char> = Vec::new();
            prefix.push('[');
            if done {
                prefix.push('x');
            } else {
                prefix.push(' ');
            }
            prefix.push(']');
            prefix.push(' ');
            let mut num = text::dec_chars((i + 1) as u64);
            prefix.append(&mut num);
            prefix.push(':');
            prefix.push(' ');
            let mut line = text::chars_to_string(&prefix);
            line.append(self.tasks[i].name.as_str());
            proof {
                assert(line@ =~= line_view((i + 1) as nat, self@[i as int]));
            }
            lines.push(line);
            i = i + 1;
        }
        lines
    }
}

/// The store that a run of `add` calls builds from an empty store: the
/// ensures of `add_task`, folded over the names in call order.
pub open spec fn store_after_adds(names: Seq<Seq<char>>) -> Seq<(Seq<char>, bool)>
    decreases names.len(),
{
    if names.len() == 0 {
        Seq::empty()
    } else {
        store_after_adds(names.drop_last()).push((names.last(), false))
    }
}

/// For every sequence of `add` calls on an initially empty store, the
/// store's length equals the number of calls, and the tasks stand in call
/// order, each with its given name and not done.
pub proof fn lemma_adds_in_order(names: Seq<Seq<char>>)
    ensures
        store_after_adds(names).len() == names.len(),
        forall|i: int| 0 <= i < names.len() ==> store_after_adds(names)[i] == (names[i], false),
    decreases names.len(),
{
    if names.len() > 0 {
        lemma_adds_in_order(names.drop_last());
    }
}

/// Removing a valid 0-based index `i` shortens the store by exactly one,
/// drops the element previously at `i`, keeps every earlier element in
/// place, and shifts every later element one position down.
pub proof fn lemma_remove_shifts(s: Seq<(Seq<char>, bool)>, i: int)
    requires
        0 <= i < s.len(),
    ensures
        s.remove(i).len() == s.len() - 1,
        forall|j: int| 0 <= j < i ==> s.remove(i)[j] == s[j],
        forall|j: int| i <= j < s.len() - 1 ==> s.remove(i)[j] == s[j + 1],
{
}

/// Marking a valid 1-based index done sets that task's flag to true,
/// keeps its name, and leaves every other task entirely unchanged.
pub proof fn lemma_mark_done_only_target(s: Seq<(Seq<char>, bool)>, index: int)
    requires
        1 <= index <= s.len(),
    ensures
        s.update(index - 1, (s[index - 1].0, true)).len() == s.len(),
        s.update(index - 1, (s[index - 1].0, true))[index - 1] == (s[index - 1].0, true),
        forall|j: int|
            0 <= j < s.len() && j != index - 1 ==> s.update(
                index - 1,
                (s[index - 1].0, true),
            )[j] == #[trigger] s[j],
{
}

} // verus!

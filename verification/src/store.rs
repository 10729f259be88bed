use vstd::prelude::*;
use crate::task::{
    ClockUnavailable, IdSource, Priority, Status, Task, TaskView, clock_now_nanos, fresh_task, id_millis,
    priority_before, status_after, uuid_version,
};

verus! {

broadcast use vstd::seq_lib::group_seq_properties;

/// The file format the tasks are written in.
#[derive(Debug, Clone, Copy, PartialEq, Eq, Structural)]
pub enum Format {
    Json,
    Toml,
}

impl Default for Format {
    fn default() -> (f: Self)
        ensures
            f == Format::Json,
    {
        Format::Json
    }
}

/// Tasks of priority `p`.
pub open spec fn with_priority(p: Priority) -> spec_fn(TaskView) -> bool {
    |t: TaskView| t.priority == p
}

/// Tasks of status `s`.
pub open spec fn with_status(s: Status) -> spec_fn(TaskView) -> bool {
    |t: TaskView| t.status == s
}

/// Tasks whose context is `c`.
pub open spec fn with_context(c: Seq<char>) -> spec_fn(TaskView) -> bool {
    |t: TaskView| t.context == c
}

/// Tasks whose context is not `c`.
pub open spec fn without_context(c: Seq<char>) -> spec_fn(TaskView) -> bool {
    |t: TaskView| t.context != c
}

/// Some task carries identifier `id`.
pub open spec fn has_id(s: Seq<TaskView>, id: u128) -> bool {
    exists|i: int| 0 <= i < s.len() && s[i].id == id
}

/// `i` is the first position holding identifier `id`.
pub open spec fn is_first_with_id(s: Seq<TaskView>, id: u128, i: int) -> bool {
    &&& 0 <= i < s.len()
    &&& s[i].id == id
    &&& forall|j: int| 0 <= j < i ==> s[j].id != id
}

/// The first position holding identifier `id`, when there is one.
pub open spec fn first_with_id(s: Seq<TaskView>, id: u128) -> int {
    choose|i: int| is_first_with_id(s, id, i)
}

/// `new` is `old` with the task at `i` given a new body and context; the
/// task keeps its identifier, status and priority (only its time stamp may
/// change besides).
pub open spec fn edited_at(
    old: Seq<TaskView>,
    new: Seq<TaskView>,
    i: int,
    body: Seq<char>,
    context: Seq<char>,
) -> bool {
    &&& new.len() == old.len()
    &&& forall|j: int| 0 <= j < old.len() && j != i ==> new[j] == old[j]
    &&& new[i].id == old[i].id
    &&& new[i].body == body
    &&& new[i].context == context
    &&& new[i].status == old[i].status
    &&& new[i].priority == old[i].priority
}

/// `new` is `old` with the task at `i` made one step more pressing; nothing
/// else changes but the task's time stamp.
pub open spec fn reprioritized_at(old: Seq<TaskView>, new: Seq<TaskView>, i: int) -> bool {
    &&& new.len() == old.len()
    &&& forall|j: int| 0 <= j < old.len() && j != i ==> new[j] == old[j]
    &&& new[i].id == old[i].id
    &&& new[i].body == old[i].body
    &&& new[i].context == old[i].context
    &&& new[i].status == old[i].status
    &&& new[i].priority == priority_before(old[i].priority)
}

/// `new` is `old` with the task at `i` flipped between open and closed;
/// nothing else changes but the task's time stamp.
pub open spec fn restatused_at(old: Seq<TaskView>, new: Seq<TaskView>, i: int) -> bool {
    &&& new.len() == old.len()
    &&& forall|j: int| 0 <= j < old.len() && j != i ==> new[j] == old[j]
    &&& new[i].id == old[i].id
    &&& new[i].body == old[i].body
    &&& new[i].context == old[i].context
    &&& new[i].priority == old[i].priority
    &&& new[i].status == status_after(old[i].status)
}

/// A task as `Task::new` makes it from `body` and `context`: open, of
/// normal priority, with a version-7 identifier, stamped no earlier than
/// 1970, the identifier's time field no earlier than the stamp's
/// millisecond.
pub open spec fn is_new_task(t: TaskView, body: Seq<char>, context: Seq<char>) -> bool {
    &&& t.body == body
    &&& t.context == context
    &&& t.status == Status::Open
    &&& t.priority == Priority::Normal
    &&& uuid_version(t.id) == 7
    &&& t.updated_at >= 0
    &&& id_millis(t.id) >= t.updated_at / 1_000_000
}

/// What `upsert` does: the first task with `id` gets the new text, or, when
/// no task has `id`, a new task (`is_new_task`) is appended.
pub open spec fn upserted(
    old: Seq<TaskView>,
    new: Seq<TaskView>,
    id: u128,
    body: Seq<char>,
    context: Seq<char>,
) -> bool {
    if has_id(old, id) {
        edited_at(old, new, first_with_id(old, id), body, context)
    } else {
        &&& new.len() == old.len() + 1
        &&& new.take(old.len() as int) == old
        &&& is_new_task(new.last(), body, context)
    }
}

/// What `upsert_at` does: the first task with `id` gets the new text and the
/// stamp `now`, or, when no task has `id`, the task made at `now` with
/// identifier `new_id` is appended.
pub open spec fn upserted_at(
    old: Seq<TaskView>,
    new: Seq<TaskView>,
    id: u128,
    body: Seq<char>,
    context: Seq<char>,
    now: i128,
    new_id: u128,
) -> bool {
    if has_id(old, id) {
        &&& edited_at(old, new, first_with_id(old, id), body, context)
        &&& new[first_with_id(old, id)].updated_at == now
    } else {
        new == old.push(fresh_task(new_id, body, context, now))
    }
}

/// How an upsert moves the store's identifier counter, from `old_last` to
/// `new_last`: editing a task draws nothing; appending one draws its
/// identifier, which is greater than every identifier drawn before.
pub open spec fn counter_step(
    old_s: Seq<TaskView>,
    new_s: Seq<TaskView>,
    id: u128,
    old_last: u128,
    new_last: u128,
) -> bool {
    if has_id(old_s, id) {
        new_last == old_last
    } else {
        &&& new_s.last().id > old_last
        &&& new_last == new_s.last().id
    }
}

/// The tasks of a to-do list, in the order they were added.
#[derive(Debug)]
pub struct Store {
    format: Format,
    store: Vec<Task>,
    ids: IdSource,
}

impl View for Store {
    type V = Seq<TaskView>;

    closed spec fn view(&self) -> Seq<TaskView> {
        self.store.deep_view()
    }
}

impl Default for Store {
    fn default() -> (s: Self)
        ensures
            s@ == Seq::<TaskView>::empty(),
            s.format_spec() == Format::Json,
    {
        Store::from_tasks(Format::Json, Vec::new())
    }
}

proof fn lemma_first_exists(s: Seq<TaskView>, id: u128, k: int)
    requires
        0 <= k < s.len(),
        s[k].id == id,
    ensures
        exists|i: int| is_first_with_id(s, id, i),
    decreases k,
{
    if exists|j: int| 0 <= j < k && s[j].id == id {
        let j = choose|j: int| 0 <= j < k && s[j].id == id;
        lemma_first_exists(s, id, j);
    } else {
        assert(is_first_with_id(s, id, k));
    }
}

/// When some task has `id`, `first_with_id` is its first position, and the
/// only one with that property.
pub proof fn lemma_first_with_id(s: Seq<TaskView>, id: u128)
    requires
        has_id(s, id),
    ensures
        is_first_with_id(s, id, first_with_id(s, id)),
        forall|i: int| is_first_with_id(s, id, i) ==> i == first_with_id(s, id),
{
    let k = choose|k: int| 0 <= k < s.len() && s[k].id == id;
    lemma_first_exists(s, id, k);
    let f = first_with_id(s, id);
    assert forall|m: int| is_first_with_id(s, id, m) implies m == f by {
        if m < f {
            assert(s[m].id != id);
        } else if f < m {
            assert(s[f].id != id);
        }
    }
}

impl Store {
    /// The format the tasks were read in and are written back in.
    pub closed spec fn format_spec(&self) -> Format {
        self.format
    }

    /// The last identifier this store drew for a new task (0 before the
    /// first).
    pub closed spec fn last_drawn(&self) -> u128 {
        self.ids.last_drawn()
    }

    /// A store holding `tasks`, to be written in `format`; it has drawn no
    /// identifier yet.
    pub fn from_tasks(format: Format, tasks: Vec<Task>) -> (s: Store)
        ensures
            s@ == tasks.deep_view(),
            s.format_spec() == format,
            s.last_drawn() == 0,
    {
        Store { format, store: tasks, ids: IdSource::new() }
    }

    /// The tasks, in order.
    pub fn tasks(&self) -> (t: &Vec<Task>)
        ensures
            t.deep_view() == self@,
    {
        &self.store
    }

    /// The format the tasks are written in.
    pub fn format(&self) -> (f: Format)
        ensures
            f == self.format_spec(),
    {
        self.format
    }

    /// Whether there are no tasks.
    pub fn is_empty(&self) -> (b: bool)
        ensures
            b == (self@.len() == 0),
    {
        self.store.len() == 0
    }

    /// The position of the first task with identifier `id`.
    fn position(&self, id: u128) -> (r: Option<usize>)
        ensures
            r is None <==> !has_id(self@, id),
            r matches Some(i) ==> i == first_with_id(self@, id) && is_first_with_id(self@, id, i as int),
    {
        let mut i: usize = 0;
        while i < self.store.len()
            invariant
                i <= self.store.len(),
                forall|j: int| 0 <= j < i ==> self@[j].id != id,
            decreases self.store.len() - i,
        {
            assert(self@[i as int] == self.store@[i as int]@);
            if self.store[i].id == id {
                proof {
                    lemma_first_with_id(self@, id);
                }
                return Some(i);
            }
            i = i + 1;
        }
        None
    }

    /// The first task with identifier `id`, if any.
    pub fn find_task(&self, task_id: u128) -> (r: Option<&Task>)
        ensures
            r is None <==> !has_id(self@, task_id),
            r matches Some(t) ==> t@ == self@[first_with_id(self@, task_id)],
    {
        match self.position(task_id) {
            Some(i) => Some(&self.store[i]),
            None => None,
        }
    }

    /// The first task with identifier `task_id`, for changing it in place.
    pub fn find_task_mut(&mut self, task_id: u128) -> (r: Option<&mut Task>)
        ensures
            r is None <==> !has_id(old(self)@, task_id),
            match r {
                Some(t) => {
                    &&& t@ == old(self)@[first_with_id(old(self)@, task_id)]
                    &&& final(self)@ == old(self)@.update(first_with_id(old(self)@, task_id), final(t)@)
                },
                None => final(self)@ == old(self)@,
            },
            final(self).format_spec() == old(self).format_spec(),
            final(self).last_drawn() == old(self).last_drawn(),
    {
        match self.position(task_id) {
            Some(i) => Some(&mut self.store[i]),
            None => None,
        }
    }

    /// Gives the first task with `task_id` the new text and the stamp `now`,
    /// or, when none has it, appends an open task of normal priority with
    /// identifier `new_id`, stamped `now`.
    pub fn upsert_at(&mut self, task_id: u128, body: String, context: String, now: i128, new_id: u128)
        ensures
            upserted_at(old(self)@, final(self)@, task_id, body@, context@, now, new_id),
            final(self).format_spec() == old(self).format_spec(),
            final(self).last_drawn() == old(self).last_drawn(),
    {
        proof {
            if has_id(self@, task_id) {
                lemma_first_with_id(self@, task_id);
            }
        }
        match self.find_task_mut(task_id) {
            Some(task) => {
                task.update_at(body, context, now);
            },
            None => {
                let t = Task::created(new_id, body, context, now);
                let ghost tv = t@;
                self.store.push(t);
                assert(self@ == old(self)@.push(tv));
            },
        }
    }

    /// What `upsert` does with a clock `reading`: the first task with
    /// `task_id` gets the new text and the reading as its stamp, or, when none
    /// has it, a new task stamped with the reading is appended under an
    /// identifier drawn from the store's counter (`IdSource::draw`). Fails,
    /// changing nothing, when there is no reading, or when a new task is due
    /// and no identifier can be drawn for the reading (always so before 1970
    /// or beyond the identifier's range).
    pub fn upsert_with_reading(
        &mut self,
        task_id: u128,
        body: String,
        context: String,
        reading: Option<i128>,
    ) -> (r: Result<(), ClockUnavailable>)
        ensures
            (reading is None || (!has_id(old(self)@, task_id) && (reading->0 < 0
                || reading->0 / 1_000_000_000 > u64::MAX))) ==> r is Err,
            r is Err ==> reading is None || !has_id(old(self)@, task_id),
            r is Err ==> final(self)@ == old(self)@ && final(self).last_drawn() == old(self).last_drawn(),
            r is Ok ==> upserted_at(old(self)@, final(self)@, task_id, body@, context@, reading->0, final(self)@.last().id),
            r is Ok ==> upserted(old(self)@, final(self)@, task_id, body@, context@),
            r is Ok ==> counter_step(old(self)@, final(self)@, task_id, old(self).last_drawn(), final(self).last_drawn()),
            final(self).format_spec() == old(self).format_spec(),
    {
        let now = match reading {
            Some(now) => now,
            None => return Err(ClockUnavailable),
        };
        let new_id: u128 = match self.position(task_id) {
            Some(_) => 0,
            None => match self.ids.draw(now) {
                Some(id) => id,
                None => return Err(ClockUnavailable),
            },
        };
        self.upsert_at(task_id, body, context, now, new_id);
        proof {
            if !has_id(old(self)@, task_id) {
                assert(self@.take(old(self)@.len() as int) == old(self)@);
            } else {
                lemma_first_with_id(old(self)@, task_id);
            }
        }
        Ok(())
    }

    /// Gives the first task with `task_id` the new text, or appends a new
    /// task when none has it; the task is stamped with the current time, and
    /// a new one gets an identifier greater than every one this store drew
    /// before. Fails, changing nothing, when the clock cannot be read (or,
    /// for a new task, no identifier can be drawn for its reading).
    pub fn upsert(&mut self, task_id: u128, body: String, context: String) -> (r: Result<(), ClockUnavailable>)
        ensures
            r is Ok ==> upserted(old(self)@, final(self)@, task_id, body@, context@),
            r is Ok ==> counter_step(old(self)@, final(self)@, task_id, old(self).last_drawn(), final(self).last_drawn()),
            r is Err ==> final(self)@ == old(self)@ && final(self).last_drawn() == old(self).last_drawn(),
            final(self).format_spec() == old(self).format_spec(),
    {
        self.upsert_with_reading(task_id, body, context, clock_now_nanos())
    }

    /// Makes the first task with `task_id` one step more pressing and stamps
    /// it `now`; tells whether there was such a task.
    pub fn rotate_priority_at(&mut self, task_id: u128, now: i128) -> (found: bool)
        ensures
            found == has_id(old(self)@, task_id),
            found ==> reprioritized_at(old(self)@, final(self)@, first_with_id(old(self)@, task_id)),
            found ==> final(self)@[first_with_id(old(self)@, task_id)].updated_at == now,
            !found ==> final(self)@ == old(self)@,
            final(self).format_spec() == old(self).format_spec(),
            final(self).last_drawn() == old(self).last_drawn(),
    {
        proof {
            if has_id(self@, task_id) {
                lemma_first_with_id(self@, task_id);
            }
        }
        match self.find_task_mut(task_id) {
            Some(task) => {
                task.rotate_priority_at(now);
                true
            },
            None => false,
        }
    }

    /// Makes the first task with `task_id` one step more pressing and stamps
    /// it with the current time; tells whether there was such a task. Fails,
    /// changing nothing, when there is one but the clock cannot be read.
    pub fn rotate_priority(&mut self, task_id: u128) -> (r: Result<bool, ClockUnavailable>)
        ensures
            r matches Ok(found) ==> {
                &&& found == has_id(old(self)@, task_id)
                &&& found ==> reprioritized_at(old(self)@, final(self)@, first_with_id(old(self)@, task_id))
                &&& !found ==> final(self)@ == old(self)@
            },
            r is Err ==> has_id(old(self)@, task_id) && final(self)@ == old(self)@,
            final(self).format_spec() == old(self).format_spec(),
            final(self).last_drawn() == old(self).last_drawn(),
    {
        if self.position(task_id).is_none() {
            return Ok(false);
        }
        match clock_now_nanos() {
            Some(now) => Ok(self.rotate_priority_at(task_id, now)),
            None => Err(ClockUnavailable),
        }
    }

    /// Flips the first task with `task_id` between open and closed and stamps
    /// it `now`; tells whether there was such a task.
    pub fn rotate_status_at(&mut self, task_id: u128, now: i128) -> (found: bool)
        ensures
            found == has_id(old(self)@, task_id),
            found ==> restatused_at(old(self)@, final(self)@, first_with_id(old(self)@, task_id)),
            found ==> final(self)@[first_with_id(old(self)@, task_id)].updated_at == now,
            !found ==> final(self)@ == old(self)@,
            final(self).format_spec() == old(self).format_spec(),
            final(self).last_drawn() == old(self).last_drawn(),
    {
        proof {
            if has_id(self@, task_id) {
                lemma_first_with_id(self@, task_id);
            }
        }
        match self.find_task_mut(task_id) {
            Some(task) => {
                task.rotate_status_at(now);
                true
            },
            None => false,
        }
    }

    /// Flips the first task with `task_id` between open and closed and stamps
    /// it with the current time; tells whether there was such a task. Fails,
    /// changing nothing, when there is one but the clock cannot be read.
    pub fn rotate_status(&mut self, task_id: u128) -> (r: Result<bool, ClockUnavailable>)
        ensures
            r matches Ok(found) ==> {
                &&& found == has_id(old(self)@, task_id)
                &&& found ==> restatused_at(old(self)@, final(self)@, first_with_id(old(self)@, task_id))
                &&& !found ==> final(self)@ == old(self)@
            },
            r is Err ==> has_id(old(self)@, task_id) && final(self)@ == old(self)@,
            final(self).format_spec() == old(self).format_spec(),
            final(self).last_drawn() == old(self).last_drawn(),
    {
        if self.position(task_id).is_none() {
            return Ok(false);
        }
        match clock_now_nanos() {
            Some(now) => Ok(self.rotate_status_at(task_id, now)),
            None => Err(ClockUnavailable),
        }
    }

    /// Removes the first task with `task_id`; tells whether there was one.
    pub fn delete(&mut self, task_id: u128) -> (found: bool)
        ensures
            found == has_id(old(self)@, task_id),
            found ==> final(self)@ == old(self)@.remove(first_with_id(old(self)@, task_id)),
            !found ==> final(self)@ == old(self)@,
            final(self).format_spec() == old(self).format_spec(),
            final(self).last_drawn() == old(self).last_drawn(),
    {
        match self.position(task_id) {
            Some(i) => {
                self.store.remove(i);
                assert(self@ == old(self)@.remove(i as int));
                true
            },
            None => false,
        }
    }
}

} // verus!

use vstd::prelude::*;
use crate::keys::{KeyCode, KeyPress};
use crate::task::ClockUnavailable;
use crate::store::{Store, counter_step, first_with_id, has_id, upserted};
use crate::text::{chars_of, cut_last_word, cut_last_word_in_place, string_of, trim, trim_chars, trim_end, trim_end_in_place};

verus! {

/// Which of the overlay's two inputs currently receives keystrokes.
#[derive(Debug, Clone, Copy, PartialEq, Eq, Structural)]
pub enum Field {
    Body,
    Context,
}

impl Default for Field {
    fn default() -> (f: Self)
        ensures
            f == Field::Body,
    {
        Field::Body
    }
}

/// The other input.
pub open spec fn toggled(f: Field) -> Field {
    match f {
        Field::Body => Field::Context,
        Field::Context => Field::Body,
    }
}

impl Field {
    /// The other input.
    pub fn toggle(self) -> (f: Self)
        ensures
            f == toggled(self),
    {
        match self {
            Field::Body => Field::Context,
            Field::Context => Field::Body,
        }
    }
}

/// What the edit overlay holds.
pub struct ModalView {
    pub task_id: u128,
    pub body: Seq<char>,
    pub context: Seq<char>,
    pub focus: Field,
    pub closed: bool,
}

/// The text of the focused input.
pub open spec fn focused(m: ModalView) -> Seq<char> {
    match m.focus {
        Field::Body => m.body,
        Field::Context => m.context,
    }
}

/// `m` with the focused input holding `text`.
pub open spec fn with_focused(m: ModalView, text: Seq<char>) -> ModalView {
    match m.focus {
        Field::Body => ModalView { body: text, ..m },
        Field::Context => ModalView { context: text, ..m },
    }
}

/// What a key press does to the overlay itself.
pub open spec fn modal_after_key(m: ModalView, key: KeyPress) -> ModalView {
    if key.control {
        match key.code {
            KeyCode::Char('w') => with_focused(m, cut_last_word(trim_end(focused(m)))),
            KeyCode::Char('u') => with_focused(m, Seq::empty()),
            _ => m,
        }
    } else {
        match key.code {
            KeyCode::Tab => ModalView { focus: toggled(m.focus), ..m },
            KeyCode::Enter => ModalView { closed: true, ..m },
            KeyCode::Esc => ModalView { closed: true, ..m },
            KeyCode::Backspace => if focused(m).len() > 0 {
                with_focused(m, focused(m).drop_last())
            } else {
                m
            },
            KeyCode::Char(c) => with_focused(m, focused(m).push(c)),
            _ => m,
        }
    }
}

/// Whether the key press saves the task: Enter with a body that is not
/// blank.
pub open spec fn modal_commits(m: ModalView, key: KeyPress) -> bool {
    !key.control && key.code == KeyCode::Enter && trim(m.body).len() > 0
}

/// The overlay that adds a task (identifier nil) or edits one.
#[derive(Debug)]
pub struct EditTaskModal {
    task_id: u128,
    body: Vec<char>,
    context: Vec<char>,
    focus: Field,
    closed: bool,
}

impl View for EditTaskModal {
    type V = ModalView;

    closed spec fn view(&self) -> ModalView {
        ModalView {
            task_id: self.task_id,
            body: self.body@,
            context: self.context@,
            focus: self.focus,
            closed: self.closed,
        }
    }
}

/// The overlays the list view can show.
#[derive(Debug)]
pub enum Modal {
    EditTaskModal(EditTaskModal),
}

impl View for Modal {
    type V = ModalView;

    open spec fn view(&self) -> ModalView {
        match self {
            Modal::EditTaskModal(m) => m@,
        }
    }
}

/// The overlay as it opens to add a task in `context`.
pub open spec fn adding(context: Seq<char>) -> ModalView {
    ModalView { task_id: 0, body: Seq::empty(), context, focus: Field::Body, closed: false }
}

/// The overlay as it opens to edit the task with identifier `id`.
pub open spec fn editing(id: u128, body: Seq<char>, context: Seq<char>) -> ModalView {
    ModalView { task_id: id, body, context, focus: Field::Body, closed: false }
}

/// What an overlay does with key presses.
pub trait ModalControl {
    /// Handles one key press; may save a task into `store`, and tells
    /// whether it did. Fails when saving needs the clock and it cannot be
    /// read.
    fn handle_keys(&mut self, key_event: KeyPress, store: &mut Store) -> (r: Result<bool, ClockUnavailable>);

    /// Whether the overlay is done.
    fn closed(&self) -> (b: bool);
}

impl EditTaskModal {
    /// Opens the overlay to add a task, with `context` prefilled.
    pub fn new_task(context: String) -> (m: Modal)
        ensures
            m@ == adding(context@),
    {
        Modal::EditTaskModal(
            EditTaskModal {
                task_id: 0,
                body: Vec::new(),
                context: chars_of(context.as_str()),
                focus: Field::Body,
                closed: false,
            },
        )
    }

    /// Opens the overlay on the task with `task_id`, which must exist.
    pub fn edit_task(task_id: u128, store: &Store) -> (m: Modal)
        requires
            has_id(store@, task_id),
        ensures
            m@ == editing(
                task_id,
                store@[first_with_id(store@, task_id)].body,
                store@[first_with_id(store@, task_id)].context,
            ),
    {
        proof {
            crate::store::lemma_first_with_id(store@, task_id);
        }
        let task = store.find_task(task_id).unwrap();
        Modal::EditTaskModal(
            EditTaskModal {
                task_id: task.id,
                body: chars_of(task.body.as_str()),
                context: chars_of(task.context.as_str()),
                focus: Field::Body,
                closed: false,
            },
        )
    }

    /// The identifier of the task being edited (nil when adding).
    pub fn task_id(&self) -> (id: u128)
        ensures
            id == self@.task_id,
    {
        self.task_id
    }

    /// Whether the overlay adds a new task (its identifier is nil) rather
    /// than editing one.
    pub fn is_new(&self) -> (b: bool)
        ensures
            b == (self@.task_id == 0),
    {
        self.task_id == 0
    }

    /// Whether keystrokes land in `field` (the overlay shows the cursor there).
    pub fn is_focused(&self, field: Field) -> (b: bool)
        ensures
            b == (self@.focus == field),
    {
        match (self.focus, field) {
            (Field::Body, Field::Body) => true,
            (Field::Context, Field::Context) => true,
            _ => false,
        }
    }

    /// The body typed so far.
    pub fn body(&self) -> (s: String)
        ensures
            s@ == self@.body,
    {
        string_of(&self.body)
    }

    /// The context typed so far.
    pub fn context(&self) -> (s: String)
        ensures
            s@ == self@.context,
    {
        string_of(&self.context)
    }

    /// The input that receives keystrokes.
    pub fn focus(&self) -> (f: Field)
        ensures
            f == self@.focus,
    {
        self.focus
    }

    /// The buffer the keystrokes currently land in, picked by `focus`.
    fn focused_input_mut(&mut self) -> (r: &mut Vec<char>)
        ensures
            *r == (match old(self).focus {
                Field::Body => old(self).body,
                Field::Context => old(self).context,
            }),
            final(self)@ == with_focused(old(self)@, final(r)@),
    {
        match self.focus {
            Field::Body => &mut self.body,
            Field::Context => &mut self.context,
        }
    }
}

impl ModalControl for EditTaskModal {
    fn handle_keys(&mut self, key_event: KeyPress, store: &mut Store) -> (r: Result<bool, ClockUnavailable>)
        ensures
            r matches Ok(saved) ==> {
                &&& final(self)@ == modal_after_key(old(self)@, key_event)
                &&& saved == modal_commits(old(self)@, key_event)
                &&& saved ==> upserted(
                    old(store)@,
                    final(store)@,
                    old(self)@.task_id,
                    trim(old(self)@.body),
                    trim(old(self)@.context),
                )
                &&& !saved ==> final(store)@ == old(store)@
                &&& saved ==> counter_step(
                    old(store)@,
                    final(store)@,
                    old(self)@.task_id,
                    old(store).last_drawn(),
                    final(store).last_drawn(),
                )
                &&& !saved ==> final(store).last_drawn() == old(store).last_drawn()
            },
            r is Err ==> {
                &&& modal_commits(old(self)@, key_event)
                &&& final(self)@ == old(self)@
                &&& final(store)@ == old(store)@
                &&& final(store).last_drawn() == old(store).last_drawn()
            },
            final(store).format_spec() == old(store).format_spec(),
    {
        if key_event.control {
            match key_event.code {
                KeyCode::Char('w') => {
                    let s = self.focused_input_mut();
                    trim_end_in_place(s);
                    cut_last_word_in_place(s);
                },
                KeyCode::Char('u') => {
                    self.focused_input_mut().clear();
                },
                _ => {},
            }
            return Ok(false);
        }
        match key_event.code {
            KeyCode::Tab => {
                self.focus = self.focus.toggle();
                Ok(false)
            },
            KeyCode::Enter => {
                let body = trim_chars(&self.body);
                if body.len() > 0 {
                    let context = trim_chars(&self.context);
                    match store.upsert(self.task_id, string_of(&body), string_of(&context)) {
                        Ok(()) => {
                            self.closed = true;
                            Ok(true)
                        },
                        Err(e) => Err(e),
                    }
                } else {
                    self.closed = true;
                    Ok(false)
                }
            },
            KeyCode::Esc => {
                self.closed = true;
                Ok(false)
            },
            KeyCode::Backspace => {
                self.focused_input_mut().pop();
                Ok(false)
            },
            KeyCode::Char(c) => {
                self.focused_input_mut().push(c);
                Ok(false)
            },
            _ => Ok(false),
        }
    }

    fn closed(&self) -> (b: bool)
        ensures
            b == self@.closed,
    {
        self.closed
    }
}

impl ModalControl for Modal {
    fn handle_keys(&mut self, key_event: KeyPress, store: &mut Store) -> (r: Result<bool, ClockUnavailable>)
        ensures
            r matches Ok(saved) ==> {
                &&& final(self)@ == modal_after_key(old(self)@, key_event)
                &&& saved == modal_commits(old(self)@, key_event)
                &&& saved ==> upserted(
                    old(store)@,
                    final(store)@,
                    old(self)@.task_id,
                    trim(old(self)@.body),
                    trim(old(self)@.context),
                )
                &&& !saved ==> final(store)@ == old(store)@
                &&& saved ==> counter_step(
                    old(store)@,
                    final(store)@,
                    old(self)@.task_id,
                    old(store).last_drawn(),
                    final(store).last_drawn(),
                )
                &&& !saved ==> final(store).last_drawn() == old(store).last_drawn()
            },
            r is Err ==> {
                &&& modal_commits(old(self)@, key_event)
                &&& final(self)@ == old(self)@
                &&& final(store)@ == old(store)@
                &&& final(store).last_drawn() == old(store).last_drawn()
            },
            final(store).format_spec() == old(store).format_spec(),
    {
        match self {
            Modal::EditTaskModal(m) => m.handle_keys(key_event, store),
        }
    }

    fn closed(&self) -> (b: bool)
        ensures
            b == self@.closed,
    {
        match self {
            Modal::EditTaskModal(m) => m.closed(),
        }
    }
}

} // verus!

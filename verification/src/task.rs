use vstd::prelude::*;

verus! {

/// Whether a task still needs doing.
#[derive(Debug, Clone, Copy, PartialEq, Eq, Structural, PartialOrd, Ord, Hash)]
pub enum Status {
    Open,
    Closed,
}

/// How urgent a task is, from most to least pressing.
#[derive(Debug, Clone, Copy, PartialEq, Eq, Structural, PartialOrd, Ord, Hash)]
pub enum Priority {
    Urgent,
    High,
    Normal,
    Low,
    DontForget,
}

impl Default for Status {
    fn default() -> (s: Self)
        ensures
            s == Status::Open,
    {
        Status::Open
    }
}

impl Default for Priority {
    fn default() -> (p: Self)
        ensures
            p == Priority::Normal,
    {
        Priority::Normal
    }
}

/// Position of a status in declaration order (the order the listing uses).
pub open spec fn status_rank(s: Status) -> int {
    match s {
        Status::Open => 0,
        Status::Closed => 1,
    }
}

/// Position of a priority in declaration order: `Urgent` first.
pub open spec fn priority_rank(p: Priority) -> int {
    match p {
        Priority::Urgent => 0,
        Priority::High => 1,
        Priority::Normal => 2,
        Priority::Low => 3,
        Priority::DontForget => 4,
    }
}

/// The status that follows `s`, wrapping from the last back to the first.
pub open spec fn status_after(s: Status) -> Status {
    match s {
        Status::Open => Status::Closed,
        Status::Closed => Status::Open,
    }
}

/// The priority before `p` in declaration order, wrapping from the first to
/// the last: each step makes a task more pressing until it wraps around.
pub open spec fn priority_before(p: Priority) -> Priority {
    match p {
        Priority::Urgent => Priority::DontForget,
        Priority::High => Priority::Urgent,
        Priority::Normal => Priority::High,
        Priority::Low => Priority::Normal,
        Priority::DontForget => Priority::Low,
    }
}

/// The icon shown for a status.
pub open spec fn status_label(s: Status) -> Seq<char> {
    match s {
        Status::Open => "\u{f0130}"@,
        Status::Closed => "\u{f0134}"@,
    }
}

/// The icon shown for a priority.
pub open spec fn priority_label(p: Priority) -> Seq<char> {
    match p {
        Priority::Urgent => "\u{f0aa}"@,
        Priority::High => "\u{f139}"@,
        Priority::Normal => "\u{f056}"@,
        Priority::Low => "\u{f13a}"@,
        Priority::DontForget => "\u{f1ce}"@,
    }
}

impl Status {
    /// Position in declaration order.
    pub fn rank(self) -> (r: u8)
        ensures
            r == status_rank(self),
    {
        match self {
            Status::Open => 0,
            Status::Closed => 1,
        }
    }

    /// The icon shown for this status.
    pub fn label(self) -> (r: &'static str)
        ensures
            r@ == status_label(self),
    {
        match self {
            Status::Open => "\u{f0130}",
            Status::Closed => "\u{f0134}",
        }
    }

    /// The next status in declaration order, wrapping around.
    pub fn next_wrapping(self) -> (r: Status)
        ensures
            r == status_after(self),
    {
        match self {
            Status::Open => Status::Closed,
            Status::Closed => Status::Open,
        }
    }
}

impl Priority {
    /// Position in declaration order.
    pub fn rank(self) -> (r: u8)
        ensures
            r == priority_rank(self),
    {
        match self {
            Priority::Urgent => 0,
            Priority::High => 1,
            Priority::Normal => 2,
            Priority::Low => 3,
            Priority::DontForget => 4,
        }
    }

    /// The icon shown for this priority.
    pub fn label(self) -> (r: &'static str)
        ensures
            r@ == priority_label(self),
    {
        match self {
            Priority::Urgent => "\u{f0aa}",
            Priority::High => "\u{f139}",
            Priority::Normal => "\u{f056}",
            Priority::Low => "\u{f13a}",
            Priority::DontForget => "\u{f1ce}",
        }
    }

    /// The previous priority in declaration order, wrapping around.
    pub fn previous_wrapping(self) -> (r: Priority)
        ensures
            r == priority_before(self),
    {
        match self {
            Priority::Urgent => Priority::DontForget,
            Priority::High => Priority::Urgent,
            Priority::Normal => Priority::High,
            Priority::Low => Priority::Normal,
            Priority::DontForget => Priority::Low,
        }
    }
}

/// The version field of a UUID held as a big-endian `u128`.
pub open spec fn uuid_version(id: u128) -> u128 {
    (id >> 76u128) & 0xfu128
}

/// Declares `uuid::ContextV7`, the counter that keeps version-7 identifiers
/// made through it in increasing order; its state is opaque here.
#[verifier::external_type_specification]
#[verifier::external_body]
pub struct ExContextV7(uuid::ContextV7);

/// Calls `uuid::ContextV7::new`: a fresh counter, which reseeds itself on the
/// first time stamp it is given. Nothing is claimed of it.
#[verifier::external_body]
pub(crate) fn new_id_context() -> (c: uuid::ContextV7)
{
    uuid::ContextV7::new()
}

/// Calls `uuid::Timestamp::from_unix` with `ids` and the instant
/// `seconds` + `subsec_nanos`, hands the time stamp to `uuid::Uuid::new_v7`
/// and gives the identifier back as its big-endian `u128`
/// (`Uuid::as_u128`). The crate sets the version field of every such
/// identifier to 7; that is all that is claimed. Its time field holds the
/// millisecond that `ids` settles on (the instant given, or a later one that
/// keeps it after its earlier identifiers), cut to 48 bits, so a counter that
/// once saw an instant past that range can hand back a smaller field; order
/// and time are therefore checked by `IdSource::draw`, not assumed here. The
/// rest comes from the counter and the machine's random source. The one way
/// the call can fail is a failure of the machine's random source, on which
/// the crate panics; no argument can rule that out.
#[verifier::external_body]
fn uuid_v7_at(ids: &uuid::ContextV7, seconds: u64, subsec_nanos: u32) -> (id: u128)
    ensures
        uuid_version(id) == 7,
{
    uuid::Uuid::new_v7(uuid::Timestamp::from_unix(ids, seconds, subsec_nanos)).as_u128()
}

/// Splits a non-negative count of nanoseconds since the Unix epoch into
/// whole seconds and the nanoseconds past them; `None` when the seconds do
/// not fit in a `u64`.
pub fn split_instant(now: i128) -> (r: Option<(u64, u32)>)
    requires
        now >= 0,
    ensures
        match r {
            Some((secs, nanos)) => nanos < 1_000_000_000 && secs * 1_000_000_000 + nanos == now,
            None => now / 1_000_000_000 > u64::MAX,
        },
{
    let secs: i128 = now / 1_000_000_000;
    let nanos: i128 = now % 1_000_000_000;
    if secs > 0xffff_ffff_ffff_ffffi128 {
        None
    } else {
        Some((secs as u64, nanos as u32))
    }
}

/// The time field of a version-7 identifier held as a big-endian `u128`:
/// milliseconds since the Unix epoch.
pub open spec fn id_millis(id: u128) -> u128 {
    id >> 80u128
}

/// Whether `id` may follow `last` as the identifier of a task made at `now`
/// (nanoseconds since the Unix epoch): it is greater than `last`, and its
/// time field does not lie before the millisecond of `now`.
pub open spec fn follows(last: u128, id: u128, now: i128) -> bool {
    &&& id > last
    &&& id_millis(id) >= now / 1_000_000
}

/// Tells whether `id` may follow `last` as the identifier of a task made at
/// `now` (see `follows`).
pub fn id_follows(last: u128, id: u128, now: i128) -> (b: bool)
    requires
        now >= 0,
    ensures
        b == follows(last, id, now),
{
    let ms: i128 = now / 1_000_000;
    let field: u128 = id >> 80u128;
    assert(field < 0x1_0000_0000_0000u128) by (bit_vector)
        requires
            field == id >> 80u128,
    ;
    let wide: i128 = field as i128;
    id > last && wide >= ms
}

/// Where identifiers for new tasks come from: uuid's counter, together with
/// the last identifier drawn through it (0 before the first). The counter is
/// created here and used by `draw` alone.
#[derive(Debug)]
pub struct IdSource {
    ctx: uuid::ContextV7,
    last: u128,
}

impl IdSource {
    /// The last identifier drawn, or 0 before the first.
    pub closed spec fn last_drawn(&self) -> u128 {
        self.last
    }

    /// A source that has drawn nothing yet.
    pub fn new() -> (s: IdSource)
        ensures
            s.last_drawn() == 0,
    {
        IdSource { ctx: new_id_context(), last: 0 }
    }

    /// Draws the identifier of a task made at `now` (nanoseconds since the
    /// Unix epoch): a version-7 identifier greater than every one drawn
    /// before, whose time field does not lie before `now`'s millisecond.
    /// `None`, drawing nothing, when `now` lies before 1970 or its seconds do
    /// not fit in a `u64`, and when the counter hands back an identifier
    /// without those properties. uuid documents that identifiers made
    /// through one counter only grow and carry the instant they were given,
    /// moved forward where needed; so for readings of a real clock (before
    /// the year 10000, well inside the 48-bit time field) the last refusal
    /// does not come.
    pub fn draw(&mut self, now: i128) -> (r: Option<u128>)
        ensures
            (now < 0 || now / 1_000_000_000 > u64::MAX) ==> r is None,
            r matches Some(id) ==> {
                &&& uuid_version(id) == 7
                &&& follows(old(self).last_drawn(), id, now)
                &&& final(self).last_drawn() == id
            },
            r is None ==> final(self).last_drawn() == old(self).last_drawn(),
    {
        if now < 0 {
            return None;
        }
        match split_instant(now) {
            Some((secs, nanos)) => {
                let id = uuid_v7_at(&self.ctx, secs, nanos);
                if id_follows(self.last, id, now) {
                    self.last = id;
                    Some(id)
                } else {
                    None
                }
            },
            None => None,
        }
    }
}

/// Reads the system clock (`std::time::SystemTime::now`) and converts it with
/// `jiff::Timestamp::try_from`, handing the instant on as nanoseconds since
/// the Unix epoch (`Timestamp::as_nanosecond`). The conversion fails, and
/// this gives `None`, when the clock lies outside the years -9999..=9999.
/// The value depends on the clock, so nothing is promised of it.
#[verifier::external_body]
pub(crate) fn clock_now_nanos() -> (ns: Option<i128>)
{
    match jiff::Timestamp::try_from(std::time::SystemTime::now()) {
        Ok(t) => Some(t.as_nanosecond()),
        Err(_) => None,
    }
}

/// The system clock could not be read as a time stamp.
#[derive(Debug, Clone, Copy, PartialEq, Eq, Structural)]
pub struct ClockUnavailable;

/// A version-7 identifier is never the nil identifier.
pub proof fn lemma_v7_not_nil(id: u128)
    requires
        uuid_version(id) == 7,
    ensures
        id != 0,
{
    assert((id >> 76u128) & 0xfu128 == 7 ==> id != 0) by (bit_vector);
}

/// What a task is, as plain values.
pub struct TaskView {
    pub id: u128,
    pub body: Seq<char>,
    pub context: Seq<char>,
    pub status: Status,
    pub priority: Priority,
    pub updated_at: i128,
}

/// The task made at `now` with identifier `id`: open, of normal priority.
pub open spec fn fresh_task(id: u128, body: Seq<char>, context: Seq<char>, now: i128) -> TaskView {
    TaskView { id, body, context, status: Status::Open, priority: Priority::Normal, updated_at: now }
}

/// One to-do item. `id` is a UUID as its big-endian `u128`; `updated_at` is
/// nanoseconds since the Unix epoch.
#[derive(Debug)]
pub struct Task {
    pub id: u128,
    pub body: String,
    pub context: String,
    pub status: Status,
    pub priority: Priority,
    pub updated_at: i128,
}

impl View for Task {
    type V = TaskView;

    open spec fn view(&self) -> TaskView {
        TaskView {
            id: self.id,
            body: self.body@,
            context: self.context@,
            status: self.status,
            priority: self.priority,
            updated_at: self.updated_at,
        }
    }
}

impl DeepView for Task {
    type V = TaskView;

    open spec fn deep_view(&self) -> TaskView {
        self@
    }
}

impl Clone for Task {
    fn clone(&self) -> (t: Self)
        ensures
            t@ == self@,
    {
        Task {
            id: self.id,
            body: self.body.clone(),
            context: self.context.clone(),
            status: self.status,
            priority: self.priority,
            updated_at: self.updated_at,
        }
    }
}

impl Task {
    /// An open task of normal priority with identifier `id`, stamped `now`.
    pub fn created(id: u128, body: String, context: String, now: i128) -> (t: Task)
        ensures
            t.id == id,
            t.body@ == body@,
            t.context@ == context@,
            t.status == Status::Open,
            t.priority == Priority::Normal,
            t.updated_at == now,
    {
        Task { id, body, context, status: Status::Open, priority: Priority::Normal, updated_at: now }
    }

    /// The task that a clock `reading` gives: an open task of normal
    /// priority with identifier `id`, stamped with the reading; fails when
    /// there is no reading or it lies before 1970.
    pub fn from_reading(reading: Option<i128>, id: u128, body: String, context: String) -> (r: Result<Task, ClockUnavailable>)
        ensures
            r is Err <==> (reading is None || reading->0 < 0),
            r matches Ok(t) ==> t@ == fresh_task(id, body@, context@, reading->0),
    {
        match reading {
            Some(now) => {
                if now < 0 {
                    Err(ClockUnavailable)
                } else {
                    Ok(Task::created(id, body, context, now))
                }
            },
            None => Err(ClockUnavailable),
        }
    }

    /// A new open task of normal priority, stamped with the current time,
    /// whose identifier is drawn from `ids`: greater than every identifier
    /// drawn from `ids` before, with a time field no earlier than the stamp's
    /// millisecond. Fails, drawing nothing, when the clock cannot be read or
    /// no identifier can be drawn for its reading (see `IdSource::draw`).
    pub fn new(ids: &mut IdSource, body: String, context: String) -> (r: Result<Task, ClockUnavailable>)
        ensures
            r matches Ok(t) ==> {
                &&& t.body@ == body@
                &&& t.context@ == context@
                &&& t.status == Status::Open
                &&& t.priority == Priority::Normal
                &&& uuid_version(t.id) == 7
                &&& t.updated_at >= 0
                &&& follows(old(ids).last_drawn(), t.id, t.updated_at)
                &&& final(ids).last_drawn() == t.id
            },
            r is Err ==> final(ids).last_drawn() == old(ids).last_drawn(),
    {
        let reading = clock_now_nanos();
        let id = match reading {
            Some(now) => {
                match ids.draw(now) {
                    Some(id) => id,
                    None => return Err(ClockUnavailable),
                }
            },
            None => return Err(ClockUnavailable),
        };
        Task::from_reading(reading, id, body, context)
    }

    /// Replaces the text of the task and stamps it `now`.
    pub fn update_at(&mut self, body: String, context: String, now: i128)
        ensures
            final(self).body@ == body@,
            final(self).context@ == context@,
            final(self).id == old(self).id,
            final(self).status == old(self).status,
            final(self).priority == old(self).priority,
            final(self).updated_at == now,
    {
        self.body = body;
        self.context = context;
        self.updated_at = now;
    }

    /// Replaces the text of the task and stamps it with the current time;
    /// fails, changing nothing, when the clock cannot be read.
    pub fn update(&mut self, body: String, context: String) -> (r: Result<(), ClockUnavailable>)
        ensures
            r is Ok ==> {
                &&& final(self).body@ == body@
                &&& final(self).context@ == context@
                &&& final(self).id == old(self).id
                &&& final(self).status == old(self).status
                &&& final(self).priority == old(self).priority
            },
            r is Err ==> final(self)@ == old(self)@,
    {
        match clock_now_nanos() {
            Some(now) => {
                self.update_at(body, context, now);
                Ok(())
            },
            None => Err(ClockUnavailable),
        }
    }

    /// Makes the task one step more pressing (`Urgent` wraps to `DontForget`)
    /// and stamps it `now`.
    pub fn rotate_priority_at(&mut self, now: i128)
        ensures
            final(self).priority == priority_before(old(self).priority),
            final(self).id == old(self).id,
            final(self).body@ == old(self).body@,
            final(self).context@ == old(self).context@,
            final(self).status == old(self).status,
            final(self).updated_at == now,
    {
        self.priority = self.priority.previous_wrapping();
        self.updated_at = now;
    }

    /// Makes the task one step more pressing and stamps it with the current
    /// time; fails, changing nothing, when the clock cannot be read.
    pub fn rotate_priority(&mut self) -> (r: Result<(), ClockUnavailable>)
        ensures
            r is Ok ==> {
                &&& final(self).priority == priority_before(old(self).priority)
                &&& final(self).id == old(self).id
                &&& final(self).body@ == old(self).body@
                &&& final(self).context@ == old(self).context@
                &&& final(self).status == old(self).status
            },
            r is Err ==> final(self)@ == old(self)@,
    {
        match clock_now_nanos() {
            Some(now) => {
                self.rotate_priority_at(now);
                Ok(())
            },
            None => Err(ClockUnavailable),
        }
    }

    /// Flips the task between open and closed and stamps it `now`.
    pub fn rotate_status_at(&mut self, now: i128)
        ensures
            final(self).status == status_after(old(self).status),
            final(self).id == old(self).id,
            final(self).body@ == old(self).body@,
            final(self).context@ == old(self).context@,
            final(self).priority == old(self).priority,
            final(self).updated_at == now,
    {
        self.status = self.status.next_wrapping();
        self.updated_at = now;
    }

    /// Flips the task between open and closed and stamps it with the current
    /// time; fails, changing nothing, when the clock cannot be read.
    pub fn rotate_status(&mut self) -> (r: Result<(), ClockUnavailable>)
        ensures
            r is Ok ==> {
                &&& final(self).status == status_after(old(self).status)
                &&& final(self).id == old(self).id
                &&& final(self).body@ == old(self).body@
                &&& final(self).context@ == old(self).context@
                &&& final(self).priority == old(self).priority
            },
            r is Err ==> final(self)@ == old(self)@,
    {
        match clock_now_nanos() {
            Some(now) => {
                self.rotate_status_at(now);
                Ok(())
            },
            None => Err(ClockUnavailable),
        }
    }
}

} // verus!

use vstd::prelude::*;

verus! {

/// How the listing is grouped.
#[derive(Debug, Clone, Copy, PartialEq, Eq, Structural)]
pub enum SortBy {
    Context,
    Priority,
    Status,
    UpdatedAt,
}

impl Default for SortBy {
    fn default() -> (s: Self)
        ensures
            s == SortBy::Context,
    {
        SortBy::Context
    }
}

/// The grouping that follows `s`, wrapping from the last back to the first.
pub open spec fn sort_after(s: SortBy) -> SortBy {
    match s {
        SortBy::Context => SortBy::Priority,
        SortBy::Priority => SortBy::Status,
        SortBy::Status => SortBy::UpdatedAt,
        SortBy::UpdatedAt => SortBy::Context,
    }
}

/// `a + b`, or `u16::MAX` when that does not fit.
pub open spec fn saturating_add_u16(a: u16, b: u16) -> u16 {
    if a + b > u16::MAX {
        u16::MAX
    } else {
        (a + b) as u16
    }
}

/// `a - b`, or 0 when that is negative.
pub open spec fn saturating_sub_u16(a: u16, b: u16) -> u16 {
    if a < b {
        0
    } else {
        (a - b) as u16
    }
}

/// What the view remembers between runs: the selected task, the grouping
/// and how far the listing is scrolled.
#[derive(Debug, Clone, Copy, PartialEq, Eq, Structural)]
pub struct State {
    pub selected: u128,
    pub sort_by: SortBy,
    pub scroll: u16,
}

impl Default for State {
    fn default() -> (s: Self)
        ensures
            s.selected == 0,
            s.sort_by == SortBy::Context,
            s.scroll == 0,
    {
        State { selected: 0, sort_by: SortBy::Context, scroll: 0 }
    }
}

impl State {
    /// Moves to the next grouping, wrapping around.
    pub fn rotate_sort_by(&mut self)
        ensures
            *final(self) == (State { sort_by: sort_after(old(self).sort_by), ..*old(self) }),
    {
        self.sort_by = match self.sort_by {
            SortBy::Context => SortBy::Priority,
            SortBy::Priority => SortBy::Status,
            SortBy::Status => SortBy::UpdatedAt,
            SortBy::UpdatedAt => SortBy::Context,
        };
    }

    /// Keeps the scroll offset within the rows that lie beyond the viewport.
    pub fn clamp_scroll(&mut self, total: u16, viewport: u16)
        ensures
            *final(self) == (State {
                scroll: if old(self).scroll <= saturating_sub_u16(total, viewport) {
                    old(self).scroll
                } else {
                    saturating_sub_u16(total, viewport)
                },
                ..*old(self)
            }),
    {
        let limit = total.saturating_sub(viewport);
        if self.scroll > limit {
            self.scroll = limit;
        }
    }
}

} // verus!

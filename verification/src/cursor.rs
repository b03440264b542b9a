use vstd::prelude::*;

verus! {

/// Whether a position is unset or lies within a view of `len` notes.
pub open spec fn in_view(position: Option<usize>, len: nat) -> bool {
    match position {
        Some(i) => i < len,
        None => true,
    }
}

/// A position after the view has changed to `len` notes: one past the end
/// falls back to the last note, and in an empty view none is set.
pub open spec fn clamped(position: Option<usize>, len: nat) -> Option<usize> {
    match position {
        Some(i) => if len == 0 {
            None
        } else if i >= len {
            Some((len - 1) as usize)
        } else {
            Some(i)
        },
        None => None,
    }
}

/// The position one further down: the first note from an unset position, and
/// the last note once the end is reached. An empty view has no position.
pub open spec fn next_position(position: Option<usize>, len: nat) -> Option<usize> {
    if len == 0 {
        None
    } else {
        match position {
            Some(i) => if i + 1 < len {
                Some((i + 1) as usize)
            } else {
                Some((len - 1) as usize)
            },
            None => Some(0),
        }
    }
}

/// The position one further up: the last note from an unset position, and the
/// first note once the beginning is reached. An empty view has no position.
pub open spec fn previous_position(position: Option<usize>, len: nat) -> Option<usize> {
    if len == 0 {
        None
    } else {
        match position {
            Some(i) => if i == 0 {
                Some(0)
            } else if i - 1 < len {
                Some((i - 1) as usize)
            } else {
                Some((len - 1) as usize)
            },
            None => Some((len - 1) as usize),
        }
    }
}

/// Whether a position is unset or lies within a view of `len` notes.
pub fn is_in_view(position: Option<usize>, len: usize) -> (r: bool)
    ensures
        r == in_view(position, len as nat),
{
    match position {
        Some(i) => i < len,
        None => true,
    }
}

/// Brings a position back within a view of `len` notes.
pub fn clamp_position(position: Option<usize>, len: usize) -> (r: Option<usize>)
    ensures
        r == clamped(position, len as nat),
        in_view(r, len as nat),
{
    match position {
        Some(i) => if len == 0 {
            None
        } else if i >= len {
            Some(len - 1)
        } else {
            Some(i)
        },
        None => None,
    }
}

/// The position one note further down in a view of `len` notes.
pub fn step_down(position: Option<usize>, len: usize) -> (r: Option<usize>)
    ensures
        r == next_position(position, len as nat),
        in_view(r, len as nat),
{
    if len == 0 {
        None
    } else {
        match position {
            Some(i) => if i < len - 1 {
                Some(i + 1)
            } else {
                Some(len - 1)
            },
            None => Some(0),
        }
    }
}

/// The position one note further up in a view of `len` notes.
pub fn step_up(position: Option<usize>, len: usize) -> (r: Option<usize>)
    ensures
        r == previous_position(position, len as nat),
        in_view(r, len as nat),
{
    if len == 0 {
        None
    } else {
        match position {
            Some(i) => if i == 0 {
                Some(0)
            } else if i - 1 < len {
                Some(i - 1)
            } else {
                Some(len - 1)
            },
            None => Some(len - 1),
        }
    }
}

/// One selection for the view in the order of entry, one for the sorted view,
/// and which of the two views is shown. Moving and deleting go by the
/// selection of the view that is shown; the other one stays as it is.
#[derive(Debug, Clone, Copy)]
pub struct DualCursor {
    pub input: Option<usize>,
    pub sorted: Option<usize>,
    pub sorted_active: bool,
}

impl DualCursor {
    /// Whether both selections lie within views of `len` notes.
    pub open spec fn wf(self, len: nat) -> bool {
        in_view(self.input, len) && in_view(self.sorted, len)
    }

    /// The selection of the view that is shown.
    pub open spec fn active_position(self) -> Option<usize> {
        if self.sorted_active {
            self.sorted
        } else {
            self.input
        }
    }

    /// The cursor with the shown view's selection replaced.
    pub open spec fn with_active(self, position: Option<usize>) -> DualCursor {
        if self.sorted_active {
            DualCursor { sorted: position, ..self }
        } else {
            DualCursor { input: position, ..self }
        }
    }

    /// The shown view's selection moved one note down, in views of `len` notes.
    pub open spec fn moved_down(self, len: nat) -> DualCursor {
        self.with_active(next_position(self.active_position(), len))
    }

    /// The shown view's selection moved one note up, in views of `len` notes.
    pub open spec fn moved_up(self, len: nat) -> DualCursor {
        self.with_active(previous_position(self.active_position(), len))
    }

    /// The other view shown, both selections as they were.
    pub open spec fn toggled(self) -> DualCursor {
        DualCursor { sorted_active: !self.sorted_active, ..self }
    }

    /// Both selections brought back within views of `len` notes.
    pub open spec fn clamped_to(self, len: nat) -> DualCursor {
        DualCursor {
            input: clamped(self.input, len),
            sorted: clamped(self.sorted, len),
            sorted_active: self.sorted_active,
        }
    }

    /// Nothing selected, the view in the order of entry shown.
    pub fn new() -> (cursor: DualCursor)
        ensures
            cursor == (DualCursor { input: None, sorted: None, sorted_active: false }),
    {
        DualCursor { input: None, sorted: None, sorted_active: false }
    }

    /// Whether both selections lie within views of `len` notes.
    pub fn is_within(&self, len: usize) -> (r: bool)
        ensures
            r == self.wf(len as nat),
    {
        is_in_view(self.input, len) && is_in_view(self.sorted, len)
    }

    /// The selection of the view that is shown.
    pub fn selected(&self) -> (position: Option<usize>)
        ensures
            position == self.active_position(),
    {
        if self.sorted_active {
            self.sorted
        } else {
            self.input
        }
    }

    /// Moves the shown view's selection one note down, in a view of `len` notes.
    pub fn select_next(&mut self, len: usize)
        ensures
            *final(self) == old(self).moved_down(len as nat),
            in_view(final(self).active_position(), len as nat),
    {
        if self.sorted_active {
            self.sorted = step_down(self.sorted, len);
        } else {
            self.input = step_down(self.input, len);
        }
    }

    /// Moves the shown view's selection one note up, in a view of `len` notes.
    pub fn select_previous(&mut self, len: usize)
        ensures
            *final(self) == old(self).moved_up(len as nat),
            in_view(final(self).active_position(), len as nat),
    {
        if self.sorted_active {
            self.sorted = step_up(self.sorted, len);
        } else {
            self.input = step_up(self.input, len);
        }
    }

    /// Shows the other view. Neither selection changes.
    pub fn toggle(&mut self)
        ensures
            *final(self) == old(self).toggled(),
    {
        self.sorted_active = !self.sorted_active;
    }

    /// Brings both selections back within views of `len` notes.
    pub fn clamp(&mut self, len: usize)
        ensures
            *final(self) == old(self).clamped_to(len as nat),
            final(self).wf(len as nat),
    {
        self.input = clamp_position(self.input, len);
        self.sorted = clamp_position(self.sorted, len);
    }
}

/// Showing the other view twice shows the first again, with both selections
/// where they were.
pub proof fn lemma_toggle_twice(cursor: DualCursor)
    ensures
        cursor.toggled().toggled() == cursor,
        cursor.toggled().input == cursor.input,
        cursor.toggled().sorted == cursor.sorted,
{
}

/// Selections within a view stay where they are when they are clamped to it.
pub proof fn lemma_clamp_in_view(cursor: DualCursor, len: nat)
    requires
        cursor.wf(len),
    ensures
        cursor.clamped_to(len) == cursor,
{
}

} // verus!

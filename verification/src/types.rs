//! Sort/chart column keys and the history-window capacity.

use vstd::prelude::*;

verus! {

/// Capacity of every rolling history window: at most this many samples are
/// kept, oldest evicted first.
pub const MAX_LEN: usize = 60;

/// The per-process data columns; also the keys the row table can be sorted by.
#[allow(non_camel_case_types)]
#[derive(Debug, Clone, Copy, PartialEq, Eq, Structural)]
pub enum ProcessName {
    PID,
    NAME,
    CPU,
    MEM,
    READ,
    WRITE,
    TOTAL_READ,
    TOTAL_WRITTEN,
    USER,
}

impl ProcessName {
    /// Position of the key in the fixed column order.
    pub open spec fn ordinal(self) -> int {
        match self {
            ProcessName::PID => 0,
            ProcessName::NAME => 1,
            ProcessName::CPU => 2,
            ProcessName::MEM => 3,
            ProcessName::READ => 4,
            ProcessName::WRITE => 5,
            ProcessName::TOTAL_READ => 6,
            ProcessName::TOTAL_WRITTEN => 7,
            ProcessName::USER => 8,
        }
    }

    /// The key at a given position in the fixed column order.
    pub open spec fn from_ordinal(i: int) -> ProcessName {
        if i == 0 {
            ProcessName::PID
        } else if i == 1 {
            ProcessName::NAME
        } else if i == 2 {
            ProcessName::CPU
        } else if i == 3 {
            ProcessName::MEM
        } else if i == 4 {
            ProcessName::READ
        } else if i == 5 {
            ProcessName::WRITE
        } else if i == 6 {
            ProcessName::TOTAL_READ
        } else if i == 7 {
            ProcessName::TOTAL_WRITTEN
        } else {
            ProcessName::USER
        }
    }

    /// Position of this key in the column order (which column it labels).
    pub fn get_index(&self) -> (i: usize)
        ensures
            i == self.ordinal(),
    {
        match self {
            ProcessName::PID => 0,
            ProcessName::NAME => 1,
            ProcessName::CPU => 2,
            ProcessName::MEM => 3,
            ProcessName::READ => 4,
            ProcessName::WRITE => 5,
            ProcessName::TOTAL_READ => 6,
            ProcessName::TOTAL_WRITTEN => 7,
            ProcessName::USER => 8,
        }
    }

    /// The key of the column at index `i`.
    pub fn get_name(i: usize) -> (r: ProcessName)
        requires
            i < 9,
        ensures
            r == ProcessName::from_ordinal(i as int),
    {
        if i == 0 {
            ProcessName::PID
        } else if i == 1 {
            ProcessName::NAME
        } else if i == 2 {
            ProcessName::CPU
        } else if i == 3 {
            ProcessName::MEM
        } else if i == 4 {
            ProcessName::READ
        } else if i == 5 {
            ProcessName::WRITE
        } else if i == 6 {
            ProcessName::TOTAL_READ
        } else if i == 7 {
            ProcessName::TOTAL_WRITTEN
        } else {
            ProcessName::USER
        }
    }

    /// The key one step forward in column order; the last displayed
    /// column is its own successor.
    pub open spec fn next_spec(self) -> ProcessName {
        if self.ordinal() < 7 {
            ProcessName::from_ordinal(self.ordinal() + 1)
        } else {
            self
        }
    }

    /// The key one step back in column order; the first column is its own
    /// predecessor.
    pub open spec fn prev_spec(self) -> ProcessName {
        if self.ordinal() == 0 {
            self
        } else {
            ProcessName::from_ordinal(self.ordinal() - 1)
        }
    }

    /// The next key in column order; saturates at the last displayed column
    /// (the owner column is never reached by stepping forward).
    pub fn next(&self) -> (r: ProcessName)
        ensures
            r == self.next_spec(),
    {
        let i = self.get_index();
        if i < 7 {
            Self::get_name(i + 1)
        } else {
            *self
        }
    }

    /// The previous key in column order; saturates at the first column.
    pub fn prev(&self) -> (r: ProcessName)
        ensures
            r == self.prev_spec(),
    {
        let i = self.get_index();
        if i == 0 {
            *self
        } else {
            Self::get_name(i - 1)
        }
    }
}

} // verus!

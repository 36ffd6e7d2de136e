//! Column widths for the process table: each column is as wide as its
//! widest cell, with a floor of the header label's length plus padding.

use vstd::prelude::*;
use crate::process::ProcessInfo;
use crate::helpers::{dec_str, tenths_str, u64_to_string, tenths_to_string};
use vstd::string::StringExecFns;

verus! {

/// Display width in terminal columns of a piece of text, as the
/// unicode_width tables give it: a function of the characters alone.
pub uninterp spec fn display_width(s: Seq<char>) -> usize;

/// Relies on unicode_width's UnicodeWidthStr::width: the displayed width
/// in terminal columns, a table lookup over the characters alone; an empty
/// string has width zero.
#[verifier::external_body]
fn str_width(s: &str) -> (r: usize)
    ensures
        r == display_width(s@),
        s@.len() == 0 ==> r == 0,
{
    unicode_width::UnicodeWidthStr::width(s)
}

/// The text a row shows in column `c`, for width purposes: absent numeric
/// fields count as zero here, as the table renders a number for them.
pub open spec fn col_text(r: ProcessInfo, c: int) -> Seq<char> {
    if c == 0 {
        dec_str(r.pid as int)
    } else if c == 1 {
        r.name@
    } else if c == 2 {
        tenths_str(r.cpu.unwrap_or(0u64) as int)
    } else if c == 3 {
        dec_str(r.mem_mb.unwrap_or(0u64) as int) + seq!['.', '0']
    } else if c == 4 {
        dec_str(r.read_bytes.unwrap_or(0u64) as int)
    } else if c == 5 {
        dec_str(r.write_bytes.unwrap_or(0u64) as int)
    } else if c == 6 {
        dec_str(r.total_read.unwrap_or(0u64) as int)
    } else {
        dec_str(r.total_written.unwrap_or(0u64) as int)
    }
}

fn col_string(r: &ProcessInfo, c: usize) -> (s: String)
    requires
        c < 8,
    ensures
        s@ == col_text(*r, c as int),
{
    if c == 0 {
        u64_to_string(r.pid)
    } else if c == 1 {
        r.name.clone()
    } else if c == 2 {
        tenths_to_string(r.cpu.unwrap_or(0))
    } else if c == 3 {
        let mut s = u64_to_string(r.mem_mb.unwrap_or(0));
        proof {
            reveal_strlit(".0");
        }
        s.append(".0");
        proof {
            assert(s@ =~= col_text(*r, c as int));
        }
        s
    } else if c == 4 {
        u64_to_string(r.read_bytes.unwrap_or(0))
    } else if c == 5 {
        u64_to_string(r.write_bytes.unwrap_or(0))
    } else if c == 6 {
        u64_to_string(r.total_read.unwrap_or(0))
    } else {
        u64_to_string(r.total_written.unwrap_or(0))
    }
}

/// Greatest display width of column `c` over the rows; zero for no rows.
pub open spec fn col_max_width(items: Seq<ProcessInfo>, c: int) -> int
    decreases items.len(),
{
    if items.len() == 0 {
        0
    } else {
        let w = display_width(col_text(items.last(), c)) as int;
        let rest = col_max_width(items.drop_last(), c);
        if w >= rest {
            w
        } else {
            rest
        }
    }
}

fn col_max_width_exec(items: &Vec<ProcessInfo>, c: usize) -> (r: usize)
    requires
        c < 8,
    ensures
        r as int == col_max_width(items@, c as int),
{
    let mut mx: usize = 0;
    let mut i: usize = 0;
    proof {
        assert(items@.subrange(0, 0) =~= Seq::<ProcessInfo>::empty());
    }
    while i < items.len()
        invariant
            i <= items@.len(),
            c < 8,
            mx as int == col_max_width(items@.subrange(0, i as int), c as int),
        decreases items@.len() - i,
    {
        let s = col_string(&items[i], c);
        let w = str_width(s.as_str());
        proof {
            assert(items@.subrange(0, i + 1).drop_last() =~= items@.subrange(0, i as int));
            assert(items@.subrange(0, i + 1).last() == items@[i as int]);
        }
        if w > mx {
            mx = w;
        }
        i = i + 1;
    }
    proof {
        assert(items@.subrange(0, items@.len() as int) =~= items@);
    }
    mx
}

/// The width floor of column `c`: its header label's length plus five.
pub open spec fn label_min(c: int) -> int {
    if c == 0 {
        8  // PID
    } else if c == 1 {
        9  // Name
    } else if c == 2 {
        10  // CPU %
    } else if c == 3 {
        8  // Mem
    } else if c == 4 {
        6  // R
    } else if c == 5 {
        6  // W
    } else if c == 6 {
        11  // T.Read
    } else {
        12  // T.Write
    }
}

/// The width of column `c`: the wider of the floor and the widest cell,
/// narrowed to sixteen bits as the layout takes it.
pub open spec fn col_constraint(items: Seq<ProcessInfo>, c: int) -> u16 {
    let w = col_max_width(items, c);
    let m = label_min(c);
    (if w >= m {
        w
    } else {
        m
    }) as u16
}

fn col_constraint_exec(items: &Vec<ProcessInfo>, c: usize, floor: usize) -> (r: u16)
    requires
        c < 8,
        floor as int == label_min(c as int),
    ensures
        r == col_constraint(items@, c as int),
{
    let w = col_max_width_exec(items, c);
    let m = if w >= floor {
        w
    } else {
        floor
    };
    #[verifier::truncate] (m as u16)
}

/// The widths of the eight displayed columns, in column order.
pub fn constraint_len_calculator(items: &Vec<ProcessInfo>) -> (r: (
    u16,
    u16,
    u16,
    u16,
    u16,
    u16,
    u16,
    u16,
))
    ensures
        r.0 == col_constraint(items@, 0),
        r.1 == col_constraint(items@, 1),
        r.2 == col_constraint(items@, 2),
        r.3 == col_constraint(items@, 3),
        r.4 == col_constraint(items@, 4),
        r.5 == col_constraint(items@, 5),
        r.6 == col_constraint(items@, 6),
        r.7 == col_constraint(items@, 7),
{
    (
        col_constraint_exec(items, 0, 8),
        col_constraint_exec(items, 1, 9),
        col_constraint_exec(items, 2, 10),
        col_constraint_exec(items, 3, 8),
        col_constraint_exec(items, 4, 6),
        col_constraint_exec(items, 5, 6),
        col_constraint_exec(items, 6, 11),
        col_constraint_exec(items, 7, 12),
    )
}

} // verus!

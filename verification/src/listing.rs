//! Rendering the store for display: one line per task, carrying its 1-based
//! position, its description, and a completion label.

use vstd::prelude::*;

use crate::chars::{str_chars, string_from_chars};
use crate::store::{TaskView, TodoApp};

verus! {

/// The decimal digit character for `d`.
pub open spec fn digit_char(d: int) -> char {
    if d == 0 {
        '0'
    } else if d == 1 {
        '1'
    } else if d == 2 {
        '2'
    } else if d == 3 {
        '3'
    } else if d == 4 {
        '4'
    } else if d == 5 {
        '5'
    } else if d == 6 {
        '6'
    } else if d == 7 {
        '7'
    } else if d == 8 {
        '8'
    } else {
        '9'
    }
}

/// The usual decimal rendering of `n`, most significant digit first and
/// without leading zeros.
pub open spec fn dec_chars(n: nat) -> Seq<char>
    decreases n,
{
    if n < 10 {
        seq![digit_char(n as int)]
    } else {
        dec_chars(n / 10).push(digit_char((n % 10) as int))
    }
}

/// The label shown after a task: whether it has been completed.
pub open spec fn status_chars(completed: bool) -> Seq<char> {
    if completed {
        seq!['C', 'o', 'm', 'p', 'l', 'e', 't', 'e', 'd']
    } else {
        seq!['N', 'o', 't', ' ', 'c', 'o', 'm', 'p', 'l', 'e', 't', 'e', 'd']
    }
}

/// The display line for the task `t` at 1-based position `pos`:
/// `pos. description [label]`.
pub open spec fn line_of(pos: nat, t: TaskView) -> Seq<char> {
    dec_chars(pos) + seq!['.', ' '] + t.description + seq![' ', '['] + status_chars(t.is_completed)
        + seq![']']
}

/// The decimal digits of `n`, as characters.
pub fn usize_dec_chars(n: usize) -> (v: Vec<char>)
    ensures
        v@ == dec_chars(n as nat),
    decreases n,
{
    let d = n % 10;
    let c: char = if d == 0 {
        '0'
    } else if d == 1 {
        '1'
    } else if d == 2 {
        '2'
    } else if d == 3 {
        '3'
    } else if d == 4 {
        '4'
    } else if d == 5 {
        '5'
    } else if d == 6 {
        '6'
    } else if d == 7 {
        '7'
    } else if d == 8 {
        '8'
    } else {
        '9'
    };
    if n < 10 {
        let mut v: Vec<char> = Vec::new();
        v.push(c);
        proof {
            assert(v@ =~= dec_chars(n as nat));
        }
        v
    } else {
        let mut v = usize_dec_chars(n / 10);
        v.push(c);
        v
    }
}

impl TodoApp {
    /// One line per task, in store order, each formed as `line_of` says from
    /// the task's 1-based position, description and completion flag.
    pub fn show_tasks(&self) -> (lines: Vec<String>)
        ensures
            lines@.len() == self@.len(),
            forall|k: int|
                0 <= k < self@.len() ==> lines@[k]@ == line_of((k + 1) as nat, self@[k]),
    {
        let mut lines: Vec<String> = Vec::new();
        let n = self.tasks.len();
        let mut i: usize = 0;
        while i < n
            invariant
                n == self@.len(),
                i <= n,
                lines@.len() == i,
                forall|k: int|
                    0 <= k < i ==> lines@[k]@ == line_of((k + 1) as nat, self@[k]),
            decreases n - i,
        {
            let mut line: Vec<char> = usize_dec_chars(i + 1);
            line.push('.');
            line.push(' ');
            let mut desc = str_chars(self.tasks[i].description.as_str());
            line.append(&mut desc);
            line.push(' ');
            line.push('[');
            if self.tasks[i].is_completed {
                line.push('C');
                line.push('o');
                line.push('m');
                line.push('p');
                line.push('l');
                line.push('e');
                line.push('t');
                line.push('e');
                line.push('d');
            } else {
                line.push('N');
                line.push('o');
                line.push('t');
                line.push(' ');
                line.push('c');
                line.push('o');
                line.push('m');
                line.push('p');
                line.push('l');
                line.push('e');
                line.push('t');
                line.push('e');
                line.push('d');
            }
            line.push(']');
            proof {
                assert(line@ =~= line_of((i + 1) as nat, self@[i as int]));
            }
            let rendered = string_from_chars(&line);
            lines.push(rendered);
            i += 1;
        }
        lines
    }
}

} // verus!

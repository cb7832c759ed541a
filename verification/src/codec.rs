//! The persisted text encoding of a task store, and its parser.
//!
//! A store is written as a bracketed, comma-separated list of records, each
//! `{"description":"...","is_completed":true|false}`. Inside a description
//! the characters `"` and `\` are escaped with a backslash, as are newline,
//! carriage return and tab; every other character stands for itself. The
//! parser accepts exactly the encodings this module writes, so that a saved
//! store loads back unchanged.

use vstd::prelude::*;

use crate::chars::{str_chars, string_from_chars};
use crate::store::{tasks_view, Task, TaskView, TodoApp};

verus! {

/// How a single description character is written: the five characters with
/// an escape are preceded by a backslash, every other character stands for
/// itself.
pub open spec fn escape_char(c: char) -> Seq<char> {
    if c == '"' {
        seq!['\\', '"']
    } else if c == '\\' {
        seq!['\\', '\\']
    } else if c == '\n' {
        seq!['\\', 'n']
    } else if c == '\r' {
        seq!['\\', 'r']
    } else if c == '\t' {
        seq!['\\', 't']
    } else {
        seq![c]
    }
}

/// A description with each of its characters written as `escape_char` says.
pub open spec fn escape(s: Seq<char>) -> Seq<char>
    decreases s.len(),
{
    if s.len() == 0 {
        Seq::<char>::empty()
    } else {
        escape_char(s[0]) + escape(s.skip(1))
    }
}

/// The character an escape code stands for, if it is one of the five codes.
pub open spec fn unescape_code(c: char) -> Option<char> {
    if c == '"' {
        Some('"')
    } else if c == '\\' {
        Some('\\')
    } else if c == 'n' {
        Some('\n')
    } else if c == 'r' {
        Some('\r')
    } else if c == 't' {
        Some('\t')
    } else {
        None
    }
}

/// What a record opens with, up to and including the quote that starts the
/// description.
pub open spec fn task_open() -> Seq<char> {
    seq!['{', '"', 'd', 'e', 's', 'c', 'r', 'i', 'p', 't', 'i', 'o', 'n', '"', ':', '"']
}

/// What stands between the quote that closes the description and the
/// completion flag.
pub open spec fn task_mid() -> Seq<char> {
    seq![',', '"', 'i', 's', '_', 'c', 'o', 'm', 'p', 'l', 'e', 't', 'e', 'd', '"', ':']
}

/// The completion flag's encoding.
pub open spec fn bool_chars(b: bool) -> Seq<char> {
    if b {
        seq!['t', 'r', 'u', 'e']
    } else {
        seq!['f', 'a', 'l', 's', 'e']
    }
}

/// One task's record.
pub open spec fn encode_task(t: TaskView) -> Seq<char> {
    task_open() + escape(t.description) + seq!['"'] + task_mid() + bool_chars(t.is_completed)
        + seq!['}']
}

/// The records of a non-empty store, separated by commas.
pub open spec fn encode_tasks_inner(ts: Seq<TaskView>) -> Seq<char>
    decreases ts.len(),
{
    if ts.len() == 0 {
        Seq::<char>::empty()
    } else if ts.len() == 1 {
        encode_task(ts[0])
    } else {
        encode_task(ts[0]) + seq![','] + encode_tasks_inner(ts.skip(1))
    }
}

/// The whole store's encoding: its records between brackets.
pub open spec fn encode_tasks(ts: Seq<TaskView>) -> Seq<char> {
    seq!['['] + encode_tasks_inner(ts) + seq![']']
}

/// Whether `prefix` opens `s`.
pub open spec fn starts_with(s: Seq<char>, prefix: Seq<char>) -> bool {
    s.len() >= prefix.len() && s.subrange(0, prefix.len() as int) == prefix
}

/// Reads a description up to and over its closing quote, undoing the
/// escapes; yields the description and what follows the quote.
pub open spec fn parse_string_body(s: Seq<char>) -> Option<(Seq<char>, Seq<char>)>
    decreases s.len(),
{
    if s.len() == 0 {
        None
    } else if s[0] == '"' {
        Some((Seq::<char>::empty(), s.skip(1)))
    } else if s[0] == '\\' {
        if s.len() < 2 {
            None
        } else {
            match unescape_code(s[1]) {
                None => None,
                Some(c) => match parse_string_body(s.skip(2)) {
                    None => None,
                    Some(p) => Some((seq![c] + p.0, p.1)),
                },
            }
        }
    } else {
        match parse_string_body(s.skip(1)) {
            None => None,
            Some(p) => Some((seq![s[0]] + p.0, p.1)),
        }
    }
}

/// Reads the completion flag; yields it and what follows.
pub open spec fn parse_bool(s: Seq<char>) -> Option<(bool, Seq<char>)> {
    if starts_with(s, bool_chars(true)) {
        Some((true, s.skip(4)))
    } else if starts_with(s, bool_chars(false)) {
        Some((false, s.skip(5)))
    } else {
        None
    }
}

/// Reads one task record; yields the task and what follows its closing
/// brace.
pub open spec fn parse_task(s: Seq<char>) -> Option<(TaskView, Seq<char>)> {
    if !starts_with(s, task_open()) {
        None
    } else {
        match parse_string_body(s.skip(task_open().len() as int)) {
            None => None,
            Some(p) => if !starts_with(p.1, task_mid()) {
                None
            } else {
                match parse_bool(p.1.skip(task_mid().len() as int)) {
                    None => None,
                    Some(q) => if q.1.len() >= 1 && q.1[0] == '}' {
                        Some(
                            ((TaskView { description: p.0, is_completed: q.0 }), q.1.skip(1)),
                        )
                    } else {
                        None
                    },
                }
            },
        }
    }
}

/// Reads one or more comma-separated task records; yields them and what
/// follows the last.
pub open spec fn parse_tasks_inner(s: Seq<char>) -> Option<(Seq<TaskView>, Seq<char>)>
    decreases s.len(),
{
    match parse_task(s) {
        None => None,
        Some(p) => if p.1.len() >= 1 && p.1[0] == ',' && p.1.len() < s.len() {
            match parse_tasks_inner(p.1.skip(1)) {
                None => None,
                Some(q) => Some((seq![p.0] + q.0, q.1)),
            }
        } else {
            Some((seq![p.0], p.1))
        },
    }
}

/// Reads a whole encoding: an empty pair of brackets, or a bracketed list of
/// records, with nothing after the closing bracket.
pub open spec fn parse_store(s: Seq<char>) -> Option<Seq<TaskView>> {
    if s.len() >= 1 && s[0] == '[' {
        if s.len() == 2 && s[1] == ']' {
            Some(Seq::<TaskView>::empty())
        } else {
            match parse_tasks_inner(s.skip(1)) {
                None => None,
                Some(p) => if p.1.len() == 1 && p.1[0] == ']' {
                    Some(p.0)
                } else {
                    None
                },
            }
        }
    } else {
        None
    }
}

proof fn lemma_parse_string_body_of_escape(d: Seq<char>, rest: Seq<char>)
    ensures
        parse_string_body(escape(d) + seq!['"'] + rest) == Some((d, rest)),
    decreases d.len(),
{
    let s = escape(d) + seq!['"'] + rest;
    if d.len() == 0 {
        assert(escape(d) =~= Seq::<char>::empty());
        assert(s[0] == '"');
        assert(s.skip(1) =~= rest);
        assert(d =~= Seq::<char>::empty());
    } else {
        let c = d[0];
        let dtail = d.skip(1);
        assert(escape(d) == escape_char(c) + escape(dtail));
        if c == '"' || c == '\\' || c == '\n' || c == '\r' || c == '\t' {
            assert(escape_char(c).len() == 2);
            assert(s =~= escape_char(c) + (escape(dtail) + seq!['"'] + rest));
            assert(s[0] == '\\');
            assert(s.len() >= 2);
            assert(unescape_code(s[1]) == Some(c));
            assert(s.skip(2) =~= escape(dtail) + seq!['"'] + rest);
            lemma_parse_string_body_of_escape(dtail, rest);
            assert(seq![c] + dtail =~= d);
        } else {
            assert(escape_char(c) =~= seq![c]);
            assert(s =~= seq![c] + (escape(dtail) + seq!['"'] + rest));
            assert(s[0] == c);
            assert(s.skip(1) =~= escape(dtail) + seq!['"'] + rest);
            lemma_parse_string_body_of_escape(dtail, rest);
            assert(seq![c] + dtail =~= d);
        }
    }
}

proof fn lemma_parse_bool_of_encode(b: bool, rest: Seq<char>)
    ensures
        parse_bool(bool_chars(b) + rest) == Some((b, rest)),
{
    let s = bool_chars(b) + rest;
    if b {
        assert(s.subrange(0, 4) =~= bool_chars(true));
        assert(s.skip(4) =~= rest);
    } else {
        assert(s[0] == 'f');
        assert(bool_chars(true)[0] == 't');
        assert(!starts_with(s, bool_chars(true)));
        assert(s.subrange(0, 5) =~= bool_chars(false));
        assert(s.skip(5) =~= rest);
    }
}

proof fn lemma_parse_task_of_encode(t: TaskView, rest: Seq<char>)
    ensures
        parse_task(encode_task(t) + rest) == Some((t, rest)),
{
    let s = encode_task(t) + rest;
    let r1 = task_mid() + bool_chars(t.is_completed) + seq!['}'] + rest;
    let after_open = escape(t.description) + seq!['"'] + r1;
    assert(s =~= task_open() + after_open);
    assert(task_open().len() == 16);
    assert(s.subrange(0, 16) =~= task_open());
    assert(starts_with(s, task_open()));
    assert(s.skip(16) =~= after_open);
    lemma_parse_string_body_of_escape(t.description, r1);
    assert(parse_string_body(s.skip(task_open().len() as int)) == Some((t.description, r1)));
    assert(task_mid().len() == 16);
    let r2 = bool_chars(t.is_completed) + (seq!['}'] + rest);
    assert(r1 =~= task_mid() + r2);
    assert(r1.subrange(0, 16) =~= task_mid());
    assert(starts_with(r1, task_mid()));
    assert(r1.skip(16) =~= r2);
    lemma_parse_bool_of_encode(t.is_completed, seq!['}'] + rest);
    let r3 = seq!['}'] + rest;
    assert(parse_bool(r1.skip(task_mid().len() as int)) == Some((t.is_completed, r3)));
    assert(r3.len() >= 1 && r3[0] == '}');
    assert(r3.skip(1) =~= rest);
    assert((TaskView { description: t.description, is_completed: t.is_completed }) == t);
}

#[verifier::rlimit(50)]
proof fn lemma_parse_tasks_inner_of_encode(ts: Seq<TaskView>, rest: Seq<char>)
    requires
        ts.len() >= 1,
        rest.len() >= 1,
        rest[0] != ',',
    ensures
        parse_tasks_inner(encode_tasks_inner(ts) + rest) == Some((ts, rest)),
    decreases ts.len(),
{
    let s = encode_tasks_inner(ts) + rest;
    if ts.len() == 1 {
        assert(encode_tasks_inner(ts) == encode_task(ts[0]));
        lemma_parse_task_of_encode(ts[0], rest);
        assert(parse_task(s) == Some((ts[0], rest)));
        assert(seq![ts[0]] =~= ts);
    } else {
        let tail = ts.skip(1);
        let rest1 = seq![','] + (encode_tasks_inner(tail) + rest);
        assert(s =~= encode_task(ts[0]) + rest1);
        lemma_parse_task_of_encode(ts[0], rest1);
        assert(parse_task(s) == Some((ts[0], rest1)));
        assert(rest1[0] == ',');
        assert(encode_task(ts[0]).len() >= 16);
        assert(rest1.len() < s.len());
        assert(rest1.skip(1) =~= encode_tasks_inner(tail) + rest);
        lemma_parse_tasks_inner_of_encode(tail, rest);
        assert(parse_tasks_inner(rest1.skip(1)) == Some((tail, rest)));
        assert(seq![ts[0]] + tail =~= ts);
    }
}

/// The round trip behind saving and loading: parsing the encoding of any
/// store yields exactly that store — same descriptions, same completion
/// flags, in the same order — for every store, the empty one included.
pub proof fn lemma_parse_of_encode(ts: Seq<TaskView>)
    ensures
        parse_store(encode_tasks(ts)) == Some(ts),
{
    let s = encode_tasks(ts);
    assert(s[0] == '[');
    if ts.len() == 0 {
        assert(encode_tasks_inner(ts) == Seq::<char>::empty());
        assert(s =~= seq!['[', ']']);
        assert(s.len() == 2 && s[1] == ']');
        assert(Seq::<TaskView>::empty() =~= ts);
    } else {
        assert(encode_tasks_inner(ts).len() >= 16);
        assert(s.len() > 2);
        assert(s.skip(1) =~= encode_tasks_inner(ts) + seq![']']);
        lemma_parse_tasks_inner_of_encode(ts, seq![']']);
        assert(parse_tasks_inner(s.skip(1)) == Some((ts, seq![']'])));
        assert(seq![']'].len() == 1 && seq![']'][0] == ']');
    }
}

fn task_open_vec() -> (v: Vec<char>)
    ensures
        v@ == task_open(),
{
    let v: Vec<char> = vec![
        '{', '"', 'd', 'e', 's', 'c', 'r', 'i', 'p', 't', 'i', 'o', 'n', '"', ':', '"',
    ];
    proof {
        assert(v@ =~= task_open());
    }
    v
}

fn task_mid_vec() -> (v: Vec<char>)
    ensures
        v@ == task_mid(),
{
    let v: Vec<char> = vec![
        ',', '"', 'i', 's', '_', 'c', 'o', 'm', 'p', 'l', 'e', 't', 'e', 'd', '"', ':',
    ];
    proof {
        assert(v@ =~= task_mid());
    }
    v
}

fn bool_vec(b: bool) -> (v: Vec<char>)
    ensures
        v@ == bool_chars(b),
{
    if b {
        let v: Vec<char> = vec!['t', 'r', 'u', 'e'];
        proof {
            assert(v@ =~= bool_chars(true));
        }
        v
    } else {
        let v: Vec<char> = vec!['f', 'a', 'l', 's', 'e'];
        proof {
            assert(v@ =~= bool_chars(false));
        }
        v
    }
}

fn write_escaped(d: &Vec<char>, i: usize, out: &mut Vec<char>)
    requires
        i <= d@.len(),
    ensures
        final(out)@ == old(out)@ + escape(d@.skip(i as int)),
    decreases d@.len() - i,
{
    if i == d.len() {
        proof {
            assert(d@.skip(i as int) =~= Seq::<char>::empty());
            assert(out@ =~= out@ + escape(d@.skip(i as int)));
        }
    } else {
        let c = d[i];
        if c == '"' {
            out.push('\\');
            out.push('"');
        } else if c == '\\' {
            out.push('\\');
            out.push('\\');
        } else if c == '\n' {
            out.push('\\');
            out.push('n');
        } else if c == '\r' {
            out.push('\\');
            out.push('r');
        } else if c == '\t' {
            out.push('\\');
            out.push('t');
        } else {
            out.push(c);
        }
        proof {
            assert(out@ =~= old(out)@ + escape_char(d@[i as int]));
        }
        write_escaped(d, i + 1, out);
        proof {
            assert(d@.skip(i as int)[0] == d@[i as int]);
            assert(d@.skip(i as int).skip(1) =~= d@.skip(i as int + 1));
            assert(out@ =~= old(out)@ + escape(d@.skip(i as int)));
        }
    }
}

fn write_task(t: &Task, out: &mut Vec<char>)
    ensures
        final(out)@ == old(out)@ + encode_task(t@),
{
    let mut open = task_open_vec();
    out.append(&mut open);
    let d = str_chars(t.description.as_str());
    write_escaped(&d, 0, out);
    proof {
        assert(d@.skip(0) =~= d@);
    }
    out.push('"');
    let mut mid = task_mid_vec();
    out.append(&mut mid);
    let mut flag = bool_vec(t.is_completed);
    out.append(&mut flag);
    out.push('}');
    proof {
        assert(out@ =~= old(out)@ + encode_task(t@));
    }
}

fn write_tasks_inner(tasks: &Vec<Task>, i: usize, out: &mut Vec<char>)
    requires
        i < tasks@.len(),
    ensures
        final(out)@ == old(out)@ + encode_tasks_inner(tasks_view(tasks@).skip(i as int)),
    decreases tasks@.len() - i,
{
    let n = tasks.len();
    write_task(&tasks[i], out);
    if i + 1 < n {
        out.push(',');
        write_tasks_inner(tasks, i + 1, out);
        proof {
            let vs = tasks_view(tasks@);
            assert(vs.skip(i as int).len() > 1);
            assert(vs.skip(i as int)[0] == tasks@[i as int]@);
            assert(vs.skip(i as int).skip(1) =~= vs.skip(i as int + 1));
            assert(out@ =~= old(out)@ + encode_tasks_inner(vs.skip(i as int)));
        }
    } else {
        proof {
            let vs = tasks_view(tasks@);
            assert(vs.skip(i as int).len() == 1);
            assert(vs.skip(i as int)[0] == tasks@[i as int]@);
            assert(out@ =~= old(out)@ + encode_tasks_inner(vs.skip(i as int)));
        }
    }
}

impl TodoApp {
    /// The text under which this store is saved: exactly `encode_tasks` of
    /// its contents.
    pub fn serialize(&self) -> (r: String)
        ensures
            r@ == encode_tasks(self@),
    {
        let mut out: Vec<char> = Vec::new();
        out.push('[');
        if self.tasks.len() > 0 {
            write_tasks_inner(&self.tasks, 0, &mut out);
            proof {
                assert(tasks_view(self.tasks@).skip(0) =~= self@);
            }
        } else {
            proof {
                assert(self@.len() == 0);
            }
        }
        out.push(']');
        proof {
            assert(out@ =~= encode_tasks(self@));
        }
        string_from_chars(&out)
    }
}

/// The error reported when loaded text is not a store's encoding.
#[derive(Clone, Copy, PartialEq, Eq, Structural, Debug)]
pub enum ParseError {
    Malformed,
}

fn scan_lit(v: &Vec<char>, i: usize, lit: &Vec<char>) -> (r: Option<usize>)
    requires
        i <= v@.len(),
    ensures
        match r {
            Some(j) => i + lit@.len() == j && j <= v@.len() && starts_with(
                v@.skip(i as int),
                lit@,
            ),
            None => !starts_with(v@.skip(i as int), lit@),
        },
{
    let n = v.len();
    let m = lit.len();
    if n - i < m {
        proof {
            assert(v@.skip(i as int).len() < lit@.len());
        }
        return None;
    }
    let mut k: usize = 0;
    while k < m
        invariant
            i <= n,
            n == v@.len(),
            m == lit@.len(),
            n - i >= m,
            k <= m,
            forall|q: int| 0 <= q < k ==> v@.skip(i as int)[q] == lit@[q],
        decreases m - k,
    {
        if v[i + k] != lit[k] {
            proof {
                assert(v@.skip(i as int)[k as int] == v@[i as int + k]);
                assert(!starts_with(v@.skip(i as int), lit@)) by {
                    if starts_with(v@.skip(i as int), lit@) {
                        assert(v@.skip(i as int).subrange(0, lit@.len() as int)[k as int]
                            == lit@[k as int]);
                        assert(v@.skip(i as int)[k as int] == lit@[k as int]);
                    }
                }
            }
            return None;
        }
        k += 1;
    }
    proof {
        assert(v@.skip(i as int).subrange(0, m as int) =~= lit@);
    }
    Some(i + m)
}

fn scan_string_body(v: &Vec<char>, i: usize) -> (r: Option<(Vec<char>, usize)>)
    requires
        i <= v@.len(),
    ensures
        match r {
            Some(p) => i < p.1 && p.1 <= v@.len() && parse_string_body(v@.skip(i as int)) == Some(
                (p.0@, v@.skip(p.1 as int)),
            ),
            None => parse_string_body(v@.skip(i as int)) is None,
        },
    decreases v@.len() - i,
{
    let n = v.len();
    if i == n {
        proof {
            assert(v@.skip(i as int).len() == 0);
        }
        return None;
    }
    let c = v[i];
    proof {
        assert(v@.skip(i as int)[0] == v@[i as int]);
    }
    if c == '"' {
        proof {
            assert(v@.skip(i as int).skip(1) =~= v@.skip(i as int + 1));
        }
        let empty_vec: Vec<char> = Vec::new();
        return Some((empty_vec, i + 1));
    }
    if c == '\\' {
        if i + 1 == n {
            proof {
                assert(v@.skip(i as int).len() < 2);
            }
            return None;
        }
        let code = v[i + 1];
        proof {
            assert(v@.skip(i as int)[1] == v@[i as int + 1]);
        }
        let ch: char;
        if code == '"' {
            ch = '"';
        } else if code == '\\' {
            ch = '\\';
        } else if code == 'n' {
            ch = '\n';
        } else if code == 'r' {
            ch = '\r';
        } else if code == 't' {
            ch = '\t';
        } else {
            proof {
                assert(unescape_code(v@.skip(i as int)[1]) is None);
            }
            return None;
        }
        proof {
            assert(unescape_code(v@.skip(i as int)[1]) == Some(ch));
            assert(v@.skip(i as int).skip(2) =~= v@.skip(i as int + 2));
        }
        match scan_string_body(v, i + 2) {
            None => {
                return None;
            },
            Some((mut dvec, j)) => {
                let ghost dpre = dvec@;
                dvec.insert(0, ch);
                proof {
                    assert(dvec@ =~= seq![ch] + dpre);
                }
                return Some((dvec, j));
            },
        }
    }
    proof {
        assert(v@.skip(i as int).skip(1) =~= v@.skip(i as int + 1));
    }
    match scan_string_body(v, i + 1) {
        None => None,
        Some((mut dvec, j)) => {
            let ghost dpre = dvec@;
            dvec.insert(0, c);
            proof {
                assert(dvec@ =~= seq![c] + dpre);
            }
            Some((dvec, j))
        },
    }
}

fn scan_task(v: &Vec<char>, i: usize) -> (r: Option<(Task, usize)>)
    requires
        i <= v@.len(),
    ensures
        match r {
            Some(p) => i < p.1 && p.1 <= v@.len() && parse_task(v@.skip(i as int)) == Some(
                (p.0@, v@.skip(p.1 as int)),
            ),
            None => parse_task(v@.skip(i as int)) is None,
        },
{
    let open = task_open_vec();
    let j0 = match scan_lit(v, i, &open) {
        None => {
            return None;
        },
        Some(j) => j,
    };
    proof {
        assert(v@.skip(i as int).skip(task_open().len() as int) =~= v@.skip(j0 as int));
    }
    let (dvec, j1) = match scan_string_body(v, j0) {
        None => {
            return None;
        },
        Some(p) => p,
    };
    let mid = task_mid_vec();
    let j2 = match scan_lit(v, j1, &mid) {
        None => {
            return None;
        },
        Some(j) => j,
    };
    proof {
        assert(v@.skip(j1 as int).skip(task_mid().len() as int) =~= v@.skip(j2 as int));
    }
    let tv = bool_vec(true);
    let (flag, j3): (bool, usize) = match scan_lit(v, j2, &tv) {
        Some(j) => {
            proof {
                assert(v@.skip(j2 as int).skip(4) =~= v@.skip(j as int));
            }
            (true, j)
        },
        None => {
            let fv = bool_vec(false);
            match scan_lit(v, j2, &fv) {
                Some(j) => {
                    proof {
                        assert(v@.skip(j2 as int).skip(5) =~= v@.skip(j as int));
                    }
                    (false, j)
                },
                None => {
                    proof {
                        assert(parse_bool(v@.skip(j2 as int)) is None);
                    }
                    return None;
                },
            }
        },
    };
    proof {
        assert(parse_bool(v@.skip(j2 as int)) == Some((flag, v@.skip(j3 as int))));
    }
    let n = v.len();
    if j3 == n {
        proof {
            assert(v@.skip(j3 as int).len() == 0);
        }
        return None;
    }
    let cb = v[j3];
    proof {
        assert(v@.skip(j3 as int)[0] == v@[j3 as int]);
    }
    if cb != '}' {
        return None;
    }
    proof {
        assert(v@.skip(j3 as int).skip(1) =~= v@.skip(j3 as int + 1));
    }
    let t = Task { description: string_from_chars(&dvec), is_completed: flag };
    Some((t, j3 + 1))
}

fn scan_tasks_inner(v: &Vec<char>, i: usize) -> (r: Option<(Vec<Task>, usize)>)
    requires
        i <= v@.len(),
    ensures
        match r {
            Some(p) => i < p.1 && p.1 <= v@.len() && parse_tasks_inner(v@.skip(i as int)) == Some(
                (tasks_view(p.0@), v@.skip(p.1 as int)),
            ),
            None => parse_tasks_inner(v@.skip(i as int)) is None,
        },
    decreases v@.len() - i,
{
    let (t, j) = match scan_task(v, i) {
        None => {
            return None;
        },
        Some(p) => p,
    };
    let n = v.len();
    if j < n {
        let c = v[j];
        proof {
            assert(v@.skip(j as int)[0] == v@[j as int]);
        }
        if c == ',' {
            proof {
                assert(v@.skip(j as int).skip(1) =~= v@.skip(j as int + 1));
            }
            match scan_tasks_inner(v, j + 1) {
                None => {
                    return None;
                },
                Some((mut ts, j2)) => {
                    let ghost tspre = ts@;
                    ts.insert(0, t);
                    proof {
                        assert(ts@ =~= seq![t] + tspre);
                        assert(tasks_view(ts@) =~= seq![t@] + tasks_view(tspre));
                    }
                    return Some((ts, j2));
                },
            }
        }
    }
    let mut ts: Vec<Task> = Vec::new();
    ts.push(t);
    proof {
        assert(tasks_view(ts@) =~= seq![t@]);
    }
    Some((ts, j))
}

fn scan_store(v: &Vec<char>) -> (r: Option<Vec<Task>>)
    ensures
        match r {
            Some(ts) => parse_store(v@) == Some(tasks_view(ts@)),
            None => parse_store(v@) is None,
        },
{
    let n = v.len();
    if n == 0 {
        return None;
    }
    let c0 = v[0];
    if c0 != '[' {
        return None;
    }
    if n == 2 && v[1] == ']' {
        let ts: Vec<Task> = Vec::new();
        proof {
            assert(tasks_view(ts@) =~= Seq::<TaskView>::empty());
        }
        return Some(ts);
    }
    match scan_tasks_inner(v, 1) {
        None => None,
        Some((ts, j)) => {
            if n - j == 1 {
                let cj = v[j];
                proof {
                    assert(v@.skip(j as int)[0] == v@[j as int]);
                    assert(v@.skip(j as int).len() == 1);
                }
                if cj == ']' {
                    Some(ts)
                } else {
                    None
                }
            } else {
                proof {
                    assert(v@.skip(j as int).len() != 1);
                }
                None
            }
        },
    }
}

impl TodoApp {
    /// Parses saved text back into a store. Exactly the texts that
    /// `serialize` writes are accepted; on any of them the resulting store
    /// holds the very tasks that were saved, and every other text is
    /// reported as malformed.
    pub fn deserialize(s: &str) -> (r: Result<TodoApp, ParseError>)
        ensures
            r matches Ok(app) ==> parse_store(s@) == Some(app@),
            r is Err ==> parse_store(s@) is None,
            forall|ts: Seq<TaskView>|
                s@ == encode_tasks(ts) ==> (r matches Ok(app) && app@ == ts),
    {
        let v = str_chars(s);
        let r: Result<TodoApp, ParseError> = match scan_store(&v) {
            Some(ts) => Ok(TodoApp { tasks: ts }),
            None => Err(ParseError::Malformed),
        };
        proof {
            assert forall|ts: Seq<TaskView>|
                s@ == encode_tasks(ts) implies (r matches Ok(app) && app@ == ts) by {
                lemma_parse_of_encode(ts);
            };
        }
        r
    }
}

} // verus!

//! Normalizing a line read from a terminal.
use vstd::prelude::*;

verus! {

/// The character a terminal sends for Ctrl-U, which erases the line typed so far.
pub const KILL_LINE: char = '\u{15}';

/// What remains of a line after the last Ctrl-U: the characters after it,
/// or the whole line where there is none.
pub open spec fn after_last_kill(s: Seq<char>) -> Seq<char>
    decreases s.len(),
{
    if s.len() == 0 {
        s
    } else if s.last() == KILL_LINE {
        Seq::empty()
    } else {
        after_last_kill(s.drop_last()).push(s.last())
    }
}

/// A line without its final line feed, and without one carriage return or
/// line feed before it.
pub open spec fn strip_line_end(s: Seq<char>) -> Seq<char> {
    let a = s.drop_last();
    if a.len() > 0 && (a.last() == '\r' || a.last() == '\n') {
        a.drop_last()
    } else {
        a
    }
}

proof fn lemma_after_last_kill(s: Seq<char>, start: int)
    requires
        0 <= start <= s.len(),
        start == 0 || s[start - 1] == KILL_LINE,
        forall|j: int| start <= j < s.len() ==> s[j] != KILL_LINE,
    ensures
        after_last_kill(s) == s.subrange(start, s.len() as int),
    decreases s.len(),
{
    if s.len() > 0 {
        if start == s.len() {
            assert(s.subrange(start, s.len() as int) =~= Seq::<char>::empty());
        } else {
            lemma_after_last_kill(s.drop_last(), start);
            assert(s.subrange(start, s.len() as int) =~= s.drop_last().subrange(
                start,
                s.len() - 1,
            ).push(s.last()));
        }
    }
}

/// Normalizes a line as a terminal's `read_line` gives it: `None` where it
/// does not end with a line feed (the input ended); otherwise the line
/// without its line ending, and without anything up to the last Ctrl-U.
pub fn fix_line_issues(line: String) -> (r: Option<String>)
    ensures
        r is None <==> (line@.len() == 0 || line@.last() != '\n'),
        r matches Some(s) ==> s@ == after_last_kill(strip_line_end(line@)),
{
    let n = line.as_str().unicode_len();
    if n == 0 || line.as_str().get_char(n - 1) != '\n' {
        return None;
    }
    let mut m: usize = n - 1;
    if m > 0 {
        let c = line.as_str().get_char(m - 1);
        if c == '\r' || c == '\n' {
            m = m - 1;
        }
    }
    let ghost stripped = strip_line_end(line@);
    assert(stripped =~= line@.subrange(0, m as int));
    let mut start: usize = m;
    while start > 0 && line.as_str().get_char(start - 1) != KILL_LINE
        invariant
            start <= m,
            m < n,
            n == line@.len(),
            forall|j: int| start <= j < m ==> line@[j] != KILL_LINE,
        decreases start,
    {
        start = start - 1;
    }
    proof {
        lemma_after_last_kill(stripped, start as int);
        assert(stripped.subrange(start as int, m as int) =~= line@.subrange(start as int, m as int));
    }
    Some(line.as_str().substring_char(start, m).to_owned())
}

} // verus!

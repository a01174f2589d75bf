use vstd::prelude::*;

use crate::errors::ShellError;

verus! {

/// No two consecutive entries of the log are equal.
pub open spec fn no_adjacent_dups(s: Seq<Seq<char>>) -> bool {
    forall|i: int| 0 <= i < s.len() - 1 ==> #[trigger] s[i] != s[i + 1]
}

/// What appending each line of `lines` in turn leaves the log as: a line is
/// added only when the log is empty or its last entry differs.
pub open spec fn append_all_spec(h: Seq<Seq<char>>, lines: Seq<Seq<char>>) -> Seq<Seq<char>>
    decreases lines.len(),
{
    if lines.len() == 0 {
        h
    } else {
        let h1 = if h.len() > 0 && h.last() == lines[0] {
            h
        } else {
            h.push(lines[0])
        };
        append_all_spec(h1, lines.skip(1))
    }
}

/// The ordered log of previously submitted command lines.
///
/// Insertion order is chronological order. Appending the same line twice in
/// a row stores it once: the log never holds two adjacent equal entries.
pub struct History {
    entries: Vec<String>,
}

impl View for History {
    type V = Seq<Seq<char>>;

    closed spec fn view(&self) -> Seq<Seq<char>> {
        self.entries.deep_view()
    }
}

impl History {
    /// The no-adjacent-duplicates invariant; established by `new` and kept
    /// by `append`.
    pub open spec fn wf(self) -> bool {
        no_adjacent_dups(self@)
    }

    /// An empty log.
    pub fn new() -> (h: History)
        ensures
            h@ =~= Seq::<Seq<char>>::empty(),
            h.wf(),
    {
        let h = History { entries: Vec::new() };
        proof {
            assert(h@ =~= Seq::<Seq<char>>::empty());
        }
        h
    }

    /// The number of stored lines.
    pub fn len(&self) -> (n: usize)
        ensures
            n == self@.len(),
    {
        self.entries.len()
    }

    /// Appends `line` unless it equals the last stored entry.
    pub fn append(&mut self, line: String)
        requires
            old(self).wf(),
        ensures
            final(self).wf(),
            final(self)@ == if old(self)@.len() > 0 && old(self)@.last() == line@ {
                old(self)@
            } else {
                old(self)@.push(line@)
            },
    {
        let n = self.entries.len();
        if n > 0 {
            let last = &self.entries[n - 1];
            if last.eq(&line) {
                return ;
            }
        }
        self.entries.push(line);
        proof {
            assert(self@ =~= old(self)@.push(line@));
        }
    }

    /// The stored line at `index`; `OutOfRange` when `index` is at or past
    /// the end.
    pub fn get(&self, index: usize) -> (r: Result<&String, ShellError>)
        ensures
            index < self@.len() ==> (r matches Ok(s) && s@ == self@[index as int]),
            index >= self@.len() ==> (r matches Err(e) && e == ShellError::OutOfRange),
    {
        if index < self.entries.len() {
            Ok(&self.entries[index])
        } else {
            Err(ShellError::OutOfRange)
        }
    }

    /// The stored line at a known-good `index`.
    pub fn entry(&self, index: usize) -> (s: &String)
        requires
            index < self@.len(),
        ensures
            s@ == self@[index as int],
    {
        &self.entries[index]
    }

    /// The most recently stored line, if any.
    pub fn last(&self) -> (r: Option<&String>)
        ensures
            self@.len() > 0 ==> (r matches Some(s) && s@ == self@.last()),
            self@.len() == 0 ==> r is None,
    {
        if self.entries.len() > 0 {
            Some(&self.entries[self.entries.len() - 1])
        } else {
            None
        }
    }

    /// Appends every line of `lines` in order. Whatever the sequence of
    /// submitted lines, the log never holds two adjacent equal entries.
    pub fn append_all(&mut self, lines: &Vec<String>)
        requires
            old(self).wf(),
        ensures
            final(self).wf(),
            final(self)@ == append_all_spec(old(self)@, lines.deep_view()),
    {
        let n = lines.len();
        let mut i: usize = 0;
        proof {
            assert(lines.deep_view().skip(0) =~= lines.deep_view());
        }
        while i < n
            invariant
                self.wf(),
                n == lines.len(),
                i <= n,
                lines.deep_view().len() == n,
                append_all_spec(old(self)@, lines.deep_view()) == append_all_spec(
                    self@,
                    lines.deep_view().skip(i as int),
                ),
            decreases n - i,
        {
            proof {
                assert(lines.deep_view()[i as int] == lines[i as int]@);
                assert(lines.deep_view().skip(i as int).skip(1) =~= lines.deep_view().skip(
                    i as int + 1,
                ));
            }
            self.append(lines[i].clone());
            i += 1;
        }
        proof {
            assert(lines.deep_view().skip(n as int) =~= Seq::<Seq<char>>::empty());
        }
    }
}

} // verus!

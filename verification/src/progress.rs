//! What an FFmpeg run reports on its error output: the `time=` fields that
//! drive the progress bar, and the last lines kept for the failure message.
use vstd::prelude::*;
use crate::text::{owned, push_char, push_str, strs};

verus! {

/// What compiling `pattern` with `regex::Regex::new` and then running
/// `captures` on `text` gives: `None` when the pattern does not compile or
/// does not match; else the text of each group, group 0 (the whole match)
/// first, `None` for a group that took no part in the match.
pub uninterp spec fn regex_captures(pattern: Seq<char>, text: Seq<char>) -> Option<Seq<Option<Seq<char>>>>;

/// The texts of captured groups.
pub open spec fn group_texts(v: Seq<Option<String>>) -> Seq<Option<Seq<char>>> {
    v.map_values(|g: Option<String>| match g {
        Some(s) => Some(s@),
        None => None,
    })
}

/// `regex::Regex::new(pattern)` and `Regex::captures(text)`, each group
/// handed back as an owned string. The result is named `regex_captures` of
/// the pattern and the text; which groups match is not spelled out here.
#[verifier::external_body]
fn captures_of(pattern: &str, text: &str) -> (r: Option<Vec<Option<String>>>)
    ensures
        match r {
            Some(v) => regex_captures(pattern@, text@) == Some(group_texts(v@)),
            None => regex_captures(pattern@, text@) is None,
        },
{
    let re = regex::Regex::new(pattern).ok()?;
    let caps = re.captures(text)?;
    Some(caps.iter().map(|g| g.map(|m| m.as_str().to_string())).collect())
}

/// The pattern of a progress line: `time=HH:MM:SS.ss`.
pub open spec fn time_pattern_text() -> Seq<char> {
    "time=(\\d{2}):(\\d{2}):(\\d{2}\\.\\d{2})"@
}

/// The pattern of a progress line: `time=HH:MM:SS.ss`.
pub fn time_pattern() -> (p: &'static str)
    ensures
        p@ == time_pattern_text(),
{
    "time=(\\d{2}):(\\d{2}):(\\d{2}\\.\\d{2})"
}

/// Hours, minutes and seconds: groups 1, 2 and 3 of a match.
pub open spec fn time_fields_from(caps: Option<Seq<Option<Seq<char>>>>) -> Option<(Seq<char>, Seq<char>, Seq<char>)> {
    match caps {
        Some(g) => if g.len() >= 4 && g[1] is Some && g[2] is Some && g[3] is Some {
            Some((g[1]->0, g[2]->0, g[3]->0))
        } else {
            None
        },
        None => None,
    }
}

/// The hours, minutes and seconds that a line of FFmpeg's error output
/// reports with `time=HH:MM:SS.ss`, if any.
pub open spec fn time_fields(line: Seq<char>) -> Option<(Seq<char>, Seq<char>, Seq<char>)> {
    time_fields_from(regex_captures(time_pattern_text(), line))
}

/// The character sequences of three strings.
pub open spec fn fields_view(r: Option<(String, String, String)>) -> Option<(Seq<char>, Seq<char>, Seq<char>)> {
    match r {
        Some((h, m, s)) => Some((h@, m@, s@)),
        None => None,
    }
}

/// Groups 1, 2 and 3 of captured groups, when all three took part.
pub fn time_fields_of_captures(caps: Option<Vec<Option<String>>>) -> (r: Option<(String, String, String)>)
    ensures
        fields_view(r) == time_fields_from(match caps {
            Some(v) => Some(group_texts(v@)),
            None => None,
        }),
{
    match caps {
        None => None,
        Some(v) => {
            let ghost g = group_texts(v@);
            if v.len() < 4 {
                return None;
            }
            let mut v = v;
            let third: Option<String> = v.remove(3);
            let second: Option<String> = v.remove(2);
            let first: Option<String> = v.remove(1);
            assert(g[1] == match first { Some(s) => Some(s@), None => None::<Seq<char>> });
            assert(g[2] == match second { Some(s) => Some(s@), None => None::<Seq<char>> });
            assert(g[3] == match third { Some(s) => Some(s@), None => None::<Seq<char>> });
            match (first, second, third) {
                (Some(h), Some(m), Some(s)) => Some((h, m, s)),
                _ => None,
            }
        },
    }
}

/// The `time=` fields of one line of FFmpeg's error output (see
/// `time_fields`).
pub fn progress_time_fields(line: &str) -> (r: Option<(String, String, String)>)
    ensures
        fields_view(r) == time_fields(line@),
{
    let caps = captures_of(time_pattern(), line);
    time_fields_of_captures(caps)
}

/// How many lines of error output a run keeps for its failure message.
pub const TAIL_LINES: usize = 100;

/// The last (at most) hundred lines of `s`.
pub open spec fn keep_last(s: Seq<Seq<char>>) -> Seq<Seq<char>> {
    if s.len() > TAIL_LINES {
        s.subrange(s.len() - TAIL_LINES, s.len() as int)
    } else {
        s
    }
}

/// The last hundred lines of an FFmpeg run's error output, oldest first.
pub struct StderrTail {
    lines: Vec<String>,
}

impl View for StderrTail {
    type V = Seq<Seq<char>>;

    open spec fn view(&self) -> Seq<Seq<char>> {
        self.lines()
    }
}

impl StderrTail {
    /// The lines kept, oldest first.
    pub closed spec fn lines(&self) -> Seq<Seq<char>> {
        strs(self.lines@)
    }

    /// No line kept yet.
    pub fn new() -> (t: StderrTail)
        ensures
            t@ == Seq::<Seq<char>>::empty(),
    {
        let t = StderrTail { lines: Vec::new() };
        assert(t@ =~= Seq::<Seq<char>>::empty());
        t
    }

    /// Keeps `line`, dropping the oldest line once more than a hundred are
    /// kept.
    pub fn push(&mut self, line: String)
        ensures
            final(self)@ == keep_last(old(self)@.push(line@)),
    {
        let ghost all = old(self)@.push(line@);
        self.lines.push(line);
        assert(strs(self.lines@) =~= all);
        let ghost mut k: int = 0;
        while self.lines.len() > TAIL_LINES
            invariant
                0 <= k <= all.len(),
                self.lines@.len() + k == all.len(),
                k == 0 || all.len() - k >= TAIL_LINES,
                strs(self.lines@) == all.subrange(k, all.len() as int),
            decreases self.lines.len(),
        {
            let ghost before = self.lines@;
            self.lines.remove(0);
            proof {
                assert(strs(before) == all.subrange(k, all.len() as int));
                assert forall|j: int| 0 <= j < self.lines@.len() implies #[trigger] strs(self.lines@)[j] == all[k + 1 + j] by {
                    assert(self.lines@[j] == before[j + 1]);
                    assert(strs(before)[j + 1] == all[k + 1 + j]);
                }
                assert(strs(self.lines@) =~= all.subrange(k + 1, all.len() as int));
                k = k + 1;
            }
        }
        proof {
            assert(strs(self.lines@) =~= keep_last(all));
        }
    }

    /// The number of lines kept.
    pub fn len(&self) -> (n: usize)
        ensures
            n == self@.len(),
    {
        self.lines.len()
    }
}

/// Lines joined by `\n`.
pub open spec fn join_lines(s: Seq<Seq<char>>) -> Seq<char>
    decreases s.len(),
{
    if s.len() == 0 {
        Seq::empty()
    } else if s.len() == 1 {
        s[0]
    } else {
        join_lines(s.drop_last()) + "\n"@ + s.last()
    }
}

/// The message of a failed run: its exit status, then the kept lines (or a
/// note that none was captured).
pub open spec fn failure_text(status: Seq<char>, lines: Seq<Seq<char>>) -> Seq<char> {
    let log = join_lines(lines);
    "FFmpeg exited with status: "@ + status + "\n--- FFmpeg Stderr Log ---\n"@ + if log.len() == 0 {
        "[No log output captured]"@
    } else {
        log
    }
}

/// The message of a failed run (see `failure_text`).
pub fn failure_message(status: &str, tail: &StderrTail) -> (m: String)
    ensures
        m@ == failure_text(status@, tail@),
{
    let ghost lines = tail@;
    let n: usize = tail.lines.len();
    let mut log: String = String::new();
    let mut i: usize = 0;
    proof {
        reveal_strlit("");
        assert(lines.take(0) =~= Seq::<Seq<char>>::empty());
    }
    while i < n
        invariant
            i <= n,
            n == lines.len(),
            lines == strs(tail.lines@),
            log@ == join_lines(lines.take(i as int)),
        decreases n - i,
    {
        proof {
            assert(lines.take(i + 1).drop_last() =~= lines.take(i as int));
        }
        if i > 0 {
            push_char(&mut log, '\n');
            proof {
                reveal_strlit("\n");
            }
        }
        push_str(&mut log, tail.lines[i].as_str());
        proof {
            assert(log@ =~= join_lines(lines.take(i + 1)));
        }
        i = i + 1;
    }
    proof {
        assert(lines.take(n as int) =~= lines);
    }
    let mut m: String = owned("FFmpeg exited with status: ");
    push_str(&mut m, status);
    push_str(&mut m, "\n--- FFmpeg Stderr Log ---\n");
    if log.unicode_len() == 0 {
        push_str(&mut m, "[No log output captured]");
    } else {
        push_str(&mut m, log.as_str());
    }
    m
}

} // verus!

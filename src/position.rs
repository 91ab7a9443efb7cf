use vstd::prelude::*;
use crate::lexer::LF;
use crate::suppression::line_start;
use crate::finding::{Finding, Severity};

verus! {

/// Line feeds among the first `i` bytes.
pub open spec fn newlines_before(s: Seq<u8>, i: int) -> int
    decreases i,
{
    if i <= 0 {
        0
    } else {
        newlines_before(s, i - 1) + if s[i - 1] == LF {
            1int
        } else {
            0
        }
    }
}

proof fn lemma_line_start_le(s: Seq<u8>, i: int)
    requires
        0 <= i <= s.len(),
    ensures
        0 <= line_start(s, i) <= i,
    decreases i,
{
    if i > 0 && s[i - 1] != LF {
        lemma_line_start_le(s, i - 1);
    }
}

/// The one-based line and column of byte `offset`; columns count bytes.
pub fn line_col(src: &[u8], offset: usize) -> (r: (usize, usize))
    requires
        offset <= src@.len(),
        offset < usize::MAX,
    ensures
        r.0 == newlines_before(src@, offset as int) + 1,
        r.1 == offset - line_start(src@, offset as int) + 1,
{
    let mut lines: usize = 0;
    let mut i: usize = 0;
    while i < offset
        invariant
            i <= offset <= src@.len(),
            lines == newlines_before(src@, i as int),
            lines <= i,
        decreases offset - i,
    {
        if src[i] == LF {
            lines = lines + 1;
        }
        i = i + 1;
    }
    let mut ls = offset;
    while ls > 0 && src[ls - 1] != LF
        invariant
            ls <= offset <= src@.len(),
            line_start(src@, ls as int) == line_start(src@, offset as int),
        decreases ls,
    {
        ls = ls - 1;
    }
    proof {
        lemma_line_start_le(src@, offset as int);
    }
    (lines + 1, offset - ls + 1)
}

/// How many findings have each severity.
#[derive(Clone, Copy, Debug, PartialEq, Eq, Structural)]
pub struct Summary {
    pub info: usize,
    pub warning: usize,
    pub error: usize,
}

/// Findings among the first `n` with severity `s`.
pub open spec fn count_severity(fs: Seq<Finding>, s: Severity, n: int) -> int
    decreases n,
{
    if n <= 0 {
        0
    } else {
        count_severity(fs, s, n - 1) + if fs[n - 1].severity == s {
            1int
        } else {
            0
        }
    }
}

proof fn lemma_count_severity_bound(fs: Seq<Finding>, s: Severity, n: int)
    requires
        0 <= n,
    ensures
        0 <= count_severity(fs, s, n) <= n,
    decreases n,
{
    if n > 0 {
        lemma_count_severity_bound(fs, s, n - 1);
    }
}

impl Summary {
    /// Counts the findings of each severity.
    pub fn of(fs: &Vec<Finding>) -> (r: Summary)
        ensures
            r.info == count_severity(fs@, Severity::Info, fs@.len() as int),
            r.warning == count_severity(fs@, Severity::Warning, fs@.len() as int),
            r.error == count_severity(fs@, Severity::Error, fs@.len() as int),
    {
        let mut r = Summary { info: 0, warning: 0, error: 0 };
        let mut i: usize = 0;
        while i < fs.len()
            invariant
                i <= fs@.len(),
                r.info == count_severity(fs@, Severity::Info, i as int),
                r.warning == count_severity(fs@, Severity::Warning, i as int),
                r.error == count_severity(fs@, Severity::Error, i as int),
            decreases fs.len() - i,
        {
            proof {
                lemma_count_severity_bound(fs@, Severity::Info, i as int);
                lemma_count_severity_bound(fs@, Severity::Warning, i as int);
                lemma_count_severity_bound(fs@, Severity::Error, i as int);
            }
            match fs[i].severity {
                Severity::Info => r.info = r.info + 1,
                Severity::Warning => r.warning = r.warning + 1,
                Severity::Error => r.error = r.error + 1,
            }
            i = i + 1;
        }
        r
    }

    /// Whether any finding is an error, for callers that map it to an exit code.
    pub fn has_errors(&self) -> (r: bool)
        ensures
            r == (self.error > 0),
    {
        self.error > 0
    }
}

} // verus!

//! The event pipeline: filters input lines by class, resolves each accepted
//! report's identity key and records it in the aggregation table.
use vstd::prelude::*;

use crate::detector::fmri_of;
use crate::event::{time_error, time_ok, Ereport, TimeError};
use crate::table::{reports_for, DeviceHash};

verus! {

/// One input line as read: its class, where the line parsed as an object
/// with a class, and the full report, where it parsed as one.
pub struct ParsedLine {
    pub class: Option<String>,
    pub ereport: Option<Ereport>,
}

/// What the class filter decides for a line.
#[derive(Debug, PartialEq, Eq, Structural, Clone, Copy)]
pub enum LineFilter {
    /// The class does not start with `ereport.`.
    NotEreport,
    /// A filesystem report (`ereport.fs.`), left out by design.
    Filesystem,
    /// A log-internal report of the fault-management daemon
    /// (`ereport.fm.fmd.log_`), which has no detector.
    FmdLog,
    /// A report to aggregate.
    Accepted,
}

/// What became of a line that did not end the run.
#[derive(Debug, PartialEq, Eq, Structural, Clone, Copy)]
pub enum LineOutcome {
    /// Left out by the class filter.
    Skipped(LineFilter),
    /// Recorded in the table.
    Recorded,
    /// Dropped, with a diagnostic: its detector has no identity key.
    Dropped,
}

/// Why a line ends the run.
#[derive(Debug, PartialEq, Eq, Structural, Clone, Copy)]
pub enum FatalKind {
    /// The line is not an object with a class.
    MalformedLine,
    /// An accepted line does not hold a full report.
    MalformedEreport,
    /// An accepted report has no usable event time.
    BadTime(TimeError),
}

/// A fatal error, with the index of the line that caused it.
#[derive(Debug, PartialEq, Eq, Structural, Clone, Copy)]
pub struct FatalError {
    pub line: usize,
    pub kind: FatalKind,
}

pub open spec fn ereport_prefix() -> Seq<char> {
    seq!['e', 'r', 'e', 'p', 'o', 'r', 't', '.']
}

pub open spec fn fs_prefix() -> Seq<char> {
    ereport_prefix() + seq!['f', 's', '.']
}

pub open spec fn fmd_log_prefix() -> Seq<char> {
    ereport_prefix() + seq!['f', 'm', '.', 'f', 'm', 'd', '.', 'l', 'o', 'g', '_']
}

/// The class filter.
pub open spec fn filter_of(class: Seq<char>) -> LineFilter {
    if !ereport_prefix().is_prefix_of(class) {
        LineFilter::NotEreport
    } else if fs_prefix().is_prefix_of(class) {
        LineFilter::Filesystem
    } else if fmd_log_prefix().is_prefix_of(class) {
        LineFilter::FmdLog
    } else {
        LineFilter::Accepted
    }
}

/// What one line does to the table: the new table and the line's outcome,
/// or the reason the run ends.
pub open spec fn line_step(m: Map<Seq<char>, Seq<Ereport>>, line: ParsedLine) -> Result<
    (Map<Seq<char>, Seq<Ereport>>, LineOutcome),
    FatalKind,
> {
    match line.class {
        None => Err(FatalKind::MalformedLine),
        Some(c) => if filter_of(c@) != LineFilter::Accepted {
            Ok((m, LineOutcome::Skipped(filter_of(c@))))
        } else {
            match line.ereport {
                None => Err(FatalKind::MalformedEreport),
                Some(e) => match fmri_of(e.detector) {
                    None => Ok((m, LineOutcome::Dropped)),
                    Some(k) => if time_ok(e) {
                        Ok((m.insert(k, reports_for(m, k).push(e)), LineOutcome::Recorded))
                    } else {
                        Err(FatalKind::BadTime(time_error(e)))
                    },
                },
            }
        },
    }
}

/// The state of a run: the table, the indices of the lines dropped with a
/// diagnostic, and the fatal error that ended the run, if one did.
pub type RunModel = (Map<Seq<char>, Seq<Ereport>>, Seq<usize>, Option<FatalError>);

/// The run over `lines`. Lines after a fatal error change nothing.
pub open spec fn run_spec(lines: Seq<ParsedLine>) -> RunModel
    decreases lines.len(),
{
    if lines.len() == 0 {
        (Map::empty(), Seq::empty(), None)
    } else {
        let (m, dropped, fatal) = run_spec(lines.drop_last());
        if fatal is Some {
            (m, dropped, fatal)
        } else {
            let i = (lines.len() - 1) as usize;
            match line_step(m, lines.last()) {
                Err(kind) => (m, dropped, Some(FatalError { line: i, kind })),
                Ok((m2, LineOutcome::Dropped)) => (m2, dropped.push(i), None),
                Ok((m2, _)) => (m2, dropped, None),
            }
        }
    }
}

/// Whether `s` starts with `p`.
pub fn has_prefix(s: &str, p: &str) -> (r: bool)
    ensures
        r == p@.is_prefix_of(s@),
{
    let n = s.unicode_len();
    let m = p.unicode_len();
    if m > n {
        return false;
    }
    let mut i: usize = 0;
    while i < m
        invariant
            m <= n,
            n == s@.len(),
            m == p@.len(),
            i <= m,
            forall|k: int| 0 <= k < i ==> s@[k] == p@[k],
        decreases m - i,
    {
        if s.get_char(i) != p.get_char(i) {
            return false;
        }
        i = i + 1;
    }
    assert(p@ =~= s@.subrange(0, m as int));
    true
}

/// The class filter on one class.
pub fn classify(class: &str) -> (r: LineFilter)
    ensures
        r == filter_of(class@),
{
    proof {
        reveal_strlit("ereport.");
        reveal_strlit("ereport.fs.");
        reveal_strlit("ereport.fm.fmd.log_");
        assert("ereport."@ =~= ereport_prefix());
        assert("ereport.fs."@ =~= fs_prefix());
        assert("ereport.fm.fmd.log_"@ =~= fmd_log_prefix());
    }
    if !has_prefix(class, "ereport.") {
        LineFilter::NotEreport
    } else if has_prefix(class, "ereport.fs.") {
        LineFilter::Filesystem
    } else if has_prefix(class, "ereport.fm.fmd.log_") {
        LineFilter::FmdLog
    } else {
        LineFilter::Accepted
    }
}

/// Feeds one line to the table.
pub fn process_line(table: &mut DeviceHash, line: ParsedLine) -> (r: Result<LineOutcome, FatalKind>)
    requires
        old(table).wf(),
    ensures
        final(table).wf(),
        match line_step(old(table)@, line) {
            Ok((m, o)) => r == Ok::<LineOutcome, FatalKind>(o) && final(table)@ == m,
            Err(k) => r == Err::<LineOutcome, FatalKind>(k) && final(table)@ == old(table)@,
        },
{
    let class = match line.class {
        None => {
            return Err(FatalKind::MalformedLine);
        },
        Some(c) => c,
    };
    let f = classify(class.as_str());
    if f != LineFilter::Accepted {
        return Ok(LineOutcome::Skipped(f));
    }
    let ereport = match line.ereport {
        None => {
            return Err(FatalKind::MalformedEreport);
        },
        Some(e) => e,
    };
    match ereport.detector.get_fmristr() {
        None => Ok(LineOutcome::Dropped),
        Some(key) => match table.record(key, ereport) {
            Ok(()) => Ok(LineOutcome::Recorded),
            Err(e) => Err(FatalKind::BadTime(e)),
        },
    }
}

/// The outcome of a run: the table, the indices of the lines dropped with a
/// diagnostic, in input order, and the fatal error that ended the run, if
/// one did. After a fatal error no report is owed.
pub struct RunResult {
    pub table: DeviceHash,
    pub dropped: Vec<usize>,
    pub fatal: Option<FatalError>,
}

/// Runs the pipeline over all lines, stopping at the first fatal error.
pub fn process_lines(lines: Vec<ParsedLine>) -> (r: RunResult)
    ensures
        r.table.wf(),
        (r.table@, r.dropped@, r.fatal) == run_spec(lines@),
{
    let ghost orig = lines@;
    let mut rest = lines;
    let mut table = DeviceHash::new();
    let mut dropped: Vec<usize> = Vec::new();
    let n = rest.len();
    let mut i: usize = 0;
    assert(orig.subrange(0, 0) =~= Seq::<ParsedLine>::empty());
    while i < n
        invariant
            n == rest@.len(),
            n == orig.len(),
            orig == lines@,
            i <= n,
            table.wf(),
            forall|k: int| i <= k < n ==> rest@[k] == orig[k],
            run_spec(orig.subrange(0, i as int)) == (table@, dropped@, None::<FatalError>),
        decreases n - i,
    {
        let mut line = ParsedLine { class: None, ereport: None };
        std::mem::swap(&mut line, &mut rest[i]);
        assert(line == orig[i as int]);
        let ghost pre = orig.subrange(0, i + 1);
        assert(pre.drop_last() =~= orig.subrange(0, i as int));
        assert(pre.last() == line);
        let ghost before = table@;
        let ghost step = line_step(before, line);
        match process_line(&mut table, line) {
            Err(kind) => {
                let fatal = FatalError { line: i, kind };
                proof {
                    assert(step == Err::<(Map<Seq<char>, Seq<Ereport>>, LineOutcome), FatalKind>(kind));
                    assert(run_spec(pre) == (table@, dropped@, Some(fatal)));
                    lemma_run_prefix_fatal(orig, (i + 1) as int);
                    assert(orig.subrange(0, (i + 1) as int) == pre);
                }
                return RunResult { table, dropped, fatal: Some(fatal) };
            },
            Ok(LineOutcome::Dropped) => {
                dropped.push(i);
            },
            Ok(_) => {},
        }
        i = i + 1;
    }
    assert(orig.subrange(0, n as int) =~= orig);
    RunResult { table, dropped, fatal: None }
}

/// A line whose class passes the filter but which does not hold a full
/// report ends the run there, unless an earlier line already ended it: the
/// run's outcome carries that error, and nothing after it counts.
pub proof fn lemma_malformed_report_is_fatal(lines: Seq<ParsedLine>, i: int)
    requires
        lines.len() <= usize::MAX,
        0 <= i < lines.len(),
        run_spec(lines.subrange(0, i)).2 is None,
        lines[i].class matches Some(c) && filter_of(c@) == LineFilter::Accepted,
        lines[i].ereport is None,
    ensures
        run_spec(lines).2 == Some(FatalError { line: i as usize, kind: FatalKind::MalformedEreport }),
        run_spec(lines) == run_spec(lines.subrange(0, i + 1)),
{
    let pre = lines.subrange(0, i + 1);
    assert(pre.drop_last() =~= lines.subrange(0, i));
    assert(pre.last() == lines[i]);
    lemma_run_prefix_fatal(lines, i + 1);
}

/// Once a prefix of the lines ends the run, the rest change nothing.
proof fn lemma_run_prefix_fatal(lines: Seq<ParsedLine>, j: int)
    requires
        0 <= j <= lines.len(),
        run_spec(lines.subrange(0, j)).2 is Some,
    ensures
        run_spec(lines) == run_spec(lines.subrange(0, j)),
    decreases lines.len() - j,
{
    if j < lines.len() {
        let pre = lines.subrange(0, j + 1);
        assert(pre.drop_last() =~= lines.subrange(0, j));
        lemma_run_prefix_fatal(lines, j + 1);
    } else {
        assert(lines.subrange(0, j) =~= lines);
    }
}

} // verus!

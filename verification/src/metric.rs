//! What a trial reports.
//!
//! A trial prints lines; some of them report a metric under a name. Of the
//! reports under the name that is watched, the last one is the trial's result.

use crate::float::Float;
use vstd::prelude::*;

verus! {

/// A number reported under a name.
#[derive(Debug, Clone, PartialEq)]
pub struct Metric {
    pub metric: String,
    pub value: Float,
}

/// The mathematical model of a [`Metric`]: its name and its number.
pub type MetricView = (Seq<char>, Float);

impl View for Metric {
    type V = MetricView;

    open spec fn view(&self) -> MetricView {
        (self.metric@, self.value)
    }
}

/// The model of an optional metric.
pub open spec fn report(m: Option<Metric>) -> Option<MetricView> {
    match m {
        Some(x) => Some(x@),
        None => None,
    }
}

/// The models of the reports of a trial's lines.
pub open spec fn reports(lines: Seq<Option<Metric>>) -> Seq<Option<MetricView>> {
    Seq::new(lines.len(), |i: int| report(lines[i]))
}

/// Whether a line reports the watched metric.
pub open spec fn watched(line: Option<MetricView>, watching: Option<Seq<char>>) -> bool {
    match line {
        Some((name, _)) => watching == Some(name),
        None => false,
    }
}

/// The result of a trial: the last report under the watched name among its
/// lines.
pub open spec fn result(lines: Seq<Option<MetricView>>, watching: Option<Seq<char>>) -> Option<
    MetricView,
>
    decreases lines.len(),
{
    if lines.len() == 0 {
        None
    } else if watched(lines.last(), watching) {
        lines.last()
    } else {
        result(lines.drop_last(), watching)
    }
}

impl Metric {
    /// A copy of the metric.
    pub fn copy(&self) -> (r: Metric)
        ensures
            r@ == self@,
    {
        Metric { metric: self.metric.clone(), value: self.value }
    }
}

/// Takes one more line of a trial into account. `last` is the result of the
/// lines before it and `line` what the new line reports, if it reports
/// anything. Hands back the result of the lines up to the new one, and whether
/// the new line reports the watched metric.
pub fn observe(last: Option<Metric>, line: Option<Metric>, watching: &Option<String>) -> (r: (
    Option<Metric>,
    bool,
))
    ensures
        r.1 == watched(report(line), crate::options::text_of(*watching)),
        report(r.0) == if r.1 {
            report(line)
        } else {
            report(last)
        },
{
    let hit: bool = match (&line, watching) {
        (Some(m), Some(w)) => m.metric == *w,
        _ => false,
    };
    if hit {
        (line, true)
    } else {
        (last, false)
    }
}

/// The result of a trial whose lines are all known.
pub fn last_watched(lines: &Vec<Option<Metric>>, watching: &Option<String>) -> (r: Option<Metric>)
    ensures
        report(r) == result(reports(lines@), crate::options::text_of(*watching)),
{
    let mut last: Option<Metric> = None;
    let mut i: usize = 0;
    while i < lines.len()
        invariant
            i <= lines.len(),
            report(last) == result(
                reports(lines@).take(i as int),
                crate::options::text_of(*watching),
            ),
        decreases lines.len() - i,
    {
        let line: Option<Metric> = match &lines[i] {
            Some(m) => Some(m.copy()),
            None => None,
        };
        assert(report(line) == reports(lines@)[i as int]);
        assert(reports(lines@).take(i + 1).drop_last() =~= reports(lines@).take(i as int));
        assert(reports(lines@).take(i + 1).last() == reports(lines@)[i as int]);
        let step = observe(last, line, watching);
        last = step.0;
        i += 1;
    }
    assert(reports(lines@).take(lines.len() as int) =~= reports(lines@));
    last
}

/// The metric of a vector that was tried several times: none where no trial
/// reported, else the name of the first report with the mean of the reports,
/// which the caller computes.
pub fn average(ms: Vec<Metric>, mean: Float) -> (r: Option<Metric>)
    ensures
        ms@.len() == 0 ==> r is None,
        ms@.len() > 0 ==> r is Some && r->0@ == (ms@[0].metric@, mean),
{
    if ms.len() == 0 {
        None
    } else {
        Some(Metric { metric: ms[0].metric.clone(), value: mean })
    }
}

/// One more line changes the result only where it reports the watched
/// metric, and then the line is the result.
pub proof fn lemma_result_step(
    lines: Seq<Option<MetricView>>,
    line: Option<MetricView>,
    watching: Option<Seq<char>>,
)
    ensures
        result(lines.push(line), watching) == if watched(line, watching) {
            line
        } else {
            result(lines, watching)
        },
{
    assert(lines.push(line).drop_last() =~= lines);
}

} // verus!

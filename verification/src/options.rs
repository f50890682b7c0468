//! What the user asked for.
//!
//! The options are plain data: whoever reads the command line fills them in.
//! What depends on the disk (whether a recipe or a name exists) is asked of
//! the caller and handed in.

use crate::float::Float;
use crate::map::{listed, pair, pair_fields, AxisMap, ParamView};
use crate::message::join;
use crate::number::{all_digits, decimal, parse_u64};
use crate::read::{FloatReading, FloatReadingView};
use crate::text::{chars, contains, includes, texts};
use vstd::prelude::*;
use vstd::string::*;

verus! {

/// Whether the metric is to become small or large.
#[derive(Debug, Clone, Copy, PartialEq, Eq, Structural)]
pub enum Objective {
    Minimize,
    Maximize,
}

/// The settings of the evolution.
#[derive(Debug, Clone, PartialEq)]
pub struct OptimizeOptions {
    /// The size of the population.
    pub np: usize,
    /// The crossover rate.
    pub cr: Float,
    /// The factor of the difference in a mutant.
    pub factor: Float,
    /// The number of generations after the first.
    pub num_loop: usize,
}

/// The options of one run.
#[derive(Debug, Clone, PartialEq)]
pub struct Options {
    pub debug: bool,
    pub verbose: bool,
    /// The recipe file, if the user named one.
    pub file: Option<String>,
    /// The most trials that may run at a time.
    pub j: usize,
    /// The name of the experiment, if the user gave one.
    pub name: Option<String>,
    /// The metric to make large.
    pub max: Option<String>,
    /// The metric to make small.
    pub min: Option<String>,
    /// How many trials of one vector are averaged.
    pub metric_num_samples: usize,
    /// The first argument that is no option.
    pub target: Option<String>,
    /// The arguments behind it.
    pub map: Vec<String>,
    pub optimize: OptimizeOptions,
    /// The run's time limit in seconds, zero for none.
    pub timeout: u64,
}

/// What to do with a name for the experiment.
#[derive(Debug, Clone, PartialEq)]
pub enum NameStep {
    /// The name is free: take it.
    Use(String),
    /// The name is taken: make another and ask again.
    Retry,
    /// No name can be had; the message says why.
    Fail(String),
}

/// How many names are made up after the first before the search gives up.
pub const NAME_RETRIES: usize = 1000;

/// How many seconds a unit of the time limit has.
pub open spec fn unit_seconds(c: char) -> Option<int> {
    if c == 's' {
        Some(1)
    } else if c == 'm' {
        Some(60)
    } else if c == 'h' {
        Some(3600)
    } else if c == 'd' {
        Some(86400)
    } else {
        None
    }
}

/// The seconds that a time limit writes: a run of digits, and behind it at
/// most one of the units `s`, `m`, `h` and `d`.
pub open spec fn seconds(s: Seq<char>) -> Option<int> {
    if s.len() > 0 && all_digits(s) {
        Some(decimal(s))
    } else if s.len() > 1 && all_digits(s.drop_last()) && unit_seconds(s.last()) is Some {
        Some(decimal(s.drop_last()) * unit_seconds(s.last())->0)
    } else {
        None
    }
}

/// The time limit that `s` writes, where its seconds fit in 64 bits.
pub open spec fn timeout(s: Seq<char>) -> Option<u64> {
    match seconds(s) {
        Some(n) if n <= u64::MAX => Some(n as u64),
        _ => None,
    }
}

/// Reads a time limit: `10`, `10s`, `30m`, `1h`, `2d`.
pub fn parse_timeout(input: &str) -> (r: Option<u64>)
    ensures
        r == timeout(input@),
{
    let v = chars(input);
    let n: usize = v.len();
    if n == 0 {
        return None;
    }
    match parse_u64(input) {
        Some(value) => {
            return Some(value);
        },
        None => {},
    }
    let last: char = v[n - 1];
    let unit: u64 = if last == 's' {
        1
    } else if last == 'm' {
        60
    } else if last == 'h' {
        3600
    } else if last == 'd' {
        86400
    } else {
        assert(unit_seconds(input@.last()) is None);
        assert(!all_digits(input@) ==> seconds(input@) is None);
        proof {
            if all_digits(input@) {
                crate::number::lemma_decimal_nonnegative(input@);
            }
        }
        return None;
    };
    assert(unit_seconds(last) == Some(unit as int));
    assert(!crate::number::is_digit(last));
    assert(!all_digits(input@)) by {
        if all_digits(input@) {
            assert(crate::number::is_digit(input@[n - 1]));
        }
    }
    let body = input.substring_char(0, n - 1);
    assert(body@ =~= input@.drop_last());
    match parse_u64(body) {
        Some(value) => {
            assert(value * unit <= 0xffff_ffff_ffff_ffff * 86400) by (nonlinear_arith)
                requires
                    0 <= value <= 0xffff_ffff_ffff_ffff,
                    0 <= unit <= 86400,
            ;
            let total: u128 = value as u128 * unit as u128;
            assert(input@.last() == last);
            assert(input@.len() > 1 && all_digits(input@.drop_last()));
            proof {
                crate::number::lemma_decimal_nonnegative(body@);
            }
            assert(decimal(input@.drop_last()) == value);
            assert(seconds(input@) == Some(total as int));
            if total > u64::MAX as u128 {
                None
            } else {
                Some(total as u64)
            }
        },
        None => {
            proof {
                if body@.len() > 0 && all_digits(body@) {
                    assert(decimal(body@) > u64::MAX);
                    assert(decimal(body@) * (unit as int) > u64::MAX) by (nonlinear_arith)
                        requires
                            decimal(body@) > u64::MAX,
                            unit >= 1,
                    ;
                }
            }
            None
        },
    }
}

/// The recipe files to look for, in order: the user's, or else `Hakefile`
/// and then `Makefile`.
pub open spec fn recipes(file: Option<Seq<char>>) -> Seq<Seq<char>> {
    match file {
        Some(f) => seq![f],
        None => seq!["Hakefile"@, "Makefile"@],
    }
}

/// The first place `i` of `exists` that says that file `i` exists, from
/// `from` on and below `n`.
pub open spec fn first_found(exists: Seq<bool>, from: int, n: int) -> Option<int>
    decreases n - from,
{
    if from >= n {
        None
    } else if 0 <= from < exists.len() && exists[from] {
        Some(from)
    } else {
        first_found(exists, from + 1, n)
    }
}

/// The recipe to use, given which of [`recipes`] exist.
pub open spec fn recipe(file: Option<Seq<char>>, exists: Seq<bool>) -> Result<
    Seq<char>,
    Seq<char>,
> {
    match first_found(exists, 0, recipes(file).len() as int) {
        Some(i) => Ok(recipes(file)[i]),
        None => match file {
            Some(f) => Err("File `"@ + f + "` Not Found"@),
            None => Err("Not found Hakefile nor Makefile"@),
        },
    }
}

/// What to do with the name `candidate`, given whether it is `taken` and how
/// many names were made up before it. A name that the user gave is never
/// replaced.
pub open spec fn name_step(
    user: Option<Seq<char>>,
    candidate: Seq<char>,
    taken: bool,
    tries: nat,
) -> NameStepView {
    match user {
        Some(n) => if taken {
            NameStepView::Fail("Name Already Exists: "@ + n)
        } else {
            NameStepView::Use(n)
        },
        None => if !taken {
            NameStepView::Use(candidate)
        } else if tries < NAME_RETRIES {
            NameStepView::Retry
        } else {
            NameStepView::Fail("Name exhausted!? Please consider to clean."@)
        },
    }
}

/// The mathematical model of a [`NameStep`].
pub enum NameStepView {
    Use(Seq<char>),
    Retry,
    Fail(Seq<char>),
}

impl View for NameStep {
    type V = NameStepView;

    open spec fn view(&self) -> NameStepView {
        match *self {
            NameStep::Use(n) => NameStepView::Use(n@),
            NameStep::Retry => NameStepView::Retry,
            NameStep::Fail(e) => NameStepView::Fail(e@),
        }
    }
}

/// The text of an optional string.
pub open spec fn text_of(s: Option<String>) -> Option<Seq<char>> {
    match s {
        Some(x) => Some(x@),
        None => None,
    }
}

/// The arguments that may be targets or axes: the first one that is no
/// option, and those behind it.
pub open spec fn arguments(target: Option<Seq<char>>, rest: Seq<Seq<char>>) -> Seq<Seq<char>> {
    match target {
        Some(t) => seq![t] + rest,
        None => rest,
    }
}

/// The reading of argument `i`, or the empty one where the caller gave none.
pub open spec fn reading(readings: Seq<FloatReading>, i: int) -> FloatReadingView {
    if 0 <= i < readings.len() {
        readings[i]@
    } else {
        FloatReadingView::none()
    }
}

/// The targets among the first `n` arguments: those without `=`, in order.
pub open spec fn targets(args: Seq<Seq<char>>, n: int) -> Seq<Seq<char>>
    decreases n,
{
    if n <= 0 {
        Seq::empty()
    } else {
        let before = targets(args, n - 1);
        if includes(args[n - 1], "="@) {
            before
        } else {
            before.push(args[n - 1])
        }
    }
}

/// The axes among the first `n` arguments: those that read as a pair, in
/// order.
pub open spec fn axes(args: Seq<Seq<char>>, readings: Seq<FloatReading>, n: int) -> ParamView
    decreases n,
{
    if n <= 0 {
        Seq::empty()
    } else {
        let before = axes(args, readings, n - 1);
        match pair(args[n - 1], reading(readings, n - 1)) {
            Ok(kv) => before.push(kv),
            Err(_) => before,
        }
    }
}

/// What is wrong with the first `n` arguments: the message of the first one
/// that holds `=` and whose text behind it reads as no axis.
pub open spec fn trouble(args: Seq<Seq<char>>, readings: Seq<FloatReading>, n: int) -> Option<
    Seq<char>,
>
    decreases n,
{
    if n <= 0 {
        None
    } else {
        match trouble(args, readings, n - 1) {
            Some(e) => Some(e),
            None => match pair(args[n - 1], reading(readings, n - 1)) {
                Err(e) if includes(args[n - 1], "="@) => Some(e),
                _ => None,
            },
        }
    }
}

/// Trouble among the first arguments stays the trouble of more of them.
pub proof fn lemma_trouble_stays(
    args: Seq<Seq<char>>,
    readings: Seq<FloatReading>,
    i: int,
    n: int,
)
    requires
        i <= n,
        trouble(args, readings, i) is Some,
    ensures
        trouble(args, readings, n) == trouble(args, readings, i),
    decreases n - i,
{
    if i < n {
        lemma_trouble_stays(args, readings, i, n - 1);
    }
}

/// Where nothing is wrong, every argument is a target or an axis: the axes
/// are the arguments with `=`, each under the text before its first `=`.
pub proof fn lemma_sorted(args: Seq<Seq<char>>, readings: Seq<FloatReading>, n: int)
    requires
        0 <= n <= args.len(),
        trouble(args, readings, n) is None,
    ensures
        targets(args, n).len() + axes(args, readings, n).len() == n,
    decreases n,
{
    if n > 0 {
        lemma_sorted(args, readings, n - 1);
    }
}

/// The result of sorting the arguments into targets and axes.
pub open spec fn sorted(
    r: Result<(Vec<String>, AxisMap), String>,
    args: Seq<Seq<char>>,
    readings: Seq<FloatReading>,
) -> bool {
    match r {
        Ok(tm) => trouble(args, readings, args.len() as int) is None && texts(tm.0@) == targets(
            args,
            args.len() as int,
        ) && tm.1@ == axes(args, readings, args.len() as int),
        Err(e) => trouble(args, readings, args.len() as int) == Some(e@),
    }
}

/// The axes among the arguments: those that read as a `KEY=VALUE` pair, in
/// order; the others are passed over. `readings[i]` is what the caller read
/// off the fields that [`AxisMap::pair_float_fields`] gave for argument `i`.
pub fn axes_of(args: &Vec<String>, readings: &Vec<FloatReading>) -> (r: AxisMap)
    ensures
        r@ == axes(texts(args@), readings@, args@.len() as int),
{
    let mut map = AxisMap::new();
    assert(map@ =~= Seq::empty());
    let mut i: usize = 0;
    while i < args.len()
        invariant
            i <= args.len(),
            map@ == axes(texts(args@), readings@, i as int),
        decreases args.len() - i,
    {
        let floats = if i < readings.len() {
            readings[i].copy()
        } else {
            FloatReading::none()
        };
        assert(floats@ == reading(readings@, i as int));
        assert(texts(args@)[i as int] == args@[i as int]@);
        match AxisMap::parse_pair(&args[i], floats) {
            Ok(kv) => {
                map.add(kv.0, kv.1);
            },
            Err(_) => {},
        }
        i += 1;
    }
    map
}

/// The direction and the name of the metric to follow, where the user named
/// exactly one of the two.
pub open spec fn choice(max: Option<Seq<char>>, min: Option<Seq<char>>) -> Option<
    (Objective, Seq<char>),
> {
    match (max, min) {
        (Some(name), None) => Some((Objective::Maximize, name)),
        (None, Some(name)) => Some((Objective::Minimize, name)),
        _ => None,
    }
}

/// The model of a direction with the name of a metric.
pub open spec fn choice_view(r: Option<(Objective, String)>) -> Option<(Objective, Seq<char>)> {
    match r {
        Some((objective, name)) => Some((objective, name@)),
        None => None,
    }
}

impl Options {
    /// The arguments that may be targets or axes.
    pub open spec fn spec_arguments(&self) -> Seq<Seq<char>> {
        arguments(text_of(self.target), texts(self.map@))
    }

    /// The arguments that may be targets or axes, in order.
    pub fn arguments(&self) -> (r: Vec<String>)
        ensures
            texts(r@) == self.spec_arguments(),
    {
        let mut r: Vec<String> = Vec::new();
        match &self.target {
            Some(t) => {
                r.push(t.clone());
            },
            None => {},
        }
        let ghost head = texts(r@);
        let mut i: usize = 0;
        while i < self.map.len()
            invariant
                i <= self.map.len(),
                texts(r@) == head + texts(self.map@).subrange(0, i as int),
            decreases self.map.len() - i,
        {
            let ghost before = texts(r@);
            r.push(self.map[i].clone());
            i += 1;
            assert(texts(r@) =~= before.push(self.map@[i - 1]@));
            assert(texts(r@) =~= head + texts(self.map@).subrange(0, i as int));
        }
        assert(texts(self.map@).subrange(0, self.map.len() as int) =~= texts(self.map@));
        assert(texts(r@) =~= self.spec_arguments());
        r
    }

    /// For each argument, the fields that the caller has to read as binary64
    /// numbers before [`Options::target_map`] is called.
    pub fn float_fields(&self) -> (r: Vec<Option<Vec<String>>>)
        ensures
            r@.len() == self.spec_arguments().len(),
            forall|i: int|
                0 <= i < r@.len() ==> listed(#[trigger] r@[i]) == pair_fields(
                    self.spec_arguments()[i],
                ),
    {
        let args = self.arguments();
        assert(texts(args@).len() == args.len());
        let mut r: Vec<Option<Vec<String>>> = Vec::new();
        let mut i: usize = 0;
        while i < args.len()
            invariant
                i <= args.len(),
                r@.len() == i,
                texts(args@) == self.spec_arguments(),
                forall|j: int|
                    0 <= j < i ==> listed(#[trigger] r@[j]) == pair_fields(
                        self.spec_arguments()[j],
                    ),
            decreases args.len() - i,
        {
            let ghost before = r@;
            assert(texts(args@)[i as int] == args@[i as int]@);
            r.push(AxisMap::pair_float_fields(&args[i]));
            assert forall|j: int| 0 <= j < i + 1 implies listed(#[trigger] r@[j]) == pair_fields(
                self.spec_arguments()[j],
            ) by {
                if j < i {
                    assert(r@[j] == before[j]);
                }
            }
            i += 1;
        }
        r
    }

    /// The recipe files to look for, in order.
    pub fn makefile_candidates(&self) -> (r: Vec<String>)
        ensures
            texts(r@) == recipes(text_of(self.file)),
    {
        let mut r: Vec<String> = Vec::new();
        match &self.file {
            Some(f) => {
                r.push(f.clone());
            },
            None => {
                r.push("Hakefile".to_owned());
                r.push("Makefile".to_owned());
            },
        }
        assert(texts(r@) =~= recipes(text_of(self.file)));
        r
    }

    /// The recipe to use: the first of the candidates that exists.
    /// `exists[i]` says whether candidate `i` does; a candidate of which it
    /// says nothing counts as missing.
    pub fn makefile(&self, exists: &Vec<bool>) -> (r: Result<String, String>)
        ensures
            match r {
                Ok(f) => recipe(text_of(self.file), exists@) == Ok::<Seq<char>, Seq<char>>(f@),
                Err(e) => recipe(text_of(self.file), exists@) == Err::<Seq<char>, Seq<char>>(e@),
            },
    {
        let candidates = self.makefile_candidates();
        assert(texts(candidates@).len() == candidates.len());
        let n: usize = candidates.len();
        let mut i: usize = 0;
        while i < n
            invariant
                i <= n == candidates.len(),
                texts(candidates@) == recipes(text_of(self.file)),
                first_found(exists@, 0, n as int) == first_found(exists@, i as int, n as int),
            decreases n - i,
        {
            if i < exists.len() && exists[i] {
                assert(texts(candidates@)[i as int] == candidates@[i as int]@);
                return Ok(candidates[i].clone());
            }
            i += 1;
        }
        match &self.file {
            Some(f) => {
                let head = join("File `", f.as_str());
                Err(join(head.as_str(), "` Not Found"))
            },
            None => Err("Not found Hakefile nor Makefile".to_owned()),
        }
    }

    /// What to do with a name for the experiment. With a name from the user,
    /// `taken` says whether that name exists; without one, `candidate` is a
    /// name that the caller made up, `taken` says whether it exists, and
    /// `tries` counts the names made up before it.
    pub fn name(&self, candidate: &String, taken: bool, tries: usize) -> (r: NameStep)
        ensures
            r@ == name_step(text_of(self.name), candidate@, taken, tries as nat),
    {
        match &self.name {
            Some(n) => {
                if taken {
                    NameStep::Fail(join("Name Already Exists: ", n.as_str()))
                } else {
                    NameStep::Use(n.clone())
                }
            },
            None => {
                if !taken {
                    NameStep::Use(candidate.clone())
                } else if tries < NAME_RETRIES {
                    NameStep::Retry
                } else {
                    NameStep::Fail("Name exhausted!? Please consider to clean.".to_owned())
                }
            },
        }
    }

    /// Sorts the arguments into targets and axes: an argument without `=` is
    /// a target, one with `=` an axis under the text before the first `=`.
    /// An axis that cannot be read is an error, and the first one's message
    /// is handed back. `readings[i]` is what the caller read off the fields
    /// that [`Options::float_fields`] gave for argument `i`.
    pub fn target_map(&self, readings: &Vec<FloatReading>) -> (r: Result<
        (Vec<String>, AxisMap),
        String,
    >)
        ensures
            sorted(r, self.spec_arguments(), readings@),
    {
        let args = self.arguments();
        assert(texts(args@).len() == args.len());
        let mut target: Vec<String> = Vec::new();
        let mut map = AxisMap::new();
        assert(map@ =~= Seq::empty());
        let mut i: usize = 0;
        proof {
            reveal_strlit("=");
        }
        while i < args.len()
            invariant
                i <= args.len(),
                texts(args@) == self.spec_arguments(),
                trouble(texts(args@), readings@, i as int) is None,
                texts(target@) == targets(texts(args@), i as int),
                map@ == axes(texts(args@), readings@, i as int),
            decreases args.len() - i,
        {
            let ghost before = texts(target@);
            let floats = if i < readings.len() {
                readings[i].copy()
            } else {
                FloatReading::none()
            };
            assert(floats@ == reading(readings@, i as int));
            assert(texts(args@)[i as int] == args@[i as int]@);
            let is_pair: bool = contains(args[i].as_str(), "=");
            match AxisMap::parse_pair(&args[i], floats) {
                Ok(kv) => {
                    map.add(kv.0, kv.1);
                },
                Err(e) => {
                    if is_pair {
                        proof {
                            lemma_trouble_stays(
                                texts(args@),
                                readings@,
                                i + 1,
                                args@.len() as int,
                            );
                        }
                        return Err(e);
                    }
                    target.push(args[i].clone());
                    assert(texts(target@) =~= before.push(args@[i as int]@));
                },
            }
            i += 1;
        }
        Ok((target, map))
    }

    /// The metric to follow and the direction, where the user named exactly
    /// one of the two.
    pub fn metric(&self) -> (r: Option<(Objective, String)>)
        ensures
            choice_view(r) == choice(text_of(self.max), text_of(self.min)),
    {
        match (&self.max, &self.min) {
            (Some(name), None) => Some((Objective::Maximize, name.clone())),
            (None, Some(name)) => Some((Objective::Minimize, name.clone())),
            _ => None,
        }
    }

    /// How many trials of one vector are averaged.
    pub fn metric_num_samples(&self) -> (r: usize)
        ensures
            r == self.metric_num_samples,
    {
        self.metric_num_samples
    }

    /// How many trials may run at a time: the user's limit, but no more than
    /// the population.
    pub fn parallels(&self) -> (r: usize)
        ensures
            r <= self.j,
            r <= self.optimize.np,
            r == self.j || r == self.optimize.np,
    {
        if self.j <= self.optimize.np {
            self.j
        } else {
            self.optimize.np
        }
    }
}

} // verus!

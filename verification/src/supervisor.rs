//! What the supervisor does next.
//!
//! The supervisor runs trials, at most `limit` at a time. Trials are child
//! processes, so the library does not run them: it says what to do next
//! (start a trial, wait for the oldest one, or nothing), and the caller does
//! it and reports back. A sweep walks every vector of a map once; a search
//! evolves a population over generations, and a generation starts only when
//! the one before it is through.

use crate::chance::uniform_below;
use crate::de::{cross, fits, lemma_trial_conforms, trial, values};
use crate::float::Float;
use crate::map::{
    conforms, copy_param, countable, drawn, lemma_point_conforms, named, point, size, walkable, AxisMap,
    MapIter, Param, ParamView,
};
use crate::metric::Metric;
use crate::options::Objective;
use crate::pool::{lemma_survivors, numbers, select, survivors, Member};
use crate::util::{below, distinct, sample};
use crate::value::Value;
use vstd::prelude::*;

verus! {

/// What the caller is to do next.
#[derive(Debug, Clone, PartialEq)]
pub enum Action {
    /// Start the trial with this number on this vector.
    Spawn(usize, Param),
    /// Wait for the oldest running trial to end, and report it.
    Join,
    /// Nothing is waiting and nothing is running.
    Idle,
}

/// The mathematical model of an [`Action`].
pub enum ActionView {
    Spawn(int, ParamView),
    Join,
    Idle,
}

impl View for Action {
    type V = ActionView;

    open spec fn view(&self) -> ActionView {
        match *self {
            Action::Spawn(id, p) => ActionView::Spawn(id as int, named(p@)),
            Action::Join => ActionView::Join,
            Action::Idle => ActionView::Idle,
        }
    }
}

/// What to do next, given how many trials run, how many may, and the vector
/// that waits first, if one waits: wait while the limit is reached, else
/// start what waits, else wait for what still runs.
pub open spec fn decide(running: nat, limit: nat, id: int, waiting: Option<ParamView>)
    -> ActionView {
    if running >= limit {
        ActionView::Join
    } else if waiting is Some {
        ActionView::Spawn(id, waiting->0)
    } else if running > 0 {
        ActionView::Join
    } else {
        ActionView::Idle
    }
}

/// A walk over every vector of a map, with at most `limit` trials at a time.
/// A trial's number is the number of its vector.
pub struct Sweep {
    pub walk: MapIter,
    pub limit: usize,
    pub running: usize,
}

impl Sweep {
    /// Whether the state is one that a sweep can be in.
    pub open spec fn wf(&self) -> bool {
        &&& countable(self.walk.data@)
        &&& size(self.walk.data@) <= usize::MAX
        &&& self.walk.idx <= size(self.walk.data@)
        &&& 1 <= self.limit
        &&& self.running <= self.limit
    }

    /// The vector that waits first, if the walk is not through.
    pub open spec fn waiting(&self) -> Option<ParamView> {
        if self.walk.idx < size(self.walk.data@) {
            Some(point(self.walk.data@, self.walk.idx as nat))
        } else {
            None
        }
    }

    /// What the caller is to do next.
    pub open spec fn action(&self) -> ActionView {
        decide(self.running as nat, self.limit as nat, self.walk.idx as int, self.waiting())
    }

    /// A sweep over `map` that has not begun.
    pub fn new(map: &AxisMap, limit: usize) -> (r: Sweep)
        requires
            countable(map@),
            size(map@) <= usize::MAX,
            limit >= 1,
        ensures
            r.wf(),
            r.walk.data@ == map@,
            r.walk.idx == 0,
            r.limit == limit,
            r.running == 0,
    {
        Sweep { walk: map.iter(), limit, running: 0 }
    }

    /// Ends the walk: no further vector waits. What runs is still waited
    /// for.
    pub fn stop(&mut self)
        requires
            old(self).wf(),
        ensures
            final(self).wf(),
            final(self).waiting() is None,
            final(self).walk.data@ == old(self).walk.data@,
            final(self).limit == old(self).limit,
            final(self).running == old(self).running,
            final(self).walk.idx == size(old(self).walk.data@),
    {
        let n: usize = self.walk.data.len();
        if self.walk.idx < n {
            self.walk.idx = n;
        }
    }

    /// Says what to do next and takes it as done: a started trial runs, a
    /// trial waited for runs no more.
    pub fn next(&mut self) -> (r: Action)
        requires
            old(self).wf(),
        ensures
            final(self).wf(),
            r@ == old(self).action(),
            final(self).walk.data@ == old(self).walk.data@,
            final(self).limit == old(self).limit,
            final(self).running == match r {
                Action::Spawn(_, _) => old(self).running + 1,
                Action::Join => old(self).running - 1,
                Action::Idle => old(self).running as int,
            },
            final(self).walk.idx == match r {
                Action::Spawn(_, _) => old(self).walk.idx + 1,
                _ => old(self).walk.idx as int,
            },
    {
        if self.running >= self.limit {
            self.running -= 1;
            return Action::Join;
        }
        let id: usize = self.walk.idx;
        match self.walk.next() {
            Some(param) => {
                self.running += 1;
                Action::Spawn(id, param)
            },
            None => {
                if self.running > 0 {
                    self.running -= 1;
                    Action::Join
                } else {
                    Action::Idle
                }
            },
        }
    }
}

/// Where a search stands within a generation.
#[derive(Debug, Clone, Copy, PartialEq, Eq, Structural)]
pub enum Phase {
    /// Between two generations: nothing waits and nothing runs.
    Planning,
    /// The vectors of a generation wait, run or have reported.
    Running,
}

/// What a generation of a search begins with.
#[derive(Debug, Clone, Copy, PartialEq, Eq, Structural)]
pub enum Plan {
    /// The population is empty: draw vectors from the map.
    Seed,
    /// Cross every member of the population.
    Breed,
    /// The population has one or two members: no three of them can be
    /// picked, and the search cannot go on.
    Starved,
    /// Every generation has run.
    Done,
}

/// The state of a search.
pub struct Search {
    pub objective: Objective,
    /// The size of the population.
    pub np: usize,
    /// How many generations follow the first.
    pub generations: usize,
    /// How many generations are through.
    pub generation: usize,
    /// Whether the last generation is through.
    pub finished: bool,
    /// Where the search stands within the generation.
    pub phase: Phase,
    /// The most trials that may run at a time.
    pub limit: usize,
    /// The number of the next trial.
    pub next_id: usize,
    /// The vectors that wait for a trial, first come first.
    pub queue: Vec<Param>,
    /// The vectors whose trials run, oldest first.
    pub running: Vec<Param>,
    /// The population.
    pub pool: Vec<Member>,
}

/// The models of a list of vectors.
pub open spec fn vectors(s: Seq<Param>) -> Seq<ParamView> {
    Seq::new(s.len(), |i: int| named(s[i]@))
}

impl Search {
    /// Whether the state is one that a search can be in.
    pub open spec fn wf(&self) -> bool {
        &&& 1 <= self.limit
        &&& self.running@.len() <= self.limit
        &&& self.generation <= self.generations
        &&& numbers(self.pool@)
        &&& self.phase == Phase::Planning ==> self.queue@.len() == 0 && self.running@.len() == 0
    }

    /// Whether every vector that the search holds is made of values of the
    /// axes.
    pub open spec fn conforming(&self, axes: ParamView) -> bool {
        &&& forall|i: int|
            0 <= i < self.queue@.len() ==> conforms(named((#[trigger] self.queue@[i])@), axes)
        &&& forall|i: int|
            0 <= i < self.running@.len() ==> conforms(named((#[trigger] self.running@[i])@), axes)
        &&& forall|i: int|
            0 <= i < self.pool@.len() ==> conforms(named((#[trigger] self.pool@[i]).0@), axes)
    }

    /// The vector that waits first, if one waits.
    pub open spec fn waiting(&self) -> Option<ParamView> {
        if self.queue@.len() > 0 {
            Some(named(self.queue@[0]@))
        } else {
            None
        }
    }

    /// What the caller is to do next.
    pub open spec fn action(&self) -> ActionView {
        decide(
            self.running@.len(),
            self.limit as nat,
            self.next_id as int,
            self.waiting(),
        )
    }

    /// What the next generation begins with.
    pub open spec fn spec_plan(&self) -> Plan {
        if self.finished {
            Plan::Done
        } else if self.pool@.len() == 0 {
            Plan::Seed
        } else if self.pool@.len() < 3 {
            Plan::Starved
        } else {
            Plan::Breed
        }
    }

    /// A search that has not begun.
    pub fn new(objective: Objective, np: usize, generations: usize, limit: usize) -> (r: Search)
        requires
            limit >= 1,
        ensures
            r.wf(),
            r.objective == objective,
            r.np == np,
            r.generations == generations,
            r.generation == 0,
            !r.finished,
            r.phase == Phase::Planning,
            r.limit == limit,
            r.next_id == 0,
            r.queue@.len() == 0,
            r.running@.len() == 0,
            r.pool@.len() == 0,
    {
        Search {
            objective,
            np,
            generations,
            generation: 0,
            finished: false,
            phase: Phase::Planning,
            limit,
            next_id: 0,
            queue: Vec::new(),
            running: Vec::new(),
            pool: Vec::new(),
        }
    }

    /// What the next generation begins with.
    pub fn plan(&self) -> (r: Plan)
        ensures
            r == self.spec_plan(),
    {
        if self.finished {
            Plan::Done
        } else if self.pool.len() == 0 {
            Plan::Seed
        } else if self.pool.len() < 3 {
            Plan::Starved
        } else {
            Plan::Breed
        }
    }

    /// Puts `np` vectors of the map into the queue, each drawn with the same
    /// chance among all of them.
    pub fn seed(&mut self, map: &AxisMap)
        requires
            walkable(map@),
            size(map@) <= usize::MAX,
            old(self).wf(),
            old(self).conforming(map@),
            old(self).phase == Phase::Planning,
            old(self).spec_plan() == Plan::Seed,
        ensures
            final(self).wf(),
            final(self).conforming(map@),
            final(self).phase == Phase::Running,
            final(self).queue@.len() == old(self).queue@.len() + old(self).np,
            forall|i: int|
                0 <= i < old(self).queue@.len() ==> final(self).queue@[i] == old(self).queue@[i],
            forall|i: int|
                old(self).queue@.len() <= i < final(self).queue@.len() ==> drawn(
                    named((#[trigger] final(self).queue@[i])@),
                    map@,
                ),
            final(self).objective == old(self).objective,
            final(self).np == old(self).np,
            final(self).generations == old(self).generations,
            final(self).generation == old(self).generation,
            final(self).finished == old(self).finished,
            final(self).limit == old(self).limit,
            final(self).next_id == old(self).next_id,
            final(self).running == old(self).running,
            final(self).pool == old(self).pool,
    {
        self.phase = Phase::Running;
        let mut k: usize = 0;
        while k < self.np
            invariant
                k <= self.np,
                walkable(map@),
                size(map@) <= usize::MAX,
                self.wf(),
                self.conforming(map@),
                self.queue@.len() == old(self).queue@.len() + k,
                forall|i: int|
                    0 <= i < old(self).queue@.len() ==> self.queue@[i] == old(self).queue@[i],
                forall|i: int|
                    old(self).queue@.len() <= i < self.queue@.len() ==> drawn(
                        named((#[trigger] self.queue@[i])@),
                        map@,
                    ),
                self.objective == old(self).objective,
                self.np == old(self).np,
                self.generations == old(self).generations,
                self.generation == old(self).generation,
                self.finished == old(self).finished,
                self.limit == old(self).limit,
                self.next_id == old(self).next_id,
                self.running == old(self).running,
                self.pool == old(self).pool,
                self.phase == Phase::Running,
            decreases self.np - k,
        {
            let param = map.rand();
            let ghost before = self.queue@;
            proof {
                let idx = choose|idx: nat|
                    idx < size(map@) && named(param@) == #[trigger] point(map@, idx);
                lemma_point_conforms(map@, idx);
            }
            self.queue.push(param);
            assert forall|i: int| 0 <= i < self.queue@.len() implies conforms(
                named((#[trigger] self.queue@[i])@),
                map@,
            ) by {
                if i < before.len() {
                    assert(self.queue@[i] == before[i]);
                }
            }
            assert forall|i: int|
                old(self).queue@.len() <= i < self.queue@.len() implies drawn(
                named((#[trigger] self.queue@[i])@),
                map@,
            ) by {
                if i < before.len() {
                    assert(self.queue@[i] == before[i]);
                }
            }
            k += 1;
        }
    }

    /// For each member of the population, three places of the population, no
    /// place twice: the three vectors that the member's mutant is made from.
    pub fn parents(&self) -> (r: Vec<Vec<usize>>)
        requires
            self.pool@.len() >= 3,
        ensures
            r@.len() == self.pool@.len(),
            forall|i: int|
                0 <= i < r@.len() ==> (#[trigger] r@[i])@.len() == 3 && distinct(r@[i]@) && below(
                    r@[i]@,
                    self.pool@.len(),
                ),
    {
        let mut r: Vec<Vec<usize>> = Vec::new();
        let mut i: usize = 0;
        while i < self.pool.len()
            invariant
                i <= self.pool.len(),
                self.pool@.len() >= 3,
                r@.len() == i,
                forall|j: int|
                    0 <= j < r@.len() ==> (#[trigger] r@[j])@.len() == 3 && distinct(r@[j]@)
                        && below(r@[j]@, self.pool@.len()),
            decreases self.pool.len() - i,
        {
            let ghost before = r@;
            let picks = sample(&self.pool, 3);
            r.push(picks);
            assert forall|j: int| 0 <= j < r@.len() implies (#[trigger] r@[j])@.len() == 3
                && distinct(r@[j]@) && below(r@[j]@, self.pool@.len()) by {
                if j < before.len() {
                    assert(r@[j] == before[j]);
                }
            }
            i += 1;
        }
        r
    }

    /// Crosses every member of the population and puts the trial vectors into
    /// the queue, in the order of the members.
    ///
    /// For member `i`, `picks[i]` begins with the place of the vector `a`,
    /// `mutants[i]` is the mutant made from the three picked vectors, and
    /// `draws[i]` holds one draw from `[0, 1)` for each axis. One place of
    /// each trial vector, drawn among all places with the same chance,
    /// crosses whatever its draw.
    pub fn breed(
        &mut self,
        map: &AxisMap,
        picks: &Vec<Vec<usize>>,
        mutants: &Vec<Vec<Value>>,
        draws: &Vec<Vec<Float>>,
        cr: Float,
    )
        requires
            old(self).wf(),
            old(self).conforming(map@),
            old(self).phase == Phase::Planning,
            old(self).spec_plan() == Plan::Breed,
            picks@.len() == old(self).pool@.len(),
            mutants@.len() == old(self).pool@.len(),
            draws@.len() == old(self).pool@.len(),
            forall|i: int|
                0 <= i < picks@.len() ==> (#[trigger] picks@[i])@.len() >= 1 && picks@[i]@[0]
                    < old(self).pool@.len(),
            forall|i: int| 0 <= i < mutants@.len() ==> (#[trigger] mutants@[i])@.len() == map@.len(),
            forall|i: int| 0 <= i < draws@.len() ==> (#[trigger] draws@[i])@.len() == map@.len(),
            forall|i: int, p: int|
                0 <= i < mutants@.len() && 0 <= p < map@.len() ==> fits(
                    map@[p].1,
                    (#[trigger] mutants@[i]@[p])@,
                ),
        ensures
            final(self).wf(),
            final(self).conforming(map@),
            final(self).phase == Phase::Running,
            final(self).queue@.len() == old(self).queue@.len() + old(self).pool@.len(),
            forall|i: int|
                0 <= i < old(self).queue@.len() ==> final(self).queue@[i] == old(self).queue@[i],
            forall|k: int|
                old(self).queue@.len() <= k < final(self).queue@.len() ==> bred(
                    named((#[trigger] final(self).queue@[k])@),
                    old(self).pool@,
                    k - old(self).queue@.len(),
                    picks@[k - old(self).queue@.len()]@[0] as int,
                    mutants@[k - old(self).queue@.len()]@,
                    map@,
                    cr,
                    draws@[k - old(self).queue@.len()]@,
                ),
            final(self).objective == old(self).objective,
            final(self).np == old(self).np,
            final(self).generations == old(self).generations,
            final(self).generation == old(self).generation,
            final(self).finished == old(self).finished,
            final(self).limit == old(self).limit,
            final(self).next_id == old(self).next_id,
            final(self).running == old(self).running,
            final(self).pool == old(self).pool,
    {
        self.phase = Phase::Running;
        let n: usize = self.pool.len();
        let axes: usize = map.data.len();
        let mut i: usize = 0;
        while i < n
            invariant
                i <= n == self.pool@.len(),
                axes == map@.len(),
                self.wf(),
                self.conforming(map@),
                picks@.len() == n,
                mutants@.len() == n,
                draws@.len() == n,
                forall|j: int|
                    0 <= j < picks@.len() ==> (#[trigger] picks@[j])@.len() >= 1 && picks@[j]@[0]
                        < n,
                forall|j: int|
                    0 <= j < mutants@.len() ==> (#[trigger] mutants@[j])@.len() == map@.len(),
                forall|j: int| 0 <= j < draws@.len() ==> (#[trigger] draws@[j])@.len() == map@.len(),
                forall|j: int, p: int|
                    0 <= j < mutants@.len() && 0 <= p < map@.len() ==> fits(
                        map@[p].1,
                        (#[trigger] mutants@[j]@[p])@,
                    ),
                self.queue@.len() == old(self).queue@.len() + i,
                forall|j: int|
                    0 <= j < old(self).queue@.len() ==> self.queue@[j] == old(self).queue@[j],
                forall|k: int|
                    old(self).queue@.len() <= k < self.queue@.len() ==> bred(
                        named((#[trigger] self.queue@[k])@),
                        old(self).pool@,
                        k - old(self).queue@.len(),
                        picks@[k - old(self).queue@.len()]@[0] as int,
                        mutants@[k - old(self).queue@.len()]@,
                        map@,
                        cr,
                        draws@[k - old(self).queue@.len()]@,
                    ),
                self.objective == old(self).objective,
                self.np == old(self).np,
                self.generations == old(self).generations,
                self.generation == old(self).generation,
                self.finished == old(self).finished,
                self.limit == old(self).limit,
                self.next_id == old(self).next_id,
                self.running == old(self).running,
                self.pool == old(self).pool,
                self.phase == Phase::Running,
            decreases n - i,
        {
            let forced: Option<usize> = if axes > 0 {
                Some(uniform_below(axes))
            } else {
                None
            };
            let a: usize = picks[i][0];
            assert(conforms(named(self.pool@[i as int].0@), map@));
            assert(conforms(named(self.pool@[a as int].0@), map@));
            assert(self.pool@[i as int].0@.len() == named(self.pool@[i as int].0@).len());
            assert(self.pool@[a as int].0@.len() == named(self.pool@[a as int].0@).len());
            assert forall|p: int|
                0 <= p < map@.len() implies fits((#[trigger] map@[p]).1, mutants@[i as int]@[p]@) by {
                assert(fits(map@[p].1, mutants@[i as int]@[p]@));
            }
            let z = cross(&self.pool[i].0, &self.pool[a].0, &mutants[i], map, cr, &draws[i], forced);
            let ghost before = self.queue@;
            proof {
                assert forall|p: int| 0 <= p < map@.len() implies fits(
                    (#[trigger] map@[p]).1,
                    values(mutants@[i as int]@)[p],
                ) by {
                    assert(fits(map@[p].1, mutants@[i as int]@[p]@));
                }
                lemma_trial_conforms(
                    named(self.pool@[i as int].0@),
                    named(self.pool@[a as int].0@),
                    values(mutants@[i as int]@),
                    map@,
                    cr,
                    draws@[i as int]@,
                    forced,
                );
            }
            self.queue.push(z);
            assert(crossed_with(
                named(self.queue@[old(self).queue@.len() + i]@),
                old(self).pool@,
                i as int,
                picks@[i as int]@[0] as int,
                mutants@[i as int]@,
                map@,
                cr,
                draws@[i as int]@,
                forced,
            ));
            assert forall|j: int| 0 <= j < self.queue@.len() implies conforms(
                named((#[trigger] self.queue@[j])@),
                map@,
            ) by {
                if j < before.len() {
                    assert(self.queue@[j] == before[j]);
                }
            }
            assert forall|k: int| old(self).queue@.len() <= k < self.queue@.len() implies bred(
                named((#[trigger] self.queue@[k])@),
                old(self).pool@,
                k - old(self).queue@.len(),
                picks@[k - old(self).queue@.len()]@[0] as int,
                mutants@[k - old(self).queue@.len()]@,
                map@,
                cr,
                draws@[k - old(self).queue@.len()]@,
            ) by {
                if k < before.len() {
                    assert(self.queue@[k] == before[k]);
                }
            }
            i += 1;
        }
    }

    /// Says what to do next and takes it as done: a started trial runs, and a
    /// trial waited for is to be reported with [`Search::joined`].
    pub fn next(&mut self) -> (r: Action)
        requires
            old(self).wf(),
            old(self).next_id < usize::MAX,
        ensures
            final(self).wf(),
            r@ == old(self).action(),
            match r {
                Action::Spawn(_, _) => final(self).queue@ == old(self).queue@.skip(1)
                    && vectors(final(self).running@) == vectors(old(self).running@).push(
                    named(old(self).queue@[0]@),
                ) && final(self).next_id == old(self).next_id + 1,
                _ => final(self).queue@ == old(self).queue@ && final(self).running@ == old(
                    self,
                ).running@ && final(self).next_id == old(self).next_id,
            },
            forall|axes: ParamView| old(self).conforming(axes) ==> final(self).conforming(axes),
            final(self).objective == old(self).objective,
            final(self).np == old(self).np,
            final(self).generations == old(self).generations,
            final(self).generation == old(self).generation,
            final(self).finished == old(self).finished,
            final(self).phase == old(self).phase,
            final(self).limit == old(self).limit,
            final(self).pool == old(self).pool,
    {
        if self.running.len() >= self.limit {
            return Action::Join;
        }
        if self.queue.len() > 0 {
            let ghost q = self.queue@;
            let ghost run = self.running@;
            let param = self.queue.remove(0);
            let id: usize = self.next_id;
            let copy = copy_param(&param);
            self.running.push(param);
            self.next_id += 1;
            assert(self.queue@ =~= q.skip(1));
            assert(vectors(self.running@) =~= vectors(run).push(named(q[0]@)));
            assert forall|axes: ParamView| old(self).conforming(axes) implies self.conforming(axes) by {
                assert forall|i: int| 0 <= i < self.queue@.len() implies conforms(
                    named((#[trigger] self.queue@[i])@),
                    axes,
                ) by {
                    assert(self.queue@[i] == q[i + 1]);
                }
                assert forall|i: int| 0 <= i < self.running@.len() implies conforms(
                    named((#[trigger] self.running@[i])@),
                    axes,
                ) by {
                    if i < run.len() {
                        assert(self.running@[i] == run[i]);
                    } else {
                        assert(self.running@[i] == q[0]);
                    }
                }
            }
            Action::Spawn(id, copy)
        } else if self.running.len() > 0 {
            Action::Join
        } else {
            Action::Idle
        }
    }

    /// Takes the report of the oldest running trial: the metric of its
    /// vector, if its trials reported one. With a metric the vector joins the
    /// population; without one it is dropped.
    pub fn joined(&mut self, metric: Option<Metric>)
        requires
            old(self).wf(),
            old(self).running@.len() > 0,
            metric is Some ==> !metric->0.value.nan(),
        ensures
            final(self).wf(),
            final(self).running@ == old(self).running@.skip(1),
            match metric {
                Some(m) => final(self).pool@ == old(self).pool@.push((old(self).running@[0], m)),
                None => final(self).pool@ == old(self).pool@,
            },
            forall|axes: ParamView| old(self).conforming(axes) ==> final(self).conforming(axes),
            final(self).objective == old(self).objective,
            final(self).np == old(self).np,
            final(self).generations == old(self).generations,
            final(self).generation == old(self).generation,
            final(self).finished == old(self).finished,
            final(self).phase == old(self).phase,
            final(self).limit == old(self).limit,
            final(self).next_id == old(self).next_id,
            final(self).queue == old(self).queue,
    {
        let ghost run = self.running@;
        let ghost members = self.pool@;
        let param = self.running.remove(0);
        assert(self.running@ =~= run.skip(1));
        match metric {
            Some(m) => {
                self.pool.push((param, m));
                assert forall|i: int| 0 <= i < self.pool@.len() implies !(
                #[trigger] self.pool@[i]).1.value.nan() by {
                    if i < members.len() {
                        assert(self.pool@[i] == members[i]);
                    }
                }
            },
            None => {},
        }
        assert forall|axes: ParamView| old(self).conforming(axes) implies self.conforming(axes) by {
            assert forall|i: int| 0 <= i < self.running@.len() implies conforms(
                named((#[trigger] self.running@[i])@),
                axes,
            ) by {
                assert(self.running@[i] == run[i + 1]);
            }
            assert forall|i: int| 0 <= i < self.pool@.len() implies conforms(
                named((#[trigger] self.pool@[i]).0@),
                axes,
            ) by {
                if i < members.len() {
                    assert(self.pool@[i] == members[i]);
                } else {
                    assert(self.pool@[i].0 == run[0]);
                }
            }
        }
    }

    /// Ends a generation, once nothing waits and nothing runs: the best `np`
    /// members stay, best first, and the next generation may begin unless
    /// this was the last. No vector of the next generation can be queued
    /// before this.
    pub fn end_generation(&mut self)
        requires
            old(self).wf(),
            old(self).phase == Phase::Running,
            old(self).queue@.len() == 0,
            old(self).running@.len() == 0,
            !old(self).finished,
        ensures
            final(self).wf(),
            final(self).phase == Phase::Planning,
            final(self).pool@.len() <= old(self).np,
            final(self).pool@ == survivors(old(self).pool@, old(self).objective, old(self).np as nat),
            final(self).finished == (old(self).generation == old(self).generations),
            final(self).generation == if old(self).generation == old(self).generations {
                old(self).generation as int
            } else {
                old(self).generation + 1
            },
            forall|axes: ParamView| old(self).conforming(axes) ==> final(self).conforming(axes),
            final(self).objective == old(self).objective,
            final(self).np == old(self).np,
            final(self).generations == old(self).generations,
            final(self).limit == old(self).limit,
            final(self).next_id == old(self).next_id,
            final(self).queue == old(self).queue,
            final(self).running == old(self).running,
    {
        let ghost members = self.pool@;
        let mut pool: Vec<Member> = Vec::new();
        core::mem::swap(&mut pool, &mut self.pool);
        self.pool = select(pool, self.objective, self.np);
        proof {
            lemma_survivors(members, self.objective, self.np as nat);
        }
        assert(numbers(self.pool@)) by {
            assert forall|i: int| 0 <= i < self.pool@.len() implies !(
            #[trigger] self.pool@[i]).1.value.nan() by {
                assert(members.contains(self.pool@[i]));
                let j = choose|j: int| 0 <= j < members.len() && members[j] == self.pool@[i];
                assert(!members[j].1.value.nan());
            }
        }
        assert forall|axes: ParamView| old(self).conforming(axes) implies self.conforming(axes) by {
            assert forall|i: int| 0 <= i < self.pool@.len() implies conforms(
                named((#[trigger] self.pool@[i]).0@),
                axes,
            ) by {
                assert(members.contains(self.pool@[i]));
                let j = choose|j: int| 0 <= j < members.len() && members[j] == self.pool@[i];
                assert(conforms(named(members[j].0@), axes));
            }
        }
        if self.generation == self.generations {
            self.finished = true;
        } else {
            self.generation += 1;
        }
        self.phase = Phase::Planning;
    }

    /// The best member of the population, if it has one.
    pub fn best(&self) -> (r: Option<&Member>)
        ensures
            self.pool@.len() == 0 ==> r is None,
            self.pool@.len() > 0 ==> r == Some(&self.pool@[0]),
    {
        if self.pool.len() == 0 {
            None
        } else {
            Some(&self.pool[0])
        }
    }
}

/// Whether `z` is the trial vector of member `i` of the population: the
/// member crossed with the vector at place `a` and the mutant, with `forced`
/// as the forced place, which is a place of the map if the map has any.
pub open spec fn crossed_with(
    z: ParamView,
    pool: Seq<Member>,
    i: int,
    a: int,
    mutant: Seq<Value>,
    axes: ParamView,
    cr: Float,
    draws: Seq<Float>,
    forced: Option<usize>,
) -> bool {
    &&& forced is Some <==> axes.len() > 0
    &&& forced is Some ==> forced->0 < axes.len()
    &&& z == trial(
        named(pool[i].0@),
        named(pool[a].0@),
        values(mutant),
        axes,
        cr,
        draws,
        forced,
    )
}

/// Whether `z` is the trial vector of member `i` of the population for some
/// forced place.
pub open spec fn bred(
    z: ParamView,
    pool: Seq<Member>,
    i: int,
    a: int,
    mutant: Seq<Value>,
    axes: ParamView,
    cr: Float,
    draws: Seq<Float>,
) -> bool {
    exists|forced: Option<usize>|
        #[trigger] crossed_with(z, pool, i, a, mutant, axes, cr, draws, forced)
}

/// A sweep never has more trials running than its limit, and hands out the
/// vectors of the map in the order of their numbers: the trial that it
/// starts in a state has the number of the walk, and that vector. The walk
/// counts the trials started; when the sweep is idle, it has started one
/// trial for each vector of the map, or was stopped.
pub proof fn lemma_sweep_order(s: Sweep)
    requires
        s.wf(),
    ensures
        s.action() is Spawn ==> s.running < s.limit && s.action()->Spawn_0 == s.walk.idx
            && s.action()->Spawn_1 == point(s.walk.data@, s.walk.idx as nat),
        s.action() is Idle ==> s.running == 0 && s.walk.idx == size(s.walk.data@),
        s.action() is Join ==> s.running > 0,
{
}

} // verus!

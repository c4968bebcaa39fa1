use vstd::prelude::*;
use crate::config::Task;
use crate::rules::{SpawnRequest, dispatch, dispatch_spec};

verus! {

/// What one poll of the focus probe saw.
pub enum Sample {
    /// No window has the input focus.
    NoWindow,
    /// The focused window belongs to this process.
    Process(u32),
    /// The probe failed, with the platform's message.
    ProbeError(String),
}

/// The process to resolve after `sample`, given the last recorded process:
/// only a process other than the last one is a change.
pub open spec fn to_resolve(last: Option<u32>, sample: Sample) -> Option<u32> {
    match sample {
        Sample::Process(p) => if last == Some(p) {
            None
        } else {
            Some(p)
        },
        _ => None,
    }
}

/// One tick of the poll loop: the sample, and the executable path that
/// resolution gives if it is asked for (`None`: the lookup failed).
pub struct Tick {
    pub sample: Sample,
    pub path: Option<Seq<char>>,
}

/// The last recorded process after `tick`: it moves only on a change whose
/// resolution succeeded.
pub open spec fn next_last(last: Option<u32>, tick: Tick) -> Option<u32> {
    match to_resolve(last, tick.sample) {
        Some(p) => if tick.path is Some {
            Some(p)
        } else {
            last
        },
        None => last,
    }
}

/// The spawn requests that `tick` makes.
pub open spec fn tick_dispatches(last: Option<u32>, tick: Tick, tasks: Seq<Task>) -> Seq<
    (Seq<char>, Seq<Seq<char>>),
> {
    match (to_resolve(last, tick.sample), tick.path) {
        (Some(_), Some(path)) => dispatch_spec(tasks, path),
        _ => Seq::empty(),
    }
}

/// The last recorded process after a run of ticks.
pub open spec fn run_last(last: Option<u32>, ticks: Seq<Tick>) -> Option<u32>
    decreases ticks.len(),
{
    if ticks.len() == 0 {
        last
    } else {
        run_last(next_last(last, ticks[0]), ticks.drop_first())
    }
}

/// How many resolutions a run of ticks asks for.
pub open spec fn run_resolutions(last: Option<u32>, ticks: Seq<Tick>) -> nat
    decreases ticks.len(),
{
    if ticks.len() == 0 {
        0
    } else {
        (if to_resolve(last, ticks[0].sample) is Some {
            1nat
        } else {
            0nat
        }) + run_resolutions(next_last(last, ticks[0]), ticks.drop_first())
    }
}

/// The spawn requests of a run of ticks, in order.
pub open spec fn run_dispatches(last: Option<u32>, ticks: Seq<Tick>, tasks: Seq<Task>) -> Seq<
    (Seq<char>, Seq<Seq<char>>),
>
    decreases ticks.len(),
{
    if ticks.len() == 0 {
        Seq::empty()
    } else {
        tick_dispatches(last, ticks[0], tasks) + run_dispatches(
            next_last(last, ticks[0]),
            ticks.drop_first(),
            tasks,
        )
    }
}

/// The state the poll loop carries between ticks: the last process whose
/// focus was acted on.
pub struct Watcher {
    last_process_id: Option<u32>,
}

impl Watcher {
    pub closed spec fn last(&self) -> Option<u32> {
        self.last_process_id
    }

    /// A watcher that has recorded no process yet.
    pub fn new() -> (r: Watcher)
        ensures
            r.last() == None::<u32>,
    {
        Watcher { last_process_id: None }
    }

    /// The last process whose focus was acted on.
    pub fn last_process_id(&self) -> (r: Option<u32>)
        ensures
            r == self.last(),
    {
        self.last_process_id
    }

    /// Decides what a sample asks for: `Some(p)` when process `p` has newly
    /// gained the focus and must be resolved, `None` when there is nothing to
    /// do (no window, a probe error, or the same process as before).
    pub fn observe(&self, sample: &Sample) -> (r: Option<u32>)
        ensures
            r == to_resolve(self.last(), *sample),
    {
        match sample {
            Sample::Process(p) => {
                if self.last_process_id == Some(*p) {
                    None
                } else {
                    Some(*p)
                }
            },
            _ => None,
        }
    }

    /// Finishes a change of focus to `pid`: with its executable path, returns
    /// the spawn requests that the rules give and records `pid`; where the
    /// lookup failed (`None`), requests nothing and records nothing, so that
    /// the same process is tried again at the next tick.
    pub fn complete(&mut self, pid: u32, exe: Option<&str>, tasks: &Vec<Task>) -> (r: Vec<
        SpawnRequest,
    >)
        ensures
            final(self).last() == (match exe {
                Some(_) => Some(pid),
                None => old(self).last(),
            }),
            r@.map_values(|q: SpawnRequest| q@) == (match exe {
                Some(path) => dispatch_spec(tasks@, path@),
                None => Seq::empty(),
            }),
    {
        match exe {
            Some(path) => {
                let r = dispatch(tasks, path);
                self.last_process_id = Some(pid);
                r
            },
            None => {
                let r: Vec<SpawnRequest> = Vec::new();
                assert(r@.map_values(|q: SpawnRequest| q@) =~= Seq::empty());
                r
            },
        }
    }
}

/// Debouncing: in a run of samples that all name process `p`, only the first
/// can ask for a resolution and dispatch, and none does when `p` is already
/// recorded. Once `p` is resolved, every later sample of `p` is ignored and
/// `p` stays recorded. (A failed lookup records nothing, so the next sample
/// of `p` is tried again: that case is left out.)
pub proof fn lemma_debounce(last: Option<u32>, p: u32, ticks: Seq<Tick>, tasks: Seq<Task>)
    requires
        ticks.len() >= 1,
        forall|i: int| 0 <= i < ticks.len() ==> ticks[i].sample == Sample::Process(p),
        last == Some(p) || ticks[0].path is Some,
    ensures
        run_resolutions(last, ticks) == (if last == Some(p) {
            0nat
        } else {
            1nat
        }),
        run_dispatches(last, ticks, tasks) == tick_dispatches(last, ticks[0], tasks),
        run_last(last, ticks) == Some(p),
{
    let rest = ticks.drop_first();
    assert(forall|i: int| 0 <= i < rest.len() ==> rest[i] == ticks[i + 1]);
    lemma_repeat_ignored(p, rest, tasks);
    assert(next_last(last, ticks[0]) == Some(p));
    assert(run_dispatches(last, ticks, tasks) =~= tick_dispatches(last, ticks[0], tasks));
}

proof fn lemma_repeat_ignored(p: u32, ticks: Seq<Tick>, tasks: Seq<Task>)
    requires
        forall|i: int| 0 <= i < ticks.len() ==> ticks[i].sample == Sample::Process(p),
    ensures
        run_resolutions(Some(p), ticks) == 0,
        run_dispatches(Some(p), ticks, tasks) == Seq::<(Seq<char>, Seq<Seq<char>>)>::empty(),
        run_last(Some(p), ticks) == Some(p),
    decreases ticks.len(),
{
    if ticks.len() > 0 {
        let rest = ticks.drop_first();
        assert(forall|i: int| 0 <= i < rest.len() ==> rest[i] == ticks[i + 1]);
        lemma_repeat_ignored(p, rest, tasks);
        assert(run_dispatches(Some(p), ticks, tasks) =~= Seq::<
            (Seq<char>, Seq<Seq<char>>),
        >::empty());
    }
}

/// A run of "no window" samples changes nothing: it keeps the recorded
/// process, asks for no resolution and dispatches nothing.
pub proof fn lemma_no_window(last: Option<u32>, ticks: Seq<Tick>, tasks: Seq<Task>)
    requires
        forall|i: int| 0 <= i < ticks.len() ==> ticks[i].sample is NoWindow,
    ensures
        run_last(last, ticks) == last,
        run_resolutions(last, ticks) == 0,
        run_dispatches(last, ticks, tasks) == Seq::<(Seq<char>, Seq<Seq<char>>)>::empty(),
    decreases ticks.len(),
{
    if ticks.len() > 0 {
        let rest = ticks.drop_first();
        assert(forall|i: int| 0 <= i < rest.len() ==> rest[i] == ticks[i + 1]);
        lemma_no_window(last, rest, tasks);
        assert(run_dispatches(last, ticks, tasks) =~= Seq::<
            (Seq<char>, Seq<Seq<char>>),
        >::empty());
    }
}

/// A failed resolution of `p` does not record `p`: when `p` is sampled again
/// and its resolution succeeds, that is still a change, with its dispatch.
pub proof fn lemma_failed_resolution_not_recorded(
    last: Option<u32>,
    p: u32,
    path: Seq<char>,
    tasks: Seq<Task>,
)
    requires
        last != Some(p),
    ensures
        ({
            let failed = Tick { sample: Sample::Process(p), path: None };
            let retried = Tick { sample: Sample::Process(p), path: Some(path) };
            let mid = next_last(last, failed);
            &&& mid == last
            &&& to_resolve(mid, retried.sample) == Some(p)
            &&& tick_dispatches(mid, retried, tasks) == dispatch_spec(tasks, path)
            &&& next_last(mid, retried) == Some(p)
        }),
{
}

} // verus!

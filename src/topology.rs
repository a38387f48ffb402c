use vstd::prelude::*;
use crate::diff::{has_name, texts, ConfigDiff};

verus! {

/// Where the running topology stands.
#[derive(Debug, Clone, Copy, PartialEq, Eq, Structural)]
pub enum State {
    /// No tasks run.
    Stopped,
    /// Tasks run the current graph.
    Running,
    /// A reload is being prepared; the current graph keeps serving.
    Reloading,
    /// Every task was told to stop; waiting for them to finish.
    ShuttingDown,
}

/// What happened, as reported to the topology.
#[derive(Debug, Clone, Copy, PartialEq, Eq, Structural)]
pub enum Signal {
    /// First start: whether the pieces were built, whether every sink
    /// healthcheck passed, and whether healthchecks gate this start.
    Start { built: bool, healthy: bool, require_healthchecks: bool },
    /// A new graph was asked for.
    ReloadRequested,
    /// The pieces of the new graph were built (or not) and its new or changed
    /// sinks' healthchecks passed (or not).
    ReloadChecked { built: bool, healthy: bool },
    /// A task met an unrecoverable failure.
    Fatal,
    /// An orderly stop was asked for.
    ShutdownRequested,
    /// The shutdown wait ended: either every task finished, or the deadline
    /// passed first.
    ShutdownWaited { all_finished: bool },
}

/// What the topology must do next.
#[derive(Debug, Clone, Copy, PartialEq, Eq, Structural)]
pub enum Command {
    /// Nothing to do.
    Idle,
    /// Wire the fanouts, then spawn every task of the new pieces.
    SpawnAll,
    /// Report that the start failed; nothing was started.
    ReportStartFailure,
    /// Build the pieces for the difference against the current graph and run
    /// the healthchecks of its new and changed sinks.
    BuildAndCheck,
    /// Rewire the fanouts, stop removed and replaced tasks, spawn new ones, and
    /// keep the new graph as current.
    Install,
    /// Drop the new pieces and report the failure; the current graph is left
    /// as it is.
    Discard,
    /// Refuse the request: another reload is under way, or nothing runs.
    Reject,
    /// Tell every task to stop and wait for them up to the deadline.
    CancelAll,
    /// Terminate the tasks that are still running.
    ForceTerminate,
}

/// The next state and command for a state and a signal.
pub open spec fn spec_step(s: State, sig: Signal) -> (State, Command) {
    match sig {
        Signal::Start { built, healthy, require_healthchecks } => {
            if s == State::Stopped {
                if built && (healthy || !require_healthchecks) {
                    (State::Running, Command::SpawnAll)
                } else {
                    (State::Stopped, Command::ReportStartFailure)
                }
            } else {
                (s, Command::Reject)
            }
        },
        Signal::ReloadRequested => {
            if s == State::Running {
                (State::Reloading, Command::BuildAndCheck)
            } else {
                (s, Command::Reject)
            }
        },
        Signal::ReloadChecked { built, healthy } => {
            if s == State::Reloading {
                if built && healthy {
                    (State::Running, Command::Install)
                } else {
                    (State::Running, Command::Discard)
                }
            } else {
                (s, Command::Idle)
            }
        },
        Signal::Fatal | Signal::ShutdownRequested => {
            if s == State::Running || s == State::Reloading {
                (State::ShuttingDown, Command::CancelAll)
            } else {
                (s, Command::Idle)
            }
        },
        Signal::ShutdownWaited { all_finished } => {
            if s == State::ShuttingDown {
                if all_finished {
                    (State::Stopped, Command::Idle)
                } else {
                    (State::Stopped, Command::ForceTerminate)
                }
            } else {
                (s, Command::Idle)
            }
        },
    }
}

/// Decides the next state of the topology and what to do on the way there.
pub fn step(s: State, sig: Signal) -> (r: (State, Command))
    ensures
        r == spec_step(s, sig),
{
    match sig {
        Signal::Start { built, healthy, require_healthchecks } => {
            if s == State::Stopped {
                if built && (healthy || !require_healthchecks) {
                    (State::Running, Command::SpawnAll)
                } else {
                    (State::Stopped, Command::ReportStartFailure)
                }
            } else {
                (s, Command::Reject)
            }
        },
        Signal::ReloadRequested => {
            if s == State::Running {
                (State::Reloading, Command::BuildAndCheck)
            } else {
                (s, Command::Reject)
            }
        },
        Signal::ReloadChecked { built, healthy } => {
            if s == State::Reloading {
                if built && healthy {
                    (State::Running, Command::Install)
                } else {
                    (State::Running, Command::Discard)
                }
            } else {
                (s, Command::Idle)
            }
        },
        Signal::Fatal | Signal::ShutdownRequested => {
            if s == State::Running || s == State::Reloading {
                (State::ShuttingDown, Command::CancelAll)
            } else {
                (s, Command::Idle)
            }
        },
        Signal::ShutdownWaited { all_finished } => {
            if s == State::ShuttingDown {
                if all_finished {
                    (State::Stopped, Command::Idle)
                } else {
                    (State::Stopped, Command::ForceTerminate)
                }
            } else {
                (s, Command::Idle)
            }
        },
    }
}

/// A failed reload never installs anything and leaves the current graph
/// running; a fatal failure while tasks run always leads to cancelling every
/// task.
pub proof fn lemma_reload_and_fatal(s: State, built: bool, healthy: bool)
    ensures
        s == State::Reloading && !(built && healthy) ==> spec_step(
            s,
            Signal::ReloadChecked { built, healthy },
        ) == (State::Running, Command::Discard),
        s == State::Running || s == State::Reloading ==> spec_step(s, Signal::Fatal) == (
            State::ShuttingDown,
            Command::CancelAll,
        ),
{
}

/// How a supervised task ended.
#[derive(Debug, Clone, Copy, PartialEq, Eq, Structural)]
pub enum TaskOutcome {
    /// It ran to its end.
    Finished,
    /// It ended with an error of its own, which it handles itself.
    Errored,
    /// It met an unrecoverable failure.
    Fatal,
}

/// Whether a task's end must raise the whole-topology abort signal: only an
/// unrecoverable failure does.
pub fn handle_errors(outcome: TaskOutcome) -> (abort: bool)
    ensures
        abort == (outcome == TaskOutcome::Fatal),
{
    match outcome {
        TaskOutcome::Fatal => true,
        _ => false,
    }
}

/// Names whose healthcheck failed, in the order given.
pub open spec fn failed_names(results: Seq<(Seq<char>, bool)>) -> Seq<Seq<char>>
    decreases results.len(),
{
    if results.len() == 0 {
        Seq::empty()
    } else if results.last().1 {
        failed_names(results.drop_last())
    } else {
        failed_names(results.drop_last()).push(results.last().0)
    }
}

/// The names of the sinks whose healthcheck failed, to report them.
pub fn failed_healthchecks(results: &Vec<(String, bool)>) -> (r: Vec<String>)
    ensures
        texts(r@) == failed_names(results@.map_values(|p: (String, bool)| (p.0@, p.1))),
{
    let ghost s = results@.map_values(|p: (String, bool)| (p.0@, p.1));
    let mut r: Vec<String> = Vec::new();
    let mut i: usize = 0;
    while i < results.len()
        invariant
            i <= results.len(),
            s == results@.map_values(|p: (String, bool)| (p.0@, p.1)),
            texts(r@) == failed_names(s.subrange(0, i as int)),
        decreases results.len() - i,
    {
        let ghost before = r@;
        assert(s.subrange(0, i + 1).drop_last() =~= s.subrange(0, i as int));
        if !results[i].1 {
            r.push(results[i].0.clone());
            assert(texts(r@) =~= texts(before).push(results@[i as int].0@));
        }
        i = i + 1;
    }
    assert(s.subrange(0, results.len() as int) =~= s);
    r
}

/// Built runtime artifacts not yet installed; here, the healthchecks of the
/// sinks by name, at most one per name.
#[derive(Debug)]
pub struct Pieces<T> {
    pub healthchecks: Vec<(String, T)>,
}

/// No two entries share a name.
pub open spec fn names_distinct<T>(s: Seq<(String, T)>) -> bool {
    forall|i: int, j: int|
        0 <= i < s.len() && 0 <= j < s.len() && i != j ==> #[trigger] s[i].0@ != #[trigger] s[j].0@
}

impl<T> Pieces<T> {
    /// At most one healthcheck per sink name.
    pub open spec fn wf(&self) -> bool {
        names_distinct(self.healthchecks@)
    }
}

/// Each half of a split holds only names of the whole, and keeps names
/// distinct when the whole has them distinct.
pub proof fn lemma_split_checks_distinct<T>(diff: ConfigDiff, s: Seq<(String, T)>, inside: bool)
    ensures
        forall|i: int|
            0 <= i < split_checks(diff, s, inside).len() ==> exists|j: int|
                0 <= j < s.len() && #[trigger] split_checks(diff, s, inside)[i] == s[j],
        names_distinct(s) ==> names_distinct(split_checks(diff, s, inside)),
    decreases s.len(),
{
    if s.len() > 0 {
        let p = s.drop_last();
        lemma_split_checks_distinct(diff, p, inside);
        let sp = split_checks(diff, p, inside);
        assert forall|i: int| 0 <= i < sp.len() implies exists|j: int|
            0 <= j < s.len() - 1 && #[trigger] sp[i] == s[j] by {
            let j = choose|j: int| 0 <= j < p.len() && #[trigger] sp[i] == p[j];
            assert(p[j] == s[j]);
        }
        let r = split_checks(diff, s, inside);
        if to_check(diff, s.last().0@) == inside {
            assert forall|i: int| 0 <= i < r.len() implies exists|j: int|
                0 <= j < s.len() && #[trigger] r[i] == s[j] by {
                if i == r.len() - 1 {
                    assert(r[i] == s[s.len() - 1]);
                } else {
                    assert(r[i] == sp[i]);
                }
            }
            if names_distinct(s) {
                assert forall|x: int, y: int|
                    0 <= x < r.len() && 0 <= y < r.len() && x != y implies #[trigger] r[x].0@
                    != #[trigger] r[y].0@ by {
                    if x < r.len() - 1 && y < r.len() - 1 {
                        assert(r[x] == sp[x]);
                        assert(r[y] == sp[y]);
                        assert(names_distinct(p)) by {
                            assert forall|a: int, b: int|
                                0 <= a < p.len() && 0 <= b < p.len() && a != b implies #[trigger] p[a].0@
                                != #[trigger] p[b].0@ by {
                                assert(p[a] == s[a] && p[b] == s[b]);
                            }
                        }
                    } else if x < r.len() - 1 {
                        assert(r[x] == sp[x]);
                        let j = choose|j: int| 0 <= j < s.len() - 1 && #[trigger] sp[x] == s[j];
                        assert(r[y] == s[s.len() - 1]);
                        assert(s[j].0@ != s[s.len() - 1].0@);
                    } else if y < r.len() - 1 {
                        assert(r[y] == sp[y]);
                        let j = choose|j: int| 0 <= j < s.len() - 1 && #[trigger] sp[y] == s[j];
                        assert(r[x] == s[s.len() - 1]);
                        assert(s[j].0@ != s[s.len() - 1].0@);
                    }
                }
            }
        } else {
            if names_distinct(s) {
                assert forall|a: int, b: int|
                    0 <= a < p.len() && 0 <= b < p.len() && a != b implies #[trigger] p[a].0@
                    != #[trigger] p[b].0@ by {
                    assert(p[a] == s[a] && p[b] == s[b]);
                }
            }
        }
    }
}

/// Whether the sink difference adds or changes `k`.
pub open spec fn to_check(diff: ConfigDiff, k: Seq<char>) -> bool {
    has_name(texts(diff.sinks.to_change@), k) || has_name(texts(diff.sinks.to_add@), k)
}

/// The entries of `s` whose name passes (`inside`) or fails (`!inside`) `to_check`.
pub open spec fn split_checks<T>(diff: ConfigDiff, s: Seq<(String, T)>, inside: bool) -> Seq<(String, T)>
    decreases s.len(),
{
    if s.len() == 0 {
        Seq::empty()
    } else if to_check(diff, s.last().0@) == inside {
        split_checks(diff, s.drop_last(), inside).push(s.last())
    } else {
        split_checks(diff, s.drop_last(), inside)
    }
}

pub(crate) fn name_in(names: &Vec<String>, k: &String) -> (r: bool)
    ensures
        r == has_name(texts(names@), k@),
{
    let mut i: usize = 0;
    while i < names.len()
        invariant
            i <= names.len(),
            has_name(texts(names@.subrange(0, i as int)), k@) == false,
        decreases names.len() - i,
    {
        assert(texts(names@.subrange(0, i + 1)).drop_last() =~= texts(names@.subrange(0, i as int)));
        if names[i] == *k {
            proof {
                lemma_has_name_prefix(names@, i as int + 1, k@);
            }
            return true;
        }
        i = i + 1;
    }
    assert(names@.subrange(0, names.len() as int) =~= names@);
    false
}

pub(crate) proof fn lemma_has_name_prefix(v: Seq<String>, n: int, k: Seq<char>)
    requires
        0 < n <= v.len(),
        v[n - 1]@ == k,
    ensures
        has_name(texts(v), k),
    decreases v.len(),
{
    if n == v.len() {
        assert(texts(v).last() == k);
    } else {
        lemma_has_name_prefix(v.drop_last(), n, k);
        assert(texts(v).drop_last() =~= texts(v.drop_last()));
    }
}

/// Takes out of `pieces` the healthchecks of the sinks that the difference
/// adds or changes, and leaves the others.
pub fn take_healthchecks<T>(diff: &ConfigDiff, pieces: &mut Pieces<T>) -> (r: Vec<(String, T)>)
    ensures
        r@ == split_checks(*diff, old(pieces).healthchecks@, true),
        final(pieces).healthchecks@ == split_checks(*diff, old(pieces).healthchecks@, false),
        old(pieces).wf() ==> final(pieces).wf() && names_distinct(r@),
{
    proof {
        lemma_split_checks_distinct(*diff, pieces.healthchecks@, true);
        lemma_split_checks_distinct(*diff, pieces.healthchecks@, false);
    }
    let ghost all = pieces.healthchecks@;
    let mut rest: Vec<(String, T)> = Vec::new();
    std::mem::swap(&mut rest, &mut pieces.healthchecks);
    let mut taken: Vec<(String, T)> = Vec::new();
    let ghost n = all.len();
    assert(n == rest.len());
    let mut i: usize = 0;
    while rest.len() > 0
        invariant
            all == old(pieces).healthchecks@,
            i + rest@.len() == n,
            n == all.len(),
            n <= usize::MAX,
            rest@ == all.subrange(i as int, n as int),
            taken@ == split_checks(*diff, all.subrange(0, i as int), true),
            pieces.healthchecks@ == split_checks(*diff, all.subrange(0, i as int), false),
        decreases rest.len(),
    {
        let entry = rest.remove(0);
        assert(all.subrange(0, i + 1).drop_last() =~= all.subrange(0, i as int));
        assert(all.subrange(0, i + 1).last() == entry);
        let check = name_in(&diff.sinks.to_change, &entry.0) || name_in(&diff.sinks.to_add, &entry.0);
        if check {
            taken.push(entry);
        } else {
            pieces.healthchecks.push(entry);
        }
        i = i + 1;
        assert(rest@ =~= all.subrange(i as int, n as int));
    }
    assert(all.subrange(0, n as int) =~= all);
    taken
}

/// The elements of `s` whose decision is `true`, in order.
pub open spec fn kept<T>(s: Seq<T>, decisions: Seq<bool>) -> Seq<T>
    decreases s.len(),
{
    if s.len() == 0 {
        Seq::empty()
    } else if decisions[s.len() - 1] {
        kept(s.drop_last(), decisions).push(s.last())
    } else {
        kept(s.drop_last(), decisions)
    }
}

/// Keeps the elements for which `keep` answers true, in order, and removes
/// the others. The returned decisions are the answers, element by element.
pub fn retain<T, F: Fn(&T) -> bool>(vec: &mut Vec<T>, keep: F) -> (decisions: Ghost<Seq<bool>>)
    requires
        forall|x: &T| #[trigger] keep.requires((x,)),
    ensures
        decisions@.len() == old(vec)@.len(),
        forall|i: int| 0 <= i < old(vec)@.len() ==> keep.ensures((&old(vec)@[i],), #[trigger] decisions@[i]),
        final(vec)@ == kept(old(vec)@, decisions@),
{
    let ghost all = vec@;
    let ghost mut ds: Seq<bool> = Seq::empty();
    let mut rest: Vec<T> = Vec::new();
    std::mem::swap(&mut rest, vec);
    let ghost n = all.len();
    assert(n == rest.len());
    let mut i: usize = 0;
    while rest.len() > 0
        invariant
            all == old(vec)@,
            i + rest@.len() == n,
            n == all.len(),
            n <= usize::MAX,
            rest@ == all.subrange(i as int, n as int),
            ds.len() == i,
            forall|j: int| 0 <= j < i ==> keep.ensures((&all[j],), #[trigger] ds[j]),
            forall|x: &T| #[trigger] keep.requires((x,)),
            vec@ == kept(all.subrange(0, i as int), ds),
        decreases rest.len(),
    {
        let item = rest.remove(0);
        let b = keep(&item);
        let ghost ds_old = ds;
        proof {
            ds = ds.push(b);
            lemma_kept_prefix(all.subrange(0, i as int), ds_old, ds);
        }
        assert(all.subrange(0, i + 1).drop_last() =~= all.subrange(0, i as int));
        assert(all.subrange(0, i + 1).last() == item);
        if b {
            vec.push(item);
        }
        i = i + 1;
        assert(rest@ =~= all.subrange(i as int, n as int));
    }
    assert(all.subrange(0, n as int) =~= all);
    Ghost(ds)
}

proof fn lemma_kept_prefix<T>(s: Seq<T>, d1: Seq<bool>, d2: Seq<bool>)
    requires
        s.len() <= d1.len(),
        s.len() <= d2.len(),
        forall|j: int| 0 <= j < s.len() ==> d1[j] == d2[j],
    ensures
        kept(s, d1) == kept(s, d2),
    decreases s.len(),
{
    if s.len() > 0 {
        lemma_kept_prefix(s.drop_last(), d1, d2);
    }
}

} // verus!

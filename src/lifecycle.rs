use vstd::prelude::*;

verus! {

/// Why a launch could not start the child process.
#[derive(Clone, Copy, Debug, PartialEq, Eq)]
pub enum LaunchError {
    /// The executable or script path does not resolve.
    NotFound,
    /// The path resolves but may not be executed.
    PermissionDenied,
    /// The operating system refused to create the process for another reason.
    LaunchFailure,
}

/// Where one launch attempt stands.
#[derive(Clone, Copy, Debug, PartialEq, Eq)]
pub enum ProcessState {
    NotStarted,
    /// The spawn was requested and has not been answered yet.
    Starting,
    /// A child process is alive.
    Running,
    /// The child terminated; `None` when it was ended by a signal.
    Exited(Option<i32>),
    /// The launch failed before a child existed.
    Failed(LaunchError),
}

/// What happened to the supervised process, as seen by the supervisor.
#[derive(Clone, Copy, Debug, PartialEq, Eq)]
pub enum Event {
    /// A launch was asked for.
    Launch,
    /// The operating system created the child.
    Spawned,
    /// The operating system could not create the child.
    SpawnFailed(LaunchError),
    /// The child terminated.
    ChildExited(Option<i32>),
    /// Termination of the child was asked for.
    Shutdown,
    /// Return from a terminal state to `NotStarted`, for a new launch.
    Reset,
}

/// An exit that is not a clean exit with code zero: a non-zero code, or
/// termination by a signal. It is reported like any exit and is not a
/// failure of the supervisor.
pub open spec fn abnormal_exit(code: Option<i32>) -> bool {
    code != Some(0i32)
}

pub fn is_abnormal_exit(code: Option<i32>) -> (r: bool)
    ensures
        r == abnormal_exit(code),
{
    match code {
        Some(c) => c != 0,
        None => true,
    }
}

/// What the host must do after an event.
#[derive(Clone, Copy, Debug, PartialEq, Eq)]
pub enum Action {
    Nothing,
    /// Create the child process from the launch configuration.
    Spawn,
    /// Send the child a termination signal.
    Terminate,
    /// Invoke the exit callback with the child's exit code.
    ReportExit(Option<i32>),
    /// Surface a launch that failed.
    ReportFailure(LaunchError),
}

/// The supervisor's record of one supervised process.
#[derive(Clone, Copy, Debug, PartialEq, Eq)]
pub struct Lifecycle {
    pub state: ProcessState,
    /// A shutdown was asked for while the spawn was pending.
    pub shutdown_requested: bool,
    /// A termination signal was sent to the current child.
    pub terminate_sent: bool,
}

/// The record of a process that was never launched.
pub open spec fn fresh() -> Lifecycle {
    Lifecycle { state: ProcessState::NotStarted, shutdown_requested: false, terminate_sent: false }
}

/// The flags only hold in the states where they mean something.
pub open spec fn wf(l: Lifecycle) -> bool {
    &&& l.shutdown_requested ==> l.state is Starting
    &&& l.terminate_sent ==> (l.state is Running || l.state is Exited)
}

pub open spec fn is_terminal(s: ProcessState) -> bool {
    s is Exited || s is Failed
}

/// One transition of the lifecycle: the next record and the action owed.
pub open spec fn step(l: Lifecycle, e: Event) -> (Lifecycle, Action) {
    match e {
        Event::Launch => if l.state is NotStarted {
            (Lifecycle { state: ProcessState::Starting, ..fresh() }, Action::Spawn)
        } else {
            (l, Action::Nothing)
        },
        Event::Spawned => if l.state is Starting {
            if l.shutdown_requested {
                (Lifecycle { state: ProcessState::Running, shutdown_requested: false, terminate_sent: true }, Action::Terminate)
            } else {
                (Lifecycle { state: ProcessState::Running, ..fresh() }, Action::Nothing)
            }
        } else {
            (l, Action::Nothing)
        },
        Event::SpawnFailed(err) => if l.state is Starting {
            (Lifecycle { state: ProcessState::Failed(err), ..fresh() }, Action::ReportFailure(err))
        } else {
            (l, Action::Nothing)
        },
        Event::ChildExited(code) => if l.state is Running {
            (Lifecycle { state: ProcessState::Exited(code), ..l }, Action::ReportExit(code))
        } else {
            (l, Action::Nothing)
        },
        Event::Shutdown => if l.state is Starting {
            (Lifecycle { shutdown_requested: true, ..l }, Action::Nothing)
        } else if l.state is Running && !l.terminate_sent {
            (Lifecycle { terminate_sent: true, ..l }, Action::Terminate)
        } else {
            (l, Action::Nothing)
        },
        Event::Reset => if is_terminal(l.state) {
            (fresh(), Action::Nothing)
        } else {
            (l, Action::Nothing)
        },
    }
}

/// The record after a sequence of events, and the actions owed, in order.
pub open spec fn run(l: Lifecycle, evs: Seq<Event>) -> (Lifecycle, Seq<Action>)
    decreases evs.len(),
{
    if evs.len() == 0 {
        (l, Seq::empty())
    } else {
        let before = run(l, evs.drop_last());
        let last = step(before.0, evs.last());
        (last.0, before.1.push(last.1))
    }
}

/// How many termination signals a sequence of actions sends.
pub open spec fn count_terminates(acts: Seq<Action>) -> nat
    decreases acts.len(),
{
    if acts.len() == 0 {
        0
    } else {
        count_terminates(acts.drop_last()) + if acts.last() is Terminate { 1nat } else { 0nat }
    }
}

/// How many times a sequence of actions invokes the exit callback.
pub open spec fn count_exit_reports(acts: Seq<Action>) -> nat
    decreases acts.len(),
{
    if acts.len() == 0 {
        0
    } else {
        count_exit_reports(acts.drop_last()) + if acts.last() is ReportExit { 1nat } else { 0nat }
    }
}

pub open spec fn no_reset(evs: Seq<Event>) -> bool {
    forall|i: int| 0 <= i < evs.len() ==> !(#[trigger] evs[i] is Reset)
}

pub open spec fn has_child_exit(evs: Seq<Event>) -> bool {
    exists|i: int| 0 <= i < evs.len() && #[trigger] evs[i] is ChildExited
}

/// Owner of the lifecycle record of one supervised process. The record
/// changes only through the events handed to it.
pub struct Supervisor {
    lc: Lifecycle,
}

impl View for Supervisor {
    type V = Lifecycle;

    closed spec fn view(&self) -> Lifecycle {
        self.lc
    }
}

impl Supervisor {
    #[verifier::type_invariant]
    spec fn inv(&self) -> bool {
        wf(self.lc)
    }

    /// A supervisor whose process was never launched.
    pub fn new() -> (r: Supervisor)
        ensures
            r@ == fresh(),
    {
        Supervisor {
            lc: Lifecycle { state: ProcessState::NotStarted, shutdown_requested: false, terminate_sent: false },
        }
    }

    pub fn state(&self) -> (r: ProcessState)
        ensures
            r == self@.state,
    {
        self.lc.state
    }

    pub fn lifecycle(&self) -> (r: Lifecycle)
        ensures
            r == self@,
            wf(r),
    {
        proof {
            use_type_invariant(self);
        }
        self.lc
    }

    /// Applies one event and returns the action that the host owes.
    pub fn handle(&mut self, e: Event) -> (a: Action)
        ensures
            (final(self)@, a) == step(old(self)@, e),
            wf(final(self)@),
    {
        proof {
            use_type_invariant(&*self);
        }
        let l = self.lc;
        let (n, a) = match e {
            Event::Launch => match l.state {
                ProcessState::NotStarted => (
                    Lifecycle { state: ProcessState::Starting, shutdown_requested: false, terminate_sent: false },
                    Action::Spawn,
                ),
                _ => (l, Action::Nothing),
            },
            Event::Spawned => match l.state {
                ProcessState::Starting => if l.shutdown_requested {
                    (
                        Lifecycle { state: ProcessState::Running, shutdown_requested: false, terminate_sent: true },
                        Action::Terminate,
                    )
                } else {
                    (
                        Lifecycle { state: ProcessState::Running, shutdown_requested: false, terminate_sent: false },
                        Action::Nothing,
                    )
                },
                _ => (l, Action::Nothing),
            },
            Event::SpawnFailed(err) => match l.state {
                ProcessState::Starting => (
                    Lifecycle { state: ProcessState::Failed(err), shutdown_requested: false, terminate_sent: false },
                    Action::ReportFailure(err),
                ),
                _ => (l, Action::Nothing),
            },
            Event::ChildExited(code) => match l.state {
                ProcessState::Running => (
                    Lifecycle { state: ProcessState::Exited(code), shutdown_requested: l.shutdown_requested, terminate_sent: l.terminate_sent },
                    Action::ReportExit(code),
                ),
                _ => (l, Action::Nothing),
            },
            Event::Shutdown => match l.state {
                ProcessState::Starting => (
                    Lifecycle { state: l.state, shutdown_requested: true, terminate_sent: l.terminate_sent },
                    Action::Nothing,
                ),
                ProcessState::Running => if l.terminate_sent {
                    (l, Action::Nothing)
                } else {
                    (
                        Lifecycle { state: l.state, shutdown_requested: l.shutdown_requested, terminate_sent: true },
                        Action::Terminate,
                    )
                },
                _ => (l, Action::Nothing),
            },
            Event::Reset => match l.state {
                ProcessState::Exited(_) | ProcessState::Failed(_) => (
                    Lifecycle { state: ProcessState::NotStarted, shutdown_requested: false, terminate_sent: false },
                    Action::Nothing,
                ),
                _ => (l, Action::Nothing),
            },
        };
        self.lc = n;
        a
    }

    /// Asks for a launch: from `NotStarted` the state becomes `Starting` and
    /// the host is told to spawn; in any other state nothing happens.
    pub fn launch(&mut self) -> (a: Action)
        ensures
            (final(self)@, a) == step(old(self)@, Event::Launch),
    {
        self.handle(Event::Launch)
    }

    /// Records that the child was created.
    pub fn spawned(&mut self) -> (a: Action)
        ensures
            (final(self)@, a) == step(old(self)@, Event::Spawned),
    {
        self.handle(Event::Spawned)
    }

    /// Records that the child could not be created.
    pub fn spawn_failed(&mut self, err: LaunchError) -> (a: Action)
        ensures
            (final(self)@, a) == step(old(self)@, Event::SpawnFailed(err)),
    {
        self.handle(Event::SpawnFailed(err))
    }

    /// Records that the child terminated with `code`.
    pub fn child_exited(&mut self, code: Option<i32>) -> (a: Action)
        ensures
            (final(self)@, a) == step(old(self)@, Event::ChildExited(code)),
    {
        self.handle(Event::ChildExited(code))
    }

    /// Asks for termination of the child; a request that comes again, or in
    /// a state without a child, does nothing.
    pub fn shutdown(&mut self) -> (a: Action)
        ensures
            (final(self)@, a) == step(old(self)@, Event::Shutdown),
    {
        self.handle(Event::Shutdown)
    }

    /// Returns from a terminal state to `NotStarted`.
    pub fn reset(&mut self) -> (a: Action)
        ensures
            (final(self)@, a) == step(old(self)@, Event::Reset),
    {
        self.handle(Event::Reset)
    }

    /// Applies the events in order and returns the actions owed, in order.
    pub fn handle_all(&mut self, evs: &Vec<Event>) -> (acts: Vec<Action>)
        ensures
            final(self)@ == run(old(self)@, evs@).0,
            acts@ == run(old(self)@, evs@).1,
    {
        let mut acts: Vec<Action> = Vec::new();
        let mut i: usize = 0;
        while i < evs.len()
            invariant
                i <= evs.len(),
                self@ == run(old(self)@, evs@.take(i as int)).0,
                acts@ == run(old(self)@, evs@.take(i as int)).1,
            decreases evs.len() - i,
        {
            assert(evs@.take(i + 1).drop_last() =~= evs@.take(i as int));
            let a = self.handle(evs[i]);
            acts.push(a);
            i = i + 1;
        }
        assert(evs@.take(evs.len() as int) =~= evs@);
        acts
    }
}

/// Every transition keeps the record well formed.
pub proof fn lemma_step_keeps_wf(l: Lifecycle, e: Event)
    requires
        wf(l),
    ensures
        wf(step(l, e).0),
{
}

/// Every sequence of events keeps the record well formed.
pub proof fn lemma_run_keeps_wf(l: Lifecycle, evs: Seq<Event>)
    requires
        wf(l),
    ensures
        wf(run(l, evs).0),
    decreases evs.len(),
{
    if evs.len() > 0 {
        lemma_run_keeps_wf(l, evs.drop_last());
        lemma_step_keeps_wf(run(l, evs.drop_last()).0, evs.last());
    }
}

proof fn lemma_run_append(l: Lifecycle, a: Seq<Event>, b: Seq<Event>)
    ensures
        run(l, a + b).0 == run(run(l, a).0, b).0,
        run(l, a + b).1 == run(l, a).1 + run(run(l, a).0, b).1,
    decreases b.len(),
{
    if b.len() == 0 {
        assert(a + b =~= a);
        assert(run(l, a).1 + run(run(l, a).0, b).1 =~= run(l, a).1);
    } else {
        assert((a + b).drop_last() =~= a + b.drop_last());
        assert((a + b).last() == b.last());
        lemma_run_append(l, a, b.drop_last());
        let m = run(l, a).0;
        let s = step(run(m, b.drop_last()).0, b.last());
        assert((run(l, a).1 + run(m, b.drop_last()).1).push(s.1) =~= run(l, a).1 + run(m, b).1);
    }
}

proof fn lemma_counts_append(x: Seq<Action>, y: Seq<Action>)
    ensures
        count_terminates(x + y) == count_terminates(x) + count_terminates(y),
        count_exit_reports(x + y) == count_exit_reports(x) + count_exit_reports(y),
    decreases y.len(),
{
    if y.len() == 0 {
        assert(x + y =~= x);
    } else {
        assert((x + y).drop_last() =~= x + y.drop_last());
        assert((x + y).last() == y.last());
        lemma_counts_append(x, y.drop_last());
    }
}

proof fn lemma_counts_push(x: Seq<Action>, a: Action)
    ensures
        count_terminates(x.push(a)) == count_terminates(x) + if a is Terminate { 1nat } else { 0nat },
        count_exit_reports(x.push(a)) == count_exit_reports(x) + if a is ReportExit { 1nat } else { 0nat },
{
    assert(x.push(a).drop_last() =~= x);
}

/// The record and the actions after one more event.
proof fn lemma_run_last(l: Lifecycle, evs: Seq<Event>)
    requires
        evs.len() > 0,
    ensures
        run(l, evs).0 == step(run(l, evs.drop_last()).0, evs.last()).0,
        count_terminates(run(l, evs).1) == count_terminates(run(l, evs.drop_last()).1)
            + if step(run(l, evs.drop_last()).0, evs.last()).1 is Terminate { 1nat } else { 0nat },
        count_exit_reports(run(l, evs).1) == count_exit_reports(run(l, evs.drop_last()).1)
            + if step(run(l, evs.drop_last()).0, evs.last()).1 is ReportExit { 1nat } else { 0nat },
{
    lemma_counts_push(run(l, evs.drop_last()).1, step(run(l, evs.drop_last()).0, evs.last()).1);
}

proof fn lemma_no_reset_prefix(evs: Seq<Event>)
    requires
        evs.len() > 0,
        no_reset(evs),
    ensures
        no_reset(evs.drop_last()),
        !(evs.last() is Reset),
{
    assert(evs.last() == evs[evs.len() - 1]);
}

/// Without a reset a terminal record never changes and owes no action.
proof fn lemma_terminal_absorbs(l: Lifecycle, evs: Seq<Event>)
    requires
        is_terminal(l.state),
        no_reset(evs),
    ensures
        run(l, evs).0 == l,
        count_terminates(run(l, evs).1) == 0,
        count_exit_reports(run(l, evs).1) == 0,
    decreases evs.len(),
{
    if evs.len() > 0 {
        lemma_no_reset_prefix(evs);
        lemma_terminal_absorbs(l, evs.drop_last());
        lemma_run_last(l, evs);
    }
}

/// Starting from a live child and short of a reset, the record stays
/// `Running` until the first exit of the child, which moves it to `Exited`
/// and invokes the exit callback once.
proof fn lemma_running_until_exit(l: Lifecycle, evs: Seq<Event>)
    requires
        l.state is Running,
        no_reset(evs),
    ensures
        has_child_exit(evs) ==> run(l, evs).0.state is Exited && count_exit_reports(run(l, evs).1) == 1,
        !has_child_exit(evs) ==> run(l, evs).0.state is Running && count_exit_reports(run(l, evs).1) == 0,
    decreases evs.len(),
{
    if evs.len() > 0 {
        let prev = evs.drop_last();
        lemma_no_reset_prefix(evs);
        lemma_running_until_exit(l, prev);
        lemma_run_last(l, evs);
        assert(evs.last() == evs[evs.len() - 1]);
        if has_child_exit(prev) {
            let i = choose|i: int| 0 <= i < prev.len() && #[trigger] prev[i] is ChildExited;
            assert(evs[i] == prev[i]);
        } else if evs.last() is ChildExited {
        } else {
            assert forall|i: int| 0 <= i < evs.len() implies !(#[trigger] evs[i] is ChildExited) by {
                if i < evs.len() - 1 {
                    assert(evs[i] == prev[i]);
                }
            }
        }
    }
}

/// Launching from `NotStarted` moves the record to `Starting` and asks the
/// host to spawn; when the spawn succeeds the record is `Running` and
/// nothing more is owed.
pub proof fn lemma_launch_then_running(l: Lifecycle)
    requires
        wf(l),
        l.state is NotStarted,
    ensures
        run(l, seq![Event::Launch]).0.state == ProcessState::Starting,
        run(l, seq![Event::Launch]).1 == seq![Action::Spawn],
        run(l, seq![Event::Launch, Event::Spawned]).0.state == ProcessState::Running,
        run(l, seq![Event::Launch, Event::Spawned]).1 == seq![Action::Spawn, Action::Nothing],
{
    reveal_with_fuel(run, 3);
    let one = seq![Event::Launch];
    let two = seq![Event::Launch, Event::Spawned];
    assert(one.drop_last() =~= Seq::<Event>::empty());
    assert(two.drop_last() =~= one);
    assert(run(l, one).1 =~= seq![Action::Spawn]);
    assert(run(l, two).1 =~= seq![Action::Spawn, Action::Nothing]);
}

proof fn lemma_failed_launch_final(l: Lifecycle, err: LaunchError, evs: Seq<Event>)
    requires
        l.state is NotStarted,
        evs.len() >= 2,
        evs[0] == Event::Launch,
        evs[1] == Event::SpawnFailed(err),
        no_reset(evs),
    ensures
        run(l, evs).0.state == ProcessState::Failed(err),
        count_exit_reports(run(l, evs).1) == 0,
{
    reveal_with_fuel(run, 3);
    reveal_with_fuel(count_exit_reports, 3);
    let head = evs.take(2);
    let rest = evs.skip(2);
    assert(evs =~= head + rest);
    assert(head.drop_last() =~= seq![Event::Launch]);
    assert(seq![Event::Launch].drop_last() =~= Seq::<Event>::empty());
    assert(run(l, head).1 =~= seq![Action::Spawn, Action::ReportFailure(err)]);
    assert(count_exit_reports(run(l, head).1) == 0) by {
        assert(run(l, head).1.drop_last() =~= seq![Action::Spawn]);
        assert(seq![Action::Spawn].drop_last() =~= Seq::<Action>::empty());
    }
    assert(no_reset(rest)) by {
        assert forall|i: int| 0 <= i < rest.len() implies !(#[trigger] rest[i] is Reset) by {
            assert(rest[i] == evs[i + 2]);
        }
    }
    lemma_run_append(l, head, rest);
    lemma_terminal_absorbs(run(l, head).0, rest);
    lemma_counts_append(run(l, head).1, run(run(l, head).0, rest).1);
}

/// A launch whose spawn fails leaves the record `Failed` after every
/// later event short of a reset: it is never `Running` on the way, and the
/// exit callback is never invoked.
pub proof fn lemma_failed_launch_never_runs(l: Lifecycle, err: LaunchError, evs: Seq<Event>)
    requires
        l.state is NotStarted,
        evs.len() >= 2,
        evs[0] == Event::Launch,
        evs[1] == Event::SpawnFailed(err),
        no_reset(evs),
    ensures
        forall|k: int| 0 <= k <= evs.len() ==> !(#[trigger] run(l, evs.take(k)).0.state is Running),
        forall|k: int| 2 <= k <= evs.len() ==> #[trigger] run(l, evs.take(k)).0.state == ProcessState::Failed(err),
        count_exit_reports(run(l, evs).1) == 0,
{
    reveal_with_fuel(run, 2);
    lemma_failed_launch_final(l, err, evs);
    assert(evs.take(evs.len() as int) =~= evs);
    assert forall|k: int| 0 <= k <= evs.len() implies !(#[trigger] run(l, evs.take(k)).0.state is Running)
        && (2 <= k ==> run(l, evs.take(k)).0.state == ProcessState::Failed(err)) by {
        let p = evs.take(k);
        if k == 0 {
            assert(p =~= Seq::<Event>::empty());
        } else if k == 1 {
            assert(p =~= seq![Event::Launch]);
            assert(p.drop_last() =~= Seq::<Event>::empty());
        } else {
            assert forall|i: int| 0 <= i < p.len() implies !(#[trigger] p[i] is Reset) by {
                assert(p[i] == evs[i]);
            }
            lemma_failed_launch_final(l, err, p);
        }
    }
}

/// Short of a reset, the exit callback is invoked at most once, and only on
/// the move into `Exited`.
pub proof fn lemma_exit_reported_at_most_once(l: Lifecycle, evs: Seq<Event>)
    requires
        no_reset(evs),
    ensures
        count_exit_reports(run(l, evs).1) + (if l.state is Exited { 1nat } else { 0nat })
            == (if run(l, evs).0.state is Exited { 1nat } else { 0nat }),
        count_exit_reports(run(l, evs).1) <= 1,
    decreases evs.len(),
{
    if evs.len() > 0 {
        lemma_no_reset_prefix(evs);
        lemma_exit_reported_at_most_once(l, evs.drop_last());
        lemma_run_last(l, evs);
    }
}

/// A successful spawn followed by an exit of the child invokes the exit
/// callback exactly once, whatever else comes short of a reset.
pub proof fn lemma_exit_reported_once(l: Lifecycle, evs: Seq<Event>)
    requires
        l.state is Starting,
        evs.len() >= 1,
        evs[0] == Event::Spawned,
        has_child_exit(evs),
        no_reset(evs),
    ensures
        run(l, evs).0.state is Exited,
        count_exit_reports(run(l, evs).1) == 1,
{
    reveal_with_fuel(run, 2);
    reveal_with_fuel(count_exit_reports, 2);
    let head = evs.take(1);
    let rest = evs.skip(1);
    assert(evs =~= head + rest);
    assert(head.drop_last() =~= Seq::<Event>::empty());
    assert(count_exit_reports(run(l, head).1) == 0) by {
        assert(run(l, head).1.drop_last() =~= Seq::<Action>::empty());
    }
    assert(no_reset(rest)) by {
        assert forall|i: int| 0 <= i < rest.len() implies !(#[trigger] rest[i] is Reset) by {
            assert(rest[i] == evs[i + 1]);
        }
    }
    assert(has_child_exit(rest)) by {
        let i = choose|i: int| 0 <= i < evs.len() && #[trigger] evs[i] is ChildExited;
        assert(i != 0);
        assert(rest[i - 1] == evs[i]);
    }
    lemma_run_append(l, head, rest);
    lemma_running_until_exit(run(l, head).0, rest);
    lemma_counts_append(run(l, head).1, run(run(l, head).0, rest).1);
}

/// A second shutdown request right after a first one changes nothing and
/// owes nothing: in particular no second termination signal.
pub proof fn lemma_shutdown_twice(l: Lifecycle)
    ensures
        step(step(l, Event::Shutdown).0, Event::Shutdown) == (step(l, Event::Shutdown).0, Action::Nothing),
{
}

/// Short of a reset, a child is sent at most one termination signal, however
/// many shutdown requests and other events arrive.
pub proof fn lemma_terminate_at_most_once(l: Lifecycle, evs: Seq<Event>)
    requires
        wf(l),
        no_reset(evs),
    ensures
        count_terminates(run(l, evs).1) + (if l.terminate_sent { 1nat } else { 0nat })
            == (if run(l, evs).0.terminate_sent { 1nat } else { 0nat }),
        count_terminates(run(l, evs).1) <= 1,
    decreases evs.len(),
{
    if evs.len() > 0 {
        lemma_no_reset_prefix(evs);
        lemma_terminate_at_most_once(l, evs.drop_last());
        lemma_run_keeps_wf(l, evs.drop_last());
        lemma_run_last(l, evs);
    }
}

} // verus!

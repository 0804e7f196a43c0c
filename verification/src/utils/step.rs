//! A port that runs queued tasks one at a time, each as a sequence of steps,
//! one step per tick.
use vstd::prelude::*;
use std::collections::VecDeque;

verus! {

/// The outcome of one step: carry on with a new context, or finish with a result.
pub enum Step<S, R> {
    Continue(S),
    Done(R),
}

/// Whether a port is working on a task, and the task's context if it is.
pub enum PortStatus<Ctx> {
    Idle,
    InProgress(Ctx),
}

/// A task of type `T` run against shared state `S` one step at a time.
pub trait SteppedProcess<T, S> {
    type Ctx;
    type Result;

    /// The shared state is fit for this process.
    spec fn parent_wf(parent: S) -> bool;

    /// A context is valid against the shared state.
    spec fn ctx_wf(parent: S, ctx: Self::Ctx) -> bool;

    spec fn spec_create_context(parent: S, task: T, task_id: u8) -> Self::Ctx;

    /// The outcome of one step.
    spec fn spec_step(parent: S, ctx: Self::Ctx) -> Step<Self::Ctx, Self::Result>;

    /// How one step leaves the shared state.
    spec fn spec_step_parent(pre: S, ctx: Self::Ctx, post: S) -> bool;

    fn create_context(parent: &S, task: T, task_id: u8) -> (r: Self::Ctx)
        requires
            Self::parent_wf(*parent),
        ensures
            r == Self::spec_create_context(*parent, task, task_id),
            Self::ctx_wf(*parent, r),
    ;

    fn step(parent: &mut S, ctx: &Self::Ctx) -> (r: Step<Self::Ctx, Self::Result>)
        requires
            Self::parent_wf(*old(parent)),
            Self::ctx_wf(*old(parent), *ctx),
        ensures
            r == Self::spec_step(*old(parent), *ctx),
            Self::spec_step_parent(*old(parent), *ctx, *final(parent)),
            Self::parent_wf(*final(parent)),
            r matches Step::Continue(c) ==> Self::ctx_wf(*final(parent), c),
    ;
}

/// A queue of tasks worked off one step per tick, with a queue of results.
pub struct Port<T, P: SteppedProcess<T, S>, S> {
    inbox: VecDeque<(T, u8)>,
    outbox: VecDeque<P::Result>,
    state: PortStatus<P::Ctx>,
}

/// What a port holds, as values: its status, waiting tasks and results.
pub struct PortModel<T, P: SteppedProcess<T, S>, S> {
    pub status: PortStatus<P::Ctx>,
    pub inbox: Seq<(T, u8)>,
    pub outbox: Seq<P::Result>,
}

/// The status a port works on in a tick, and its remaining inbox: if idle, it
/// starts the oldest waiting task.
pub open spec fn spec_port_start<T, P: SteppedProcess<T, S>, S>(
    parent: S,
    m: PortModel<T, P, S>,
) -> (PortStatus<P::Ctx>, Seq<(T, u8)>) {
    match m.status {
        PortStatus::Idle => if m.inbox.len() > 0 {
            (
                PortStatus::InProgress(P::spec_create_context(parent, m.inbox[0].0, m.inbox[0].1)),
                m.inbox.drop_first(),
            )
        } else {
            (PortStatus::Idle, m.inbox)
        },
        PortStatus::InProgress(c) => (PortStatus::InProgress(c), m.inbox),
    }
}

/// One tick of a port: start the next task if idle, then run one step of the
/// task in progress, moving its result to the outbox when it is done.
pub open spec fn spec_port_tick<T, P: SteppedProcess<T, S>, S>(
    parent: S,
    m: PortModel<T, P, S>,
) -> PortModel<T, P, S> {
    let (status, inbox) = spec_port_start(parent, m);
    match status {
        PortStatus::Idle => PortModel { status: PortStatus::Idle, inbox, outbox: m.outbox },
        PortStatus::InProgress(c) => match P::spec_step(parent, c) {
            Step::Continue(c2) => PortModel { status: PortStatus::InProgress(c2), inbox, outbox: m.outbox },
            Step::Done(res) => PortModel { status: PortStatus::Idle, inbox, outbox: m.outbox.push(res) },
        },
    }
}

/// How one tick of a port leaves the shared state: unchanged when there is no
/// task to work on, else as one step of the task leaves it.
pub open spec fn spec_port_tick_parent<T, P: SteppedProcess<T, S>, S>(
    pre: S,
    m: PortModel<T, P, S>,
    post: S,
) -> bool {
    match spec_port_start(pre, m).0 {
        PortStatus::Idle => post == pre,
        PortStatus::InProgress(c) => P::spec_step_parent(pre, c, post),
    }
}

impl<T, P: SteppedProcess<T, S>, S> Port<T, P, S> {
    pub closed spec fn view(&self) -> PortModel<T, P, S> {
        PortModel { status: self.state, inbox: self.inbox@, outbox: self.outbox@ }
    }

    /// The task in progress, if any, is valid against `parent`.
    pub open spec fn ready_for(&self, parent: S) -> bool {
        self@.status matches PortStatus::InProgress(c) ==> P::ctx_wf(parent, c)
    }

    pub fn new() -> (r: Self)
        ensures
            r@.inbox == Seq::<(T, u8)>::empty(),
            r@.outbox == Seq::<P::Result>::empty(),
            r@.status is Idle,
    {
        Self { inbox: VecDeque::new(), outbox: VecDeque::new(), state: PortStatus::Idle }
    }

    /// Queues a task.
    pub fn send(&mut self, task: T, task_id: u8)
        ensures
            final(self)@ == (PortModel { inbox: old(self)@.inbox.push((task, task_id)), ..old(self)@ }),
    {
        self.inbox.push_back((task, task_id));
    }

    /// Takes the oldest result.
    pub fn pop(&mut self) -> (r: Option<P::Result>)
        ensures
            old(self)@.outbox.len() == 0 ==> r is None && final(self)@ == old(self)@,
            old(self)@.outbox.len() > 0 ==> r == Some(old(self)@.outbox[0])
                && final(self)@ == (PortModel { outbox: old(self)@.outbox.drop_first(), ..old(self)@ }),
    {
        self.outbox.pop_front()
    }

    /// Starts the next task if idle, then runs one step of the task in progress.
    pub fn tick(&mut self, parent: &mut S)
        requires
            P::parent_wf(*old(parent)),
            old(self).ready_for(*old(parent)),
        ensures
            P::parent_wf(*final(parent)),
            final(self).ready_for(*final(parent)),
            final(self)@ == spec_port_tick(*old(parent), old(self)@),
            spec_port_tick_parent(*old(parent), old(self)@, *final(parent)),
    {
        if let PortStatus::Idle = self.state {
            if let Some(task) = self.inbox.pop_front() {
                self.state = PortStatus::InProgress(P::create_context(parent, task.0, task.1));
            }
        }

        let new_state = match &self.state {
            PortStatus::InProgress(ctx) => match P::step(parent, ctx) {
                Step::Continue(new_ctx) => PortStatus::InProgress(new_ctx),
                Step::Done(result) => {
                    self.outbox.push_back(result);
                    PortStatus::Idle
                },
            },
            PortStatus::Idle => PortStatus::Idle,
        };

        self.state = new_state;
    }
}

} // verus!

//! Starting and stopping senders.
//!
//! A sender runs in a thread of its own, of which a handle of type `H` is kept.
use vstd::prelude::*;

verus! {

/// The id that is given out after `earlier` others, where the first one is
/// `first`. Ids wrap around at the end of their range.
pub open spec fn nth_id(first: u8, earlier: nat) -> u8 {
    ((first + earlier) % (u8::MAX + 1)) as u8
}

/// Gives out an id. `counter` is the one that comes next.
pub fn get_sender_id(counter: &mut u8) -> (id: u8)
    ensures
        id == nth_id(*old(counter), 0),
        *final(counter) == nth_id(*old(counter), 1),
{
    let id: u8 = *counter;
    *counter = id.wrapping_add(1);
    id
}

/// The ids follow each other, and any 256 of them that do are different.
pub proof fn law_ids_differ(first: u8, i: nat, j: nat)
    requires
        i < j < i + 256,
    ensures
        nth_id(nth_id(first, 1), i) == nth_id(first, i + 1),
        nth_id(first, i) != nth_id(first, j),
{
    vstd::arithmetic::div_mod::lemma_add_mod_noop_right(i as int, first + 1, 256);
    if nth_id(first, i) == nth_id(first, j) {
        vstd::arithmetic::div_mod::lemma_mod_equivalence(first + j, first + i, 256);
        vstd::arithmetic::div_mod::lemma_small_mod((j - i) as nat, 256);
    }
}

/// An id is the one that comes next, and after it comes the one above it, or zero
/// after the last.
pub proof fn law_next_id(counter: u8)
    ensures
        nth_id(counter, 0) == counter,
        counter < 255 ==> nth_id(counter, 1) == counter + 1,
        counter == 255 ==> nth_id(counter, 1) == 0,
{
}

/// A sender and its thread.
pub struct LumberjackSenderThread<H> {
    id: usize,
    name: &'static str,
    running: bool,
    thread_handle: Option<H>,
}

/// A sender: its id and name, whether it is to run, and the handle of its thread
/// as long as that has not been handed out.
pub struct ThreadView<H> {
    pub id: usize,
    pub name: Seq<char>,
    pub running: bool,
    pub handle: Option<H>,
}

/// What starting a sender comes to.
#[derive(Debug, Clone, Copy, PartialEq, Eq, Structural)]
pub enum StartAction {
    /// Nothing: it runs already.
    AlreadyStarted,
    /// Its thread has to be spawned.
    Spawn,
}

/// What stopping a sender comes to.
#[derive(Debug)]
pub enum StopAction<H> {
    /// Nothing: it does not run.
    AlreadyStopped,
    /// Nothing more: it has no thread.
    NoThread,
    /// Its thread has to be waited for.
    Join { handle: H },
}

impl<H> View for LumberjackSenderThread<H> {
    type V = ThreadView<H>;

    closed spec fn view(&self) -> ThreadView<H> {
        ThreadView {
            id: self.id,
            name: self.name@,
            running: self.running,
            handle: self.thread_handle,
        }
    }
}

impl<H> ThreadView<H> {
    /// A sender that is not to run has no thread left to wait for.
    pub open spec fn wf(self) -> bool {
        self.handle is Some ==> self.running
    }

    /// Whether the sender is to run exactly where there is a handle of its thread.
    pub open spec fn settled(self) -> bool {
        self.running <==> self.handle is Some
    }

    pub open spec fn started(self) -> (ThreadView<H>, StartAction) {
        if self.running {
            (self, StartAction::AlreadyStarted)
        } else {
            (ThreadView { running: true, ..self }, StartAction::Spawn)
        }
    }

    pub open spec fn spawned(self, handle: H) -> ThreadView<H> {
        ThreadView { handle: Some(handle), ..self }
    }

    /// The sender after it was told to stop, and the handle of its thread, if it
    /// ran and had one.
    pub open spec fn notified(self) -> (ThreadView<H>, Option<H>) {
        if self.running {
            (ThreadView { running: false, handle: None, ..self }, self.handle)
        } else {
            (self, None)
        }
    }

    pub open spec fn stopped(self) -> (ThreadView<H>, StopAction<H>) {
        (
            self.notified().0,
            match self.notified().1 {
                Some(handle) => StopAction::Join { handle },
                None => if self.running {
                    StopAction::NoThread
                } else {
                    StopAction::AlreadyStopped
                },
            },
        )
    }
}

impl<H> LumberjackSenderThread<H> {
    #[verifier::type_invariant]
    spec fn type_inv(self) -> bool {
        self@.wf()
    }

    /// A sender that does not run yet, with the id that comes next.
    pub fn new(name: &'static str, id_counter: &mut u8) -> (sender: Self)
        ensures
            sender@ == (ThreadView::<H> {
                id: nth_id(*old(id_counter), 0) as usize,
                name: name@,
                running: false,
                handle: None,
            }),
            sender@.wf(),
            sender@.settled(),
            *final(id_counter) == nth_id(*old(id_counter), 1),
    {
        LumberjackSenderThread {
            id: get_sender_id(id_counter) as usize,
            name,
            running: false,
            thread_handle: None,
        }
    }

    pub fn id(&self) -> (id: usize)
        ensures
            id == self@.id,
    {
        self.id
    }

    pub fn name(&self) -> (name: &'static str)
        ensures
            name@ == self@.name,
    {
        self.name
    }

    /// Whether the sender is to run.
    pub fn is_running(&self) -> (running: bool)
        ensures
            running == self@.running,
    {
        self.running
    }

    /// Starts the sender, unless it runs already.
    pub fn start(&mut self) -> (action: StartAction)
        ensures
            (final(self)@, action) == old(self)@.started(),
            final(self)@.wf(),
    {
        proof {
            use_type_invariant(&*self);
        }
        if self.running {
            return StartAction::AlreadyStarted;
        }
        self.running = true;
        StartAction::Spawn
    }

    /// Keeps the handle of the thread that was spawned.
    pub fn spawned(&mut self, handle: H)
        requires
            old(self)@.running,
        ensures
            final(self)@ == old(self)@.spawned(handle),
            final(self)@.wf(),
    {
        self.thread_handle = Some(handle);
    }

    /// Tells the sender to stop, and hands out its thread to be waited for.
    pub fn notify_stop(&mut self) -> (handle: Option<H>)
        ensures
            (final(self)@, handle) == old(self)@.notified(),
            final(self)@.wf(),
    {
        proof {
            use_type_invariant(&*self);
        }
        if !self.running {
            return None;
        }
        let mut handle: Option<H> = None;
        std::mem::swap(&mut handle, &mut self.thread_handle);
        self.running = false;
        handle
    }

    /// Stops the sender, unless it does not run.
    pub fn stop(&mut self) -> (action: StopAction<H>)
        ensures
            (final(self)@, action) == old(self)@.stopped(),
            final(self)@.wf(),
    {
        proof {
            use_type_invariant(&*self);
        }
        if !self.running {
            return StopAction::AlreadyStopped;
        }
        match self.notify_stop() {
            Some(handle) => StopAction::Join { handle },
            None => StopAction::NoThread,
        }
    }
}

/// A sender over one protocol or the other.
pub enum SendHandler<U, H> {
    /// A sender that starts and stops by itself.
    Uniform(U),
    Lumberjack(LumberjackSenderThread<H>),
}

/// What a call of a `SendHandler` comes to.
#[derive(Debug)]
pub enum Dispatch<A> {
    /// The same call of the uniform sender.
    Uniform,
    /// What it came to for the other one.
    Lumberjack { action: A },
}

impl<U, H> SendHandler<U, H> {
    /// Starts the sender.
    pub fn start(&mut self) -> (call: Dispatch<StartAction>)
        ensures
            match *old(self) {
                SendHandler::Uniform(_) => *final(self) == *old(self) && call is Uniform,
                SendHandler::Lumberjack(before) => {
                    &&& *final(self) matches SendHandler::Lumberjack(after)
                    &&& call matches Dispatch::Lumberjack { action }
                    &&& (after@, action) == before@.started()
                },
            },
    {
        match self {
            SendHandler::Uniform(_) => Dispatch::Uniform,
            SendHandler::Lumberjack(sender) => Dispatch::Lumberjack { action: sender.start() },
        }
    }

    /// Tells the sender to stop, and hands out its thread to be waited for.
    pub fn notify_stop(&mut self) -> (call: Dispatch<Option<H>>)
        ensures
            match *old(self) {
                SendHandler::Uniform(_) => *final(self) == *old(self) && call is Uniform,
                SendHandler::Lumberjack(before) => {
                    &&& *final(self) matches SendHandler::Lumberjack(after)
                    &&& call matches Dispatch::Lumberjack { action }
                    &&& (after@, action) == before@.notified()
                },
            },
    {
        match self {
            SendHandler::Uniform(_) => Dispatch::Uniform,
            SendHandler::Lumberjack(sender) => Dispatch::Lumberjack {
                action: sender.notify_stop(),
            },
        }
    }

    /// Stops the sender.
    pub fn stop(&mut self) -> (call: Dispatch<StopAction<H>>)
        ensures
            match *old(self) {
                SendHandler::Uniform(_) => *final(self) == *old(self) && call is Uniform,
                SendHandler::Lumberjack(before) => {
                    &&& *final(self) matches SendHandler::Lumberjack(after)
                    &&& call matches Dispatch::Lumberjack { action }
                    &&& (after@, action) == before@.stopped()
                },
            },
    {
        match self {
            SendHandler::Uniform(_) => Dispatch::Uniform,
            SendHandler::Lumberjack(sender) => Dispatch::Lumberjack { action: sender.stop() },
        }
    }
}

/// Starting a sender twice is starting it once, and so with stopping it.
pub proof fn law_start_stop_once<H>(sender: ThreadView<H>)
    requires
        sender.wf(),
    ensures
        sender.started().0.started() == (sender.started().0, StartAction::AlreadyStarted),
        sender.notified().0.notified() == (sender.notified().0, None::<H>),
        sender.stopped().0.stopped() == (sender.stopped().0, StopAction::<H>::AlreadyStopped),
        sender.notified().0.stopped() == (sender.notified().0, StopAction::<H>::AlreadyStopped),
{
}

/// Over whole calls, where the thread is spawned whenever starting comes to that,
/// a sender is to run exactly where there is a handle of its thread; stopping it
/// then always finds the thread to wait for.
pub proof fn law_runs_with_a_thread<H>(sender: ThreadView<H>, handle: H)
    requires
        sender.settled(),
    ensures
        sender.wf(),
        ({
            let (started, action) = sender.started();
            match action {
                StartAction::AlreadyStarted => started.settled(),
                StartAction::Spawn => started.spawned(handle).settled(),
            }
        }),
        sender.notified().0.settled(),
        sender.stopped().0.settled(),
        sender.notified().1 is Some <==> sender.running,
        !(sender.stopped().1 is NoThread),
{
}

/// A thread that was spawned is handed out when its sender is told to stop, once,
/// and the sender is then as it was before it was started.
pub proof fn law_thread_comes_back<H>(sender: ThreadView<H>, handle: H)
    requires
        sender.wf(),
        !sender.running,
    ensures
        sender.started().1 == StartAction::Spawn,
        sender.started().0.spawned(handle).notified() == (sender, Some(handle)),
        sender.started().0.spawned(handle).stopped() == (sender, StopAction::Join { handle }),
{
}

/// Starting a sender makes it run and is followed by spawning its thread exactly
/// where it did not run before; keeping the handle changes nothing else.
pub proof fn law_start<H>(sender: ThreadView<H>, handle: H)
    ensures
        ({
            let (after, action) = sender.started();
            &&& after.running
            &&& action == StartAction::Spawn <==> !sender.running
            &&& after.handle == sender.handle
            &&& after.id == sender.id
            &&& after.name == sender.name
        }),
        ({
            let after = sender.spawned(handle);
            &&& after.handle == Some(handle)
            &&& after.running == sender.running
            &&& after.id == sender.id
            &&& after.name == sender.name
        }),
{
}

/// Telling a sender to stop makes it not run, and hands out the thread that it has,
/// if it ran; stopping it does the same, and says which of the two it was where
/// there is no thread.
pub proof fn law_stop<H>(sender: ThreadView<H>)
    requires
        sender.wf(),
    ensures
        ({
            let (after, handle) = sender.notified();
            &&& !after.running
            &&& after.handle is None
            &&& handle == sender.handle
            &&& after.id == sender.id
            &&& after.name == sender.name
        }),
        ({
            let (after, action) = sender.stopped();
            &&& !after.running
            &&& after.handle is None
            &&& after.id == sender.id
            &&& after.name == sender.name
            &&& action is AlreadyStopped <==> !sender.running
            &&& action is NoThread <==> sender.running && sender.handle is None
            &&& sender.handle matches Some(handle) ==> action == (StopAction::Join { handle })
        }),
{
}

} // verus!

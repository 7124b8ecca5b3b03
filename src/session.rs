use vstd::prelude::*;

verus! {

/// Where the dashboard is in its life.
#[derive(Debug, PartialEq, Eq, Structural, Clone, Copy)]
pub enum Phase {
    /// The terminal is in raw mode; the device has not been identified yet.
    Starting,
    /// Frames are being drawn.
    Running,
    /// The terminal has been handed back.
    Finished,
}

/// What happened since the last step.
#[derive(Debug, PartialEq, Eq, Structural, Clone, Copy)]
pub enum Event {
    /// The device was identified.
    Ready,
    /// Identifying the device failed.
    StartupFailed,
    /// A key was pressed.
    KeyPressed(char),
    /// The wait for a key ended without one.
    Tick,
    /// Drawing, polling or reading input failed, or the program is unwinding.
    Fault,
}

/// What the caller is to do next.
#[derive(Debug, PartialEq, Eq, Structural, Clone, Copy)]
pub enum Action {
    /// Draw a frame, then wait for a key.
    Draw,
    /// Restore the terminal, then exit: with success when `clean` holds.
    Restore { clean: bool },
    /// Nothing.
    Idle,
}

/// The key that ends the session.
pub const QUIT_KEY: char = 'q';

/// The next phase and the action for `event` in `phase`.
pub open spec fn transition(phase: Phase, event: Event) -> (Phase, Action) {
    match phase {
        Phase::Finished => (Phase::Finished, Action::Idle),
        Phase::Starting => match event {
            Event::Ready => (Phase::Running, Action::Draw),
            Event::StartupFailed | Event::Fault => (
                Phase::Finished,
                Action::Restore { clean: false },
            ),
            _ => (Phase::Starting, Action::Idle),
        },
        Phase::Running => match event {
            Event::KeyPressed(c) => if c == QUIT_KEY {
                (Phase::Finished, Action::Restore { clean: true })
            } else {
                (Phase::Running, Action::Draw)
            },
            Event::StartupFailed | Event::Fault => (
                Phase::Finished,
                Action::Restore { clean: false },
            ),
            _ => (Phase::Running, Action::Draw),
        },
    }
}

/// The phase after `events`, starting in `phase`, and how many times the
/// terminal was restored on the way.
pub open spec fn replay(phase: Phase, events: Seq<Event>) -> (Phase, nat)
    decreases events.len(),
{
    if events.len() == 0 {
        (phase, 0)
    } else {
        let (next, action) = transition(phase, events[0]);
        let (last, n) = replay(next, events.drop_first());
        (last, n + if action is Restore { 1nat } else { 0nat })
    }
}

/// Whether `event` ends a session that has started.
pub open spec fn is_exit(phase: Phase, event: Event) -> bool {
    match event {
        Event::StartupFailed | Event::Fault => true,
        Event::KeyPressed(c) => phase == Phase::Running && c == QUIT_KEY,
        _ => false,
    }
}

/// The terminal's state over one run of the dashboard.
pub struct Session {
    phase: Phase,
}

impl View for Session {
    type V = Phase;

    closed spec fn view(&self) -> Phase {
        self.phase
    }
}

impl Session {
    /// A session whose terminal has just been taken over.
    pub fn new() -> (r: Session)
        ensures
            r@ == Phase::Starting,
    {
        Session { phase: Phase::Starting }
    }

    /// The current phase.
    pub fn phase(&self) -> (r: Phase)
        ensures
            r == self@,
    {
        self.phase
    }

    /// Takes in `event` and says what to do.
    pub fn handle(&mut self, event: Event) -> (r: Action)
        ensures
            (final(self)@, r) == transition(old(self)@, event),
    {
        let (next, action) = match self.phase {
            Phase::Finished => (Phase::Finished, Action::Idle),
            Phase::Starting => match event {
                Event::Ready => (Phase::Running, Action::Draw),
                Event::StartupFailed | Event::Fault => (
                    Phase::Finished,
                    Action::Restore { clean: false },
                ),
                _ => (Phase::Starting, Action::Idle),
            },
            Phase::Running => match event {
                Event::KeyPressed(c) => if c == QUIT_KEY {
                    (Phase::Finished, Action::Restore { clean: true })
                } else {
                    (Phase::Running, Action::Draw)
                },
                Event::StartupFailed | Event::Fault => (
                    Phase::Finished,
                    Action::Restore { clean: false },
                ),
                _ => (Phase::Running, Action::Draw),
            },
        };
        self.phase = next;
        action
    }
}

/// Over any series of events, the terminal is restored once if the session
/// ends and never otherwise, and it never leaves the finished phase.
pub proof fn lemma_restore_at_most_once(phase: Phase, events: Seq<Event>)
    ensures
        replay(phase, events).1 == if phase != Phase::Finished && replay(phase, events).0
            == Phase::Finished {
            1nat
        } else {
            0nat
        },
        phase == Phase::Finished ==> replay(phase, events).0 == Phase::Finished,
    decreases events.len(),
{
    if events.len() > 0 {
        lemma_restore_at_most_once(transition(phase, events[0]).0, events.drop_first());
    }
}

/// Whatever came before, a session that started and then meets an exit
/// (a startup failure, a fault, or the quit key while running) has restored
/// the terminal exactly once, and later events restore it no more.
pub proof fn lemma_every_exit_restores_once(
    before: Seq<Event>,
    exit: Event,
    after: Seq<Event>,
)
    requires
        replay(Phase::Starting, before).0 != Phase::Finished,
        is_exit(replay(Phase::Starting, before).0, exit),
    ensures
        replay(Phase::Starting, before.push(exit)).1 == 1,
        replay(Phase::Starting, before.push(exit) + after).1 == 1,
{
    lemma_replay_append(Phase::Starting, before, seq![exit]);
    assert(before + seq![exit] =~= before.push(exit));
    let mid = replay(Phase::Starting, before).0;
    assert(seq![exit].drop_first() =~= Seq::<Event>::empty());
    assert(transition(mid, exit).0 == Phase::Finished);
    assert(transition(mid, exit).1 is Restore);
    assert(replay(Phase::Finished, Seq::<Event>::empty()) == (Phase::Finished, 0nat));
    assert(replay(mid, seq![exit]) == (Phase::Finished, 1nat));
    lemma_restore_at_most_once(Phase::Starting, before);
    lemma_replay_append(Phase::Starting, before.push(exit), after);
    lemma_restore_at_most_once(Phase::Finished, after);
}

proof fn lemma_replay_append(phase: Phase, a: Seq<Event>, b: Seq<Event>)
    ensures
        replay(phase, a + b) == ({
            let (mid, n) = replay(phase, a);
            let (last, m) = replay(mid, b);
            (last, n + m)
        }),
    decreases a.len(),
{
    if a.len() > 0 {
        let next = transition(phase, a[0]).0;
        lemma_replay_append(next, a.drop_first(), b);
        assert((a + b).drop_first() =~= a.drop_first() + b);
    } else {
        assert(a + b =~= b);
    }
}

} // verus!

//! The engine's state: what it shows while its parts start, run and end.

use crate::phantom_core::config::PhantomConfig;
use crate::phantom_core::state::ConnectionState;
#[allow(unused_imports)]
use crate::phantom_core::state::StateView;
use crate::utils::PhantomError;
use vstd::prelude::*;

verus! {

/// How many parts run once the engine is up: proxy, connection loop and signaling.
pub const SUBSYSTEMS: usize = 3;

/// What the engine's task reports.
#[derive(Debug)]
pub enum EngineEvent {
    /// All parts have started.
    Started,
    /// A part could not start.
    Failed(PhantomError),
    /// The engine was told to end.
    ShutdownSignalled,
    /// Nobody can tell the engine to end any more.
    ShutdownLost,
}

impl EngineEvent {
    /// The state shown after the event, where `now` was shown before.
    pub open spec fn shows(&self, now: StateView) -> StateView {
        match self {
            EngineEvent::Started => StateView::Connected {
                speed_up: 0,
                speed_down: 0,
                worker_count: SUBSYSTEMS,
            },
            EngineEvent::Failed(e) => StateView::Error { message: e.message() },
            EngineEvent::ShutdownSignalled => now,
            EngineEvent::ShutdownLost => StateView::Error {
                message: PhantomError::Cancelled.message(),
            },
        }
    }
}

#[derive(Debug)]
pub struct PhantomEngine {
    pub config: PhantomConfig,
    pub state: ConnectionState,
    pub can_stop: bool,
}

impl PhantomEngine {
    pub fn new(config: PhantomConfig) -> (e: Self)
        ensures
            e.config == config,
            e.state@ == StateView::Disconnected,
            !e.can_stop,
    {
        PhantomEngine { config, state: ConnectionState::Disconnected, can_stop: false }
    }

    /// Goes up: the engine's task is to be run, and can be told to end.
    pub fn start(&mut self)
        ensures
            final(self).config == old(self).config,
            final(self).state@ == StateView::Connecting,
            final(self).can_stop,
    {
        self.state = ConnectionState::Connecting;
        self.can_stop = true;
    }

    /// Takes note of what the engine's task reports.
    pub fn on_event(&mut self, event: EngineEvent)
        ensures
            final(self).config == old(self).config,
            final(self).can_stop == old(self).can_stop,
            final(self).state@ == event.shows(old(self).state@),
    {
        match event {
            EngineEvent::Started => {
                self.state = ConnectionState::Connected {
                    speed_up: 0,
                    speed_down: 0,
                    worker_count: SUBSYSTEMS,
                };
            },
            EngineEvent::Failed(e) => {
                self.state = ConnectionState::Error { message: e.to_text() };
            },
            EngineEvent::ShutdownSignalled => {},
            EngineEvent::ShutdownLost => {
                let cancelled = PhantomError::Cancelled;
                self.state = ConnectionState::Error { message: cancelled.to_text() };
            },
        }
    }

    /// Goes down. Says whether a task is there to be told, which it is once per start.
    pub fn stop(&mut self) -> (signal: bool)
        ensures
            final(self).config == old(self).config,
            final(self).state@ == StateView::Disconnected,
            !final(self).can_stop,
            signal == old(self).can_stop,
    {
        let signal = self.can_stop;
        self.can_stop = false;
        self.state = ConnectionState::Disconnected;
        signal
    }

    pub fn get_state(&self) -> (s: ConnectionState)
        ensures
            s@ == self.state@,
    {
        self.state.clone()
    }
}

/// A start shows a connection through which nothing has gone yet; a failure, and nobody left to end
/// the engine, show an error; and a signal to end changes nothing of what is shown.
pub proof fn law_events_show_what_happened(e: EngineEvent, now: StateView)
    ensures
        e is Started ==> e.shows(now) is Connected && e.shows(now)->speed_up == 0 && e.shows(
            now,
        )->speed_down == 0,
        e matches EngineEvent::Failed(why) ==> e.shows(now) == (StateView::Error {
            message: why.message(),
        }),
        e is ShutdownSignalled ==> e.shows(now) == now,
        e is ShutdownLost ==> e.shows(now) is Error,
{
}

} // verus!

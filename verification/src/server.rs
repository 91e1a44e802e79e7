//! What stands above the sessions: the server that numbers connections
//! and gives each its session, and the watch that closes a connection on
//! which nothing arrives for too long.
use crate::content::SshContent;
use crate::session::{SessionState, SshSession};
use crate::terminal::ShellState;
use std::sync::Arc;
use vstd::prelude::*;

verus! {

/// The server: the snapshot that new sessions get, the site's name, and
/// the count of connections.
pub struct Server {
    id: usize,
    active: usize,
    content: Arc<SshContent>,
    domain: Vec<u8>,
}

impl Server {
    /// The number that the next connection gets.
    pub closed spec fn next_id(&self) -> usize {
        self.id
    }

    /// How many connections are open.
    pub closed spec fn active(&self) -> usize {
        self.active
    }

    /// The snapshot that new sessions get.
    pub closed spec fn content(&self) -> SshContent {
        *self.content
    }

    /// The site's name.
    pub closed spec fn domain(&self) -> Seq<u8> {
        self.domain@
    }

    /// The snapshot is well formed.
    pub closed spec fn wf(&self) -> bool {
        self.content.wf()
    }

    /// A server for the site `domain` that has seen no connection.
    pub fn new(content: Arc<SshContent>, domain: Vec<u8>) -> (r: Self)
        requires
            content.wf(),
        ensures
            r.wf(),
            r.next_id() == 0,
            r.active() == 0,
            r.content() == *content,
            r.domain() == domain@,
    {
        Self { id: 0, active: 0, content, domain }
    }

    /// Puts a new snapshot in the place of the old one. Sessions that are
    /// open keep the snapshot that they began with.
    pub fn replace_content(&mut self, content: Arc<SshContent>)
        requires
            content.wf(),
        ensures
            final(self).wf(),
            final(self).content() == *content,
            final(self).next_id() == old(self).next_id(),
            final(self).active() == old(self).active(),
            final(self).domain() == old(self).domain(),
    {
        self.content = content;
    }

    /// Takes a new connection: gives it the next number and a session at
    /// the root of the current snapshot. The numbers begin again at 0
    /// after the largest.
    pub fn new_client(&mut self) -> (r: SshSession)
        requires
            old(self).wf(),
        ensures
            final(self).wf(),
            final(self).content() == old(self).content(),
            final(self).domain() == old(self).domain(),
            final(self).next_id() == if old(self).next_id() == usize::MAX {
                0
            } else {
                old(self).next_id() + 1
            },
            final(self).active() == if old(self).active() == usize::MAX {
                0
            } else {
                old(self).active() + 1
            },
            r.wf(),
            r.id() == old(self).next_id(),
            r.content() == old(self).content(),
            r@ == (SessionState {
                shell: ShellState::initial(),
                username: Seq::empty(),
                domain: old(self).domain(),
                current_dir: 0,
                term_size: (80u32, 24u32),
                app: None,
            }),
    {
        let id = self.id;
        self.id = if self.id == usize::MAX {
            0
        } else {
            self.id + 1
        };
        self.active = if self.active == usize::MAX {
            0
        } else {
            self.active + 1
        };
        let domain = crate::text::copy_range(self.domain.as_slice(), 0, self.domain.len());
        assert(domain@ =~= self.domain@);
        SshSession::new(id, Arc::clone(&self.content), domain)
    }

    /// Notes that a connection has closed. Returns how many are open.
    pub fn client_closed(&mut self) -> (r: usize)
        requires
            old(self).wf(),
        ensures
            final(self).wf(),
            final(self).content() == old(self).content(),
            final(self).domain() == old(self).domain(),
            final(self).next_id() == old(self).next_id(),
            final(self).active() == r,
            r == if old(self).active() == 0 {
                usize::MAX
            } else {
                (old(self).active() - 1) as usize
            },
    {
        self.active = if self.active == 0 {
            usize::MAX
        } else {
            self.active - 1
        };
        self.active
    }

    /// How many connections are open.
    pub fn active_connections(&self) -> (r: usize)
        ensures
            r == self.active(),
    {
        self.active
    }
}

/// Where the watch over one connection stands.
#[derive(Clone, Copy, Debug, PartialEq, Eq, Structural)]
pub enum Watch {
    /// The connection has not yet handed over the means to close it.
    AwaitingChannel,
    /// The timer runs.
    Watching,
    /// The watch is over.
    Finished,
}

/// What can happen to the watch.
#[derive(Clone, Copy, Debug, PartialEq, Eq, Structural)]
pub enum WatchEvent {
    /// The connection handed over the means to close it.
    ChannelOpened,
    /// The connection ended before it handed anything over.
    ChannelLost,
    /// Input arrived on the connection.
    Activity,
    /// The timer ran out.
    Elapsed,
    /// The connection ended.
    Closed,
}

/// What the watch does next.
#[derive(Clone, Copy, Debug, PartialEq, Eq, Structural)]
pub enum WatchAction {
    /// Go on waiting as before.
    Wait,
    /// Start the timer from the beginning and wait.
    ArmTimer,
    /// Close the connection and stop.
    CloseConnection,
    /// Stop.
    Stop,
}

/// What an event does to the watch. The timer starts when the connection
/// has handed over the means to close it, and starts again with every
/// input. When it runs out the connection is closed. The watch ends with
/// the connection, and a watch that is over stays over.
pub open spec fn spec_watch_step(state: Watch, event: WatchEvent) -> (Watch, WatchAction) {
    match (state, event) {
        (Watch::AwaitingChannel, WatchEvent::ChannelOpened) => (
            Watch::Watching,
            WatchAction::ArmTimer,
        ),
        (Watch::AwaitingChannel, WatchEvent::ChannelLost) => (Watch::Finished, WatchAction::Stop),
        (Watch::AwaitingChannel, _) => (Watch::AwaitingChannel, WatchAction::Wait),
        (Watch::Watching, WatchEvent::Activity) => (Watch::Watching, WatchAction::ArmTimer),
        (Watch::Watching, WatchEvent::Elapsed) => (Watch::Finished, WatchAction::CloseConnection),
        (Watch::Watching, WatchEvent::Closed) => (Watch::Finished, WatchAction::Stop),
        (Watch::Watching, _) => (Watch::Watching, WatchAction::Wait),
        (Watch::Finished, _) => (Watch::Finished, WatchAction::Stop),
    }
}

/// What an event does to the watch.
pub fn watch_step(state: Watch, event: WatchEvent) -> (r: (Watch, WatchAction))
    ensures
        r == spec_watch_step(state, event),
{
    match state {
        Watch::AwaitingChannel => match event {
            WatchEvent::ChannelOpened => (Watch::Watching, WatchAction::ArmTimer),
            WatchEvent::ChannelLost => (Watch::Finished, WatchAction::Stop),
            _ => (Watch::AwaitingChannel, WatchAction::Wait),
        },
        Watch::Watching => match event {
            WatchEvent::Activity => (Watch::Watching, WatchAction::ArmTimer),
            WatchEvent::Elapsed => (Watch::Finished, WatchAction::CloseConnection),
            WatchEvent::Closed => (Watch::Finished, WatchAction::Stop),
            _ => (Watch::Watching, WatchAction::Wait),
        },
        Watch::Finished => (Watch::Finished, WatchAction::Stop),
    }
}

/// A connection is closed by its watch only when the timer runs out while
/// the watch is on, and then the watch is over.
pub proof fn lemma_close_only_when_idle(state: Watch, event: WatchEvent)
    ensures
        spec_watch_step(state, event).1 == WatchAction::CloseConnection <==> (state
            == Watch::Watching && event == WatchEvent::Elapsed),
        spec_watch_step(state, event).1 == WatchAction::CloseConnection ==> spec_watch_step(
            state,
            event,
        ).0 == Watch::Finished,
{
}

} // verus!

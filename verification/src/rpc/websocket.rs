//! The settings of a websocket subscription service, and the limit on its connections.
use std::sync::Arc;

use tokio::sync::{OwnedSemaphorePermit, Semaphore as TaskSemaphore};
use vstd::prelude::*;

use crate::shared::share;

verus! {

/// `tokio::sync::Semaphore`: permits that tasks share.
#[verifier::external_type_specification]
#[verifier::external_body]
pub struct ExTaskSemaphore(TaskSemaphore);

/// `tokio::sync::OwnedSemaphorePermit`: a permit, which goes back when it is dropped.
#[verifier::external_type_specification]
#[verifier::external_body]
pub struct ExOwnedSemaphorePermit(OwnedSemaphorePermit);

/// The number of permits that a semaphore was made with.
pub uninterp spec fn permits_at_start(s: TaskSemaphore) -> usize;

/// The semaphore that a permit goes back to.
pub uninterp spec fn semaphore_of(p: OwnedSemaphorePermit) -> TaskSemaphore;

/// `tokio::sync::Semaphore::new`, which panics above `Semaphore::MAX_PERMITS`, an eighth of what
/// `usize` can hold.
#[verifier::external_body]
fn new_semaphore(permits: usize) -> (r: TaskSemaphore)
    requires
        permits <= usize::MAX / 8,
    ensures
        permits_at_start(r) == permits,
{
    TaskSemaphore::new(permits)
}

/// `tokio::sync::Semaphore::try_acquire_owned`: a permit of this semaphore, where one is free.
/// Whether one is free is left open, since other tasks take permits and give them back.
#[verifier::external_body]
fn try_acquire_owned(s: Arc<TaskSemaphore>) -> (r: Option<OwnedSemaphorePermit>)
    ensures
        r matches Some(p) ==> semaphore_of(p) == *s,
{
    s.try_acquire_owned().ok()
}

/// How far back a subscription may start.
#[derive(Debug, Clone, Copy, PartialEq, Eq, Structural)]
pub enum WebsocketHistory {
    Limited(u64),
    Unlimited,
}

/// The settings of the service. Times are in milliseconds.
#[derive(Debug)]
pub struct WebsocketContext {
    pub max_history: WebsocketHistory,
    /// Maximum number of subscriptions per connection.
    pub max_subscriptions: usize,
    pub subscription_max_size: usize,
    pub send_timeout: u64,
    /// Connections that don't send any frame within this time after the upgrade are closed. Zero
    /// disables the timeout.
    pub initial_frame_timeout: u64,
    /// How long to wait for a frame from the peer before sending a ping. Zero disables the
    /// keepalive.
    pub ping_interval: u64,
    /// Number of consecutive unanswered pings after which the connection is closed.
    pub max_missed_pings: u32,
    /// Limits the number of concurrently open websocket connections. Shared by all copies of this
    /// context, so the number of permits it was created with is the only source of truth for the
    /// limit.
    pub connection_limit: Arc<TaskSemaphore>,
}

/// The settings of a context, over plain values.
#[verifier::ext_equal]
pub struct Settings {
    pub max_history: WebsocketHistory,
    pub max_subscriptions: usize,
    pub subscription_max_size: usize,
    pub send_timeout: u64,
    pub initial_frame_timeout: u64,
    pub ping_interval: u64,
    pub max_missed_pings: u32,
    /// The number of concurrently open websocket connections.
    pub max_connections: usize,
}

impl View for WebsocketContext {
    type V = Settings;

    open spec fn view(&self) -> Settings {
        Settings {
            max_history: self.max_history,
            max_subscriptions: self.max_subscriptions,
            subscription_max_size: self.subscription_max_size,
            send_timeout: self.send_timeout,
            initial_frame_timeout: self.initial_frame_timeout,
            ping_interval: self.ping_interval,
            max_missed_pings: self.max_missed_pings,
            max_connections: permits_at_start(*self.connection_limit),
        }
    }
}

/// The settings where none are given.
pub open spec fn default_settings() -> Settings {
    Settings {
        max_history: WebsocketHistory::Limited(1024),
        max_subscriptions: 1024,
        subscription_max_size: 1048576,
        send_timeout: 1000,
        initial_frame_timeout: 30000,
        ping_interval: 30000,
        max_missed_pings: 2,
        max_connections: 1024,
    }
}

impl Default for WebsocketContext {
    fn default() -> (r: Self)
        ensures
            r@ == default_settings(),
    {
        WebsocketContext {
            max_history: WebsocketHistory::Limited(1024),
            max_subscriptions: 1024,
            subscription_max_size: 1024 * 1024,
            send_timeout: 1000,
            initial_frame_timeout: 30000,
            ping_interval: 30000,
            max_missed_pings: 2,
            connection_limit: Arc::new(new_semaphore(1024)),
        }
    }
}

/// Holds a websocket connection's slot in [`WebsocketContext::connection_limit`] for as long as the
/// connection's socket is open.
#[derive(Debug)]
pub struct ConnectionGuard {
    permit: OwnedSemaphorePermit,
}

impl ConnectionGuard {
    /// The semaphore that the slot goes back to.
    pub closed spec fn origin(self) -> TaskSemaphore {
        semaphore_of(self.permit)
    }

    /// The limit that the slot counts against.
    pub open spec fn limit(self) -> usize {
        permits_at_start(self.origin())
    }

    /// The guard of the slot that a permit stands for.
    pub fn from_permit(permit: Option<OwnedSemaphorePermit>) -> (r: Option<Self>)
        ensures
            match permit {
                Some(p) => r matches Some(guard) && guard.origin() == semaphore_of(p),
                None => r is None,
            },
    {
        match permit {
            Some(permit) => Some(ConnectionGuard { permit }),
            None => None,
        }
    }
}

impl WebsocketContext {
    /// Reserves a slot for a new websocket connection, or returns `None` if the limit has been
    /// reached. The slot is released when the returned [`ConnectionGuard`] is dropped.
    ///
    /// Whether a slot is free is left open, since other tasks open and close connections.
    pub fn try_acquire_connection(&self) -> (r: Option<ConnectionGuard>)
        ensures
            r matches Some(guard) ==> guard.origin() == *self.connection_limit && guard.limit()
                == self@.max_connections,
    {
        ConnectionGuard::from_permit(try_acquire_owned(share(&self.connection_limit)))
    }

    /// A second context with the same settings, which shares the limit on connections.
    pub fn copy(&self) -> (r: Self)
        ensures
            r == *self,
    {
        WebsocketContext {
            max_history: self.max_history,
            max_subscriptions: self.max_subscriptions,
            subscription_max_size: self.subscription_max_size,
            send_timeout: self.send_timeout,
            initial_frame_timeout: self.initial_frame_timeout,
            ping_interval: self.ping_interval,
            max_missed_pings: self.max_missed_pings,
            connection_limit: share(&self.connection_limit),
        }
    }

    /// The default settings with another history and a tenth of the time for sending.
    pub fn for_test(max_history: WebsocketHistory) -> (r: Self)
        ensures
            r@ == (Settings { max_history, send_timeout: 100, ..default_settings() }),
    {
        WebsocketContext { max_history, send_timeout: 100, ..WebsocketContext::default() }
    }
}

} // verus!

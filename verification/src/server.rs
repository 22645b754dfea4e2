//! What a dispatcher loop is set up with: the queue client, the queue, the
//! handler and the timings.
use crate::dispatch::{
    Dispatcher, DispatcherView, Phase, DEFAULT_SHUTDOWN_GRACE_SECONDS, LONG_LEASE_SECONDS,
};
use crate::message::Message;
use crate::pool::{new_pool, pool_tasks};
use aws_sdk_sqs::Client;
use axum_server::Handle;
use std::future::Future;
use tokio::task::JoinSet;
use vstd::multiset::Multiset;
use vstd::prelude::*;

verus! {

/// The queue client of `aws_sdk_sqs`. The library carries it to the loop
/// that makes the calls and looks at nothing inside.
#[verifier::external_type_specification]
#[verifier::external_body]
pub struct ExClient(Client);

/// The server handle of `axum_server`. The library carries it to the loop
/// and looks at nothing inside.
#[verifier::external_type_specification]
#[verifier::external_body]
pub struct ExHandle(Handle);

/// `axum_server::Handle::new` makes a handle that belongs to no server yet.
/// Nothing is claimed of it.
pub assume_specification[ Handle::new ]() -> (handle: Handle)
;

/// What is done with each message.
pub trait Handler: 'static {
    /// Works on `req`. The dispatcher deletes the message once this has
    /// returned.
    fn call(&self, req: &Message);
}

/// The settings of a dispatcher loop.
pub struct Server<H> {
    /// The client that the queue calls go through.
    pub client: Client,
    /// The queue to take messages from.
    pub queue_url: String,
    handle: Handle,
    handler: H,
    futures: JoinSet<Message>,
    visibility_seconds: i32,
    grace_seconds: u64,
}

/// Mathematical value of a [`Server`].
pub struct ServerView<H> {
    pub client: Client,
    pub queue_url: Seq<char>,
    pub handle: Handle,
    pub handler: H,
    /// The tasks that the worker pool tracks.
    pub tasks: Multiset<u64>,
    /// Visibility timeout sent with each heartbeat, in seconds.
    pub visibility_seconds: i32,
    /// Time that workers are given after the signal to stop, in seconds.
    pub grace_seconds: u64,
}

impl<H> View for Server<H> {
    type V = ServerView<H>;

    closed spec fn view(&self) -> ServerView<H> {
        ServerView {
            client: self.client,
            queue_url: self.queue_url@,
            handle: self.handle,
            handler: self.handler,
            tasks: pool_tasks(self.futures),
            visibility_seconds: self.visibility_seconds,
            grace_seconds: self.grace_seconds,
        }
    }
}

impl<H> Server<H> where H: Handler + Clone + Send {
    /// Settings for a loop on `queue_url` through `client`, with a handle of
    /// its own, an empty worker pool, heartbeats that keep deliveries hidden,
    /// and the usual grace period.
    pub fn new(client: Client, queue_url: String, handler: H) -> (server: Self)
        ensures
            server@.client == client,
            server@.queue_url == queue_url@,
            server@.handler == handler,
            server@.tasks == Multiset::<u64>::empty(),
            server@.visibility_seconds == LONG_LEASE_SECONDS,
            server@.grace_seconds == DEFAULT_SHUTDOWN_GRACE_SECONDS,
    {
        Server {
            client,
            queue_url,
            handle: Handle::new(),
            handler,
            futures: new_pool(),
            visibility_seconds: LONG_LEASE_SECONDS,
            grace_seconds: DEFAULT_SHUTDOWN_GRACE_SECONDS,
        }
    }

    /// The same settings with another client.
    pub fn client(self, client: Client) -> (server: Self)
        ensures
            server@ == (ServerView { client, ..self@ }),
    {
        let mut server = self;
        server.client = client;
        server
    }

    /// The same settings with another handle.
    pub fn handle(self, handle: Handle) -> (server: Self)
        ensures
            server@ == (ServerView { handle, ..self@ }),
    {
        let mut server = self;
        server.handle = handle;
        server
    }

    /// The same settings for another queue.
    pub fn queue_url(self, queue_url: String) -> (server: Self)
        ensures
            server@ == (ServerView { queue_url: queue_url@, ..self@ }),
    {
        let mut server = self;
        server.queue_url = queue_url;
        server
    }

    /// The same settings with another handler.
    pub fn handler(self, handler: H) -> (server: Self)
        ensures
            server@ == (ServerView { handler, ..self@ }),
    {
        let mut server = self;
        server.handler = handler;
        server
    }

    /// The same settings with another visibility timeout for the
    /// heartbeats, in seconds.
    pub fn heartbeat_visibility(self, seconds: i32) -> (server: Self)
        ensures
            server@ == (ServerView { visibility_seconds: seconds, ..self@ }),
    {
        let mut server = self;
        server.visibility_seconds = seconds;
        server
    }

    /// The same settings with another grace period, in seconds.
    pub fn shutdown_grace(self, seconds: u64) -> (server: Self)
        ensures
            server@ == (ServerView { grace_seconds: seconds, ..self@ }),
    {
        let mut server = self;
        server.grace_seconds = seconds;
        server
    }

    /// The settings together with the signal that stops the loop.
    pub fn with_graceful_shutdown<F>(self, signal: F) -> (served: WithGracefulShutdown<H, F>) where
        F: Future<Output = ()> + Send + 'static,

        ensures
            served.settings() == self@,
            served.stop_signal() == signal,
    {
        WithGracefulShutdown { server: self, signal }
    }
}

/// Settings of a loop and the signal that stops it.
pub struct WithGracefulShutdown<H, F> {
    server: Server<H>,
    signal: F,
}

/// All that the loop works with, taken apart.
pub struct Parts<H, F> {
    /// The client that the queue calls go through.
    pub client: Client,
    /// The queue to take messages from.
    pub queue_url: String,
    /// The handle that came with the settings.
    pub handle: Handle,
    /// What is done with each message.
    pub handler: H,
    /// The worker pool.
    pub workers: JoinSet<Message>,
    /// Completes when the loop is to stop.
    pub signal: F,
    /// Time that workers are given after the signal to stop, in seconds.
    pub grace_seconds: u64,
    /// The state of the loop, at its start.
    pub dispatcher: Dispatcher,
}

impl<H, F> WithGracefulShutdown<H, F> {
    /// The settings.
    pub closed spec fn settings(&self) -> ServerView<H> {
        self.server@
    }

    /// The signal that stops the loop.
    pub closed spec fn stop_signal(&self) -> F {
        self.signal
    }

    /// Takes the settings apart for the loop, with a running dispatcher
    /// that has nothing in flight.
    pub fn into_parts(self) -> (parts: Parts<H, F>)
        ensures
            parts.client == self.settings().client,
            parts.queue_url@ == self.settings().queue_url,
            parts.handle == self.settings().handle,
            parts.handler == self.settings().handler,
            pool_tasks(parts.workers) == self.settings().tasks,
            parts.signal == self.stop_signal(),
            parts.grace_seconds == self.settings().grace_seconds,
            parts.dispatcher.wf(),
            parts.dispatcher@ == (DispatcherView {
                phase: Phase::Running,
                inflight: Seq::empty(),
                deleting: Set::empty(),
                visibility_seconds: self.settings().visibility_seconds,
                history: Seq::empty(),
            }),
    {
        let server = self.server;
        let dispatcher = Dispatcher::new(server.visibility_seconds);
        Parts {
            client: server.client,
            queue_url: server.queue_url,
            handle: server.handle,
            handler: server.handler,
            workers: server.futures,
            signal: self.signal,
            grace_seconds: server.grace_seconds,
            dispatcher,
        }
    }
}

} // verus!

//! The core of the polling application: a registry and a client, and what
//! moves them: the messages of the user and the events of the peer.
//!
//! Because the registry is fed by this one client only, no two of its records
//! are ever pending under the same id. When the peer has gone, the channel to
//! it is closed and what was pending is given up.

use crate::jsonrpc::{
    received, request_line, sends, JsonRpc, Method, MethodView, Receive, ReceiveView, Response,
    ResponseResult, ResponseResultView, SendError,
};
use crate::process::ProcessMessage;
use crate::statuses::{
    begun, exported, issued_below, position, rejected, renamed, resolved, settled, StatusView,
    Statuses,
};
use crate::text::one_line;
use crate::transport::{Channel, Sender};
use vstd::prelude::*;

verus! {

/// The error code by which the peer says that a request will never be
/// answered.
pub const UNANSWERABLE: usize = 1;

/// What can happen to the application.
#[derive(Debug, Clone, PartialEq)]
pub enum Message {
    /// The user asks for the status of this name.
    AddStatus(String),
    /// The user asks for the export of what has been resolved.
    Export,
    /// The user acts on the registry.
    StatusesMessage(crate::statuses::Message),
    /// A reply has come in.
    JsonRpc(Receive),
}

/// The records after a reply: a result resolves the record pending under
/// the reply's id, the error `UNANSWERABLE` removes it, and every other
/// error leaves the records as they are.
pub open spec fn applied(records: Seq<StatusView>, reply: ReceiveView) -> Seq<StatusView> {
    match reply.response {
        ResponseResultView::Response(status) => resolved(records, reply.id, status),
        ResponseResultView::Error { code, message } => if code == UNANSWERABLE {
            rejected(records, reply.id)
        } else {
            records
        },
    }
}

/// The index of the record that a reply removes, if it removes one: the
/// error `UNANSWERABLE` removes the record that is pending under the reply's
/// id, and no other reply removes anything.
pub open spec fn removed_by(records: Seq<StatusView>, reply: ReceiveView) -> Option<int> {
    match reply.response {
        ResponseResultView::Error { code, message } => if code == UNANSWERABLE {
            position(records, reply.id)
        } else {
            None
        },
        ResponseResultView::Response(_) => None,
    }
}

/// Whether an index, if there is one, is the given place in the records.
pub open spec fn same_place(index: Option<usize>, place: Option<int>) -> bool {
    match index {
        Some(i) => place == Some(i as int),
        None => place is None,
    }
}

/// What an event of the peer came to.
#[derive(Debug, PartialEq, Eq)]
pub enum Supervised<H> {
    /// The peer runs; here is the handle to its input.
    Ready(H),
    /// The line carried a reply, and the registry has taken it. Where the
    /// reply removed a record, this is the index at which it stood.
    Replied(Option<usize>),
    /// The line carried no reply and was passed over. It is handed back,
    /// for the diagnostic.
    Skipped(String),
    /// The peer has gone.
    Gone,
}

/// The application's state: the names it offers, its registry, its client.
#[derive(Debug)]
pub struct App {
    names: Vec<String>,
    statuses: Statuses,
    jsonrpc: JsonRpc,
}

impl App {
    /// The records of the registry.
    pub closed spec fn records(&self) -> Seq<StatusView> {
        self.statuses@
    }

    /// The id that the next request will carry.
    pub closed spec fn next_id(&self) -> u64 {
        self.jsonrpc@
    }

    /// The names that the application offers to ask for.
    pub closed spec fn offered(&self) -> Seq<String> {
        self.names@
    }

    /// The registry has been fed by the client alone: no two records are
    /// pending under one id, and every id in it lies below the next one.
    pub open spec fn wf(&self) -> bool {
        issued_below(self.records(), self.next_id() as int)
    }

    /// An application that offers the given names, with no record yet and a
    /// client that has sent nothing.
    pub fn new(flags: Vec<String>) -> (app: App)
        ensures
            app.wf(),
            app.offered() == flags@,
            app.records().len() == 0,
            app.next_id() == 0,
    {
        App { names: flags, statuses: Statuses::new(), jsonrpc: JsonRpc::new() }
    }

    /// The names that the application offers to ask for.
    pub fn names(&self) -> (names: &Vec<String>)
        ensures
            names@ == self.offered(),
    {
        &self.names
    }

    /// The registry.
    pub fn statuses(&self) -> (statuses: &Statuses)
        ensures
            statuses@ == self.records(),
    {
        &self.statuses
    }

    /// The id that the next request will carry.
    pub fn upcoming_id(&self) -> (id: u64)
        ensures
            id == self.next_id(),
    {
        self.jsonrpc.next_id()
    }

    /// The index of the record that a reply would remove, for those who
    /// keep something beside each record.
    pub fn leaving(&self, reply: &Receive) -> (r: Option<usize>)
        ensures
            same_place(r, removed_by(self.records(), reply@)),
    {
        match &reply.response {
            ResponseResult::Error { code, message: _ } => {
                if *code == UNANSWERABLE {
                    self.statuses.pending_index(reply.id)
                } else {
                    None
                }
            },
            ResponseResult::Response(_) => None,
        }
    }

    /// Takes one event of the peer.
    ///
    /// The handle of a peer that runs is passed on. A line is read as a
    /// reply: the reply goes to the registry, and a line that carries none is
    /// passed over and handed back. When the peer has gone, whether it ended
    /// or never started, the channel is closed, so that every later write
    /// fails as closed, and every id still waited under is given up, since
    /// no reply can come any more. Nothing is sent.
    pub fn supervise<S: Sender, H>(
        &mut self,
        event: ProcessMessage<H>,
        channel: &mut Channel<S>,
    ) -> (r: Supervised<H>)
        requires
            old(self).wf(),
        ensures
            final(self).wf(),
            final(self).offered() == old(self).offered(),
            final(self).next_id() == old(self).next_id(),
            final(channel).taken() == old(channel).taken(),
            match event {
                ProcessMessage::InputReady(handle) => {
                    &&& r == Supervised::Ready(handle)
                    &&& final(self).records() == old(self).records()
                    &&& final(channel).is_open() == old(channel).is_open()
                },
                ProcessMessage::Response(line) => {
                    &&& final(channel).is_open() == old(channel).is_open()
                    &&& match received(line@) {
                        Some(reply) => {
                            &&& r matches Supervised::Replied(removed) && same_place(
                                removed,
                                removed_by(old(self).records(), reply),
                            )
                            &&& final(self).records() == applied(old(self).records(), reply)
                        },
                        None => r == Supervised::<H>::Skipped(line) && final(self).records()
                            == old(self).records(),
                    }
                },
                ProcessMessage::Finish | ProcessMessage::Failed => {
                    &&& r is Gone
                    &&& !final(channel).is_open()
                    &&& final(self).records() == settled(old(self).records())
                },
            },
    {
        match event {
            ProcessMessage::InputReady(handle) => Supervised::Ready(handle),
            ProcessMessage::Response(line) => match self.jsonrpc.receive(line.as_str()) {
                Some(reply) => {
                    let removed = self.leaving(&reply);
                    let _ = self.update(Message::JsonRpc(reply), channel);
                    Supervised::Replied(removed)
                },
                None => Supervised::Skipped(line),
            },
            ProcessMessage::Finish | ProcessMessage::Failed => {
                channel.close();
                self.statuses.remove_pending();
                Supervised::Gone
            },
        }
    }

    /// Takes one message.
    ///
    /// `AddStatus` begins a request; `Export` sends what has been resolved;
    /// a new name goes to the record at its index; a reply resolves or
    /// removes the record pending under its id, or is passed over. Only the
    /// first two send anything, and only they can fail.
    pub fn update<S: Sender>(&mut self, message: Message, channel: &mut Channel<S>) -> (r: Result<
        (),
        SendError,
    >)
        requires
            old(self).wf(),
            message is AddStatus || message is Export ==> old(self).next_id() < u64::MAX,
            message matches Message::StatusesMessage(crate::statuses::Message::SetName(index, _))
                ==> index < old(self).records().len(),
        ensures
            final(self).wf(),
            final(self).offered() == old(self).offered(),
            final(channel).is_open() == old(channel).is_open(),
            r is Ok && (message is AddStatus || message is Export) ==> one_line(
                final(channel).taken().last(),
            ),
            match message {
                Message::AddStatus(name) => {
                    &&& final(self).next_id() == old(self).next_id() + 1
                    &&& r is Err ==> final(self).records() == old(self).records()
                    &&& r is Ok ==> final(self).records() == begun(
                        old(self).records(),
                        name@,
                        old(self).next_id(),
                    )
                    &&& sends(
                        r,
                        old(channel).taken(),
                        final(channel).taken(),
                        old(channel).is_open(),
                        old(channel).unfailing(),
                        request_line(old(self).next_id(), MethodView::GetStatus),
                    )
                },
                Message::Export => {
                    &&& final(self).next_id() == old(self).next_id() + 1
                    &&& final(self).records() == old(self).records()
                    &&& sends(
                        r,
                        old(channel).taken(),
                        final(channel).taken(),
                        old(channel).is_open(),
                        old(channel).unfailing(),
                        request_line(
                            old(self).next_id(),
                            MethodView::Export(exported(old(self).records())),
                        ),
                    )
                },
                Message::StatusesMessage(crate::statuses::Message::SetName(index, name)) => {
                    &&& r is Ok
                    &&& final(self).next_id() == old(self).next_id()
                    &&& final(self).records() == renamed(old(self).records(), index as int, name@)
                    &&& final(channel).taken() == old(channel).taken()
                },
                Message::JsonRpc(reply) => {
                    &&& r is Ok
                    &&& final(self).next_id() == old(self).next_id()
                    &&& final(self).records() == applied(old(self).records(), reply@)
                    &&& final(channel).taken() == old(channel).taken()
                },
            },
    {
        match message {
            Message::AddStatus(name) => {
                match self.statuses.get_status(name, &mut self.jsonrpc, channel) {
                    Ok(_) => Ok(()),
                    Err(e) => Err(e),
                }
            },
            Message::Export => {
                let entries = self.statuses.export();
                match self.jsonrpc.send(Method::Export(entries), channel) {
                    Ok(_) => Ok(()),
                    Err(e) => Err(e),
                }
            },
            Message::StatusesMessage(crate::statuses::Message::SetName(index, name)) => {
                self.statuses.set_status_name(index, name);
                Ok(())
            },
            Message::JsonRpc(Receive { id, response }) => {
                match response {
                    ResponseResult::Response(Response::ImportStatus(status)) => {
                        self.statuses.set_status_value(id, status);
                    },
                    ResponseResult::Error { code, message: _ } => {
                        if code == UNANSWERABLE {
                            self.statuses.remove_status(id);
                        }
                    },
                }
                Ok(())
            },
        }
    }
}

} // verus!

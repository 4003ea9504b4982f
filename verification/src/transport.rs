//! What a client writes its lines to.
//!
//! A `Sender` takes whole lines, and its model is the run of lines that it
//! has taken so far. An `Outbox` keeps them in memory. A `Writer` hands each
//! line to a function, which does the writing, and has taken the lines for
//! which that function answered `Ok`. A `Channel` stands in front of another
//! sender and refuses every line once it has been closed.

use vstd::prelude::*;

verus! {

/// Why a line was not written.
#[derive(Debug, Clone, PartialEq, Eq)]
pub enum TransportError {
    /// The channel was closed before the write.
    Closed,
    /// The write itself failed; the text says how.
    Io(String),
}

/// A thing that lines can be written to.
pub trait Sender {
    /// The lines taken so far, oldest first, each without its newline.
    spec fn taken(&self) -> Seq<Seq<char>>;

    /// Whether the sender is sure to take the next line.
    spec fn unfailing(&self) -> bool;

    /// Writes one line. The line is taken whole or not at all, and it is
    /// taken exactly where the answer is `Ok`. A sender that is sure to take
    /// the line takes it.
    fn send(&mut self, data: String) -> (r: Result<(), TransportError>)
        ensures
            r is Ok ==> final(self).taken() == old(self).taken().push(data@),
            r is Err ==> final(self).taken() == old(self).taken(),
            old(self).unfailing() ==> r is Ok,
    ;
}

/// The views of a run of lines.
pub open spec fn texts(lines: Seq<String>) -> Seq<Seq<char>> {
    lines.map_values(|line: String| line@)
}

/// A sender that takes every line and keeps it in memory.
#[derive(Debug)]
pub struct Outbox {
    lines: Vec<String>,
}

impl Outbox {
    /// An outbox that holds nothing.
    pub fn new() -> (outbox: Outbox)
        ensures
            outbox.taken().len() == 0,
            outbox.unfailing(),
    {
        Outbox { lines: Vec::new() }
    }

    /// The lines taken so far, oldest first.
    pub fn lines(&self) -> (lines: &Vec<String>)
        ensures
            texts(lines@) == self.taken(),
    {
        &self.lines
    }
}

impl Sender for Outbox {
    closed spec fn taken(&self) -> Seq<Seq<char>> {
        texts(self.lines@)
    }

    /// An outbox takes every line.
    open spec fn unfailing(&self) -> bool {
        true
    }

    fn send(&mut self, data: String) -> (r: Result<(), TransportError>) {
        proof {
            assert(texts(self.lines@.push(data)) == texts(self.lines@).push(data@));
        }
        self.lines.push(data);
        Ok(())
    }
}

/// A sender that hands each line to a function, which writes it.
pub struct Writer<F: Fn(String) -> Result<(), TransportError>> {
    write: F,
    taken: Ghost<Seq<Seq<char>>>,
}

impl<F: Fn(String) -> Result<(), TransportError>> Writer<F> {
    /// The function that writes.
    pub closed spec fn function(&self) -> F {
        self.write
    }

    #[verifier::type_invariant]
    spec fn takes_every_line(&self) -> bool {
        forall|line: String| call_requires(self.write, (line,))
    }

    /// A writer over a function that can be called with every line, with
    /// nothing written through it yet.
    pub fn new(write: F) -> (writer: Writer<F>)
        requires
            forall|line: String| call_requires(write, (line,)),
        ensures
            writer.function() == write,
            writer.taken().len() == 0,
    {
        Writer { write, taken: Ghost(Seq::empty()) }
    }
}

impl<F: Fn(String) -> Result<(), TransportError>> Sender for Writer<F> {
    closed spec fn taken(&self) -> Seq<Seq<char>> {
        self.taken@
    }

    /// Whether a line is written is up to the function.
    open spec fn unfailing(&self) -> bool {
        false
    }

    /// Hands the line to the function and passes on its answer.
    fn send(&mut self, data: String) -> (r: Result<(), TransportError>)
        ensures
            call_ensures(old(self).function(), (data,), r),
            final(self).function() == old(self).function(),
    {
        proof {
            use_type_invariant(&*self);
        }
        let ghost line = data@;
        let r = (self.write)(data);
        if r.is_ok() {
            proof {
                self.taken@ = self.taken@.push(line);
            }
        }
        r
    }
}

/// A sender behind a gate: open while the peer lives, closed for good after.
#[derive(Debug)]
pub struct Channel<S> {
    sender: S,
    open: bool,
}

impl<S: Sender> Channel<S> {
    /// Whether lines are still let through.
    pub closed spec fn is_open(&self) -> bool {
        self.open
    }

    /// The sender behind the channel.
    pub closed spec fn behind(&self) -> S {
        self.sender
    }

    /// An open channel in front of a sender.
    pub fn new(sender: S) -> (channel: Channel<S>)
        ensures
            channel.is_open(),
            channel.behind() == sender,
    {
        Channel { sender, open: true }
    }

    /// Whether lines are still let through.
    pub fn open(&self) -> (open: bool)
        ensures
            open == self.is_open(),
    {
        self.open
    }

    /// The sender behind the channel.
    pub fn sender(&self) -> (sender: &S)
        ensures
            *sender == self.behind(),
    {
        &self.sender
    }

    /// Closes the channel, for good. The sender is not touched.
    pub fn close(&mut self)
        ensures
            !final(self).is_open(),
            final(self).behind() == old(self).behind(),
    {
        self.open = false;
    }
}

impl<S: Sender> Sender for Channel<S> {
    /// The lines that the sender behind the channel has taken.
    open spec fn taken(&self) -> Seq<Seq<char>> {
        self.behind().taken()
    }

    /// An open channel is as sure as the sender behind it; a closed one
    /// takes nothing.
    open spec fn unfailing(&self) -> bool {
        self.is_open() && self.behind().unfailing()
    }

    /// Writes one line. A closed channel refuses it with
    /// `TransportError::Closed` and does not touch the sender; an open one
    /// hands it to the sender and passes on the sender's answer.
    fn send(&mut self, data: String) -> (r: Result<(), TransportError>)
        ensures
            final(self).is_open() == old(self).is_open(),
            !old(self).is_open() ==> r == Err::<(), TransportError>(TransportError::Closed)
                && final(self).behind() == old(self).behind(),
    {
        if self.open {
            self.sender.send(data)
        } else {
            Err(TransportError::Closed)
        }
    }
}

} // verus!

//! The decisions of a connection's actor: what each event does to the inbound
//! queue and to the actor's life, and what is to be written to the peer.

use crate::frame::spec_serialize;
use crate::message::{
    close_connection, spec_control_reply, spec_fragments, spec_wire, write_message_to, Message, MessageError,
};
use crate::frame::OpCode;
use std::collections::VecDeque;
use vstd::prelude::*;

verus! {

/// A request to the actor.
pub enum Cmd {
    /// Close the connection and end.
    Close,
    /// Send one message to the peer.
    Send(Message),
}

impl Cmd {
    /// The message of a send request.
    pub fn message(self) -> (r: Option<Message>)
        ensures
            r == (match self {
                Cmd::Send(m) => Some(m),
                Cmd::Close => None,
            }),
    {
        match self {
            Cmd::Send(m) => Some(m),
            Cmd::Close => None,
        }
    }
}

/// The part of a connection that its task and its handle share: the queue of
/// what has arrived, oldest first, and whether the task is still at work.
pub struct Actor {
    inbound: VecDeque<Result<Message, MessageError>>,
    open: bool,
}

impl Actor {
    /// What has arrived and was not yet taken, oldest first.
    pub closed spec fn spec_inbound(&self) -> Seq<Result<Message, MessageError>> {
        self.inbound@
    }

    /// Whether the task is still servicing the stream.
    pub closed spec fn spec_open(&self) -> bool {
        self.open
    }

    /// An error is the last thing an actor delivers: it stands at the end of
    /// the queue, and the actor that queued it has ended.
    pub open spec fn wf(&self) -> bool {
        forall|i: int|
            0 <= i < self.spec_inbound().len() && (#[trigger] self.spec_inbound()[i]) is Err ==> i
                == self.spec_inbound().len() - 1 && !self.spec_open()
    }

    /// An open actor with nothing queued.
    pub fn new() -> (r: Self)
        ensures
            r.spec_open(),
            r.spec_inbound() == Seq::<Result<Message, MessageError>>::empty(),
            r.wf(),
    {
        Actor { inbound: VecDeque::new(), open: true }
    }

    pub fn is_open(&self) -> (r: bool)
        ensures
            r == self.spec_open(),
    {
        self.open
    }

    /// The stream was readable and one read has ended with `item`: it goes to
    /// the end of the queue, and an error ends the actor. Says whether the
    /// actor goes on. An actor that has ended takes nothing.
    pub fn on_read(&mut self, item: Result<Message, MessageError>) -> (go_on: bool)
        requires
            old(self).wf(),
        ensures
            final(self).wf(),
            go_on == final(self).spec_open(),
            old(self).spec_open() ==> final(self).spec_inbound() == old(self).spec_inbound().push(item)
                && final(self).spec_open() == item is Ok,
            !old(self).spec_open() ==> *final(self) == *old(self),
    {
        if !self.open {
            return false;
        }
        let ok = item.is_ok();
        self.inbound.push_back(item);
        self.open = ok;
        ok
    }

    /// A request has arrived: the bytes to write for it are appended to
    /// `dest`. A send leaves the actor open, waiting for the write to end; a
    /// close ends it. Says whether the actor goes on. An actor that has ended
    /// writes nothing.
    pub fn on_command(&mut self, cmd: Cmd, dest: &mut Vec<u8>) -> (go_on: bool)
        requires
            old(self).wf(),
        ensures
            final(self).wf(),
            go_on == final(self).spec_open(),
            final(self).spec_inbound() == old(self).spec_inbound(),
            !old(self).spec_open() ==> !go_on && final(dest)@ == old(dest)@,
            old(self).spec_open() ==> (match cmd {
                Cmd::Send(m) => go_on && final(dest)@ == old(dest)@ + spec_wire(spec_fragments(m@)),
                Cmd::Close => !go_on && final(dest)@ == old(dest)@ + spec_serialize(
                    spec_control_reply(OpCode::Close, Seq::empty()),
                ),
            }),
    {
        if !self.open {
            return false;
        }
        match cmd {
            Cmd::Send(m) => {
                write_message_to(m, dest);
                true
            },
            Cmd::Close => {
                close_connection().write_to(dest);
                self.open = false;
                false
            },
        }
    }

    /// Writing to the peer has failed: the actor ends.
    pub fn on_write_failed(&mut self)
        requires
            old(self).wf(),
        ensures
            final(self).wf(),
            !final(self).spec_open(),
            final(self).spec_inbound() == old(self).spec_inbound(),
    {
        self.open = false;
    }

    /// The request that asks the actor to send `msg`. An actor that has ended
    /// takes no request: the message comes back.
    pub fn try_send(&self, msg: Message) -> (r: Result<Cmd, Message>)
        ensures
            self.spec_open() ==> r == Ok::<Cmd, Message>(Cmd::Send(msg)),
            !self.spec_open() ==> r == Err::<Cmd, Message>(msg),
    {
        if self.open {
            Ok(Cmd::Send(msg))
        } else {
            Err(msg)
        }
    }

    /// The request that asks the actor to close the connection and end. An
    /// actor that has ended takes no request.
    pub fn shutdown(&self) -> (r: Result<Cmd, &'static str>)
        ensures
            self.spec_open() ==> r == Ok::<Cmd, &'static str>(Cmd::Close),
            !self.spec_open() ==> r == Err::<Cmd, &'static str>("error sending close command to task"),
    {
        if self.open {
            Ok(Cmd::Close)
        } else {
            Err("error sending close command to task")
        }
    }

    /// Takes the oldest queued item, if there is one; never waits.
    pub fn poll_next_message(&mut self) -> (r: Option<Result<Message, MessageError>>)
        requires
            old(self).wf(),
        ensures
            final(self).wf(),
            final(self).spec_open() == old(self).spec_open(),
            old(self).spec_inbound().len() == 0 ==> r is None && final(self).spec_inbound() == old(
                self,
            ).spec_inbound(),
            old(self).spec_inbound().len() > 0 ==> r == Some(old(self).spec_inbound()[0])
                && final(self).spec_inbound() == old(self).spec_inbound().subrange(
                1,
                old(self).spec_inbound().len() as int,
            ),
    {
        self.inbound.pop_front()
    }
}

} // verus!

//! The request body as the handler reads it.

use vstd::prelude::*;

verus! {

/// What the connection has for the body.
#[derive(Debug, Clone, Copy, PartialEq, Eq, Structural)]
pub enum BodyEvent {
    Data,
    Trailers,
    EndStream,
    /// The connection dropped the stream: it was reset or closed, or the
    /// connection is gone.
    Gone,
    /// Nothing yet.
    Waiting,
}

/// What the reader of the body gets.
#[derive(Debug, Clone, Copy, PartialEq, Eq, Structural)]
pub enum BodyOutput {
    Data,
    Trailers,
    End,
    /// Nothing yet; the demand lets `100 Continue` go out.
    Wait,
}

/// How far the body has been read.
#[derive(Debug, Clone, Copy, PartialEq, Eq, Structural)]
pub struct BodyReader {
    pub ended: bool,
}

/// Whether the body has ended after an event, and what its reader gets.
pub open spec fn body_step(ended: bool, event: BodyEvent) -> (bool, BodyOutput) {
    if ended || event == BodyEvent::EndStream || event == BodyEvent::Gone {
        (true, BodyOutput::End)
    } else if event == BodyEvent::Data {
        (false, BodyOutput::Data)
    } else if event == BodyEvent::Trailers {
        (false, BodyOutput::Trailers)
    } else {
        (false, BodyOutput::Wait)
    }
}

impl BodyReader {
    pub fn new() -> (reader: BodyReader)
        ensures
            !reader.ended,
    {
        BodyReader { ended: false }
    }

    /// What the reader of the body gets. The body ends with the stream or where
    /// the connection drops it, and stays ended.
    pub fn step(&mut self, event: BodyEvent) -> (output: BodyOutput)
        ensures
            (final(self).ended, output) == body_step(old(self).ended, event),
    {
        if self.ended {
            return BodyOutput::End;
        }
        match event {
            BodyEvent::Data => BodyOutput::Data,
            BodyEvent::Trailers => BodyOutput::Trailers,
            BodyEvent::EndStream => {
                self.ended = true;
                BodyOutput::End
            },
            BodyEvent::Gone => {
                self.ended = true;
                BodyOutput::End
            },
            BodyEvent::Waiting => BodyOutput::Wait,
        }
    }
}

/// The reader of a body gets data and trailers as they come until the body ends,
/// with the stream or with the connection, and from then on the end and nothing
/// else.
pub proof fn readers_get_what_comes(event: BodyEvent)
    ensures
        body_step(true, event) == (true, BodyOutput::End),
        body_step(false, event).1 is Data <==> event is Data,
        body_step(false, event).1 is Trailers <==> event is Trailers,
        body_step(false, event).1 is Wait <==> event is Waiting,
        body_step(false, event).1 is End <==> event is EndStream || event is Gone,
        body_step(false, event).0 <==> event is EndStream || event is Gone,
{
}

} // verus!

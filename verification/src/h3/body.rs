//! The request body as the handler reads it.

use vstd::prelude::*;

verus! {

/// What to read off the request stream next.
#[derive(Debug, Clone, Copy, PartialEq, Eq, Structural)]
pub enum BodyRead {
    Data,
    Trailers,
}

/// What reading off the request stream gave.
#[derive(Debug, Clone, Copy, PartialEq, Eq, Structural)]
pub enum BodyEvent {
    /// Another task holds the stream.
    Busy,
    /// As many octets of data.
    Data { len: usize },
    /// No more data will come.
    DataEnd,
    Trailers,
    /// The body has no trailers.
    NoTrailers,
    Failed,
    /// Nothing yet.
    Waiting,
}

/// What the reader of the body gets.
#[derive(Debug, Clone, Copy, PartialEq, Eq, Structural)]
pub enum BodyOutput {
    /// Nothing: read on at once.
    ReadOn,
    Data,
    Trailers,
    End,
    Error,
    /// Nothing yet. A demand lets `100 Continue` go out.
    Wait { demand: bool },
}

/// How far the body has been read.
#[derive(Debug, Clone, Copy, PartialEq, Eq, Structural)]
pub struct BodyReader {
    pub data_done: bool,
}

/// What to read next, by whether the data has ended.
pub open spec fn read_after(data_done: bool) -> BodyRead {
    if data_done {
        BodyRead::Trailers
    } else {
        BodyRead::Data
    }
}

/// Whether the data has ended after an event, and what the reader of the body
/// gets.
pub open spec fn body_step(data_done: bool, event: BodyEvent) -> (bool, BodyOutput) {
    (
        data_done || event == BodyEvent::DataEnd,
        match event {
            BodyEvent::Busy => BodyOutput::Wait { demand: data_done },
            BodyEvent::Data { len } => if len == 0 {
                BodyOutput::ReadOn
            } else {
                BodyOutput::Data
            },
            BodyEvent::DataEnd => BodyOutput::ReadOn,
            BodyEvent::Trailers => BodyOutput::Trailers,
            BodyEvent::NoTrailers => BodyOutput::End,
            BodyEvent::Failed => BodyOutput::Error,
            BodyEvent::Waiting => BodyOutput::Wait { demand: true },
        },
    )
}

impl BodyReader {
    pub fn new() -> (reader: BodyReader)
        ensures
            !reader.data_done,
    {
        BodyReader { data_done: false }
    }

    /// What to read next: the data, then the trailers.
    pub fn next_read(&self) -> (read: BodyRead)
        ensures
            read == read_after(self.data_done),
    {
        if self.data_done {
            BodyRead::Trailers
        } else {
            BodyRead::Data
        }
    }

    /// What the reader of the body gets. Data without octets is passed over.
    /// Waiting for data or trailers is a demand; waiting for the stream is one
    /// only once the data has ended.
    pub fn step(&mut self, event: BodyEvent) -> (output: BodyOutput)
        ensures
            (final(self).data_done, output) == body_step(old(self).data_done, event),
    {
        match event {
            BodyEvent::Busy => BodyOutput::Wait { demand: self.data_done },
            BodyEvent::Data { len } => {
                if len == 0 {
                    BodyOutput::ReadOn
                } else {
                    BodyOutput::Data
                }
            },
            BodyEvent::DataEnd => {
                self.data_done = true;
                BodyOutput::ReadOn
            },
            BodyEvent::Trailers => BodyOutput::Trailers,
            BodyEvent::NoTrailers => BodyOutput::End,
            BodyEvent::Failed => BodyOutput::Error,
            BodyEvent::Waiting => BodyOutput::Wait { demand: true },
        }
    }
}

/// Whether the data has ended after the events.
pub open spec fn data_done_after(events: Seq<BodyEvent>) -> bool
    decreases events.len(),
{
    if events.len() == 0 {
        false
    } else {
        body_step(data_done_after(events.drop_last()), events.last()).0
    }
}

/// The data is read until it has ended, and then the trailers: from the first
/// event that says so on, and not before.
pub proof fn data_comes_before_trailers(events: Seq<BodyEvent>)
    ensures
        read_after(data_done_after(events)) == BodyRead::Trailers <==> events.contains(
            BodyEvent::DataEnd,
        ),
    decreases events.len(),
{
    if events.len() > 0 {
        let init = events.drop_last();
        data_comes_before_trailers(init);
        if init.contains(BodyEvent::DataEnd) {
            let i = choose|i: int| 0 <= i < init.len() && init[i] == BodyEvent::DataEnd;
            assert(events[i] == BodyEvent::DataEnd);
        }
        if events.contains(BodyEvent::DataEnd) && events.last() != BodyEvent::DataEnd {
            let i = choose|i: int| 0 <= i < events.len() && events[i] == BodyEvent::DataEnd;
            assert(init[i] == BodyEvent::DataEnd);
        }
        if events.last() == BodyEvent::DataEnd {
            assert(events[events.len() - 1] == BodyEvent::DataEnd);
        }
    }
}

/// The reader of a body gets all that is read, and only that: data with octets in
/// it, trailers, the end where there are none, and an error. It waits only where
/// nothing is there, and waiting for the client is a demand.
pub proof fn readers_get_what_is_read(data_done: bool, event: BodyEvent)
    ensures
        ({
            let output = body_step(data_done, event).1;
            &&& output is Data <==> event is Data && event->len > 0
            &&& output is Trailers <==> event is Trailers
            &&& output is End <==> event is NoTrailers
            &&& output is Error <==> event is Failed
            &&& output is Wait <==> event is Busy || event is Waiting
            &&& event is Waiting ==> output == BodyOutput::Wait { demand: true }
            &&& event is Busy ==> output == BodyOutput::Wait { demand: data_done }
        }),
{
}

} // verus!

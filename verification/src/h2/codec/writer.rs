//! The frame writer.

use vstd::prelude::*;

use super::model::{self, FrameView, Priority, Setting};
use super::{
    CONTINUATION_TYPE, DATA_TYPE, FLAG_ACK, FLAG_END_HEADERS, FLAG_END_STREAM, FLAG_PRIORITY,
    GOAWAY_TYPE, HEADERS_TYPE, PING_TYPE, PRIORITY_TYPE, PUSH_PROMISE_TYPE, RST_STREAM_TYPE,
    SETTINGS_TYPE, WINDOW_UPDATE_TYPE,
};
use crate::octets::{self, low31, push_be16, push_be24, push_be32};

verus! {

/// Writes frames to an output buffer. The field-block writer
/// ([`FrameWriter::write_field_block`]) splits the block across
/// HEADERS/CONTINUATION frames at the peer's frame-size limit.
#[derive(Debug, Clone, Copy, Default)]
pub struct FrameWriter {
    /// The maximum payload size the peer accepts (the peer's
    /// SETTINGS_MAX_FRAME_SIZE; 16384 by default).
    pub max_frame_size: usize,
}

/// The CONTINUATION frames that carry the rest of a field block, each as full
/// as `capacity` allows.
pub open spec fn continuation_wire(stream_id: u32, capacity: nat, rest: Seq<u8>) -> Seq<u8>
    decreases rest.len(),
{
    if rest.len() <= capacity || capacity == 0 {
        model::wire(FrameView::Continuation { stream_id, end_headers: true, block: rest })
    } else {
        model::wire(
            FrameView::Continuation {
                stream_id,
                end_headers: false,
                block: rest.subrange(0, capacity as int),
            },
        ) + continuation_wire(
            stream_id,
            capacity,
            rest.subrange(capacity as int, rest.len() as int),
        )
    }
}

/// A field block as one HEADERS frame, or as a HEADERS frame followed by
/// CONTINUATION frames where it does not fit in one.
pub open spec fn field_block_wire(
    stream_id: u32,
    end_stream: bool,
    capacity: nat,
    block: Seq<u8>,
) -> Seq<u8> {
    if block.len() <= capacity {
        model::wire(
            FrameView::Headers { stream_id, end_stream, end_headers: true, priority: None, block },
        )
    } else {
        model::wire(
            FrameView::Headers {
                stream_id,
                end_stream,
                end_headers: false,
                priority: None,
                block: block.subrange(0, capacity as int),
            },
        ) + continuation_wire(
            stream_id,
            capacity,
            block.subrange(capacity as int, block.len() as int),
        )
    }
}

impl FrameWriter {
    pub fn new(max_frame_size: usize) -> (writer: FrameWriter)
        ensures
            writer.max_frame_size == max_frame_size,
    {
        FrameWriter { max_frame_size }
    }

    /// Writes a frame header. The length field has 24 bits, so only
    /// `payload_len` modulo 2^24 matters.
    fn header(out: &mut Vec<u8>, payload_len: usize, typ: u8, flags: u8, stream_id: u32)
        ensures
            forall|payload: Seq<u8>|
                payload.len() % 0x100_0000 == payload_len % 0x100_0000 ==> final(out)@ + payload
                    == old(out)@ + #[trigger] model::wire_frame(typ, flags, stream_id, payload),
    {
        push_be24(out, payload_len);
        out.push(typ);
        out.push(flags);
        push_be32(out, low31(stream_id));
        assert forall|payload: Seq<u8>|
            payload.len() % 0x100_0000 == payload_len % 0x100_0000 implies out@ + payload == old(
            out,
        )@ + #[trigger] model::wire_frame(typ, flags, stream_id, payload) by {
            octets::be24_wraps(payload.len());
            octets::be24_wraps(payload_len as nat);
            assert(out@ + payload =~= old(out)@ + model::wire_frame(
                typ,
                flags,
                stream_id,
                payload,
            ));
        }
    }

    fn priority_fields(out: &mut Vec<u8>, priority: Priority)
        ensures
            final(out)@ == old(out)@ + model::priority_octets(priority),
    {
        let dependency: u32 = low31(priority.dependency);
        let dep: u32 = if priority.exclusive {
            dependency + 0x8000_0000
        } else {
            dependency
        };
        push_be32(out, dep);
        out.push(priority.weight);
        assert(out@ =~= old(out)@ + model::priority_octets(priority));
    }

    pub fn write_data(&self, out: &mut Vec<u8>, stream_id: u32, end_stream: bool, data: &[u8])
        ensures
            final(out)@ == old(out)@ + model::wire(
                FrameView::Data { stream_id, end_stream, data: data@ },
            ),
    {
        reveal(model::wire);
        let flags: u8 = if end_stream {
            FLAG_END_STREAM
        } else {
            0
        };
        FrameWriter::header(out, data.len(), DATA_TYPE, flags, stream_id);
        let ghost head = out@;
        out.extend_from_slice(data);
        assert(out@ =~= head + data@);
    }

    /// Writes a HEADERS frame (single frame, no field-block splitting).
    pub fn write_headers(
        &self,
        out: &mut Vec<u8>,
        stream_id: u32,
        end_stream: bool,
        end_headers: bool,
        priority: Option<Priority>,
        block: &[u8],
    )
        ensures
            final(out)@ == old(out)@ + model::wire(
                (FrameView::Headers { stream_id, end_stream, end_headers, priority, block: block@ }),
            ),
    {
        reveal(model::wire);
        let mut flags: u8 = 0;
        if end_stream {
            flags = flags | FLAG_END_STREAM;
        }
        if end_headers {
            flags = flags | FLAG_END_HEADERS;
        }
        let extra: usize = if priority.is_some() {
            5
        } else {
            0
        };
        if extra != 0 {
            flags = flags | FLAG_PRIORITY;
        }
        proof {
            assert(0u8 | 0u8 == 0u8 && (0u8 | 0x01u8) == 0x01u8 && (0u8 | 0x04u8) == 0x04u8 && (0u8
                | 0x20u8) == 0x20u8 && (0x01u8 | 0u8) == 0x01u8 && (0x04u8 | 0u8) == 0x04u8 && (
            0x05u8 | 0u8) == 0x05u8 && (0x01u8 | 0x04u8) == 0x05u8 && (0x01u8 | 0x20u8) == 0x21u8
                && (0x04u8 | 0x20u8) == 0x24u8 && (0x05u8 | 0x20u8) == 0x25u8) by (bit_vector);
        }
        FrameWriter::header(out, block.len() % 0x100_0000 + extra, HEADERS_TYPE, flags, stream_id);
        let ghost head = out@;
        if let Some(p) = priority {
            FrameWriter::priority_fields(out, p);
        }
        out.extend_from_slice(block);
        proof {
            let payload = match priority {
                Some(p) => model::priority_octets(p) + block@,
                None => block@,
            };
            octets::be_round_trip(
                model::without_reserved_bit(priority->0.dependency as nat) as nat
                    + if priority->0.exclusive {
                    0x8000_0000nat
                } else {
                    0
                },
                4,
            );
            assert(out@ =~= head + payload);
        }
    }

    /// Writes a field block as a HEADERS frame (optionally with END_STREAM)
    /// followed by as many CONTINUATION frames as needed to stay within the
    /// peer's frame-size limit.
    pub fn write_field_block(
        &self,
        out: &mut Vec<u8>,
        stream_id: u32,
        end_stream: bool,
        block: &[u8],
    )
        requires
            self.max_frame_size > 0,
        ensures
            final(out)@ == old(out)@ + field_block_wire(
                stream_id,
                end_stream,
                self.max_frame_size as nat,
                block@,
            ),
    {
        let capacity: usize = self.max_frame_size;
        if block.len() <= capacity {
            self.write_headers(out, stream_id, end_stream, true, None, block);
            return ;
        }
        let first = vstd::slice::slice_subrange(block, 0, capacity);
        self.write_headers(out, stream_id, end_stream, false, None, first);
        let mut rest = vstd::slice::slice_subrange(block, capacity, block.len());
        let ghost target = old(out)@ + field_block_wire(
            stream_id,
            end_stream,
            self.max_frame_size as nat,
            block@,
        );
        assert(target =~= out@ + continuation_wire(stream_id, capacity as nat, rest@));
        while rest.len() > capacity
            invariant
                capacity == self.max_frame_size,
                capacity > 0,
                target == out@ + continuation_wire(stream_id, capacity as nat, rest@),
            decreases rest@.len(),
        {
            let ghost before = out@;
            self.write_continuation(
                out,
                stream_id,
                false,
                vstd::slice::slice_subrange(rest, 0, capacity),
            );
            let next = vstd::slice::slice_subrange(rest, capacity, rest.len());
            assert(target =~= out@ + continuation_wire(stream_id, capacity as nat, next@));
            rest = next;
        }
        self.write_continuation(out, stream_id, true, rest);
    }

    pub fn write_priority(&self, out: &mut Vec<u8>, stream_id: u32, priority: Priority)
        ensures
            final(out)@ == old(out)@ + model::wire((FrameView::Priority { stream_id, priority })),
    {
        reveal(model::wire);
        proof {
            octets::be_round_trip(
                model::without_reserved_bit(priority.dependency as nat) as nat
                    + if priority.exclusive {
                    0x8000_0000nat
                } else {
                    0
                },
                4,
            );
        }
        FrameWriter::header(out, 5, PRIORITY_TYPE, 0, stream_id);
        FrameWriter::priority_fields(out, priority);
    }

    pub fn write_reset(&self, out: &mut Vec<u8>, stream_id: u32, error_code: u32)
        ensures
            final(out)@ == old(out)@ + model::wire((FrameView::Reset { stream_id, error_code })),
    {
        reveal(model::wire);
        proof {
            octets::be_round_trip(error_code as nat, 4);
        }
        FrameWriter::header(out, 4, RST_STREAM_TYPE, 0, stream_id);
        push_be32(out, error_code);
    }

    pub fn write_settings(&self, out: &mut Vec<u8>, settings: &[Setting])
        ensures
            final(out)@ == old(out)@ + model::wire(
                (FrameView::Settings { ack: false, settings: settings@ }),
            ),
    {
        reveal(model::wire);
        FrameWriter::header(out, settings.len() % 0x100_0000 * 6, SETTINGS_TYPE, 0, 0);
        let ghost head = out@;
        let mut i: usize = 0;
        while i < settings.len()
            invariant
                i <= settings@.len(),
                out@ == head + model::settings_octets(settings@.subrange(0, i as int)),
                model::settings_octets(settings@.subrange(0, i as int)).len() == 6 * i,
            decreases settings@.len() - i,
        {
            let ghost before = out@;
            proof {
                octets::be_round_trip(settings@[i as int].id as nat, 2);
                octets::be_round_trip(settings@[i as int].value as nat, 4);
                assert(settings@.subrange(0, i + 1).drop_last() =~= settings@.subrange(
                    0,
                    i as int,
                ));
            }
            push_be16(out, settings[i].id);
            push_be32(out, settings[i].value);
            assert(out@ =~= head + model::settings_octets(settings@.subrange(0, i + 1)));
            i = i + 1;
        }
        assert(settings@.subrange(0, i as int) =~= settings@);
    }

    pub fn write_settings_ack(&self, out: &mut Vec<u8>)
        ensures
            final(out)@ == old(out)@ + model::wire(
                (FrameView::Settings { ack: true, settings: Seq::empty() }),
            ),
    {
        reveal(model::wire);
        FrameWriter::header(out, 0, SETTINGS_TYPE, FLAG_ACK, 0);
        assert(out@ =~= out@ + Seq::<u8>::empty());
        assert(model::settings_octets(Seq::empty()) =~= Seq::<u8>::empty());
    }

    pub fn write_push_promise(
        &self,
        out: &mut Vec<u8>,
        stream_id: u32,
        promised_stream_id: u32,
        block: &[u8],
    )
        ensures
            final(out)@ == old(out)@ + model::wire(
                (FrameView::PushPromise {
                    stream_id,
                    end_headers: true,
                    promised_stream_id,
                    block: block@,
                }),
            ),
    {
        reveal(model::wire);
        FrameWriter::header(
            out,
            4 + block.len() % 0x100_0000,
            PUSH_PROMISE_TYPE,
            FLAG_END_HEADERS,
            stream_id,
        );
        let ghost head = out@;
        let promised: u32 = low31(promised_stream_id);
        push_be32(out, promised);
        out.extend_from_slice(block);
        proof {
            octets::be_round_trip(promised as nat, 4);
            assert(out@ =~= head + (octets::be_octets(promised as nat, 4) + block@));
        }
    }

    pub fn write_ping(&self, out: &mut Vec<u8>, payload: &[u8; 8])
        ensures
            final(out)@ == old(out)@ + model::wire(
                (FrameView::Ping { ack: false, payload: payload@ }),
            ),
    {
        reveal(model::wire);
        FrameWriter::header(out, 8, PING_TYPE, 0, 0);
        FrameWriter::ping_payload(out, payload);
    }

    pub fn write_ping_ack(&self, out: &mut Vec<u8>, payload: &[u8; 8])
        ensures
            final(out)@ == old(out)@ + model::wire(
                (FrameView::Ping { ack: true, payload: payload@ }),
            ),
    {
        reveal(model::wire);
        FrameWriter::header(out, 8, PING_TYPE, FLAG_ACK, 0);
        FrameWriter::ping_payload(out, payload);
    }

    fn ping_payload(out: &mut Vec<u8>, payload: &[u8; 8])
        ensures
            final(out)@ == old(out)@ + payload@,
    {
        let mut i: usize = 0;
        while i < 8
            invariant
                i <= 8,
                out@ == old(out)@ + payload@.subrange(0, i as int),
            decreases 8 - i,
        {
            out.push(payload[i]);
            i = i + 1;
            assert(out@ =~= old(out)@ + payload@.subrange(0, i as int));
        }
        assert(payload@.subrange(0, 8) =~= payload@);
    }

    pub fn write_goaway(
        &self,
        out: &mut Vec<u8>,
        last_stream_id: u32,
        error_code: u32,
        debug: &[u8],
    )
        ensures
            final(out)@ == old(out)@ + model::wire(
                (FrameView::GoAway { last_stream_id, error_code, debug: debug@ }),
            ),
    {
        reveal(model::wire);
        FrameWriter::header(out, 8 + debug.len() % 0x100_0000, GOAWAY_TYPE, 0, 0);
        let ghost head = out@;
        let last: u32 = low31(last_stream_id);
        push_be32(out, last);
        push_be32(out, error_code);
        out.extend_from_slice(debug);
        proof {
            octets::be_round_trip(last as nat, 4);
            octets::be_round_trip(error_code as nat, 4);
            assert(out@ =~= head + (octets::be_octets(last as nat, 4) + octets::be_octets(
                error_code as nat,
                4,
            ) + debug@));
        }
    }

    pub fn write_window_update(&self, out: &mut Vec<u8>, stream_id: u32, increment: u32)
        ensures
            final(out)@ == old(out)@ + model::wire(
                (FrameView::WindowUpdate { stream_id, increment }),
            ),
    {
        reveal(model::wire);
        let increment_bits: u32 = low31(increment);
        proof {
            octets::be_round_trip(increment_bits as nat, 4);
        }
        FrameWriter::header(out, 4, WINDOW_UPDATE_TYPE, 0, stream_id);
        push_be32(out, increment_bits);
    }

    pub fn write_continuation(
        &self,
        out: &mut Vec<u8>,
        stream_id: u32,
        end_headers: bool,
        block: &[u8],
    )
        ensures
            final(out)@ == old(out)@ + model::wire(
                (FrameView::Continuation { stream_id, end_headers, block: block@ }),
            ),
    {
        reveal(model::wire);
        let flags: u8 = if end_headers {
            FLAG_END_HEADERS
        } else {
            0
        };
        FrameWriter::header(out, block.len(), CONTINUATION_TYPE, flags, stream_id);
        let ghost head = out@;
        out.extend_from_slice(block);
        assert(out@ =~= head + block@);
    }
}

} // verus!

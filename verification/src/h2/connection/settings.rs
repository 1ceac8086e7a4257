//! What holds of the peer's settings.

use vstd::prelude::*;

use super::model::ConnectionView;
use crate::h2::codec::model as codec;
use crate::h2::codec::model::{DecoderView, FrameView};
use crate::h2::codec::Setting;

verus! {

/// The last value of a setting among those given, or else the one before them.
pub open spec fn last_value(settings: Seq<Setting>, id: u16, before: u32) -> u32
    decreases settings.len(),
{
    if settings.len() == 0 {
        before
    } else if settings.last().id == id {
        settings.last().value
    } else {
        last_value(settings.drop_last(), id, before)
    }
}

/// No setting is a frame size outside the legal range.
pub open spec fn sizes_legal(settings: Seq<Setting>) -> bool {
    forall|i: int|
        0 <= i < settings.len() && (#[trigger] settings[i]).id == 0x05 ==> 16_384
            <= settings[i].value <= 16_777_215
}

proof fn last_value_front(settings: Seq<Setting>, id: u16, before: u32)
    requires
        settings.len() > 0,
    ensures
        ({
            let rest = settings.subrange(1, settings.len() as int);
            let first = if settings[0].id == id {
                settings[0].value
            } else {
                before
            };
            last_value(settings, id, before) == last_value(rest, id, first)
        }),
    decreases settings.len(),
{
    let rest = settings.subrange(1, settings.len() as int);
    if settings.len() == 1 {
        reveal_with_fuel(last_value, 2);
        assert(settings.drop_last() =~= Seq::<Setting>::empty());
        assert(rest =~= Seq::<Setting>::empty());
        assert(settings.last() == settings[0]);
    } else {
        let init = settings.drop_last();
        last_value_front(init, id, before);
        assert(init.subrange(1, init.len() as int) =~= rest.drop_last());
        assert(rest.last() == settings.last());
        assert(init[0] == settings[0]);
    }
}

/// The last value of every setting is in force after a SETTINGS frame, and a
/// setting that is not in it stays as it was.
pub proof fn last_values_are_in_force(c: ConnectionView, settings: Seq<Setting>)
    requires
        c.inv(),
        sizes_legal(settings),
    ensures
        ({
            let peer = c.apply_peer_settings(settings).peer;
            &&& peer.header_table_size == last_value(settings, 0x01, c.peer.header_table_size)
            &&& peer.enable_push == last_value(settings, 0x02, c.peer.enable_push)
            &&& peer.initial_window_size == last_value(settings, 0x04, c.peer.initial_window_size)
            &&& peer.max_frame_size == last_value(settings, 0x05, c.peer.max_frame_size as u32)
            &&& peer.max_header_list_size == last_value(
                settings,
                0x06,
                c.peer.max_header_list_size,
            )
        }),
    decreases settings.len(),
{
    if settings.len() > 0 {
        let rest = settings.subrange(1, settings.len() as int);
        let next = c.apply_setting(settings[0]);
        assert forall|i: int| 0 <= i < rest.len() && (#[trigger] rest[i]).id == 0x05 implies 16_384
            <= rest[i].value <= 16_777_215 by {
            assert(rest[i] == settings[i + 1]);
        }
        assert(settings[0].id == 0x05 ==> 16_384 <= settings[0].value <= 16_777_215);
        setting_keeps_balance(c, settings[0]);
        last_value_front(settings, 0x01, c.peer.header_table_size);
        last_value_front(settings, 0x02, c.peer.enable_push);
        last_value_front(settings, 0x04, c.peer.initial_window_size);
        last_value_front(settings, 0x05, c.peer.max_frame_size as u32);
        last_value_front(settings, 0x06, c.peer.max_header_list_size);
        last_values_are_in_force(next, rest);
    }
}

/// What a stream has used of its window.
pub open spec fn balance(c: ConnectionView, id: u32) -> int {
    c.streams[id].send_window - c.peer.initial_window_size
}

pub(crate) proof fn setting_keeps_balance(c: ConnectionView, setting: Setting)
    requires
        c.inv(),
    ensures
        ({
            let after = c.apply_setting(setting);
            &&& after.inv()
            &&& after.conn_window == c.conn_window
            &&& forall|id: u32| #[trigger]
                after.streams.contains_key(id) == c.streams.contains_key(id)
            &&& forall|id: u32|
                c.streams.contains_key(id) ==> #[trigger] balance(after, id) == balance(c, id)
        }),
{
    let after = c.apply_setting(setting);
    assert forall|id: u32| c.streams.contains_key(id) implies #[trigger] balance(after, id)
        == balance(c, id) by {}
    assert forall|id: u32| #[trigger]
        after.streams.contains_key(id) implies super::model::window_in_bounds(
        after.streams[id].send_window,
        after.peer.initial_window_size,
    ) by {
        assert(c.streams.contains_key(id));
        assert(balance(after, id) == balance(c, id));
    }
}

/// A change of the initial window size moves the window of every open stream by
/// as much, so that what a stream has used of it stays the same whatever settings
/// come; the connection window is not touched (RFC 9113 Section 6.9.2).
pub proof fn settings_keep_the_balance(c: ConnectionView, settings: Seq<Setting>, id: u32)
    requires
        c.inv(),
        c.streams.contains_key(id),
    ensures
        ({
            let after = c.apply_peer_settings(settings);
            &&& after.inv()
            &&& after.streams.contains_key(id)
            &&& balance(after, id) == balance(c, id)
            &&& after.conn_window == c.conn_window
        }),
    decreases settings.len(),
{
    if settings.len() > 0 {
        setting_keeps_balance(c, settings[0]);
        let next = c.apply_setting(settings[0]);
        assert(next.streams.contains_key(id) == c.streams.contains_key(id));
        assert(balance(next, id) == balance(c, id));
        if !ConnectionView::setting_stops(settings[0]) {
            settings_keep_the_balance(next, settings.subrange(1, settings.len() as int), id);
        }
    }
}

/// A frame size outside the legal range closes the connection, and neither it nor
/// any setting behind it takes effect.
pub proof fn illegal_frame_sizes_close(c: ConnectionView, bad: Setting, rest: Seq<Setting>)
    requires
        bad.id == 0x05,
        bad.value < 16_384 || bad.value > 16_777_215,
    ensures
        ({
            let after = c.apply_peer_settings(seq![bad] + rest);
            &&& after.closing
            &&& after.peer == c.peer
            &&& after.streams == c.streams
        }),
{
    assert((seq![bad] + rest)[0] == bad);
}

/// Legal settings close nothing unless they take a stream's window beyond 2^31-1.
pub proof fn legal_settings_are_quiet(c: ConnectionView, setting: Setting)
    requires
        c.inv(),
        setting.id == 0x05 ==> 16_384 <= setting.value <= 16_777_215,
    ensures
        ({
            let after = c.apply_setting(setting);
            let overflow = setting.id == 0x04 && exists|id: u32|
                #[trigger] c.streams.contains_key(id) && balance(c, id) + setting.value
                    > 0x7fff_ffff;
            &&& !overflow ==> after.closing == c.closing && after.out == c.out
            &&& overflow ==> after.closing
        }),
{
    let after = c.apply_setting(setting);
    setting_keeps_balance(c, setting);
    if setting.id == 0x04 {
        let shifted = ConnectionView {
            peer: super::PeerSettings { initial_window_size: setting.value, ..c.peer },
            ..c
        }.shift_windows(setting.value - c.peer.initial_window_size);
        if shifted.window_overflow() {
            let id = choose|id: u32| #[trigger]
                shifted.streams.contains_key(id) && shifted.streams[id].send_window > 0x7fff_ffff;
            assert(c.streams.contains_key(id));
        }
        if exists|id: u32|
            #[trigger] c.streams.contains_key(id) && balance(c, id) + setting.value > 0x7fff_ffff {
            let id = choose|id: u32|
                #[trigger] c.streams.contains_key(id) && balance(c, id) + setting.value
                    > 0x7fff_ffff;
            assert(shifted.streams.contains_key(id));
        }
    }
}

/// The field block encoder is told every header table size, in order.
pub proof fn table_sizes_are_told(settings: Seq<Setting>)
    requires
        sizes_legal(settings),
    ensures
        ConnectionView::table_sizes(settings) == settings.filter(
            |s: Setting| s.id == 0x01,
        ).map_values(|s: Setting| s.value),
    decreases settings.len(),
{
    let wanted = |s: Setting| s.id == 0x01;
    let value = |s: Setting| s.value;
    if settings.len() == 0 {
        reveal(Seq::filter);
        assert(settings.filter(wanted).map_values(value) =~= Seq::<u32>::empty());
    } else {
        let first = seq![settings[0]];
        let rest = settings.subrange(1, settings.len() as int);
        assert forall|i: int| 0 <= i < rest.len() && (#[trigger] rest[i]).id == 0x05 implies 16_384
            <= rest[i].value <= 16_777_215 by {
            assert(rest[i] == settings[i + 1]);
        }
        assert(settings[0].id == 0x05 ==> 16_384 <= settings[0].value <= 16_777_215);
        table_sizes_are_told(rest);
        assert(settings =~= first + rest);
        Seq::filter_distributes_over_add(first, rest, wanted);
        reveal_with_fuel(Seq::filter, 2);
        assert(first.drop_last() =~= Seq::<Setting>::empty());
        if settings[0].id == 0x01 {
            assert(first.filter(wanted) =~= first);
        } else {
            assert(first.filter(wanted) =~= Seq::<Setting>::empty());
        }
        assert(settings.filter(wanted).map_values(value) =~= ConnectionView::table_sizes(settings));
    }
}

/// The decoder accepts frames as large as the peer last said.
pub proof fn frame_sizes_are_adopted(d: DecoderView, settings: Seq<Setting>)
    requires
        d.max_frame_size <= u32::MAX,
    ensures
        codec::after_frame(d, FrameView::Settings { ack: false, settings }).max_frame_size
            == last_value(settings, 0x05, d.max_frame_size as u32),
        codec::after_frame(d, FrameView::Settings { ack: true, settings }) == d,
{
    sizes_agree(settings, d.max_frame_size);
}

proof fn sizes_agree(settings: Seq<Setting>, before: usize)
    requires
        before <= u32::MAX,
    ensures
        codec::max_frame_size_after(settings, before) == last_value(
            settings,
            0x05,
            before as u32,
        ),
    decreases settings.len(),
{
    if settings.len() > 0 {
        sizes_agree(settings.drop_last(), before);
    }
}

} // verus!

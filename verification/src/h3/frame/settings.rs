//! The parameters of a SETTINGS frame.

use rustc_hash::FxHashMap;
use vstd::prelude::*;

use super::varint::{self, parse_varint};
use super::{FrameError, MAX_SETTINGS_ENTRIES, MAX_SETTINGS_PAYLOAD};
use crate::fx::{map_contains, map_get, map_insert, map_new};

verus! {

broadcast use vstd::std_specs::hash::group_hash_axioms;

/// A single SETTINGS parameter: `(identifier, value)`.
pub type Setting = (u64, u64);

/// A parsed `SETTINGS` frame payload (RFC 9114 Section 7.2.4).
///
/// Settings are kept in wire order. Reserved (grease) identifiers are dropped
/// on decode and may be added for encoding; unknown identifiers are preserved
/// and ignored by the driver.
///
/// Duplicate detection is O(1) per entry via an index map (first value wins),
/// so parsing is O(n) overall.
#[derive(Debug, Clone, PartialEq, Eq)]
pub struct Settings {
    entries: Vec<Setting>,
    /// First-seen value per identifier (insertion order is kept in `entries`,
    /// which may hold wire duplicates for re-encoding).
    lookup: FxHashMap<u64, u64>,
}

/// The value of the first parameter with the given identifier, if any.
pub open spec fn first_value(entries: Seq<Setting>, id: u64) -> Option<u64>
    decreases entries.len(),
{
    if entries.len() == 0 {
        None
    } else {
        match first_value(entries.drop_last(), id) {
            Some(value) => Some(value),
            None => if entries.last().0 == id {
                Some(entries.last().1)
            } else {
                None
            },
        }
    }
}

/// `first_value` is the value at the first index with the identifier.
pub proof fn first_value_is_first(entries: Seq<Setting>, id: u64)
    ensures
        match first_value(entries, id) {
            Some(value) => exists|i: int|
                0 <= i < entries.len() && #[trigger] entries[i] == (id, value) && forall|j: int|
                    0 <= j < i ==> (#[trigger] entries[j]).0 != id,
            None => forall|i: int| 0 <= i < entries.len() ==> (#[trigger] entries[i]).0 != id,
        },
    decreases entries.len(),
{
    if entries.len() > 0 {
        let init = entries.drop_last();
        first_value_is_first(init, id);
        match first_value(init, id) {
            Some(value) => {
                let i = choose|i: int|
                    0 <= i < init.len() && #[trigger] init[i] == (id, value) && forall|j: int|
                        0 <= j < i ==> (#[trigger] init[j]).0 != id;
                assert(entries[i] == (id, value));
                assert forall|j: int| 0 <= j < i implies (#[trigger] entries[j]).0 != id by {
                    assert(entries[j] == init[j]);
                }
            },
            None => {
                assert forall|j: int| 0 <= j < init.len() implies (#[trigger] entries[j]).0
                    != id by {
                    assert(entries[j] == init[j]);
                }
                if entries.last().0 == id {
                    let i = entries.len() - 1;
                    assert(entries[i] == (id, entries.last().1));
                }
            },
        }
    }
}

impl View for Settings {
    type V = Seq<Setting>;

    closed spec fn view(&self) -> Seq<Setting> {
        self.entries@
    }
}

impl Settings {
    /// The index agrees with the parameters.
    pub closed spec fn wf(self) -> bool {
        forall|id: u64|
            match first_value(self.entries@, id) {
                Some(value) => #[trigger] self.lookup@.contains_key(id) && self.lookup@[id]
                    == value,
                None => !self.lookup@.contains_key(id),
            }
    }

    /// An empty SETTINGS payload.
    pub fn new() -> (settings: Self)
        ensures
            settings.wf(),
            settings@ == Seq::<Setting>::empty(),
    {
        Settings { entries: Vec::new(), lookup: map_new() }
    }

    /// Appends a `(identifier, value)` parameter in wire order.
    pub fn insert(&mut self, id: u64, value: u64)
        requires
            old(self).wf(),
        ensures
            final(self).wf(),
            final(self)@ == old(self)@.push((id, value)),
    {
        let ghost before = *self;
        self.entries.push((id, value));
        if !map_contains(&self.lookup, &id) {
            map_insert(&mut self.lookup, id, value);
        }
        assert(self.entries@.drop_last() =~= before.entries@);
        assert forall|other: u64|
            match first_value(self.entries@, other) {
                Some(value) => #[trigger] self.lookup@.contains_key(other) && self.lookup@[other]
                    == value,
                None => !self.lookup@.contains_key(other),
            } by {
            assert(before.lookup@.contains_key(other) || !before.lookup@.contains_key(other));
        }
    }

    /// The value of the first parameter with `id`, if any.
    pub fn get(&self, id: u64) -> (value: Option<u64>)
        requires
            self.wf(),
        ensures
            value == first_value(self@, id),
    {
        match map_get(&self.lookup, &id) {
            Some(value) => Some(*value),
            None => None,
        }
    }

    /// The parameters in wire order.
    pub fn iter(&self) -> (entries: &Vec<Setting>)
        ensures
            entries@ == self@,
    {
        &self.entries
    }

    /// Number of parameters held (wire order, including any duplicates added
    /// via [`Settings::insert`]).
    pub fn len(&self) -> (n: usize)
        ensures
            n == self@.len(),
    {
        self.entries.len()
    }

    /// Whether the payload holds no parameters.
    pub fn is_empty(&self) -> (empty: bool)
        ensures
            empty == (self@.len() == 0),
    {
        self.entries.len() == 0
    }
}

impl Default for Settings {
    fn default() -> (settings: Self)
        ensures
            settings.wf(),
            settings@ == Seq::<Setting>::empty(),
    {
        Settings::new()
    }
}

/// Reserved grease identifiers: `0x1f * N + 0x21` (RFC 9114 Sections 7.2.8 and
/// 7.2.4.1), which must be ignored, never interpreted.
pub open spec fn grease(v: u64) -> bool {
    v >= 0x21 && (v - 0x21) % 0x1f == 0
}

fn is_grease(v: u64) -> (yes: bool)
    ensures
        yes == grease(v),
{
    v >= 0x21 && (v - 0x21) % 0x1f == 0
}

/// Identifiers that HTTP/2 uses and HTTP/3 forbids.
pub open spec fn reserved_setting(id: u64) -> bool {
    0x02 <= id <= 0x05
}

fn is_reserved_setting(id: u64) -> (yes: bool)
    ensures
        yes == reserved_setting(id),
{
    0x02 <= id && id <= 0x05
}

/// Adds to `entries`, read from `count` pairs so far, the parameters in the
/// rest of a SETTINGS payload: pairs of variable-length integers, no more than
/// the limit, none with a reserved identifier, none with an identifier that is
/// already there. Grease is dropped.
pub open spec fn settings_from(rest: Seq<u8>, count: nat, entries: Seq<Setting>) -> Result<
    Seq<Setting>,
    FrameError,
>
    decreases rest.len(),
{
    if rest.len() == 0 {
        Ok(entries)
    } else {
        match varint::varint_at_start(rest) {
            Err(error) => Err(error),
            Ok(None) => Err(FrameError::Frame),
            Ok(Some((id, n))) => match varint::varint_at_start(
                rest.subrange(n as int, rest.len() as int),
            ) {
                Err(error) => Err(error),
                Ok(None) => Err(FrameError::Frame),
                Ok(Some((value, m))) => if count + 1 > MAX_SETTINGS_ENTRIES || reserved_setting(id)
                    || first_value(entries, id) is Some {
                    Err(FrameError::Settings)
                } else {
                    settings_from(
                        rest.subrange((n + m) as int, rest.len() as int),
                        count + 1,
                        if grease(id) {
                            entries
                        } else {
                            entries.push((id, value))
                        },
                    )
                },
            },
        }
    }
}

/// The parameters in a SETTINGS payload.
pub open spec fn settings_of(payload: Seq<u8>) -> Result<Seq<Setting>, FrameError> {
    if payload.len() > MAX_SETTINGS_PAYLOAD {
        Err(FrameError::Settings)
    } else {
        settings_from(payload, 0, Seq::empty())
    }
}

/// Parses a SETTINGS payload.
pub(super) fn parse_settings(payload: &[u8]) -> (result: Result<Settings, FrameError>)
    ensures
        match result {
            Ok(settings) => settings.wf() && settings_of(payload@) == Ok::<_, FrameError>(
                settings@,
            ),
            Err(error) => settings_of(payload@) == Err::<Seq<Setting>, _>(error),
        },
{
    if payload.len() as u64 > MAX_SETTINGS_PAYLOAD {
        return Err(FrameError::Settings);
    }
    let mut settings = Settings::new();
    let mut rest = payload;
    // Bound the entry count so a many-entry frame is rejected after bounded
    // work.
    let mut count: usize = 0;
    while rest.len() > 0
        invariant
            settings.wf(),
            count <= MAX_SETTINGS_ENTRIES,
            settings_from(payload@, 0, Seq::empty()) == settings_from(
                rest@,
                count as nat,
                settings@,
            ),
            payload@.len() <= MAX_SETTINGS_PAYLOAD,
        decreases rest@.len(),
    {
        let (id, id_len) = match parse_varint(rest)? {
            Some(parsed) => parsed,
            None => return Err(FrameError::Frame),
        };
        let after_id = vstd::slice::slice_subrange(rest, id_len, rest.len());
        let (value, value_len) = match parse_varint(after_id)? {
            Some(parsed) => parsed,
            None => return Err(FrameError::Frame),
        };
        let after_value = vstd::slice::slice_subrange(after_id, value_len, after_id.len());
        assert(after_value@ =~= rest@.subrange(id_len + value_len, rest@.len() as int));
        count = count + 1;
        if count > MAX_SETTINGS_ENTRIES {
            return Err(FrameError::Settings);
        }
        if is_reserved_setting(id) {
            return Err(FrameError::Settings);
        }
        if settings.get(id).is_some() {
            return Err(FrameError::Settings);
        }
        if !is_grease(id) {
            settings.insert(id, value);
        }
        rest = after_value;
    }
    Ok(settings)
}

} // verus!

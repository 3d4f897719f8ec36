//! The cache of a camera's hardware controls and the planning of writes
//! to them.
//!
//! The device itself is reached elsewhere. Functions that change a control
//! return the writes to perform; once the device has taken a write,
//! `record_write` mirrors it into the cache.

use vstd::prelude::*;
use vstd::string::StringExecFns;
use crate::keyed::{distinct_keys, keyed, lemma_with_entry, put_entry, with_entry};
use crate::text::{
    control_name, control_name_of, lowercase, parse_i64, settings_key, settings_key_of, signed_value,
    to_lowercase,
};

verus! {

/// Kind of a control.
#[derive(Debug, Clone, Copy, PartialEq, Eq, Structural)]
pub enum ControlType {
    Integer,
    Boolean,
    Menu,
    Button,
    Integer64,
    String,
    Bitmask,
    IntegerMenu,
    Unknown,
}

/// Value of a control.
#[derive(Debug, PartialEq)]
pub enum ControlValue {
    Integer(i64),
    Boolean(bool),
    String(String),
    NoValue,
}

impl Clone for ControlValue {
    fn clone(&self) -> (r: Self)
        ensures
            r == *self,
    {
        match self {
            ControlValue::Integer(i) => ControlValue::Integer(*i),
            ControlValue::Boolean(b) => ControlValue::Boolean(*b),
            ControlValue::String(s) => ControlValue::String(s.clone()),
            ControlValue::NoValue => ControlValue::NoValue,
        }
    }
}

impl ControlValue {
    /// The value as an integer: an integer is itself, a boolean is 0 or
    /// 1, anything else has none.
    pub open spec fn integer(self) -> Option<i64> {
        match self {
            ControlValue::Integer(i) => Some(i),
            ControlValue::Boolean(b) => Some(
                if b {
                    1i64
                } else {
                    0i64
                },
            ),
            _ => None,
        }
    }

    /// The value that a text stands for: the integer it writes, or the
    /// text itself where it writes none.
    pub fn from_text(text: &str) -> (r: Self)
        ensures
            match signed_value(text@) {
                Some(i) => r == ControlValue::Integer(i),
                None => r matches ControlValue::String(s) && s@ == text@,
            },
    {
        match parse_i64(text) {
            Some(i) => ControlValue::Integer(i),
            None => ControlValue::String(String::from_str(text)),
        }
    }

    /// The value as an integer, if it has one.
    pub fn as_i64(&self) -> (r: Option<i64>)
        ensures
            r == self.integer(),
    {
        match self {
            ControlValue::Integer(i) => Some(*i),
            ControlValue::Boolean(b) => Some(
                if *b {
                    1
                } else {
                    0
                },
            ),
            _ => None,
        }
    }
}

/// One entry of a menu control.
#[derive(Debug, Clone)]
pub struct MenuItemInfo {
    /// Index of the entry.
    pub index: u32,
    /// Its name or value.
    pub label: String,
}

/// Flags of a control.
#[derive(Debug, Clone, Copy, PartialEq, Eq, Structural)]
pub struct ControlFlags {
    pub disabled: bool,
    pub grabbed: bool,
    pub read_only: bool,
    pub inactive: bool,
    pub write_only: bool,
    pub volatile: bool,
}

impl Default for ControlFlags {
    fn default() -> (r: Self)
        ensures
            r == (ControlFlags {
                disabled: false,
                grabbed: false,
                read_only: false,
                inactive: false,
                write_only: false,
                volatile: false,
            }),
    {
        ControlFlags {
            disabled: false,
            grabbed: false,
            read_only: false,
            inactive: false,
            write_only: false,
            volatile: false,
        }
    }
}

impl ControlFlags {
    /// Whether a control with these flags can be written.
    pub open spec fn writable(self) -> bool {
        !self.read_only && !self.inactive
    }
}

/// A control with its description and its value as last seen.
#[derive(Debug, Clone)]
pub struct CameraControl {
    /// Identifier of the control on the device.
    pub id: u32,
    /// Name for people.
    pub name: String,
    pub control_type: ControlType,
    pub minimum: i64,
    pub maximum: i64,
    pub step: u64,
    pub default: i64,
    /// Value as last seen.
    pub value: ControlValue,
    /// Entries, for a menu control.
    pub menu_items: Option<Vec<MenuItemInfo>>,
    pub flags: ControlFlags,
}

/// What a device says of one control, with the value read from it (or
/// `ControlValue::NoValue` where it could not be read).
#[derive(Debug)]
pub struct ControlDescription {
    /// The control as described.
    pub control: CameraControl,
    /// Whether the entry is the heading of a class of controls rather
    /// than a control.
    pub is_class: bool,
}

impl ControlDescription {
    /// Whether the entry belongs in the cache: a control that is not
    /// disabled.
    pub open spec fn listed(self) -> bool {
        !self.control.flags.disabled && !self.is_class
    }

    /// Whether the entry belongs in the cache.
    pub fn is_listed(&self) -> (r: bool)
        ensures
            r == self.listed(),
    {
        !self.control.flags.disabled && !self.is_class
    }
}

/// A write to perform on the device: a control and its new value.
#[derive(Debug, Clone)]
pub struct ControlWrite {
    pub id: u32,
    pub value: ControlValue,
}

/// Why no write could be planned.
#[derive(Debug, Clone, Copy, PartialEq, Eq, Structural)]
pub enum ControlError {
    /// The cache holds no control of that identifier or name.
    NotFound,
}

/// Position of the first control with the identifier, or the length of
/// the sequence where there is none.
pub open spec fn position_by_id(controls: Seq<CameraControl>, id: u32) -> int
    decreases controls.len(),
{
    if controls.len() == 0 {
        0
    } else if controls[0].id == id {
        0
    } else {
        1 + position_by_id(controls.skip(1), id)
    }
}

/// Position of the first control whose name in lowercase is `lower`, or
/// the length of the sequence where there is none.
pub open spec fn position_by_lower_name(controls: Seq<CameraControl>, lower: Seq<char>) -> int
    decreases controls.len(),
{
    if controls.len() == 0 {
        0
    } else if lowercase(controls[0].name@) == lower {
        0
    } else {
        1 + position_by_lower_name(controls.skip(1), lower)
    }
}

/// `position_by_id` names the first match: nothing before it has the
/// identifier, and it has it unless it is the length.
pub proof fn lemma_position_by_id(controls: Seq<CameraControl>, id: u32)
    ensures
        0 <= position_by_id(controls, id) <= controls.len(),
        position_by_id(controls, id) < controls.len() ==> controls[position_by_id(controls, id)].id
            == id,
        forall|j: int| 0 <= j < position_by_id(controls, id) ==> (#[trigger] controls[j]).id != id,
    decreases controls.len(),
{
    if controls.len() > 0 && controls[0].id != id {
        let rest = controls.skip(1);
        lemma_position_by_id(rest, id);
        assert forall|j: int| 0 <= j < position_by_id(controls, id) implies (#[trigger] controls[j]).id
            != id by {
            if j > 0 {
                assert(controls[j] == rest[j - 1]);
            }
        }
    }
}

/// A position with the identifier before which nothing has it is the
/// position that `position_by_id` gives; so is the length where nothing
/// has it.
pub proof fn lemma_position_by_id_is(controls: Seq<CameraControl>, id: u32, at: int)
    requires
        0 <= at <= controls.len(),
        at < controls.len() ==> controls[at].id == id,
        forall|j: int| 0 <= j < at ==> (#[trigger] controls[j]).id != id,
    ensures
        position_by_id(controls, id) == at,
{
    lemma_position_by_id(controls, id);
    let p = position_by_id(controls, id);
    if p < at {
        assert(controls[p].id != id);
    }
}

/// `position_by_lower_name` names the first match.
pub proof fn lemma_position_by_lower_name(controls: Seq<CameraControl>, lower: Seq<char>)
    ensures
        0 <= position_by_lower_name(controls, lower) <= controls.len(),
        position_by_lower_name(controls, lower) < controls.len() ==> lowercase(
            controls[position_by_lower_name(controls, lower)].name@,
        ) == lower,
        forall|j: int|
            0 <= j < position_by_lower_name(controls, lower) ==> lowercase(
                (#[trigger] controls[j]).name@,
            ) != lower,
    decreases controls.len(),
{
    if controls.len() > 0 && lowercase(controls[0].name@) != lower {
        let rest = controls.skip(1);
        lemma_position_by_lower_name(rest, lower);
        assert forall|j: int| 0 <= j < position_by_lower_name(controls, lower) implies lowercase(
            (#[trigger] controls[j]).name@,
        ) != lower by {
            if j > 0 {
                assert(controls[j] == rest[j - 1]);
            }
        }
    }
}

/// A matching position before which nothing matches is the position that
/// `position_by_lower_name` gives; so is the length where nothing
/// matches.
pub proof fn lemma_position_by_lower_name_is(controls: Seq<CameraControl>, lower: Seq<char>, at: int)
    requires
        0 <= at <= controls.len(),
        at < controls.len() ==> lowercase(controls[at].name@) == lower,
        forall|j: int| 0 <= j < at ==> lowercase((#[trigger] controls[j]).name@) != lower,
    ensures
        position_by_lower_name(controls, lower) == at,
{
    lemma_position_by_lower_name(controls, lower);
    let p = position_by_lower_name(controls, lower);
    if p < at {
        assert(lowercase(controls[p].name@) != lower);
    }
}

/// The cache of a device's controls.
pub struct CameraControlsManager {
    /// Path of the device the controls belong to.
    pub device_path: String,
    /// The controls, in the order the device listed them.
    pub controls: Vec<CameraControl>,
}

impl CameraControlsManager {
    /// A manager for the device at `device_path`, with an empty cache.
    pub fn new(device_path: &str) -> (m: Self)
        ensures
            m.device_path@ == device_path@,
            m.controls@.len() == 0,
    {
        CameraControlsManager { device_path: String::from_str(device_path), controls: Vec::new() }
    }

    /// The cached controls.
    pub fn get_controls(&self) -> (r: &Vec<CameraControl>)
        ensures
            *r == self.controls,
    {
        &self.controls
    }

    /// Position of the first control with the identifier.
    pub fn find_by_id(&self, id: u32) -> (at: Option<usize>)
        ensures
            match at {
                Some(i) => i as int == position_by_id(self.controls@, id) && i < self.controls@.len(),
                None => position_by_id(self.controls@, id) == self.controls@.len(),
            },
    {
        let n: usize = self.controls.len();
        let mut i: usize = 0;
        while i < n
            invariant
                i <= n,
                n == self.controls@.len(),
                forall|j: int| 0 <= j < i ==> (#[trigger] self.controls@[j]).id != id,
            decreases n - i,
        {
            if self.controls[i].id == id {
                proof {
                    lemma_position_by_id_is(self.controls@, id, i as int);
                }
                return Some(i);
            }
            i += 1;
        }
        proof {
            lemma_position_by_id_is(self.controls@, id, n as int);
        }
        None
    }

    /// Position of the first control whose name is `name` when case is
    /// ignored. `lower` is the name sought, already in lowercase.
    pub fn find_by_lower_name(&self, lower: &String) -> (at: Option<usize>)
        ensures
            match at {
                Some(i) => i as int == position_by_lower_name(self.controls@, lower@) && i
                    < self.controls@.len(),
                None => position_by_lower_name(self.controls@, lower@) == self.controls@.len(),
            },
    {
        let n: usize = self.controls.len();
        let mut i: usize = 0;
        while i < n
            invariant
                i <= n,
                n == self.controls@.len(),
                forall|j: int| 0 <= j < i ==> lowercase((#[trigger] self.controls@[j]).name@) != lower@,
            decreases n - i,
        {
            let candidate = to_lowercase(self.controls[i].name.as_str());
            if candidate == *lower {
                proof {
                    lemma_position_by_lower_name_is(self.controls@, lower@, i as int);
                }
                return Some(i);
            }
            i += 1;
        }
        proof {
            lemma_position_by_lower_name_is(self.controls@, lower@, n as int);
        }
        None
    }

    /// The first control with the identifier.
    pub fn get_control(&self, id: u32) -> (r: Option<&CameraControl>)
        ensures
            r == if position_by_id(self.controls@, id) < self.controls@.len() {
                Some(&self.controls@[position_by_id(self.controls@, id)])
            } else {
                None
            },
    {
        match self.find_by_id(id) {
            Some(i) => Some(&self.controls[i]),
            None => None,
        }
    }

    /// The first control of that name, case ignored.
    pub fn get_control_by_name(&self, name: &str) -> (r: Option<&CameraControl>)
        ensures
            r == if position_by_lower_name(self.controls@, lowercase(name@)) < self.controls@.len() {
                Some(&self.controls@[position_by_lower_name(self.controls@, lowercase(name@))])
            } else {
                None
            },
    {
        let lower = to_lowercase(name);
        match self.find_by_lower_name(&lower) {
            Some(i) => Some(&self.controls[i]),
            None => None,
        }
    }

    /// Empties the cache, before the device's controls are listed anew.
    pub fn clear_controls(&mut self)
        ensures
            final(self).controls@.len() == 0,
            final(self).device_path == old(self).device_path,
    {
        self.controls.clear();
    }

    /// Takes one entry of the device's list into the cache, unless it is
    /// disabled or the heading of a class.
    pub fn add_described(&mut self, described: ControlDescription)
        ensures
            final(self).device_path == old(self).device_path,
            final(self).controls@ == if described.listed() {
                old(self).controls@.push(described.control)
            } else {
                old(self).controls@
            },
    {
        if described.is_listed() {
            self.controls.push(described.control);
        }
    }

    /// Mirrors a write that the device has taken: the first control with
    /// the identifier gets the value. Returns whether the cache holds such
    /// a control.
    pub fn record_write(&mut self, id: u32, value: ControlValue) -> (known: bool)
        ensures
            final(self).device_path == old(self).device_path,
            known == (position_by_id(old(self).controls@, id) < old(self).controls@.len()),
            final(self).controls@ == with_value_at(
                old(self).controls@,
                position_by_id(old(self).controls@, id),
                value,
            ),
    {
        match self.find_by_id(id) {
            Some(i) => {
                self.set_value_at(i, value);
                true
            },
            None => {
                assert(self.controls@ =~= with_value_at(
                    self.controls@,
                    position_by_id(self.controls@, id),
                    value,
                ));
                false
            },
        }
    }

    /// Stores a value read back from the device in the control at the
    /// given position of the cache; a position past the end changes
    /// nothing.
    pub fn set_value_at(&mut self, index: usize, value: ControlValue)
        ensures
            final(self).device_path == old(self).device_path,
            final(self).controls@ == with_value_at(old(self).controls@, index as int, value),
    {
        if index < self.controls.len() {
            let ghost before = self.controls@;
            self.controls[index].value = value;
            assert(self.controls@ =~= with_value_at(before, index as int, value));
        } else {
            assert(self.controls@ =~= with_value_at(self.controls@, index as int, value));
        }
    }

    /// Plans the write that sets the control of that name, case ignored.
    pub fn set_control_by_name(&self, name: &str, value: ControlValue) -> (r: Result<
        ControlWrite,
        ControlError,
    >)
        ensures
            r == if position_by_lower_name(self.controls@, lowercase(name@)) < self.controls@.len() {
                Ok::<ControlWrite, ControlError>(
                    ControlWrite {
                        id: self.controls@[position_by_lower_name(self.controls@, lowercase(name@))].id,
                        value,
                    },
                )
            } else {
                Err::<ControlWrite, ControlError>(ControlError::NotFound)
            },
    {
        let lower = to_lowercase(name);
        match self.find_by_lower_name(&lower) {
            Some(i) => Ok(ControlWrite { id: self.controls[i].id, value }),
            None => Err(ControlError::NotFound),
        }
    }

    /// Plans the write that puts a control back to its default.
    pub fn reset_control(&self, id: u32) -> (r: Result<ControlWrite, ControlError>)
        ensures
            r == if position_by_id(self.controls@, id) < self.controls@.len() {
                Ok::<ControlWrite, ControlError>(
                    ControlWrite {
                        id,
                        value: ControlValue::Integer(
                            self.controls@[position_by_id(self.controls@, id)].default,
                        ),
                    },
                )
            } else {
                Err::<ControlWrite, ControlError>(ControlError::NotFound)
            },
    {
        match self.find_by_id(id) {
            Some(i) => Ok(ControlWrite { id, value: ControlValue::Integer(self.controls[i].default) }),
            None => Err(ControlError::NotFound),
        }
    }

    /// Plans the writes that put every writable control back to its
    /// default, in cache order. Read-only and inactive controls are
    /// skipped.
    pub fn reset_all_controls(&self) -> (writes: Vec<ControlWrite>)
        ensures
            writes@ == reset_plan(self.controls@),
    {
        let mut writes: Vec<ControlWrite> = Vec::new();
        let n: usize = self.controls.len();
        let mut i: usize = 0;
        while i < n
            invariant
                i <= n,
                n == self.controls@.len(),
                writes@ == reset_plan(self.controls@.take(i as int)),
            decreases n - i,
        {
            assert(self.controls@.take(i + 1).drop_last() =~= self.controls@.take(i as int));
            let c = &self.controls[i];
            if !c.flags.read_only && !c.flags.inactive {
                writes.push(ControlWrite { id: c.id, value: ControlValue::Integer(c.default) });
            }
            i += 1;
        }
        assert(self.controls@.take(n as int) =~= self.controls@);
        writes
    }

    /// The settings to store for the device: the value, as last seen, of
    /// every writable control, under its key. No key occurs twice: where
    /// two controls share a key, the later one's value stands under it.
    pub fn export_settings(&self) -> (settings: Vec<(String, ControlValue)>)
        ensures
            valued_entries(settings@) == exported(self.controls@),
            distinct_keys(valued_entries(settings@)),
    {
        let mut settings: Vec<(String, ControlValue)> = Vec::new();
        let n: usize = self.controls.len();
        let mut i: usize = 0;
        assert(valued_entries(settings@) =~= exported(self.controls@.take(0)));
        while i < n
            invariant
                i <= n,
                n == self.controls@.len(),
                valued_entries(settings@) == exported(self.controls@.take(i as int)),
                distinct_keys(valued_entries(settings@)),
            decreases n - i,
        {
            assert(self.controls@.take(i + 1).drop_last() =~= self.controls@.take(i as int));
            let c = &self.controls[i];
            if !c.flags.read_only && !c.flags.inactive {
                let key = settings_key(c.name.as_str());
                proof {
                    lemma_with_entry(valued_entries(settings@), key@, c.value);
                }
                put_entry(&mut settings, key, c.value.clone());
            }
            i += 1;
        }
        assert(self.controls@.take(n as int) =~= self.controls@);
        settings
    }

    /// Plans the writes that apply stored settings. Each entry is applied
    /// to the first control whose lowercase name its key stands for; an
    /// entry without such a control, or whose control is read-only or
    /// inactive, is passed over. The writes come in the order of the
    /// entries.
    pub fn import_settings(&self, settings: &Vec<(String, ControlValue)>) -> (writes: Vec<ControlWrite>)
        ensures
            writes@ == import_plan(self.controls@, valued_entries(settings@)),
    {
        let mut writes: Vec<ControlWrite> = Vec::new();
        let n: usize = settings.len();
        let mut i: usize = 0;
        assert(valued_entries(settings@).take(0) =~= Seq::empty());
        while i < n
            invariant
                i <= n,
                n == settings@.len(),
                writes@ == import_plan(self.controls@, valued_entries(settings@).take(i as int)),
            decreases n - i,
        {
            let ghost all = valued_entries(settings@);
            assert(all.take(i + 1).drop_last() =~= all.take(i as int));
            assert(all.take(i + 1).last() == (settings@[i as int].0@, settings@[i as int].1));
            let name = control_name(settings[i].0.as_str());
            match self.find_by_lower_name(&name) {
                Some(at) => {
                    let c = &self.controls[at];
                    if !c.flags.read_only && !c.flags.inactive {
                        writes.push(ControlWrite { id: c.id, value: settings[i].1.clone() });
                    }
                },
                None => {},
            }
            i += 1;
        }
        assert(valued_entries(settings@).take(n as int) =~= valued_entries(settings@));
        writes
    }
}

/// A cache in which the control at `at` has the value `value`; a position
/// outside the cache leaves it as it is.
pub open spec fn with_value_at(controls: Seq<CameraControl>, at: int, value: ControlValue) -> Seq<
    CameraControl,
> {
    if 0 <= at < controls.len() {
        controls.update(at, CameraControl { value, ..controls[at] })
    } else {
        controls
    }
}

/// The writes that reset every writable control to its default.
pub open spec fn reset_plan(controls: Seq<CameraControl>) -> Seq<ControlWrite>
    decreases controls.len(),
{
    if controls.len() == 0 {
        Seq::empty()
    } else {
        let c = controls.last();
        let before = reset_plan(controls.drop_last());
        if c.flags.writable() {
            before.push(ControlWrite { id: c.id, value: ControlValue::Integer(c.default) })
        } else {
            before
        }
    }
}

/// Stored entries as keys and values.
pub open spec fn valued_entries(entries: Seq<(String, ControlValue)>) -> Seq<(Seq<char>, ControlValue)> {
    keyed(entries)
}

/// The settings of the writable controls: the value of each is stored
/// under its key, in cache order, a later value taking the place of an
/// earlier one under the same key.
pub open spec fn exported(controls: Seq<CameraControl>) -> Seq<(Seq<char>, ControlValue)>
    decreases controls.len(),
{
    if controls.len() == 0 {
        Seq::empty()
    } else {
        let c = controls.last();
        let before = exported(controls.drop_last());
        if c.flags.writable() {
            with_entry(before, settings_key_of(c.name@), c.value)
        } else {
            before
        }
    }
}

/// The write, if any, that one stored entry leads to.
pub open spec fn import_of(controls: Seq<CameraControl>, key: Seq<char>, value: ControlValue) -> Option<
    ControlWrite,
> {
    let at = position_by_lower_name(controls, control_name_of(key));
    if at < controls.len() && controls[at].flags.writable() {
        Some(ControlWrite { id: controls[at].id, value })
    } else {
        None
    }
}

/// The writes that stored entries lead to, in the entries' order.
pub open spec fn import_plan(controls: Seq<CameraControl>, entries: Seq<(Seq<char>, ControlValue)>) -> Seq<
    ControlWrite,
>
    decreases entries.len(),
{
    if entries.len() == 0 {
        Seq::empty()
    } else {
        let before = import_plan(controls, entries.drop_last());
        match import_of(controls, entries.last().0, entries.last().1) {
            Some(w) => before.push(w),
            None => before,
        }
    }
}

/// Control values as a configuration stores them: integers by key.
#[derive(Debug, Clone)]
pub struct CameraSettings {
    /// Key and value of each stored control.
    pub controls: Vec<(String, i64)>,
}

impl Default for CameraSettings {
    fn default() -> (r: Self)
        ensures
            r.controls@.len() == 0,
    {
        CameraSettings { controls: Vec::new() }
    }
}

/// Stored integers as keys and values.
pub open spec fn integer_entries(entries: Seq<(String, i64)>) -> Seq<(Seq<char>, i64)> {
    keyed(entries)
}

/// The integers to store for a cache: the value of every writable
/// control whose value is an integer or a boolean, under its key, in
/// cache order, a later value taking the place of an earlier one under
/// the same key.
pub open spec fn stored(controls: Seq<CameraControl>) -> Seq<(Seq<char>, i64)>
    decreases controls.len(),
{
    if controls.len() == 0 {
        Seq::empty()
    } else {
        let c = controls.last();
        let before = stored(controls.drop_last());
        if c.flags.writable() && c.value.integer().is_some() {
            with_entry(before, settings_key_of(c.name@), c.value.integer().unwrap())
        } else {
            before
        }
    }
}

/// The write, if any, that one stored integer leads to: a boolean control
/// is set to whether the integer is not zero, any other to the integer.
pub open spec fn applied_of(controls: Seq<CameraControl>, key: Seq<char>, value: i64) -> Option<
    ControlWrite,
> {
    let at = position_by_lower_name(controls, control_name_of(key));
    if at < controls.len() && controls[at].flags.writable() {
        Some(
            ControlWrite {
                id: controls[at].id,
                value: if controls[at].control_type == ControlType::Boolean {
                    ControlValue::Boolean(value != 0)
                } else {
                    ControlValue::Integer(value)
                },
            },
        )
    } else {
        None
    }
}

/// The writes that stored integers lead to, in their order.
pub open spec fn apply_plan(controls: Seq<CameraControl>, entries: Seq<(Seq<char>, i64)>) -> Seq<
    ControlWrite,
>
    decreases entries.len(),
{
    if entries.len() == 0 {
        Seq::empty()
    } else {
        let before = apply_plan(controls, entries.drop_last());
        match applied_of(controls, entries.last().0, entries.last().1) {
            Some(w) => before.push(w),
            None => before,
        }
    }
}

impl CameraSettings {
    /// The settings to store for a manager's cache. No key occurs twice.
    pub fn from_manager(manager: &CameraControlsManager) -> (settings: Self)
        ensures
            integer_entries(settings.controls@) == stored(manager.controls@),
            distinct_keys(integer_entries(settings.controls@)),
    {
        let mut controls: Vec<(String, i64)> = Vec::new();
        let cached = manager.get_controls();
        let n: usize = cached.len();
        let mut i: usize = 0;
        assert(integer_entries(controls@) =~= stored(cached@.take(0)));
        while i < n
            invariant
                i <= n,
                n == cached@.len(),
                integer_entries(controls@) == stored(cached@.take(i as int)),
                distinct_keys(integer_entries(controls@)),
            decreases n - i,
        {
            assert(cached@.take(i + 1).drop_last() =~= cached@.take(i as int));
            let c = &cached[i];
            if !c.flags.read_only && !c.flags.inactive {
                match c.value.as_i64() {
                    Some(val) => {
                        let key = settings_key(c.name.as_str());
                        proof {
                            lemma_with_entry(integer_entries(controls@), key@, val);
                        }
                        put_entry(&mut controls, key, val);
                    },
                    None => {},
                }
            }
            i += 1;
        }
        assert(cached@.take(n as int) =~= cached@);
        CameraSettings { controls }
    }

    /// Plans the writes that apply these settings to a manager's device.
    pub fn apply_to_manager(&self, manager: &CameraControlsManager) -> (writes: Vec<ControlWrite>)
        ensures
            writes@ == apply_plan(manager.controls@, integer_entries(self.controls@)),
    {
        let mut writes: Vec<ControlWrite> = Vec::new();
        let n: usize = self.controls.len();
        let mut i: usize = 0;
        assert(integer_entries(self.controls@).take(0) =~= Seq::empty());
        while i < n
            invariant
                i <= n,
                n == self.controls@.len(),
                writes@ == apply_plan(manager.controls@, integer_entries(self.controls@).take(i as int)),
            decreases n - i,
        {
            let ghost all = integer_entries(self.controls@);
            assert(all.take(i + 1).drop_last() =~= all.take(i as int));
            assert(all.take(i + 1).last() == (self.controls@[i as int].0@, self.controls@[i as int].1));
            let value: i64 = self.controls[i].1;
            let name = control_name(self.controls[i].0.as_str());
            match manager.find_by_lower_name(&name) {
                Some(at) => {
                    let c = &manager.controls[at];
                    if !c.flags.read_only && !c.flags.inactive {
                        let ctrl_value = match c.control_type {
                            ControlType::Boolean => ControlValue::Boolean(value != 0),
                            _ => ControlValue::Integer(value),
                        };
                        writes.push(ControlWrite { id: c.id, value: ctrl_value });
                    }
                },
                None => {},
            }
            i += 1;
        }
        assert(integer_entries(self.controls@).take(n as int) =~= integer_entries(self.controls@));
        writes
    }
}

} // verus!

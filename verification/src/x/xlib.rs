use std::collections::HashSet;
use vstd::prelude::*;

verus! {

broadcast use vstd::std_specs::hash::group_hash_axioms;

// Event types of the X Input Extension, version 2 (XI2.h), and the core
// protocol's GenericEvent type. They are protocol constants: the values that
// the X server puts on the wire.

/// Core protocol: an event that an extension defines.
#[allow(non_upper_case_globals)]
pub const GenericEvent: i32 = 35;
#[allow(non_upper_case_globals)]
pub const XI_DeviceChanged: i32 = 1;
#[allow(non_upper_case_globals)]
pub const XI_KeyPress: i32 = 2;
#[allow(non_upper_case_globals)]
pub const XI_Enter: i32 = 7;
#[allow(non_upper_case_globals)]
pub const XI_Leave: i32 = 8;
#[allow(non_upper_case_globals)]
pub const XI_FocusIn: i32 = 9;
#[allow(non_upper_case_globals)]
pub const XI_FocusOut: i32 = 10;
#[allow(non_upper_case_globals)]
pub const XI_HierarchyChanged: i32 = 11;
#[allow(non_upper_case_globals)]
pub const XI_PropertyEvent: i32 = 12;
#[allow(non_upper_case_globals)]
pub const XI_RawKeyPress: i32 = 13;
#[allow(non_upper_case_globals)]
pub const XI_RawKeyRelease: i32 = 14;
#[allow(non_upper_case_globals)]
pub const XI_RawButtonPress: i32 = 15;
#[allow(non_upper_case_globals)]
pub const XI_RawButtonRelease: i32 = 16;
#[allow(non_upper_case_globals)]
pub const XI_RawMotion: i32 = 17;
#[allow(non_upper_case_globals)]
pub const XI_RawTouchBegin: i32 = 22;
#[allow(non_upper_case_globals)]
pub const XI_RawTouchUpdate: i32 = 23;
#[allow(non_upper_case_globals)]
pub const XI_RawTouchEnd: i32 = 24;

/// Number of bytes in the event mask that is selected on the root window:
/// room for event types 0 to 31.
pub const EVENT_MASK_LEN: usize = 4;

/// An input device that the X server reported.
pub struct Device {
    pub id: u32,
    pub name: String,
}

/// An input event, reduced to what the features read.
#[derive(Debug, Copy, Clone, PartialEq, Eq)]
pub struct Event {
    pub kind: i32,
    pub source_id: u32,
    pub detail: u8,
}

impl Event {
    /// Builds an event from the fields of an XI2 event cookie, converting
    /// them as C's integer conversions do (the source id wraps, the detail
    /// keeps its low byte).
    pub fn from_cookie(kind: i32, sourceid: i32, detail: i32) -> (ev: Event)
        ensures
            ev.kind == kind,
            ev.source_id == sourceid as u32,
            ev.detail == detail as u8,
    {
        Event { kind, source_id: sourceid as u32, detail: detail as u8 }
    }
}

/// Devices whose name is `name`, in the order the server listed them.
pub open spec fn devices_named(devices: Seq<Device>, name: Seq<char>) -> Seq<Device> {
    devices.filter(|d: Device| d.name@ == name)
}

/// The id of the `subdevice`-th device (counting from 0) named `name`.
pub open spec fn device_id(devices: Seq<Device>, name: Seq<char>, subdevice: int) -> Option<u32> {
    let named = devices_named(devices, name);
    if 0 <= subdevice < named.len() {
        Some(named[subdevice].id)
    } else {
        None
    }
}

/// Whether bit `event` of `mask` is set (bit `event % 8` of byte `event / 8`).
pub open spec fn mask_has(mask: Seq<u8>, event: int) -> bool {
    &&& 0 <= event < 8 * mask.len()
    &&& (mask[event / 8] >> ((event % 8) as u8)) & 1u8 == 1u8
}

/// What is known of the X connection before event selection: the input
/// devices, the event types to select, and the extension's major opcode.
pub struct XLib {
    devices: Vec<Device>,
    future_grabs: HashSet<i32>,
    xi_opcode: i32,
}

/// Abstract view of `XLib`.
pub struct XLibView {
    pub devices: Seq<Device>,
    pub grabs: Set<i32>,
    pub xi_opcode: i32,
}

impl View for XLib {
    type V = XLibView;

    closed spec fn view(&self) -> XLibView {
        XLibView { devices: self.devices@, grabs: self.future_grabs@, xi_opcode: self.xi_opcode }
    }
}

/// The X connection after event selection: the opcode that identifies the
/// extension's events, and the event mask that was selected.
pub struct XLibLocked {
    xi_opcode: i32,
    event_mask: Vec<u8>,
}

/// How an event cookie is read.
#[derive(Debug, Copy, Clone, PartialEq, Eq)]
pub enum CookieKind {
    /// Not an event of the input extension: ignored.
    Foreign,
    /// An input-extension event that the program does not handle: warned about.
    Unsupported,
    /// Carries an `XIRawEvent`.
    Raw,
    /// Carries an `XIDeviceEvent`.
    Device,
}

pub open spec fn is_unsupported_event(evtype: i32) -> bool {
    evtype == XI_DeviceChanged || evtype == XI_HierarchyChanged || evtype == XI_Enter
        || evtype == XI_Leave || evtype == XI_FocusIn || evtype == XI_FocusOut
        || evtype == XI_PropertyEvent
}

pub open spec fn is_raw_event(evtype: i32) -> bool {
    evtype == XI_RawKeyPress || evtype == XI_RawKeyRelease || evtype == XI_RawButtonPress
        || evtype == XI_RawButtonRelease || evtype == XI_RawMotion || evtype == XI_RawTouchBegin
        || evtype == XI_RawTouchUpdate || evtype == XI_RawTouchEnd
}

pub open spec fn cookie_kind(xi_opcode: i32, cookie_type: i32, extension: i32, evtype: i32) -> CookieKind {
    if cookie_type != GenericEvent || extension != xi_opcode {
        CookieKind::Foreign
    } else if is_unsupported_event(evtype) {
        CookieKind::Unsupported
    } else if is_raw_event(evtype) {
        CookieKind::Raw
    } else {
        CookieKind::Device
    }
}

fn bytes_equal(a: &[u8], b: &[u8]) -> (r: bool)
    ensures
        r == (a@ == b@),
{
    if a.len() != b.len() {
        return false;
    }
    let mut i: usize = 0;
    while i < a.len()
        invariant
            a@.len() == b@.len(),
            0 <= i <= a@.len(),
            forall|j: int| 0 <= j < i ==> a@[j] == b@[j],
        decreases a@.len() - i,
    {
        if a[i] != b[i] {
            return false;
        }
        i = i + 1;
    }
    assert(a@ =~= b@);
    true
}

fn str_equal(a: &str, b: &str) -> (r: bool)
    ensures
        r == (a@ == b@),
{
    let r = bytes_equal(a.as_bytes(), b.as_bytes());
    proof {
        vstd::utf8::encode_utf8_decode_utf8(a@);
        vstd::utf8::encode_utf8_decode_utf8(b@);
    }
    r
}

/// Sets bit `event` of `mask`.
fn set_mask_bit(mask: &mut Vec<u8>, event: i32)
    requires
        0 <= event < 8 * old(mask)@.len(),
    ensures
        final(mask)@.len() == old(mask)@.len(),
        forall|e: int|
            0 <= e < 8 * old(mask)@.len() ==> (#[trigger] mask_has(final(mask)@, e) <==> (
            mask_has(old(mask)@, e) || e == event)),
{
    let byte: usize = (event >> 3u32) as usize;
    let bit: u8 = (event & 7i32) as u8;
    assert(event >> 3u32 == event / 8 && event & 7i32 == event % 8) by (bit_vector)
        requires
            0 <= event,
    ;
    let old_byte: u8 = mask[byte];
    let new_byte: u8 = old_byte | (1u8 << bit);
    mask.set(byte, new_byte);
    assert forall|e: int|
        0 <= e < 8 * old(mask)@.len() implies (#[trigger] mask_has(mask@, e) <==> (mask_has(
        old(mask)@, e) || e == event)) by {
        let k: u8 = (e % 8) as u8;
        if e / 8 == byte as int {
            assert(((old_byte | (1u8 << bit)) >> k) & 1u8 == 1u8 <==> ((old_byte >> k) & 1u8
                == 1u8 || k == bit)) by (bit_vector)
                requires
                    k < 8,
                    bit < 8,
            ;
        }
    }
}

impl XLib {
    /// Holds the devices that the server listed and the extension's opcode;
    /// nothing is selected yet.
    pub fn new(devices: Vec<Device>, xi_opcode: i32) -> (x: XLib)
        ensures
            x@.devices == devices@,
            x@.grabs == Set::<i32>::empty(),
            x@.xi_opcode == xi_opcode,
    {
        XLib { devices, future_grabs: HashSet::with_capacity(8), xi_opcode }
    }

    /// Adds event types to select once the connection is finished.
    pub fn grab(&mut self, events: &[i32])
        ensures
            final(self)@.devices == old(self)@.devices,
            final(self)@.xi_opcode == old(self)@.xi_opcode,
            final(self)@.grabs == old(self)@.grabs.union(events@.to_set()),
    {
        let mut i: usize = 0;
        while i < events.len()
            invariant
                0 <= i <= events@.len(),
                self@.devices == old(self)@.devices,
                self@.xi_opcode == old(self)@.xi_opcode,
                self@.grabs == old(self)@.grabs.union(events@.take(i as int).to_set()),
            decreases events@.len() - i,
        {
            self.future_grabs.insert(events[i]);
            assert(events@.take(i + 1) =~= events@.take(i as int).push(events@[i as int]));
            assert(events@.take(i + 1).to_set() =~= events@.take(i as int).to_set().insert(events@[i as int])) by {
                broadcast use vstd::seq_lib::group_seq_properties;
            }
            assert(self@.grabs =~= old(self)@.grabs.union(events@.take(i + 1).to_set()));
            i = i + 1;
        }
        assert(events@.take(events@.len() as int) =~= events@);
    }

    /// The devices that the server listed.
    pub fn list_devices(&self) -> (devices: &[Device])
        ensures
            devices@ == self@.devices,
    {
        self.devices.as_slice()
    }

    /// Id of the `subdevice`-th device named `device_name`, if there is one.
    pub fn get_device_id(&self, device_name: &str, subdevice: u32) -> (id: Option<u32>)
        ensures
            id == device_id(self@.devices, device_name@, subdevice as int),
    {
        let ghost devices = self@.devices;
        let ghost pred = |d: Device| d.name@ == device_name@;
        let mut seen: u32 = 0;
        let mut i: usize = 0;
        while i < self.devices.len()
            invariant
                devices == self@.devices,
                devices == self.devices@,
                pred == (|d: Device| d.name@ == device_name@),
                0 <= i <= devices.len(),
                seen as int == devices.take(i as int).filter(pred).len(),
                seen <= subdevice,
            decreases devices.len() - i,
        {
            let d = &self.devices[i];
            let matches = str_equal(d.name.as_str(), device_name);
            proof {
                reveal_with_fuel(Seq::<_>::filter, 1);
                assert(devices.take(i + 1).drop_last() =~= devices.take(i as int));
            }
            if matches {
                if seen == subdevice {
                    proof {
                        let prefix = devices.take(i + 1);
                        let rest = devices.skip(i + 1);
                        assert(devices =~= prefix + rest);
                        Seq::filter_distributes_over_add(prefix, rest, pred);
                        assert(prefix.filter(pred)[seen as int] == d);
                    }
                    return Some(d.id);
                }
                seen = seen + 1;
            }
            i = i + 1;
        }
        proof {
            assert(devices.take(devices.len() as int) =~= devices);
        }
        None
    }

    /// Finishes setting up: the event types to select become an event mask.
    /// Each selected type must fit in the mask, as the mask macros index it.
    pub fn finish(self) -> (locked: XLibLocked)
        requires
            forall|e: i32| self@.grabs.contains(e) ==> 0 <= e < 8 * EVENT_MASK_LEN,
        ensures
            locked.xi_opcode() == self@.xi_opcode,
            locked.event_mask().len() == EVENT_MASK_LEN,
            forall|e: int|
                0 <= e < 8 * EVENT_MASK_LEN ==> (#[trigger] mask_has(locked.event_mask(), e)
                    <==> self@.grabs.contains(e as i32)),
    {
        let mut mask: Vec<u8> = vec![0u8, 0u8, 0u8, 0u8];
        assert forall|e: int| 0 <= e < 8 * EVENT_MASK_LEN implies !#[trigger] mask_has(mask@, e) by {
            let k: u8 = (e % 8) as u8;
            assert((0u8 >> k) & 1u8 == 0u8) by (bit_vector);
        }
        let ghost grabs = self@.grabs;
        let mut event: i32 = 0;
        while event < 8 * (EVENT_MASK_LEN as i32)
            invariant
                grabs == self.future_grabs@,
                0 <= event <= 8 * EVENT_MASK_LEN,
                mask@.len() == EVENT_MASK_LEN,
                forall|k: int|
                    0 <= k < 8 * EVENT_MASK_LEN ==> (#[trigger] mask_has(mask@, k) <==> (k < event
                        && grabs.contains(k as i32))),
            decreases 8 * EVENT_MASK_LEN - event,
        {
            if self.future_grabs.contains(&event) {
                set_mask_bit(&mut mask, event);
            }
            event = event + 1;
        }
        let locked = XLibLocked { xi_opcode: self.xi_opcode, event_mask: mask };
        locked
    }
}

impl XLibLocked {
    pub closed spec fn xi_opcode(&self) -> i32 {
        self.xi_opcode
    }

    pub closed spec fn event_mask(&self) -> Seq<u8> {
        self.event_mask@
    }

    /// The event mask to select on the root window for all master devices.
    pub fn mask(&self) -> (mask: &[u8])
        ensures
            mask@ == self.event_mask(),
    {
        self.event_mask.as_slice()
    }

    /// How to read an event cookie of type `cookie_type` from `extension`
    /// carrying event type `evtype`.
    pub fn classify_cookie(&self, cookie_type: i32, extension: i32, evtype: i32) -> (kind: CookieKind)
        ensures
            kind == cookie_kind(self.xi_opcode(), cookie_type, extension, evtype),
    {
        if cookie_type != GenericEvent || extension != self.xi_opcode {
            CookieKind::Foreign
        } else if evtype == XI_DeviceChanged || evtype == XI_HierarchyChanged || evtype == XI_Enter
            || evtype == XI_Leave || evtype == XI_FocusIn || evtype == XI_FocusOut
            || evtype == XI_PropertyEvent {
            CookieKind::Unsupported
        } else if evtype == XI_RawKeyPress || evtype == XI_RawKeyRelease || evtype
            == XI_RawButtonPress || evtype == XI_RawButtonRelease || evtype == XI_RawMotion || evtype
            == XI_RawTouchBegin || evtype == XI_RawTouchUpdate || evtype == XI_RawTouchEnd {
            CookieKind::Raw
        } else {
            CookieKind::Device
        }
    }
}

/// How each event cookie is read, by the XI2 protocol's numbers: events of
/// another extension or core events (cookie type other than 35, or an
/// extension other than the input extension's opcode) are ignored; device
/// changes, hierarchy changes, enter, leave, focus in, focus out and
/// property events (1, 7 to 12) are unsupported; raw key press and release,
/// raw button press and release, raw motion and the raw touch events (13 to
/// 17, 22 to 24) carry an `XIRawEvent`; every other input-extension event
/// (key, button and motion events 2 to 6, touch events 18 to 21, barrier
/// events and any newer type) carries an `XIDeviceEvent`.
pub proof fn lemma_cookie_kinds(xi_opcode: i32, cookie_type: i32, extension: i32, evtype: i32)
    ensures
        (cookie_type != 35 || extension != xi_opcode) ==> cookie_kind(
            xi_opcode,
            cookie_type,
            extension,
            evtype,
        ) == CookieKind::Foreign,
        cookie_type == 35 && extension == xi_opcode ==> {
            &&& (evtype == 1 || (7 <= evtype <= 12)) ==> cookie_kind(
                xi_opcode,
                cookie_type,
                extension,
                evtype,
            ) == CookieKind::Unsupported
            &&& ((13 <= evtype <= 17) || (22 <= evtype <= 24)) ==> cookie_kind(
                xi_opcode,
                cookie_type,
                extension,
                evtype,
            ) == CookieKind::Raw
            &&& !(evtype == 1 || (7 <= evtype <= 17) || (22 <= evtype <= 24)) ==> cookie_kind(
                xi_opcode,
                cookie_type,
                extension,
                evtype,
            ) == CookieKind::Device
        },
{
}

/// How many of `devices` are named `name`.
pub open spec fn named_count(devices: Seq<Device>, name: Seq<char>) -> nat
    decreases devices.len(),
{
    if devices.len() == 0 {
        0
    } else {
        named_count(devices.drop_last(), name) + (if devices.last().name@ == name {
            1nat
        } else {
            0nat
        })
    }
}

/// Some device named `name` has exactly `k` devices with that name before it.
pub open spec fn has_nth_named(devices: Seq<Device>, name: Seq<char>, k: int) -> bool {
    exists|j: int|
        #![trigger devices[j]]
        0 <= j < devices.len() && devices[j].name@ == name && named_count(devices.take(j), name) == k
}

proof fn lemma_devices_named(devices: Seq<Device>, name: Seq<char>)
    ensures
        devices_named(devices, name).len() == named_count(devices, name),
        forall|j: int|
            #![trigger devices[j]]
            0 <= j < devices.len() && devices[j].name@ == name ==> {
                &&& named_count(devices.take(j), name) < named_count(devices, name)
                &&& devices_named(devices, name)[named_count(devices.take(j), name) as int]
                    == devices[j]
            },
        forall|k: int| 0 <= k < named_count(devices, name) ==> #[trigger] has_nth_named(devices, name, k),
    decreases devices.len(),
{
    reveal_with_fuel(Seq::<_>::filter, 1);
    if devices.len() > 0 {
        let dl = devices.drop_last();
        let l = devices.len() - 1;
        lemma_devices_named(dl, name);
        assert(devices.take(l) =~= dl);
        assert forall|j: int|
            #![trigger devices[j]]
            0 <= j < devices.len() && devices[j].name@ == name implies {
                &&& named_count(devices.take(j), name) < named_count(devices, name)
                &&& devices_named(devices, name)[named_count(devices.take(j), name) as int]
                    == devices[j]
            } by {
            if j < l {
                assert(devices.take(j) =~= dl.take(j));
                assert(dl[j] == devices[j]);
            }
        }
        assert forall|k: int| 0 <= k < named_count(devices, name) implies #[trigger] has_nth_named(
            devices,
            name,
            k,
        ) by {
            if k < named_count(dl, name) {
                assert(has_nth_named(dl, name, k));
                let j = choose|j: int|
                    #![trigger dl[j]]
                    0 <= j < dl.len() && dl[j].name@ == name && named_count(dl.take(j), name) == k;
                assert(devices.take(j) =~= dl.take(j));
                assert(dl[j] == devices[j]);
                assert(devices[j].name@ == name && named_count(devices.take(j), name) == k);
            } else {
                assert(devices[l].name@ == name);
                assert(named_count(devices.take(l), name) == k);
            }
        }
    }
}

/// Device lookup counts devices with the name in the order the server
/// listed them, over the whole list: the `sub`-th (from 0) device named
/// `name`, wherever it stands, is found, and what is found is a device
/// with that name preceded by exactly `sub` others with it. When fewer
/// than `sub + 1` devices have the name, nothing is found.
pub proof fn lemma_device_id_finds(devices: Seq<Device>, name: Seq<char>, sub: int)
    ensures
        forall|j: int|
            #![trigger devices[j]]
            0 <= j < devices.len() && devices[j].name@ == name && named_count(devices.take(j), name)
                == sub ==> device_id(devices, name, sub) == Some(devices[j].id),
        device_id(devices, name, sub) is Some ==> exists|j: int|
            #![trigger devices[j]]
            0 <= j < devices.len() && devices[j].name@ == name && named_count(devices.take(j), name)
                == sub && device_id(devices, name, sub) == Some(devices[j].id),
        device_id(devices, name, sub) is None <==> !(0 <= sub < named_count(devices, name)),
{
    lemma_devices_named(devices, name);
    if device_id(devices, name, sub) is Some {
        assert(has_nth_named(devices, name, sub));
        let j = choose|j: int|
            #![trigger devices[j]]
            0 <= j < devices.len() && devices[j].name@ == name && named_count(devices.take(j), name)
                == sub;
        assert(devices[j].name@ == name);
    }
}

} // verus!

//! Input devices (keyboards, pointers, touch screens), the queues of key,
//! motion and multitouch events, and the touches in progress.
//!
//! Each event queue is first in, first out: events are handed out in the
//! order they were queued.
use vstd::prelude::*;
use crate::common::{owned, Error, ObjectId, Result};
use crate::keyed::{lemma_map_of_update, VecMap};

verus! {

#[derive(Clone, Copy, Debug, PartialEq, Eq, Hash, Structural)]
pub enum InputDeviceType {
    Keyboard,
    Mouse,
    Touchpad,
    TouchScreen,
    GamePad,
    Unknown,
}

#[derive(Clone, Copy, Debug, PartialEq, Eq, Structural)]
pub enum KeyEventType {
    Press,
    Release,
    Repeat,
}

#[derive(Clone, Copy, Debug)]
pub struct KeyEvent {
    pub keycode: u32,
    pub event_type: KeyEventType,
    pub timestamp: u64,
}

#[derive(Clone, Copy, Debug)]
pub struct MotionEvent {
    pub x: i32,
    pub y: i32,
    pub dx: i32,
    pub dy: i32,
    pub timestamp: u64,
}

#[derive(Clone, Copy, Debug)]
pub struct Touch {
    pub id: u32,
    pub x: u32,
    pub y: u32,
    pub pressure: u16,
}

#[derive(Clone, Debug)]
pub struct MultiTouchEvent {
    pub touches: Vec<Touch>,
    pub timestamp: u64,
}

#[derive(Clone, Debug)]
pub struct InputDevice {
    pub id: ObjectId,
    pub name: String,
    pub device_type: InputDeviceType,
    pub is_active: bool,
    pub has_buttons: bool,
    pub has_axes: bool,
    pub max_touches: u32,
}

impl InputDevice {
    /// A field-for-field duplicate.
    pub fn duplicate(&self) -> (d: InputDevice)
        ensures
            d == *self,
    {
        InputDevice {
            id: self.id,
            name: self.name.clone(),
            device_type: self.device_type,
            is_active: self.is_active,
            has_buttons: self.has_buttons,
            has_axes: self.has_axes,
            max_touches: self.max_touches,
        }
    }
}

/// Mice, touchpads and touch screens point.
pub open spec fn is_pointing(t: InputDeviceType) -> bool {
    t == InputDeviceType::Mouse || t == InputDeviceType::Touchpad || t == InputDeviceType::TouchScreen
}

/// The devices of `s` whose type satisfies `p`, in order.
pub open spec fn select_devices(s: Seq<(ObjectId, InputDevice)>, p: spec_fn(InputDeviceType) -> bool) -> Seq<InputDevice>
    decreases s.len(),
{
    if s.len() == 0 {
        Seq::empty()
    } else {
        let r = select_devices(s.drop_last(), p);
        if p(s.last().1.device_type) { r.push(s.last().1) } else { r }
    }
}

/// The key repeat rate a driver starts with.
pub const DEFAULT_REPEAT_RATE: u32 = 30;

pub struct InputDriver {
    devices: VecMap<ObjectId, InputDevice>,
    key_queue: Vec<KeyEvent>,
    motion_queue: Vec<MotionEvent>,
    touch_queue: Vec<MultiTouchEvent>,
    active_touches: VecMap<u32, Touch>,
    repeat_rate: u32,
}

impl Default for InputDriver {
    fn default() -> (d: InputDriver)
        ensures
            d.wf(),
            d.devices_view() == Map::<ObjectId, InputDevice>::empty(),
            d.key_events() == Seq::<KeyEvent>::empty(),
            d.motion_events() == Seq::<MotionEvent>::empty(),
            d.touch_events() == Seq::<MultiTouchEvent>::empty(),
            d.touches_view() == Map::<u32, Touch>::empty(),
            d.rate() == DEFAULT_REPEAT_RATE,
    {
        InputDriver::new()
    }
}

impl InputDriver {
    pub closed spec fn wf(&self) -> bool {
        self.devices.wf() && self.active_touches.wf()
    }

    /// Devices by identity.
    pub closed spec fn devices_view(&self) -> Map<ObjectId, InputDevice> {
        self.devices@
    }

    /// Devices in registration order.
    pub closed spec fn device_entries(&self) -> Seq<(ObjectId, InputDevice)> {
        self.devices.entries@
    }

    /// Queued key events, oldest first.
    pub closed spec fn key_events(&self) -> Seq<KeyEvent> {
        self.key_queue@
    }

    /// Queued motion events, oldest first.
    pub closed spec fn motion_events(&self) -> Seq<MotionEvent> {
        self.motion_queue@
    }

    /// Queued multitouch events, oldest first.
    pub closed spec fn touch_events(&self) -> Seq<MultiTouchEvent> {
        self.touch_queue@
    }

    /// Touches in progress by touch identity.
    pub closed spec fn touches_view(&self) -> Map<u32, Touch> {
        self.active_touches@
    }

    /// Touches in progress, in the order they started.
    pub closed spec fn touch_entries(&self) -> Seq<(u32, Touch)> {
        self.active_touches.entries@
    }

    pub closed spec fn rate(&self) -> u32 {
        self.repeat_rate
    }

    /// A driver with no devices, empty queues, no touches and the default
    /// repeat rate.
    pub fn new() -> (d: InputDriver)
        ensures
            d.wf(),
            d.devices_view() == Map::<ObjectId, InputDevice>::empty(),
            d.key_events() == Seq::<KeyEvent>::empty(),
            d.motion_events() == Seq::<MotionEvent>::empty(),
            d.touch_events() == Seq::<MultiTouchEvent>::empty(),
            d.touches_view() == Map::<u32, Touch>::empty(),
            d.rate() == DEFAULT_REPEAT_RATE,
    {
        InputDriver {
            devices: VecMap::new(),
            key_queue: Vec::new(),
            motion_queue: Vec::new(),
            touch_queue: Vec::new(),
            active_touches: VecMap::new(),
            repeat_rate: DEFAULT_REPEAT_RATE,
        }
    }

    /// Add `device` under its identity (replacing one registered before).
    pub fn register_device(&mut self, device: InputDevice) -> (r: Result<()>)
        requires
            old(self).wf(),
        ensures
            final(self).wf(),
            r.is_ok(),
            final(self).devices_view() == old(self).devices_view().insert(device.id, device),
            final(self).key_events() == old(self).key_events(),
            final(self).motion_events() == old(self).motion_events(),
            final(self).touch_events() == old(self).touch_events(),
            final(self).touches_view() == old(self).touches_view(),
            final(self).rate() == old(self).rate(),
    {
        let id = device.id;
        self.devices.insert(id, device);
        Ok(())
    }

    /// A duplicate of device `device_id`, if registered.
    pub fn get_device(&self, device_id: &ObjectId) -> (r: Option<InputDevice>)
        requires
            self.wf(),
        ensures
            match r {
                Some(d) => self.devices_view().contains_key(*device_id) && d == self.devices_view()[*device_id],
                None => !self.devices_view().contains_key(*device_id),
            },
    {
        match self.devices.get(device_id) {
            Some(d) => Some(d.duplicate()),
            None => None,
        }
    }

    /// Duplicates of the devices of type `keep` (or, with `pointing`, of the
    /// pointing devices), in registration order.
    fn select(&self, keep: InputDeviceType, pointing: bool) -> (r: Vec<InputDevice>)
        ensures
            pointing ==> r@ == select_devices(self.device_entries(), |t: InputDeviceType| is_pointing(t)),
            !pointing ==> r@ == select_devices(self.device_entries(), |t: InputDeviceType| t == keep),
    {
        let ghost p: spec_fn(InputDeviceType) -> bool = if pointing {
            |t: InputDeviceType| is_pointing(t)
        } else {
            |t: InputDeviceType| t == keep
        };
        let ghost s = self.devices.entries@;
        let mut out: Vec<InputDevice> = Vec::new();
        let mut i: usize = 0;
        while i < self.devices.entries.len()
            invariant
                s == self.devices.entries@,
                i <= s.len(),
                p == (if pointing { |t: InputDeviceType| is_pointing(t) } else { |t: InputDeviceType| t == keep }),
                out@ == select_devices(s.subrange(0, i as int), p),
            decreases s.len() - i,
        {
            assert(s.subrange(0, i as int + 1).drop_last() =~= s.subrange(0, i as int));
            let t = self.devices.entries[i].1.device_type;
            let wanted = if pointing {
                match t {
                    InputDeviceType::Mouse | InputDeviceType::Touchpad | InputDeviceType::TouchScreen => true,
                    _ => false,
                }
            } else {
                t == keep
            };
            if wanted {
                out.push(self.devices.entries[i].1.duplicate());
            }
            i = i + 1;
        }
        assert(s.subrange(0, s.len() as int) =~= s);
        out
    }

    /// Duplicates of the devices of type `device_type`, in registration order.
    pub fn get_devices_by_type(&self, device_type: InputDeviceType) -> (r: Vec<InputDevice>)
        ensures
            r@ == select_devices(self.device_entries(), |t: InputDeviceType| t == device_type),
    {
        self.select(device_type, false)
    }

    /// Duplicates of the keyboards, in registration order.
    pub fn get_keyboards(&self) -> (r: Vec<InputDevice>)
        ensures
            r@ == select_devices(self.device_entries(), |t: InputDeviceType| t == InputDeviceType::Keyboard),
    {
        self.get_devices_by_type(InputDeviceType::Keyboard)
    }

    /// Duplicates of the mice, touchpads and touch screens, in registration
    /// order.
    pub fn get_pointing_devices(&self) -> (r: Vec<InputDevice>)
        ensures
            r@ == select_devices(self.device_entries(), |t: InputDeviceType| is_pointing(t)),
    {
        self.select(InputDeviceType::Unknown, true)
    }

    /// Set whether device `device_id` is active. Unknown devices are refused
    /// with `Error::Device`.
    fn set_active(&mut self, device_id: &ObjectId, active: bool) -> (r: Result<()>)
        requires
            old(self).wf(),
        ensures
            final(self).wf(),
            final(self).key_events() == old(self).key_events(),
            final(self).motion_events() == old(self).motion_events(),
            final(self).touch_events() == old(self).touch_events(),
            final(self).touches_view() == old(self).touches_view(),
            final(self).rate() == old(self).rate(),
            r.is_ok() == old(self).devices_view().contains_key(*device_id),
            r.is_err() ==> (r matches Err(Error::Device(m)) && m@ == "Device not found"@) && final(self).devices_view() == old(self).devices_view(),
            r.is_ok() ==> final(self).devices_view() == old(self).devices_view().insert(*device_id,
                InputDevice { is_active: active, ..old(self).devices_view()[*device_id] }),
    {
        match self.devices.index_of(device_id) {
            Some(i) => {
                let ghost s0 = self.devices.entries@;
                let ghost d0 = s0[i as int].1;
                self.devices.entries[i].1.is_active = active;
                proof {
                    let e = (s0[i as int].0, InputDevice { is_active: active, ..d0 });
                    assert(self.devices.entries@ =~= s0.update(i as int, e));
                    lemma_map_of_update(s0, i as int, e);
                }
                Ok(())
            },
            None => Err(Error::Device(owned("Device not found"))),
        }
    }

    /// Mark device `device_id` active; `Error::Device` if it is unknown.
    pub fn activate_device(&mut self, device_id: &ObjectId) -> (r: Result<()>)
        requires
            old(self).wf(),
        ensures
            final(self).wf(),
            final(self).key_events() == old(self).key_events(),
            final(self).motion_events() == old(self).motion_events(),
            final(self).touch_events() == old(self).touch_events(),
            final(self).touches_view() == old(self).touches_view(),
            final(self).rate() == old(self).rate(),
            r.is_ok() == old(self).devices_view().contains_key(*device_id),
            r.is_err() ==> (r matches Err(Error::Device(m)) && m@ == "Device not found"@) && final(self).devices_view() == old(self).devices_view(),
            r.is_ok() ==> final(self).devices_view() == old(self).devices_view().insert(*device_id,
                InputDevice { is_active: true, ..old(self).devices_view()[*device_id] }),
    {
        self.set_active(device_id, true)
    }

    /// Mark device `device_id` inactive; `Error::Device` if it is unknown.
    pub fn deactivate_device(&mut self, device_id: &ObjectId) -> (r: Result<()>)
        requires
            old(self).wf(),
        ensures
            final(self).wf(),
            final(self).key_events() == old(self).key_events(),
            final(self).motion_events() == old(self).motion_events(),
            final(self).touch_events() == old(self).touch_events(),
            final(self).touches_view() == old(self).touches_view(),
            final(self).rate() == old(self).rate(),
            r.is_ok() == old(self).devices_view().contains_key(*device_id),
            r.is_err() ==> (r matches Err(Error::Device(m)) && m@ == "Device not found"@) && final(self).devices_view() == old(self).devices_view(),
            r.is_ok() ==> final(self).devices_view() == old(self).devices_view().insert(*device_id,
                InputDevice { is_active: false, ..old(self).devices_view()[*device_id] }),
    {
        self.set_active(device_id, false)
    }

    /// Append `key_event` to the key queue.
    pub fn queue_key_event(&mut self, key_event: KeyEvent) -> (r: Result<()>)
        requires
            old(self).wf(),
        ensures
            final(self).wf(),
            r.is_ok(),
            final(self).key_events() == old(self).key_events().push(key_event),
            final(self).devices_view() == old(self).devices_view(),
            final(self).motion_events() == old(self).motion_events(),
            final(self).touch_events() == old(self).touch_events(),
            final(self).touches_view() == old(self).touches_view(),
            final(self).rate() == old(self).rate(),
    {
        self.key_queue.push(key_event);
        Ok(())
    }

    /// Take the oldest key event, if any.
    pub fn get_key_event(&mut self) -> (r: Option<KeyEvent>)
        requires
            old(self).wf(),
        ensures
            final(self).wf(),
            old(self).key_events().len() == 0 ==> r is None && final(self).key_events() == old(self).key_events(),
            old(self).key_events().len() > 0 ==> r == Some(old(self).key_events()[0])
                && final(self).key_events() == old(self).key_events().drop_first(),
            final(self).devices_view() == old(self).devices_view(),
            final(self).motion_events() == old(self).motion_events(),
            final(self).touch_events() == old(self).touch_events(),
            final(self).touches_view() == old(self).touches_view(),
            final(self).rate() == old(self).rate(),
    {
        if self.key_queue.len() == 0 {
            None
        } else {
            let e = self.key_queue.remove(0);
            assert(self.key_queue@ =~= old(self).key_queue@.drop_first());
            Some(e)
        }
    }

    /// Append `motion` to the motion queue.
    pub fn queue_motion_event(&mut self, motion: MotionEvent) -> (r: Result<()>)
        requires
            old(self).wf(),
        ensures
            final(self).wf(),
            r.is_ok(),
            final(self).motion_events() == old(self).motion_events().push(motion),
            final(self).devices_view() == old(self).devices_view(),
            final(self).key_events() == old(self).key_events(),
            final(self).touch_events() == old(self).touch_events(),
            final(self).touches_view() == old(self).touches_view(),
            final(self).rate() == old(self).rate(),
    {
        self.motion_queue.push(motion);
        Ok(())
    }

    /// Take the oldest motion event, if any.
    pub fn get_motion_event(&mut self) -> (r: Option<MotionEvent>)
        requires
            old(self).wf(),
        ensures
            final(self).wf(),
            old(self).motion_events().len() == 0 ==> r is None && final(self).motion_events() == old(self).motion_events(),
            old(self).motion_events().len() > 0 ==> r == Some(old(self).motion_events()[0])
                && final(self).motion_events() == old(self).motion_events().drop_first(),
            final(self).devices_view() == old(self).devices_view(),
            final(self).key_events() == old(self).key_events(),
            final(self).touch_events() == old(self).touch_events(),
            final(self).touches_view() == old(self).touches_view(),
            final(self).rate() == old(self).rate(),
    {
        if self.motion_queue.len() == 0 {
            None
        } else {
            let e = self.motion_queue.remove(0);
            assert(self.motion_queue@ =~= old(self).motion_queue@.drop_first());
            Some(e)
        }
    }

    /// Begin touch `touch_id` at (`x`, `y`) with `pressure` (restarting it
    /// if it was in progress).
    pub fn start_touch(&mut self, touch_id: u32, x: u32, y: u32, pressure: u16) -> (r: Result<()>)
        requires
            old(self).wf(),
        ensures
            final(self).wf(),
            r.is_ok(),
            final(self).touches_view() == old(self).touches_view().insert(touch_id,
                Touch { id: touch_id, x, y, pressure }),
            final(self).devices_view() == old(self).devices_view(),
            final(self).key_events() == old(self).key_events(),
            final(self).motion_events() == old(self).motion_events(),
            final(self).touch_events() == old(self).touch_events(),
            final(self).rate() == old(self).rate(),
    {
        self.active_touches.insert(touch_id, Touch { id: touch_id, x, y, pressure });
        Ok(())
    }

    /// Move touch `touch_id` to (`x`, `y`) with `pressure`; `Error::Device`
    /// if no such touch is in progress.
    pub fn update_touch(&mut self, touch_id: u32, x: u32, y: u32, pressure: u16) -> (r: Result<()>)
        requires
            old(self).wf(),
        ensures
            final(self).wf(),
            r.is_ok() == old(self).touches_view().contains_key(touch_id),
            r.is_err() ==> (r matches Err(Error::Device(m)) && m@ == "Touch not found"@) && final(self).touches_view() == old(self).touches_view(),
            r.is_ok() ==> final(self).touches_view() == old(self).touches_view().insert(touch_id,
                Touch { x, y, pressure, ..old(self).touches_view()[touch_id] }),
            final(self).devices_view() == old(self).devices_view(),
            final(self).key_events() == old(self).key_events(),
            final(self).motion_events() == old(self).motion_events(),
            final(self).touch_events() == old(self).touch_events(),
            final(self).rate() == old(self).rate(),
    {
        match self.active_touches.index_of(&touch_id) {
            Some(i) => {
                let mut t = self.active_touches.entries[i].1;
                t.x = x;
                t.y = y;
                t.pressure = pressure;
                self.active_touches.set_value(i, t);
                Ok(())
            },
            None => Err(Error::Device(owned("Touch not found"))),
        }
    }

    /// End touch `touch_id`; `Error::Device` if no such touch is in progress.
    pub fn end_touch(&mut self, touch_id: u32) -> (r: Result<()>)
        requires
            old(self).wf(),
        ensures
            final(self).wf(),
            r.is_ok() == old(self).touches_view().contains_key(touch_id),
            r.is_err() ==> (r matches Err(Error::Device(m)) && m@ == "Touch not found"@),
            final(self).touches_view() == old(self).touches_view().remove(touch_id),
            final(self).devices_view() == old(self).devices_view(),
            final(self).key_events() == old(self).key_events(),
            final(self).motion_events() == old(self).motion_events(),
            final(self).touch_events() == old(self).touch_events(),
            final(self).rate() == old(self).rate(),
    {
        match self.active_touches.remove(&touch_id) {
            Some(_) => Ok(()),
            None => Err(Error::Device(owned("Touch not found"))),
        }
    }

    /// The touches in progress, in the order they started.
    pub fn get_active_touches(&self) -> (r: Vec<Touch>)
        requires
            self.wf(),
        ensures
            r@.len() == self.touch_entries().len(),
            r@.len() == self.touches_view().len(),
            forall|i: int| 0 <= i < r@.len() ==> #[trigger] r@[i] == self.touch_entries()[i].1,
    {
        let mut out: Vec<Touch> = Vec::new();
        let mut i: usize = 0;
        while i < self.active_touches.entries.len()
            invariant
                i <= self.active_touches.entries@.len(),
                out@.len() == i,
                forall|j: int| 0 <= j < i ==> #[trigger] out@[j] == self.active_touches.entries@[j].1,
            decreases self.active_touches.entries@.len() - i,
        {
            out.push(self.active_touches.entries[i].1);
            i = i + 1;
        }
        let _ = self.active_touches.len();
        out
    }

    /// Append `event` to the multitouch queue.
    pub fn queue_multitouch(&mut self, event: MultiTouchEvent) -> (r: Result<()>)
        requires
            old(self).wf(),
        ensures
            final(self).wf(),
            r.is_ok(),
            final(self).touch_events() == old(self).touch_events().push(event),
            final(self).devices_view() == old(self).devices_view(),
            final(self).key_events() == old(self).key_events(),
            final(self).motion_events() == old(self).motion_events(),
            final(self).touches_view() == old(self).touches_view(),
            final(self).rate() == old(self).rate(),
    {
        self.touch_queue.push(event);
        Ok(())
    }

    /// Take the oldest multitouch event, if any.
    pub fn get_multitouch_event(&mut self) -> (r: Option<MultiTouchEvent>)
        requires
            old(self).wf(),
        ensures
            final(self).wf(),
            old(self).touch_events().len() == 0 ==> r is None && final(self).touch_events() == old(self).touch_events(),
            old(self).touch_events().len() > 0 ==> r == Some(old(self).touch_events()[0])
                && final(self).touch_events() == old(self).touch_events().drop_first(),
            final(self).devices_view() == old(self).devices_view(),
            final(self).key_events() == old(self).key_events(),
            final(self).motion_events() == old(self).motion_events(),
            final(self).touches_view() == old(self).touches_view(),
            final(self).rate() == old(self).rate(),
    {
        if self.touch_queue.len() == 0 {
            None
        } else {
            let e = self.touch_queue.remove(0);
            assert(self.touch_queue@ =~= old(self).touch_queue@.drop_first());
            Some(e)
        }
    }

    pub fn set_repeat_rate(&mut self, rate: u32)
        requires
            old(self).wf(),
        ensures
            final(self).wf(),
            final(self).rate() == rate,
            final(self).devices_view() == old(self).devices_view(),
            final(self).key_events() == old(self).key_events(),
            final(self).motion_events() == old(self).motion_events(),
            final(self).touch_events() == old(self).touch_events(),
            final(self).touches_view() == old(self).touches_view(),
    {
        self.repeat_rate = rate;
    }

    pub fn get_repeat_rate(&self) -> (r: u32)
        ensures
            r == self.rate(),
    {
        self.repeat_rate
    }

    pub fn device_count(&self) -> (n: usize)
        requires
            self.wf(),
        ensures
            n == self.devices_view().len(),
    {
        self.devices.len()
    }

    pub fn key_queue_len(&self) -> (n: usize)
        ensures
            n == self.key_events().len(),
    {
        self.key_queue.len()
    }

    pub fn motion_queue_len(&self) -> (n: usize)
        ensures
            n == self.motion_events().len(),
    {
        self.motion_queue.len()
    }

    pub fn touch_queue_len(&self) -> (n: usize)
        ensures
            n == self.touch_events().len(),
    {
        self.touch_queue.len()
    }
}

/// Event queues are first in, first out: an event queued on an empty queue
/// is the next one taken, and queueing behind a non-empty queue changes
/// neither which event is taken next nor what remains behind it.
pub proof fn lemma_queue_is_fifo<T>(q: Seq<T>, e: T)
    ensures
        q.len() == 0 ==> q.push(e)[0] == e && q.push(e).drop_first().len() == 0,
        q.len() > 0 ==> q.push(e)[0] == q[0] && q.push(e).drop_first() == q.drop_first().push(e),
{
    if q.len() > 0 {
        assert(q.push(e).drop_first() =~= q.drop_first().push(e));
    }
}

} // verus!

use sher::common::{Error, ObjectId};
use sher::input_driver::{InputDevice, InputDeviceType, InputDriver, KeyEvent, KeyEventType, MotionEvent, MultiTouchEvent, Touch};

fn device(name: &str, device_type: InputDeviceType, has_buttons: bool, has_axes: bool, max_touches: u32) -> InputDevice {
    InputDevice {
        id: ObjectId::new(),
        name: name.to_string(),
        device_type,
        is_active: false,
        has_buttons,
        has_axes,
        max_touches,
    }
}

#[test]
fn test_input_driver_creation() {
    let driver = InputDriver::new();
    assert_eq!(driver.device_count(), 0);
}

#[test]
fn test_register_keyboard() {
    let mut driver = InputDriver::new();
    let device = device("Keyboard", InputDeviceType::Keyboard, true, false, 0);

    let result = driver.register_device(device.clone());
    assert!(result.is_ok());
    assert_eq!(driver.device_count(), 1);
}

#[test]
fn test_register_mouse() {
    let mut driver = InputDriver::new();
    let device = device("Mouse", InputDeviceType::Mouse, true, true, 0);

    let result = driver.register_device(device);
    assert!(result.is_ok());
    assert_eq!(driver.device_count(), 1);
}

#[test]
fn test_get_keyboards() {
    let mut driver = InputDriver::new();
    let keyboard = device("Keyboard", InputDeviceType::Keyboard, true, false, 0);

    let _ = driver.register_device(keyboard);
    let keyboards = driver.get_keyboards();
    assert_eq!(keyboards.len(), 1);
}

#[test]
fn test_get_pointing_devices() {
    let mut driver = InputDriver::new();
    let mouse = device("Mouse", InputDeviceType::Mouse, true, true, 0);
    let touchpad = device("Touchpad", InputDeviceType::Touchpad, true, true, 5);

    let _ = driver.register_device(mouse);
    let _ = driver.register_device(touchpad);

    let pointing = driver.get_pointing_devices();
    assert_eq!(pointing.len(), 2);
}

#[test]
fn test_activate_device() {
    let mut driver = InputDriver::new();
    let device = device("Keyboard", InputDeviceType::Keyboard, true, false, 0);

    let device_id = device.id.clone();
    let _ = driver.register_device(device);

    let result = driver.activate_device(&device_id);
    assert!(result.is_ok());

    let activated = driver.get_device(&device_id).unwrap();
    assert!(activated.is_active);
}

#[test]
fn test_key_event_queue() {
    let mut driver = InputDriver::new();
    let event = KeyEvent { keycode: 30, event_type: KeyEventType::Press, timestamp: 1000 };

    let _ = driver.queue_key_event(event.clone());
    assert_eq!(driver.key_queue_len(), 1);

    let retrieved = driver.get_key_event();
    assert!(retrieved.is_some());
    assert_eq!(retrieved.unwrap().keycode, 30);
}

#[test]
fn test_motion_event_queue() {
    let mut driver = InputDriver::new();
    let event = MotionEvent { x: 100, y: 200, dx: 5, dy: -5, timestamp: 2000 };

    let _ = driver.queue_motion_event(event.clone());
    assert_eq!(driver.motion_queue_len(), 1);

    let retrieved = driver.get_motion_event();
    assert!(retrieved.is_some());
}

#[test]
fn test_multitouch_basic() {
    let mut driver = InputDriver::new();

    let _ = driver.start_touch(0, 100, 200, 1000);
    let _ = driver.start_touch(1, 300, 400, 900);

    let touches = driver.get_active_touches();
    assert_eq!(touches.len(), 2);
}

#[test]
fn test_update_touch() {
    let mut driver = InputDriver::new();

    let _ = driver.start_touch(0, 100, 200, 1000);
    let result = driver.update_touch(0, 150, 250, 950);
    assert!(result.is_ok());

    let touches = driver.get_active_touches();
    assert_eq!(touches[0].x, 150);
    assert_eq!(touches[0].y, 250);
}

#[test]
fn test_end_touch() {
    let mut driver = InputDriver::new();

    let _ = driver.start_touch(0, 100, 200, 1000);
    assert_eq!(driver.get_active_touches().len(), 1);

    let result = driver.end_touch(0);
    assert!(result.is_ok());
    assert_eq!(driver.get_active_touches().len(), 0);
}

#[test]
fn test_multitouch_event_queue() {
    let mut driver = InputDriver::new();
    let event = MultiTouchEvent {
        touches: vec![Touch { id: 0, x: 100, y: 200, pressure: 1000 }],
        timestamp: 3000,
    };

    let _ = driver.queue_multitouch(event);
    assert_eq!(driver.touch_queue_len(), 1);

    let retrieved = driver.get_multitouch_event();
    assert!(retrieved.is_some());
}

#[test]
fn test_repeat_rate_setting() {
    let mut driver = InputDriver::new();
    assert_eq!(driver.get_repeat_rate(), 30);

    driver.set_repeat_rate(50);
    assert_eq!(driver.get_repeat_rate(), 50);
}

#[test]
fn test_mixed_device_types() {
    let mut driver = InputDriver::new();

    let keyboard = device("Keyboard", InputDeviceType::Keyboard, true, false, 0);
    let mouse = device("Mouse", InputDeviceType::Mouse, true, true, 0);
    let touchscreen = device("Touchscreen", InputDeviceType::TouchScreen, false, true, 10);

    let _ = driver.register_device(keyboard);
    let _ = driver.register_device(mouse);
    let _ = driver.register_device(touchscreen);

    assert_eq!(driver.device_count(), 3);
    assert_eq!(driver.get_keyboards().len(), 1);
    assert_eq!(driver.get_pointing_devices().len(), 2);
}

#[test]
fn test_event_ordering() {
    let mut driver = InputDriver::new();

    let event1 = KeyEvent { keycode: 30, event_type: KeyEventType::Press, timestamp: 1000 };
    let event2 = KeyEvent { keycode: 48, event_type: KeyEventType::Press, timestamp: 1100 };

    let _ = driver.queue_key_event(event1);
    let _ = driver.queue_key_event(event2);

    let first = driver.get_key_event().unwrap();
    let second = driver.get_key_event().unwrap();

    assert_eq!(first.keycode, 30);
    assert_eq!(second.keycode, 48);
}

#[test]
fn empty_queues_give_nothing() {
    let mut driver = InputDriver::default();
    assert!(driver.get_key_event().is_none());
    assert!(driver.get_motion_event().is_none());
    assert!(driver.get_multitouch_event().is_none());
    assert_eq!(driver.key_queue_len(), 0);
}

#[test]
fn unknown_devices_and_touches_are_refused() {
    let mut driver = InputDriver::new();
    let nobody = ObjectId::new();
    assert!(matches!(driver.activate_device(&nobody), Err(Error::Device(_))));
    assert!(matches!(driver.deactivate_device(&nobody), Err(Error::Device(_))));
    assert!(matches!(driver.update_touch(7, 1, 1, 1), Err(Error::Device(_))));
    assert!(matches!(driver.end_touch(7), Err(Error::Device(_))));
    assert!(driver.get_device(&nobody).is_none());
}

#[test]
fn devices_by_type_keep_registration_order() {
    let mut driver = InputDriver::new();
    let a = device("pad-a", InputDeviceType::GamePad, true, true, 0);
    let b = device("kbd", InputDeviceType::Keyboard, true, false, 0);
    let c = device("pad-c", InputDeviceType::GamePad, true, true, 0);
    driver.register_device(a).unwrap();
    driver.register_device(b).unwrap();
    driver.register_device(c).unwrap();
    let pads = driver.get_devices_by_type(InputDeviceType::GamePad);
    let names: Vec<&str> = pads.iter().map(|d| d.name.as_str()).collect();
    assert_eq!(names, vec!["pad-a", "pad-c"]);
    assert!(driver.get_pointing_devices().is_empty());
}

#[test]
fn deactivate_turns_a_device_off_and_restart_replaces_a_touch() {
    let mut driver = InputDriver::new();
    let d = device("Mouse", InputDeviceType::Mouse, true, true, 0);
    let id = d.id;
    driver.register_device(d).unwrap();
    driver.activate_device(&id).unwrap();
    driver.deactivate_device(&id).unwrap();
    assert!(!driver.get_device(&id).unwrap().is_active);
    driver.start_touch(3, 1, 2, 3).unwrap();
    driver.start_touch(3, 4, 5, 6).unwrap();
    let t = driver.get_active_touches();
    assert_eq!(t.len(), 1);
    assert_eq!((t[0].id, t[0].x, t[0].y, t[0].pressure), (3, 4, 5, 6));
}

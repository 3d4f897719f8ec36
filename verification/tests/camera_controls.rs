use hypercalibrate::camera_controls::{
    CameraControl, CameraControlsManager, CameraSettings, ControlDescription, ControlError, ControlFlags,
    ControlType, ControlValue, MenuItemInfo,
};
use hypercalibrate::text::{control_name, settings_key};

fn control(id: u32, name: &str, control_type: ControlType, default: i64, value: ControlValue) -> CameraControl {
    CameraControl {
        id,
        name: name.to_string(),
        control_type,
        minimum: 0,
        maximum: 255,
        step: 1,
        default,
        value,
        menu_items: None,
        flags: ControlFlags::default(),
    }
}

fn described(control: CameraControl) -> ControlDescription {
    ControlDescription { control, is_class: false }
}

fn manager() -> CameraControlsManager {
    let mut m = CameraControlsManager::new("/dev/video0");
    m.add_described(described(control(
        0x00980900,
        "Brightness",
        ControlType::Integer,
        128,
        ControlValue::Integer(100),
    )));
    m.add_described(described(control(
        0x0098090c,
        "White Balance Temperature, Auto",
        ControlType::Boolean,
        1,
        ControlValue::Boolean(false),
    )));
    let mut read_only = control(0x00980901, "Contrast", ControlType::Integer, 32, ControlValue::Integer(40));
    read_only.flags.read_only = true;
    m.add_described(described(read_only));
    let mut inactive = control(0x00980902, "Saturation", ControlType::Integer, 64, ControlValue::Integer(50));
    inactive.flags.inactive = true;
    m.add_described(described(inactive));
    m.add_described(described(control(
        0x00980903,
        "Label",
        ControlType::String,
        0,
        ControlValue::String("abc".to_string()),
    )));
    m
}

#[test]
fn test_control_value_conversion() {
    let v = ControlValue::Integer(100);
    assert_eq!(v.as_i64(), Some(100));

    let v = ControlValue::Boolean(true);
    assert_eq!(v.as_i64(), Some(1));

    let v = ControlValue::Boolean(false);
    assert_eq!(v.as_i64(), Some(0));
}

#[test]
fn other_values_have_no_integer() {
    assert_eq!(ControlValue::String("7".to_string()).as_i64(), None);
    assert_eq!(ControlValue::NoValue.as_i64(), None);
    assert_eq!(ControlValue::Integer(i64::MIN).as_i64(), Some(i64::MIN));
}

#[test]
fn control_values_clone_to_equal_values() {
    for v in [
        ControlValue::Integer(-3),
        ControlValue::Boolean(true),
        ControlValue::String("Auto".to_string()),
        ControlValue::NoValue,
    ] {
        assert_eq!(v.clone(), v);
    }
}

#[test]
fn new_manager_is_empty() {
    let m = CameraControlsManager::new("/dev/video7");
    assert_eq!(m.device_path, "/dev/video7");
    assert!(m.get_controls().is_empty());
}

#[test]
fn disabled_controls_and_classes_are_not_listed() {
    let mut m = CameraControlsManager::new("/dev/video0");
    let mut disabled = control(1, "Hidden", ControlType::Integer, 0, ControlValue::NoValue);
    disabled.flags.disabled = true;
    assert!(!described(disabled.clone()).is_listed());
    m.add_described(described(disabled));
    m.add_described(ControlDescription {
        control: control(2, "User Controls", ControlType::Unknown, 0, ControlValue::NoValue),
        is_class: true,
    });
    assert!(m.get_controls().is_empty());
    let mut menu = control(3, "Power Line Frequency", ControlType::Menu, 1, ControlValue::Integer(1));
    menu.menu_items = Some(vec![
        MenuItemInfo { index: 0, label: "Disabled".to_string() },
        MenuItemInfo { index: 1, label: "50 Hz".to_string() },
    ]);
    m.add_described(described(menu));
    assert_eq!(m.get_controls().len(), 1);
    assert_eq!(m.get_controls()[0].menu_items.as_ref().map(|i| i.len()), Some(2));
    m.clear_controls();
    assert!(m.get_controls().is_empty());
    assert_eq!(m.device_path, "/dev/video0");
}

#[test]
fn lookup_by_id_and_name() {
    let m = manager();
    assert_eq!(m.get_control(0x00980900).map(|c| c.name.as_str()), Some("Brightness"));
    assert!(m.get_control(42).is_none());
    assert_eq!(m.find_by_id(0x00980901), Some(2));
    assert_eq!(m.find_by_id(42), None);
    assert_eq!(m.get_control_by_name("BRIGHTNESS").map(|c| c.id), Some(0x00980900));
    assert_eq!(m.get_control_by_name("brightness").map(|c| c.id), Some(0x00980900));
    assert!(m.get_control_by_name("bright").is_none());
}

#[test]
fn first_of_two_controls_wins() {
    let mut m = CameraControlsManager::new("/dev/video0");
    m.add_described(described(control(5, "Gain", ControlType::Integer, 1, ControlValue::Integer(1))));
    m.add_described(described(control(5, "GAIN", ControlType::Integer, 2, ControlValue::Integer(2))));
    assert_eq!(m.get_control(5).map(|c| c.default), Some(1));
    assert_eq!(m.get_control_by_name("gain").map(|c| c.default), Some(1));
    assert!(m.record_write(5, ControlValue::Integer(9)));
    assert_eq!(m.get_controls()[0].value, ControlValue::Integer(9));
    assert_eq!(m.get_controls()[1].value, ControlValue::Integer(2));
}

#[test]
fn planning_a_write_by_name() {
    let m = manager();
    let w = m.set_control_by_name("brightness", ControlValue::Integer(128)).unwrap();
    assert_eq!((w.id, w.value), (0x00980900, ControlValue::Integer(128)));
    assert_eq!(
        m.set_control_by_name("sharpness", ControlValue::Integer(1)).err(),
        Some(ControlError::NotFound)
    );
}

#[test]
fn a_recorded_write_shows_in_the_cache() {
    let mut m = manager();
    assert!(m.record_write(0x00980900, ControlValue::Integer(128)));
    assert_eq!(m.get_control(0x00980900).map(|c| c.value.clone()), Some(ControlValue::Integer(128)));
    assert!(!m.record_write(42, ControlValue::Integer(1)));
    m.set_value_at(1, ControlValue::Boolean(true));
    assert_eq!(m.get_controls()[1].value, ControlValue::Boolean(true));
    m.set_value_at(99, ControlValue::Boolean(true));
    assert_eq!(m.get_controls().len(), 5);
}

#[test]
fn planning_resets() {
    let m = manager();
    let w = m.reset_control(0x00980901).unwrap();
    assert_eq!((w.id, w.value), (0x00980901, ControlValue::Integer(32)));
    assert_eq!(m.reset_control(42).err(), Some(ControlError::NotFound));

    let all = m.reset_all_controls();
    let all: Vec<(u32, ControlValue)> = all.into_iter().map(|w| (w.id, w.value)).collect();
    assert_eq!(
        all,
        vec![
            (0x00980900, ControlValue::Integer(128)),
            (0x0098090c, ControlValue::Integer(1)),
            (0x00980903, ControlValue::Integer(0)),
        ]
    );
}

#[test]
fn exported_settings_have_normalised_keys() {
    let m = manager();
    assert_eq!(
        m.export_settings(),
        vec![
            ("brightness".to_string(), ControlValue::Integer(100)),
            ("white_balance_temperature,_auto".to_string(), ControlValue::Boolean(false)),
            ("label".to_string(), ControlValue::String("abc".to_string())),
        ]
    );
}

#[test]
fn imported_settings_become_writes() {
    let m = manager();
    let settings = vec![
        ("Brightness".to_string(), ControlValue::Integer(7)),
        ("contrast".to_string(), ControlValue::Integer(8)),
        ("unknown".to_string(), ControlValue::Integer(9)),
        ("white_balance_temperature,_auto".to_string(), ControlValue::Boolean(true)),
        ("saturation".to_string(), ControlValue::Integer(10)),
    ];
    let writes: Vec<(u32, ControlValue)> =
        m.import_settings(&settings).into_iter().map(|w| (w.id, w.value)).collect();
    assert_eq!(
        writes,
        vec![(0x00980900, ControlValue::Integer(7)), (0x0098090c, ControlValue::Boolean(true))]
    );
}

#[test]
fn stored_settings_from_a_manager() {
    let settings = CameraSettings::from_manager(&manager());
    assert_eq!(
        settings.controls,
        vec![("brightness".to_string(), 100), ("white_balance_temperature,_auto".to_string(), 0)]
    );
    assert!(CameraSettings::default().controls.is_empty());
}

#[test]
fn stored_settings_applied_to_a_manager() {
    let m = manager();
    let settings = CameraSettings {
        controls: vec![
            ("brightness".to_string(), 5),
            ("white_balance_temperature,_auto".to_string(), 2),
            ("WHITE_BALANCE_TEMPERATURE,_AUTO".to_string(), 0),
            ("contrast".to_string(), 1),
            ("nothing".to_string(), 1),
        ],
    };
    let writes: Vec<(u32, ControlValue)> =
        settings.apply_to_manager(&m).into_iter().map(|w| (w.id, w.value)).collect();
    assert_eq!(
        writes,
        vec![
            (0x00980900, ControlValue::Integer(5)),
            (0x0098090c, ControlValue::Boolean(true)),
            (0x0098090c, ControlValue::Boolean(false)),
        ]
    );
}

#[test]
fn keys_and_names() {
    assert_eq!(settings_key("White Balance"), "white_balance");
    assert_eq!(settings_key("Exposure (Absolute)"), "exposure_(absolute)");
    assert_eq!(settings_key("  a  "), "__a__");
    assert_eq!(settings_key(""), "");
    assert_eq!(control_name("white_balance"), "white balance");
    assert_eq!(control_name("GAIN_"), "gain ");
    assert_eq!(settings_key("ÄB C"), "äb_c");
}

#[test]
fn no_key_is_stored_twice() {
    let mut m = CameraControlsManager::new("/dev/video0");
    m.add_described(described(control(1, "Gain", ControlType::Integer, 0, ControlValue::Integer(1))));
    m.add_described(described(control(2, "Zoom", ControlType::Integer, 0, ControlValue::Integer(2))));
    m.add_described(described(control(3, "GAIN", ControlType::Integer, 0, ControlValue::Integer(3))));
    m.add_described(described(control(4, "gain", ControlType::String, 0, ControlValue::String("x".to_string()))));
    // the later value stands under the key
    assert_eq!(
        m.export_settings(),
        vec![
            ("gain".to_string(), ControlValue::String("x".to_string())),
            ("zoom".to_string(), ControlValue::Integer(2)),
        ]
    );
    // a value without an integer is not stored and leaves the earlier one
    assert_eq!(
        CameraSettings::from_manager(&m).controls,
        vec![("gain".to_string(), 3), ("zoom".to_string(), 2)]
    );
    // what a map built entry by entry holds
    let mut map = std::collections::HashMap::new();
    for c in m.get_controls() {
        map.insert(c.name.to_lowercase().replace(' ', "_"), c.value.clone());
    }
    let exported: std::collections::HashMap<String, ControlValue> = m.export_settings().into_iter().collect();
    assert_eq!(exported, map);
}

use mamalluca::topic::SubsystemKey;
use mamalluca::topic::SubsystemKind;

fn parsed(topic: &str) -> SubsystemKey {
    SubsystemKey::parse(topic).expect(topic)
}

#[test]
fn parse_bare_kinds() {
    assert_eq!(parsed("webhooks").kind, SubsystemKind::Webhooks);
    assert_eq!(parsed("stepper_enable").kind, SubsystemKind::StepperEnable);
    assert_eq!(parsed("z_thermal_adjust").kind, SubsystemKind::ZThermalAdjust);
    assert_eq!(parsed("pause_resume").kind, SubsystemKind::PauseResume);
    assert_eq!(parsed("probe").kind, SubsystemKind::Probe);
    assert_eq!(parsed("z_tilt").kind, SubsystemKind::ZTilt);
    assert_eq!(parsed("motion_report").kind, SubsystemKind::MotionReport);
    assert_eq!(parsed("exclude_object").kind, SubsystemKind::ExcludeObject);
    assert_eq!(parsed("toolhead").kind, SubsystemKind::Toolhead);
    assert_eq!(parsed("gcode_move").kind, SubsystemKind::GcodeMove);
    assert_eq!(parsed("print_stats").kind, SubsystemKind::PrintStats);
    assert_eq!(parsed("virtual_sdcard").kind, SubsystemKind::VirtualSdCard);
    assert_eq!(parsed("webhooks").name, "");
}

#[test]
fn parse_named_kinds() {
    let k = parsed("tmc2209 stepper_x");
    assert_eq!(k.kind, SubsystemKind::Tmc2209);
    assert_eq!(k.name, "stepper_x");
    assert_eq!(parsed("tmc2130 a").kind, SubsystemKind::Tmc2130);
    assert_eq!(parsed("tmc2208 b").kind, SubsystemKind::Tmc2208);
    assert_eq!(parsed("tmc2240 c").kind, SubsystemKind::Tmc2240);
    assert_eq!(parsed("tmc2660 d").kind, SubsystemKind::Tmc2660);
    assert_eq!(parsed("tmc5160 e").kind, SubsystemKind::Tmc5160);
    let k = parsed("temperature_sensor chamber");
    assert_eq!(k.kind, SubsystemKind::TemperatureSensor);
    assert_eq!(k.name, "chamber");
    assert_eq!(parsed("controller_fan cfan").name, "cfan");
    assert_eq!(parsed("fan_generic exhaust").name, "exhaust");
    assert_eq!(parsed("heater_fan hotend").name, "hotend");
    assert_eq!(parsed("filament_switch_sensor runout").name, "runout");
    assert_eq!(parsed("filament_motion_sensor enc").name, "enc");
}

#[test]
fn parse_default_names() {
    let k = parsed("extruder");
    assert_eq!(k.kind, SubsystemKind::Extruder);
    assert_eq!(k.name, "extruder");
    let k = parsed("extruder extruder1");
    assert_eq!(k.kind, SubsystemKind::Extruder);
    assert_eq!(k.name, "extruder1");
    let k = parsed("heater_bed");
    assert_eq!(k.name, "heater_bed");
    let k = parsed("mcu");
    assert_eq!(k.kind, SubsystemKind::Mcu);
    assert_eq!(k.name, "mcu");
}

#[test]
fn parse_fixed_fan_name() {
    let k = parsed("fan");
    assert_eq!(k.kind, SubsystemKind::Fan);
    assert_eq!(k.name, "fan");
    let k = parsed("fan part_cooling");
    assert_eq!(k.kind, SubsystemKind::Fan);
    assert_eq!(k.name, "fan");
}

#[test]
fn parse_rejects_unknown_topics() {
    assert!(SubsystemKey::parse("").is_none());
    assert!(SubsystemKey::parse("   ").is_none());
    assert!(SubsystemKey::parse("bogus_subsystem").is_none());
    assert!(SubsystemKey::parse("mcu bogus_unknown_subsystem").is_none());
    assert!(SubsystemKey::parse("temperature_sensor").is_none());
    assert!(SubsystemKey::parse("tmc2209").is_none());
    assert!(SubsystemKey::parse("fan_generic").is_none());
    assert!(SubsystemKey::parse("moonraker").is_none());
}

#[test]
fn parse_tolerates_extra_whitespace() {
    let k = parsed("  extruder   extruder1  ");
    assert_eq!(k.kind, SubsystemKind::Extruder);
    assert_eq!(k.name, "extruder1");
    let k = parsed("tmc2209\tstepper_x");
    assert_eq!(k.name, "stepper_x");
    let k = parsed("webhooks trailing words ignored");
    assert_eq!(k.kind, SubsystemKind::Webhooks);
}

#[test]
fn render_canonical_topics() {
    assert_eq!(parsed("extruder").render(), "extruder");
    assert_eq!(parsed("extruder extruder1").render(), "extruder extruder1");
    assert_eq!(parsed("heater_bed").render(), "heater_bed");
    assert_eq!(parsed("mcu").render(), "mcu");
    assert_eq!(parsed("fan anything").render(), "fan");
    assert_eq!(parsed("tmc2209 stepper_x").render(), "tmc2209 stepper_x");
    assert_eq!(parsed("webhooks extra").render(), "webhooks");
    assert_eq!(parsed("  toolhead ").render(), "toolhead");
}

#[test]
fn render_moonraker_slot() {
    let k = SubsystemKey { kind: SubsystemKind::MoonrakerStatus, name: String::new() };
    assert_eq!(k.render(), "moonraker");
}

#[test]
fn topic_round_trip() {
    // For every supported topic, rendering the parsed key normalizes the
    // topic, and parsing the rendering yields the same key.
    let topics = [
        "extruder",
        "extruder extruder1",
        "  extruder   extruder1  ",
        "heater_bed",
        "heater_bed aux",
        "mcu",
        "fan",
        "fan part",
        "webhooks",
        "webhooks noise",
        "temperature_sensor chamber",
        "controller_fan cfan",
        "tmc2130 sa",
        "tmc2208 sb",
        "tmc2209 sc",
        "tmc2240 sd",
        "tmc2660 se",
        "tmc5160 sf",
        "fan_generic exhaust",
        "heater_fan hotend",
        "filament_motion_sensor enc",
        "filament_switch_sensor runout",
        "stepper_enable",
        "z_thermal_adjust",
        "pause_resume",
        "probe",
        "z_tilt",
        "motion_report",
        "exclude_object",
        "toolhead",
        "gcode_move",
        "print_stats",
        "virtual_sdcard",
    ];
    for topic in topics {
        let key = parsed(topic);
        let rendered = key.render();
        let again = parsed(&rendered);
        assert!(key.same_key(&again), "round trip of {:?} via {:?}", topic, rendered);
        assert_eq!(rendered, again.render());
    }
}

#[test]
fn same_key_compares_kind_and_name() {
    let a = parsed("tmc2209 stepper_x");
    let b = parsed("tmc2209 stepper_x");
    let c = parsed("tmc2209 stepper_y");
    let d = parsed("tmc2130 stepper_x");
    assert!(a.same_key(&b));
    assert!(!a.same_key(&c));
    assert!(!a.same_key(&d));
    assert!(a.same_key(&a.duplicate()));
}

//! Subsystem status topics.
//!
//! A status-bearing subsystem is identified on the wire by a topic string:
//! a kind token, optionally followed by whitespace and an instance name
//! (`"extruder"`, `"tmc2209 stepper_x"`).  Parsing a topic yields a
//! [`SubsystemKey`]; rendering a key yields its canonical topic.  Parsing is
//! total over the declared grammar and unrecognized topics are rejected,
//! which callers treat as skippable.

use vstd::prelude::*;

verus! {

/// The closed set of subsystem kinds the library understands.
#[derive(Clone, Copy, Debug, PartialEq, Eq, Hash, Structural)]
pub enum SubsystemKind {
    ControllerFan,
    ExcludeObject,
    Extruder,
    Fan,
    FanGeneric,
    FilamentMotionSensor,
    FilamentSwitchSensor,
    GcodeMove,
    HeaterBed,
    HeaterFan,
    Mcu,
    MoonrakerStatus,
    MotionReport,
    PauseResume,
    PrintStats,
    Probe,
    StepperEnable,
    TemperatureSensor,
    Tmc2130,
    Tmc2208,
    Tmc2209,
    Tmc2240,
    Tmc2660,
    Tmc5160,
    Toolhead,
    VirtualSdCard,
    Webhooks,
    ZThermalAdjust,
    ZTilt,
}

/// How a kind relates to the instance name in its topic.
#[derive(Clone, Copy, Debug, PartialEq, Eq, Structural)]
pub enum KindNaming {
    /// The topic must carry an instance name (`"tmc2209 stepper_x"`).
    RequiresName,
    /// The topic may carry an instance name; a bare kind means the kind's
    /// own token is the name (`"extruder"` names the extruder `"extruder"`).
    DefaultsToKind,
    /// The topic is the bare kind alone, which names itself; a second token
    /// makes the topic unrecognized.
    BareOnly,
    /// The name is fixed to the kind token, whatever the topic carries.
    FixedName,
    /// The kind has no instance name; anything after the token is ignored.
    NoName,
}

/// One status-bearing subsystem instance: a kind and its instance name.
///
/// Kinds without instance names carry the empty name.
#[derive(Debug, PartialEq, Eq, Hash)]
pub struct SubsystemKey {
    pub kind: SubsystemKind,
    pub name: String,
}

/// The model of a key: the kind with the mathematical view of the name.
#[verifier::ext_equal]
pub struct KeyModel {
    pub kind: SubsystemKind,
    pub name: Seq<char>,
}

impl View for SubsystemKey {
    type V = KeyModel;

    open spec fn view(&self) -> KeyModel {
        KeyModel { kind: self.kind, name: self.name@ }
    }
}

/// The wire token of each kind.
pub open spec fn kind_token(kind: SubsystemKind) -> Seq<char> {
    match kind {
        SubsystemKind::ControllerFan => "controller_fan"@,
        SubsystemKind::ExcludeObject => "exclude_object"@,
        SubsystemKind::Extruder => "extruder"@,
        SubsystemKind::Fan => "fan"@,
        SubsystemKind::FanGeneric => "fan_generic"@,
        SubsystemKind::FilamentMotionSensor => "filament_motion_sensor"@,
        SubsystemKind::FilamentSwitchSensor => "filament_switch_sensor"@,
        SubsystemKind::GcodeMove => "gcode_move"@,
        SubsystemKind::HeaterBed => "heater_bed"@,
        SubsystemKind::HeaterFan => "heater_fan"@,
        SubsystemKind::Mcu => "mcu"@,
        SubsystemKind::MoonrakerStatus => "moonraker"@,
        SubsystemKind::MotionReport => "motion_report"@,
        SubsystemKind::PauseResume => "pause_resume"@,
        SubsystemKind::PrintStats => "print_stats"@,
        SubsystemKind::Probe => "probe"@,
        SubsystemKind::StepperEnable => "stepper_enable"@,
        SubsystemKind::TemperatureSensor => "temperature_sensor"@,
        SubsystemKind::Tmc2130 => "tmc2130"@,
        SubsystemKind::Tmc2208 => "tmc2208"@,
        SubsystemKind::Tmc2209 => "tmc2209"@,
        SubsystemKind::Tmc2240 => "tmc2240"@,
        SubsystemKind::Tmc2660 => "tmc2660"@,
        SubsystemKind::Tmc5160 => "tmc5160"@,
        SubsystemKind::Toolhead => "toolhead"@,
        SubsystemKind::VirtualSdCard => "virtual_sdcard"@,
        SubsystemKind::Webhooks => "webhooks"@,
        SubsystemKind::ZThermalAdjust => "z_thermal_adjust"@,
        SubsystemKind::ZTilt => "z_tilt"@,
    }
}

/// The naming rule of each kind.
pub open spec fn kind_naming(kind: SubsystemKind) -> KindNaming {
    match kind {
        SubsystemKind::ControllerFan => KindNaming::RequiresName,
        SubsystemKind::FanGeneric => KindNaming::RequiresName,
        SubsystemKind::FilamentMotionSensor => KindNaming::RequiresName,
        SubsystemKind::FilamentSwitchSensor => KindNaming::RequiresName,
        SubsystemKind::HeaterFan => KindNaming::RequiresName,
        SubsystemKind::TemperatureSensor => KindNaming::RequiresName,
        SubsystemKind::Tmc2130 => KindNaming::RequiresName,
        SubsystemKind::Tmc2208 => KindNaming::RequiresName,
        SubsystemKind::Tmc2209 => KindNaming::RequiresName,
        SubsystemKind::Tmc2240 => KindNaming::RequiresName,
        SubsystemKind::Tmc2660 => KindNaming::RequiresName,
        SubsystemKind::Tmc5160 => KindNaming::RequiresName,
        SubsystemKind::Extruder => KindNaming::DefaultsToKind,
        SubsystemKind::HeaterBed => KindNaming::DefaultsToKind,
        SubsystemKind::Mcu => KindNaming::BareOnly,
        SubsystemKind::Fan => KindNaming::FixedName,
        _ => KindNaming::NoName,
    }
}

/// Whitespace that separates the kind token from the instance name.
pub open spec fn is_space(c: char) -> bool {
    c == ' ' || c == '\t' || c == '\n' || c == '\r'
}

/// First index at or after `i` holding a non-space character, or the length.
pub open spec fn skip_spaces(s: Seq<char>, i: int) -> int
    recommends
        0 <= i <= s.len(),
    decreases s.len() - i,
{
    if i < 0 || i >= s.len() {
        s.len() as int
    } else if is_space(s[i]) {
        skip_spaces(s, i + 1)
    } else {
        i
    }
}

/// First index at or after `i` holding a space, or the length.
pub open spec fn scan_token(s: Seq<char>, i: int) -> int
    recommends
        0 <= i <= s.len(),
    decreases s.len() - i,
{
    if i < 0 || i >= s.len() {
        s.len() as int
    } else if is_space(s[i]) {
        i
    } else {
        scan_token(s, i + 1)
    }
}

/// The kind whose token is `t`, if any.  The `"moonraker"` token is not a
/// wire topic: that kind exists only as the cache slot for service-level
/// status, so no token resolves to it.
pub open spec fn spec_kind_of(t: Seq<char>) -> Option<SubsystemKind> {
    if t == "mcu"@ {
        Some(SubsystemKind::Mcu)
    } else if t == "webhooks"@ {
        Some(SubsystemKind::Webhooks)
    } else if t == "extruder"@ {
        Some(SubsystemKind::Extruder)
    } else if t == "heater_bed"@ {
        Some(SubsystemKind::HeaterBed)
    } else if t == "temperature_sensor"@ {
        Some(SubsystemKind::TemperatureSensor)
    } else if t == "controller_fan"@ {
        Some(SubsystemKind::ControllerFan)
    } else if t == "tmc2130"@ {
        Some(SubsystemKind::Tmc2130)
    } else if t == "tmc2208"@ {
        Some(SubsystemKind::Tmc2208)
    } else if t == "tmc2209"@ {
        Some(SubsystemKind::Tmc2209)
    } else if t == "tmc2240"@ {
        Some(SubsystemKind::Tmc2240)
    } else if t == "tmc2660"@ {
        Some(SubsystemKind::Tmc2660)
    } else if t == "tmc5160"@ {
        Some(SubsystemKind::Tmc5160)
    } else if t == "stepper_enable"@ {
        Some(SubsystemKind::StepperEnable)
    } else if t == "fan"@ {
        Some(SubsystemKind::Fan)
    } else if t == "fan_generic"@ {
        Some(SubsystemKind::FanGeneric)
    } else if t == "heater_fan"@ {
        Some(SubsystemKind::HeaterFan)
    } else if t == "z_thermal_adjust"@ {
        Some(SubsystemKind::ZThermalAdjust)
    } else if t == "filament_motion_sensor"@ {
        Some(SubsystemKind::FilamentMotionSensor)
    } else if t == "filament_switch_sensor"@ {
        Some(SubsystemKind::FilamentSwitchSensor)
    } else if t == "pause_resume"@ {
        Some(SubsystemKind::PauseResume)
    } else if t == "probe"@ {
        Some(SubsystemKind::Probe)
    } else if t == "z_tilt"@ {
        Some(SubsystemKind::ZTilt)
    } else if t == "motion_report"@ {
        Some(SubsystemKind::MotionReport)
    } else if t == "exclude_object"@ {
        Some(SubsystemKind::ExcludeObject)
    } else if t == "toolhead"@ {
        Some(SubsystemKind::Toolhead)
    } else if t == "gcode_move"@ {
        Some(SubsystemKind::GcodeMove)
    } else if t == "print_stats"@ {
        Some(SubsystemKind::PrintStats)
    } else if t == "virtual_sdcard"@ {
        Some(SubsystemKind::VirtualSdCard)
    } else {
        None
    }
}

/// Parsing a topic: split off the first two whitespace-delimited tokens,
/// resolve the first to a kind, and apply the kind's naming rule to the
/// second.
pub open spec fn spec_parse(s: Seq<char>) -> Option<KeyModel> {
    let i0 = skip_spaces(s, 0);
    let j0 = scan_token(s, i0);
    let t1 = s.subrange(i0, j0);
    let i1 = skip_spaces(s, j0);
    let j1 = scan_token(s, i1);
    let t2 = s.subrange(i1, j1);
    if t1.len() == 0 {
        None
    } else {
        match spec_kind_of(t1) {
            None => None,
            Some(kind) => match kind_naming(kind) {
                KindNaming::RequiresName => if t2.len() == 0 {
                    None
                } else {
                    Some(KeyModel { kind, name: t2 })
                },
                KindNaming::DefaultsToKind => Some(
                    KeyModel {
                        kind,
                        name: if t2.len() == 0 {
                            kind_token(kind)
                        } else {
                            t2
                        },
                    },
                ),
                KindNaming::BareOnly => if t2.len() == 0 {
                    Some(KeyModel { kind, name: kind_token(kind) })
                } else {
                    None
                },
                KindNaming::FixedName => Some(KeyModel { kind, name: kind_token(kind) }),
                KindNaming::NoName => Some(KeyModel { kind, name: Seq::empty() }),
            },
        }
    }
}

/// Rendering a key: the kind token, plus the instance name where the topic
/// carries one.  A defaulted name equal to the kind token is omitted.
pub open spec fn spec_render(k: KeyModel) -> Seq<char> {
    match kind_naming(k.kind) {
        KindNaming::RequiresName => kind_token(k.kind) + seq![' '] + k.name,
        KindNaming::DefaultsToKind => if k.name == kind_token(k.kind) {
            kind_token(k.kind)
        } else {
            kind_token(k.kind) + seq![' '] + k.name
        },
        KindNaming::BareOnly => kind_token(k.kind),
        KindNaming::FixedName => kind_token(k.kind),
        KindNaming::NoName => kind_token(k.kind),
    }
}

/// No character of `s` at or after `i` is whitespace.
pub open spec fn spaces_free_from(s: Seq<char>, i: int) -> bool
    decreases s.len() - i,
{
    i >= s.len() || (0 <= i && !is_space(s[i]) && spaces_free_from(s, i + 1))
}

/// A usable token: non-empty and free of whitespace.
pub open spec fn token_ok(t: Seq<char>) -> bool {
    t.len() > 0 && spaces_free_from(t, 0)
}

/// A key the library may hold.
pub open spec fn key_wf(k: KeyModel) -> bool {
    match kind_naming(k.kind) {
        KindNaming::RequiresName => token_ok(k.name),
        KindNaming::DefaultsToKind => token_ok(k.name),
        KindNaming::BareOnly => k.name == kind_token(k.kind),
        KindNaming::FixedName => k.name == kind_token(k.kind),
        KindNaming::NoName => k.name == Seq::<char>::empty(),
    }
}

/// A key that can come back from parsing some wire topic.
pub open spec fn key_wire_wf(k: KeyModel) -> bool {
    key_wf(k) && k.kind != SubsystemKind::MoonrakerStatus
}

// ---------------------------------------------------------------------------
// Tokenization facts.
// ---------------------------------------------------------------------------

/// Every character at or after `i` of a whitespace-free suffix is non-space.
proof fn lemma_spaces_free_index(t: Seq<char>, i: int, j: int)
    requires
        spaces_free_from(t, i),
        i <= j < t.len(),
    ensures
        !is_space(t[j]),
    decreases j - i,
{
    if i < j {
        lemma_spaces_free_index(t, i + 1, j);
    }
}

/// `scan_token` stops exactly at the end of a non-space run.
proof fn lemma_scan_token_range(s: Seq<char>, i: int, j: int)
    requires
        0 <= i <= j <= s.len(),
        forall|m: int| i <= m < j ==> !is_space(#[trigger] s[m]),
        j == s.len() || is_space(s[j]),
    ensures
        scan_token(s, i) == j,
    decreases j - i,
{
    if i < j {
        lemma_scan_token_range(s, i + 1, j);
    }
}

/// `skip_spaces` stops exactly at the end of a space run.
proof fn lemma_skip_spaces_range(s: Seq<char>, i: int, j: int)
    requires
        0 <= i <= j <= s.len(),
        forall|m: int| i <= m < j ==> is_space(#[trigger] s[m]),
        j == s.len() || !is_space(s[j]),
    ensures
        skip_spaces(s, i) == j,
    decreases j - i,
{
    if i < j {
        lemma_skip_spaces_range(s, i + 1, j);
    }
}

/// Every kind's wire token is non-empty and free of whitespace.
proof fn lemma_kind_token_ok(kind: SubsystemKind)
    ensures
        token_ok(kind_token(kind)),
{
    reveal_strlit("controller_fan");
    reveal_strlit("exclude_object");
    reveal_strlit("extruder");
    reveal_strlit("fan");
    reveal_strlit("fan_generic");
    reveal_strlit("filament_motion_sensor");
    reveal_strlit("filament_switch_sensor");
    reveal_strlit("gcode_move");
    reveal_strlit("heater_bed");
    reveal_strlit("heater_fan");
    reveal_strlit("mcu");
    reveal_strlit("moonraker");
    reveal_strlit("motion_report");
    reveal_strlit("pause_resume");
    reveal_strlit("print_stats");
    reveal_strlit("probe");
    reveal_strlit("stepper_enable");
    reveal_strlit("temperature_sensor");
    reveal_strlit("tmc2130");
    reveal_strlit("tmc2208");
    reveal_strlit("tmc2209");
    reveal_strlit("tmc2240");
    reveal_strlit("tmc2660");
    reveal_strlit("tmc5160");
    reveal_strlit("toolhead");
    reveal_strlit("virtual_sdcard");
    reveal_strlit("webhooks");
    reveal_strlit("z_thermal_adjust");
    reveal_strlit("z_tilt");
    reveal_with_fuel(spaces_free_from, 25);
    assert(token_ok(kind_token(kind)));
}

/// Resolving a kind's own token yields that kind, for every kind that has a
/// wire topic.
proof fn lemma_kind_of_token(kind: SubsystemKind)
    requires
        kind != SubsystemKind::MoonrakerStatus,
    ensures
        spec_kind_of(kind_token(kind)) == Some(kind),
{
    reveal_strlit("controller_fan");
    reveal_strlit("exclude_object");
    reveal_strlit("extruder");
    reveal_strlit("fan");
    reveal_strlit("fan_generic");
    reveal_strlit("filament_motion_sensor");
    reveal_strlit("filament_switch_sensor");
    reveal_strlit("gcode_move");
    reveal_strlit("heater_bed");
    reveal_strlit("heater_fan");
    reveal_strlit("mcu");
    reveal_strlit("moonraker");
    reveal_strlit("motion_report");
    reveal_strlit("pause_resume");
    reveal_strlit("print_stats");
    reveal_strlit("probe");
    reveal_strlit("stepper_enable");
    reveal_strlit("temperature_sensor");
    reveal_strlit("tmc2130");
    reveal_strlit("tmc2208");
    reveal_strlit("tmc2209");
    reveal_strlit("tmc2240");
    reveal_strlit("tmc2660");
    reveal_strlit("tmc5160");
    reveal_strlit("toolhead");
    reveal_strlit("virtual_sdcard");
    reveal_strlit("webhooks");
    reveal_strlit("z_thermal_adjust");
    reveal_strlit("z_tilt");
    assert("controller_fan"@.len() == 14);
    assert("exclude_object"@.len() == 14);
    assert("extruder"@.len() == 8);
    assert("fan"@.len() == 3);
    assert("fan_generic"@.len() == 11);
    assert("filament_motion_sensor"@.len() == 22);
    assert("filament_switch_sensor"@.len() == 22);
    assert("gcode_move"@.len() == 10);
    assert("heater_bed"@.len() == 10);
    assert("heater_fan"@.len() == 10);
    assert("mcu"@.len() == 3);
    assert("moonraker"@.len() == 9);
    assert("motion_report"@.len() == 13);
    assert("pause_resume"@.len() == 12);
    assert("print_stats"@.len() == 11);
    assert("probe"@.len() == 5);
    assert("stepper_enable"@.len() == 14);
    assert("temperature_sensor"@.len() == 18);
    assert("tmc2130"@.len() == 7);
    assert("tmc2208"@.len() == 7);
    assert("tmc2209"@.len() == 7);
    assert("tmc2240"@.len() == 7);
    assert("tmc2660"@.len() == 7);
    assert("tmc5160"@.len() == 7);
    assert("toolhead"@.len() == 8);
    assert("virtual_sdcard"@.len() == 14);
    assert("webhooks"@.len() == 8);
    assert("z_thermal_adjust"@.len() == 16);
    assert("z_tilt"@.len() == 6);
    assert("mcu"@[0] == 'm' && "fan"@[0] == 'f');
    assert("webhooks"@[0] == 'w' && "extruder"@[0] == 'e' && "toolhead"@[0] == 't');
    assert("controller_fan"@[0] == 'c' && "stepper_enable"@[0] == 's');
    assert("exclude_object"@[0] == 'e' && "virtual_sdcard"@[0] == 'v');
    assert("heater_bed"@[0] == 'h' && "heater_fan"@[0] == 'h' && "gcode_move"@[0] == 'g');
    assert("heater_bed"@[7] == 'b' && "heater_fan"@[7] == 'f');
    assert("fan_generic"@[0] == 'f' && "print_stats"@[0] == 'p');
    assert("filament_motion_sensor"@[9] == 'm' && "filament_switch_sensor"@[9] == 's');
    assert("tmc2130"@[3] == '2' && "tmc2130"@[4] == '1' && "tmc2130"@[5] == '3' && "tmc2130"@[6]
        == '0');
    assert("tmc2208"@[3] == '2' && "tmc2208"@[4] == '2' && "tmc2208"@[5] == '0' && "tmc2208"@[6]
        == '8');
    assert("tmc2209"@[3] == '2' && "tmc2209"@[4] == '2' && "tmc2209"@[5] == '0' && "tmc2209"@[6]
        == '9');
    assert("tmc2240"@[3] == '2' && "tmc2240"@[4] == '2' && "tmc2240"@[5] == '4' && "tmc2240"@[6]
        == '0');
    assert("tmc2660"@[3] == '2' && "tmc2660"@[4] == '6' && "tmc2660"@[5] == '6' && "tmc2660"@[6]
        == '0');
    assert("tmc5160"@[3] == '5' && "tmc5160"@[4] == '1' && "tmc5160"@[5] == '6' && "tmc5160"@[6]
        == '0');
    match kind {
        SubsystemKind::ControllerFan => assert(spec_kind_of("controller_fan"@)
            == Some(SubsystemKind::ControllerFan)),
        SubsystemKind::ExcludeObject => assert(spec_kind_of("exclude_object"@)
            == Some(SubsystemKind::ExcludeObject)),
        SubsystemKind::Extruder => assert(spec_kind_of("extruder"@)
            == Some(SubsystemKind::Extruder)),
        SubsystemKind::Fan => assert(spec_kind_of("fan"@) == Some(SubsystemKind::Fan)),
        SubsystemKind::FanGeneric => assert(spec_kind_of("fan_generic"@)
            == Some(SubsystemKind::FanGeneric)),
        SubsystemKind::FilamentMotionSensor => assert(spec_kind_of("filament_motion_sensor"@)
            == Some(SubsystemKind::FilamentMotionSensor)),
        SubsystemKind::FilamentSwitchSensor => assert(spec_kind_of("filament_switch_sensor"@)
            == Some(SubsystemKind::FilamentSwitchSensor)),
        SubsystemKind::GcodeMove => assert(spec_kind_of("gcode_move"@)
            == Some(SubsystemKind::GcodeMove)),
        SubsystemKind::HeaterBed => assert(spec_kind_of("heater_bed"@)
            == Some(SubsystemKind::HeaterBed)),
        SubsystemKind::HeaterFan => assert(spec_kind_of("heater_fan"@)
            == Some(SubsystemKind::HeaterFan)),
        SubsystemKind::Mcu => assert(spec_kind_of("mcu"@) == Some(SubsystemKind::Mcu)),
        SubsystemKind::MoonrakerStatus => assert(false),
        SubsystemKind::MotionReport => assert(spec_kind_of("motion_report"@)
            == Some(SubsystemKind::MotionReport)),
        SubsystemKind::PauseResume => assert(spec_kind_of("pause_resume"@)
            == Some(SubsystemKind::PauseResume)),
        SubsystemKind::PrintStats => assert(spec_kind_of("print_stats"@)
            == Some(SubsystemKind::PrintStats)),
        SubsystemKind::Probe => assert(spec_kind_of("probe"@) == Some(SubsystemKind::Probe)),
        SubsystemKind::StepperEnable => assert(spec_kind_of("stepper_enable"@)
            == Some(SubsystemKind::StepperEnable)),
        SubsystemKind::TemperatureSensor => assert(spec_kind_of("temperature_sensor"@)
            == Some(SubsystemKind::TemperatureSensor)),
        SubsystemKind::Tmc2130 => assert(spec_kind_of("tmc2130"@)
            == Some(SubsystemKind::Tmc2130)),
        SubsystemKind::Tmc2208 => assert(spec_kind_of("tmc2208"@)
            == Some(SubsystemKind::Tmc2208)),
        SubsystemKind::Tmc2209 => assert(spec_kind_of("tmc2209"@)
            == Some(SubsystemKind::Tmc2209)),
        SubsystemKind::Tmc2240 => assert(spec_kind_of("tmc2240"@)
            == Some(SubsystemKind::Tmc2240)),
        SubsystemKind::Tmc2660 => assert(spec_kind_of("tmc2660"@)
            == Some(SubsystemKind::Tmc2660)),
        SubsystemKind::Tmc5160 => assert(spec_kind_of("tmc5160"@)
            == Some(SubsystemKind::Tmc5160)),
        SubsystemKind::Toolhead => assert(spec_kind_of("toolhead"@)
            == Some(SubsystemKind::Toolhead)),
        SubsystemKind::VirtualSdCard => assert(spec_kind_of("virtual_sdcard"@)
            == Some(SubsystemKind::VirtualSdCard)),
        SubsystemKind::Webhooks => assert(spec_kind_of("webhooks"@)
            == Some(SubsystemKind::Webhooks)),
        SubsystemKind::ZThermalAdjust => assert(spec_kind_of("z_thermal_adjust"@)
            == Some(SubsystemKind::ZThermalAdjust)),
        SubsystemKind::ZTilt => assert(spec_kind_of("z_tilt"@) == Some(SubsystemKind::ZTilt)),
    }
}

/// Where `skip_spaces` stops: on spaces only, at the first non-space.
proof fn lemma_skip_spaces_props(s: Seq<char>, i: int)
    requires
        0 <= i <= s.len(),
    ensures
        i <= skip_spaces(s, i) <= s.len(),
        forall|m: int| i <= m < skip_spaces(s, i) ==> is_space(#[trigger] s[m]),
        skip_spaces(s, i) == s.len() || !is_space(s[skip_spaces(s, i)]),
    decreases s.len() - i,
{
    if i < s.len() && is_space(s[i]) {
        lemma_skip_spaces_props(s, i + 1);
    }
}

/// Where `scan_token` stops: on non-spaces only, at the first space.
proof fn lemma_scan_token_props(s: Seq<char>, i: int)
    requires
        0 <= i <= s.len(),
    ensures
        i <= scan_token(s, i) <= s.len(),
        forall|m: int| i <= m < scan_token(s, i) ==> !is_space(#[trigger] s[m]),
        scan_token(s, i) == s.len() || is_space(s[scan_token(s, i)]),
    decreases s.len() - i,
{
    if i < s.len() && !is_space(s[i]) {
        lemma_scan_token_props(s, i + 1);
    }
}

/// Pointwise freedom from whitespace gives the recursive form.
proof fn lemma_spaces_free_from_all(t: Seq<char>, i: int)
    requires
        0 <= i,
        forall|m: int| i <= m < t.len() ==> !is_space(#[trigger] t[m]),
    ensures
        spaces_free_from(t, i),
    decreases t.len() - i,
{
    if i < t.len() {
        lemma_spaces_free_from_all(t, i + 1);
    }
}

/// Round trip, key to topic to key: rendering any key that has a wire topic
/// and parsing the rendering yields the key itself.
pub proof fn lemma_parse_render_roundtrip(k: KeyModel)
    requires
        key_wire_wf(k),
    ensures
        spec_parse(spec_render(k)) == Some(k),
{
    let tok = kind_token(k.kind);
    lemma_kind_token_ok(k.kind);
    lemma_kind_of_token(k.kind);
    let s = spec_render(k);
    let naming = kind_naming(k.kind);
    let bare = (naming is DefaultsToKind && k.name == tok) || naming is BareOnly
        || naming is FixedName || naming is NoName;
    if bare {
        assert(s == tok);
        assert forall|m: int| 0 <= m < s.len() implies !is_space(#[trigger] s[m]) by {
            lemma_spaces_free_index(tok, 0, m);
        }
        lemma_skip_spaces_range(s, 0, 0);
        lemma_scan_token_range(s, 0, s.len() as int);
        lemma_skip_spaces_range(s, s.len() as int, s.len() as int);
        lemma_scan_token_range(s, s.len() as int, s.len() as int);
        assert(s.subrange(0, s.len() as int) =~= tok);
        assert(s.subrange(s.len() as int, s.len() as int) =~= Seq::<char>::empty());
        assert(spec_parse(s) matches Some(r) && r =~= k);
    } else {
        let name = k.name;
        assert(s == tok + seq![' '] + name);
        let tl = tok.len() as int;
        let nl = name.len() as int;
        assert(s.len() == tl + 1 + nl);
        assert forall|m: int| 0 <= m < tl implies !is_space(#[trigger] s[m]) by {
            assert(s[m] == tok[m]);
            lemma_spaces_free_index(tok, 0, m);
        }
        assert(s[tl] == ' ');
        assert forall|m: int| tl + 1 <= m < s.len() implies !is_space(#[trigger] s[m]) by {
            assert(s[m] == name[m - tl - 1]);
            lemma_spaces_free_index(name, 0, m - tl - 1);
        }
        lemma_skip_spaces_range(s, 0, 0);
        lemma_scan_token_range(s, 0, tl);
        lemma_skip_spaces_range(s, tl, tl + 1);
        lemma_scan_token_range(s, tl + 1, s.len() as int);
        assert(s.subrange(0, tl) =~= tok);
        assert(s.subrange(tl + 1, s.len() as int) =~= name);
        assert(spec_parse(s) matches Some(r) && r =~= k);
    }
}

/// Whatever parsing accepts, it returns a key that has a wire topic.
pub proof fn lemma_parse_wire_wf(t: Seq<char>)
    ensures
        spec_parse(t) matches Some(k) ==> key_wire_wf(k),
{
    if spec_parse(t) is Some {
        let i0 = skip_spaces(t, 0);
        lemma_skip_spaces_props(t, 0);
        let j0 = scan_token(t, i0);
        lemma_scan_token_props(t, i0);
        let i1 = skip_spaces(t, j0);
        lemma_skip_spaces_props(t, j0);
        let j1 = scan_token(t, i1);
        lemma_scan_token_props(t, i1);
        let t2 = t.subrange(i1, j1);
        if t2.len() > 0 {
            assert forall|m: int| 0 <= m < t2.len() implies !is_space(#[trigger] t2[m]) by {
                assert(t2[m] == t[i1 + m]);
            }
            lemma_spaces_free_from_all(t2, 0);
            assert(token_ok(t2));
        }
        let k = spec_parse(t)->Some_0;
        lemma_kind_token_ok(k.kind);
    }
}

/// The round-trip invariant of topics: parsing a topic and rendering the key
/// normalizes the topic, and parsing the normalized topic yields the same
/// key.
pub proof fn lemma_topic_normalize(t: Seq<char>)
    ensures
        spec_parse(t) matches Some(k) ==> spec_parse(spec_render(k)) == Some(k),
{
    lemma_parse_wire_wf(t);
    if spec_parse(t) is Some {
        lemma_parse_render_roundtrip(spec_parse(t)->Some_0);
    }
}

// ---------------------------------------------------------------------------
// Executable parsing and rendering.
// ---------------------------------------------------------------------------

/// Character-wise string equality.
pub(crate) fn str_eq(a: &str, b: &str) -> (r: bool)
    ensures
        r == (a@ == b@),
{
    let na = a.unicode_len();
    let nb = b.unicode_len();
    if na != nb {
        return false;
    }
    let mut i: usize = 0;
    while i < na
        invariant
            i <= na,
            na == a@.len(),
            nb == b@.len(),
            na == nb,
            forall|j: int| 0 <= j < i ==> a@[j] == b@[j],
        decreases na - i,
    {
        if a.get_char(i) != b.get_char(i) {
            return false;
        }
        i = i + 1;
    }
    proof {
        assert(a@ =~= b@);
    }
    true
}

/// First index at or after `i` holding a non-space character.
fn skip_spaces_exec(s: &str, i: usize) -> (r: usize)
    requires
        i <= s@.len(),
    ensures
        r == skip_spaces(s@, i as int),
        i <= r <= s@.len(),
{
    let n = s.unicode_len();
    let mut j: usize = i;
    while j < n
        invariant
            i <= j <= n,
            n == s@.len(),
            skip_spaces(s@, i as int) == skip_spaces(s@, j as int),
        decreases n - j,
    {
        let c = s.get_char(j);
        if !(c == ' ' || c == '\t' || c == '\n' || c == '\r') {
            return j;
        }
        j = j + 1;
    }
    j
}

/// First index at or after `i` holding a space.
fn scan_token_exec(s: &str, i: usize) -> (r: usize)
    requires
        i <= s@.len(),
    ensures
        r == scan_token(s@, i as int),
        i <= r <= s@.len(),
{
    let n = s.unicode_len();
    let mut j: usize = i;
    while j < n
        invariant
            i <= j <= n,
            n == s@.len(),
            scan_token(s@, i as int) == scan_token(s@, j as int),
        decreases n - j,
    {
        let c = s.get_char(j);
        if c == ' ' || c == '\t' || c == '\n' || c == '\r' {
            return j;
        }
        j = j + 1;
    }
    j
}

/// The kind whose wire token is `t`, if any.
fn kind_of_token(t: &str) -> (r: Option<SubsystemKind>)
    ensures
        r == spec_kind_of(t@),
{
    if str_eq(t, "mcu") {
        Some(SubsystemKind::Mcu)
    } else if str_eq(t, "webhooks") {
        Some(SubsystemKind::Webhooks)
    } else if str_eq(t, "extruder") {
        Some(SubsystemKind::Extruder)
    } else if str_eq(t, "heater_bed") {
        Some(SubsystemKind::HeaterBed)
    } else if str_eq(t, "temperature_sensor") {
        Some(SubsystemKind::TemperatureSensor)
    } else if str_eq(t, "controller_fan") {
        Some(SubsystemKind::ControllerFan)
    } else if str_eq(t, "tmc2130") {
        Some(SubsystemKind::Tmc2130)
    } else if str_eq(t, "tmc2208") {
        Some(SubsystemKind::Tmc2208)
    } else if str_eq(t, "tmc2209") {
        Some(SubsystemKind::Tmc2209)
    } else if str_eq(t, "tmc2240") {
        Some(SubsystemKind::Tmc2240)
    } else if str_eq(t, "tmc2660") {
        Some(SubsystemKind::Tmc2660)
    } else if str_eq(t, "tmc5160") {
        Some(SubsystemKind::Tmc5160)
    } else if str_eq(t, "stepper_enable") {
        Some(SubsystemKind::StepperEnable)
    } else if str_eq(t, "fan") {
        Some(SubsystemKind::Fan)
    } else if str_eq(t, "fan_generic") {
        Some(SubsystemKind::FanGeneric)
    } else if str_eq(t, "heater_fan") {
        Some(SubsystemKind::HeaterFan)
    } else if str_eq(t, "z_thermal_adjust") {
        Some(SubsystemKind::ZThermalAdjust)
    } else if str_eq(t, "filament_motion_sensor") {
        Some(SubsystemKind::FilamentMotionSensor)
    } else if str_eq(t, "filament_switch_sensor") {
        Some(SubsystemKind::FilamentSwitchSensor)
    } else if str_eq(t, "pause_resume") {
        Some(SubsystemKind::PauseResume)
    } else if str_eq(t, "probe") {
        Some(SubsystemKind::Probe)
    } else if str_eq(t, "z_tilt") {
        Some(SubsystemKind::ZTilt)
    } else if str_eq(t, "motion_report") {
        Some(SubsystemKind::MotionReport)
    } else if str_eq(t, "exclude_object") {
        Some(SubsystemKind::ExcludeObject)
    } else if str_eq(t, "toolhead") {
        Some(SubsystemKind::Toolhead)
    } else if str_eq(t, "gcode_move") {
        Some(SubsystemKind::GcodeMove)
    } else if str_eq(t, "print_stats") {
        Some(SubsystemKind::PrintStats)
    } else if str_eq(t, "virtual_sdcard") {
        Some(SubsystemKind::VirtualSdCard)
    } else {
        None
    }
}

/// The wire token of a kind, as an owned string.
fn kind_label(kind: SubsystemKind) -> (r: String)
    ensures
        r@ == kind_token(kind),
{
    match kind {
        SubsystemKind::ControllerFan => String::from_str("controller_fan"),
        SubsystemKind::ExcludeObject => String::from_str("exclude_object"),
        SubsystemKind::Extruder => String::from_str("extruder"),
        SubsystemKind::Fan => String::from_str("fan"),
        SubsystemKind::FanGeneric => String::from_str("fan_generic"),
        SubsystemKind::FilamentMotionSensor => String::from_str("filament_motion_sensor"),
        SubsystemKind::FilamentSwitchSensor => String::from_str("filament_switch_sensor"),
        SubsystemKind::GcodeMove => String::from_str("gcode_move"),
        SubsystemKind::HeaterBed => String::from_str("heater_bed"),
        SubsystemKind::HeaterFan => String::from_str("heater_fan"),
        SubsystemKind::Mcu => String::from_str("mcu"),
        SubsystemKind::MoonrakerStatus => String::from_str("moonraker"),
        SubsystemKind::MotionReport => String::from_str("motion_report"),
        SubsystemKind::PauseResume => String::from_str("pause_resume"),
        SubsystemKind::PrintStats => String::from_str("print_stats"),
        SubsystemKind::Probe => String::from_str("probe"),
        SubsystemKind::StepperEnable => String::from_str("stepper_enable"),
        SubsystemKind::TemperatureSensor => String::from_str("temperature_sensor"),
        SubsystemKind::Tmc2130 => String::from_str("tmc2130"),
        SubsystemKind::Tmc2208 => String::from_str("tmc2208"),
        SubsystemKind::Tmc2209 => String::from_str("tmc2209"),
        SubsystemKind::Tmc2240 => String::from_str("tmc2240"),
        SubsystemKind::Tmc2660 => String::from_str("tmc2660"),
        SubsystemKind::Tmc5160 => String::from_str("tmc5160"),
        SubsystemKind::Toolhead => String::from_str("toolhead"),
        SubsystemKind::VirtualSdCard => String::from_str("virtual_sdcard"),
        SubsystemKind::Webhooks => String::from_str("webhooks"),
        SubsystemKind::ZThermalAdjust => String::from_str("z_thermal_adjust"),
        SubsystemKind::ZTilt => String::from_str("z_tilt"),
    }
}

/// The naming rule of a kind.
fn naming_of(kind: SubsystemKind) -> (r: KindNaming)
    ensures
        r == kind_naming(kind),
{
    match kind {
        SubsystemKind::ControllerFan => KindNaming::RequiresName,
        SubsystemKind::FanGeneric => KindNaming::RequiresName,
        SubsystemKind::FilamentMotionSensor => KindNaming::RequiresName,
        SubsystemKind::FilamentSwitchSensor => KindNaming::RequiresName,
        SubsystemKind::HeaterFan => KindNaming::RequiresName,
        SubsystemKind::TemperatureSensor => KindNaming::RequiresName,
        SubsystemKind::Tmc2130 => KindNaming::RequiresName,
        SubsystemKind::Tmc2208 => KindNaming::RequiresName,
        SubsystemKind::Tmc2209 => KindNaming::RequiresName,
        SubsystemKind::Tmc2240 => KindNaming::RequiresName,
        SubsystemKind::Tmc2660 => KindNaming::RequiresName,
        SubsystemKind::Tmc5160 => KindNaming::RequiresName,
        SubsystemKind::Extruder => KindNaming::DefaultsToKind,
        SubsystemKind::HeaterBed => KindNaming::DefaultsToKind,
        SubsystemKind::Mcu => KindNaming::BareOnly,
        SubsystemKind::Fan => KindNaming::FixedName,
        _ => KindNaming::NoName,
    }
}

impl SubsystemKey {
    /// Parses a wire topic into a key.  Returns `None` on exactly the topics
    /// outside the declared grammar, which callers skip without failing.
    pub fn parse(topic: &str) -> (r: Option<SubsystemKey>)
        ensures
            r is Some <==> spec_parse(topic@) is Some,
            r matches Some(k) ==> spec_parse(topic@) == Some(k@) && key_wire_wf(k@),
    {
        proof {
            lemma_parse_wire_wf(topic@);
        }
        let i0 = skip_spaces_exec(topic, 0);
        let j0 = scan_token_exec(topic, i0);
        if i0 == j0 {
            proof {
                assert(topic@.subrange(i0 as int, j0 as int) =~= Seq::<char>::empty());
            }
            return None;
        }
        let t1 = topic.substring_char(i0, j0);
        let kind = match kind_of_token(t1) {
            Some(kd) => kd,
            None => {
                return None;
            },
        };
        let i1 = skip_spaces_exec(topic, j0);
        let j1 = scan_token_exec(topic, i1);
        let r = match naming_of(kind) {
            KindNaming::RequiresName => {
                if i1 == j1 {
                    proof {
                        assert(topic@.subrange(i1 as int, j1 as int) =~= Seq::<char>::empty());
                    }
                    None
                } else {
                    let t2 = topic.substring_char(i1, j1);
                    Some(SubsystemKey { kind, name: t2.to_owned() })
                }
            },
            KindNaming::DefaultsToKind => {
                let name = if i1 == j1 {
                    proof {
                        assert(topic@.subrange(i1 as int, j1 as int) =~= Seq::<char>::empty());
                    }
                    kind_label(kind)
                } else {
                    topic.substring_char(i1, j1).to_owned()
                };
                Some(SubsystemKey { kind, name })
            },
            KindNaming::BareOnly => {
                if i1 == j1 {
                    proof {
                        assert(topic@.subrange(i1 as int, j1 as int) =~= Seq::<char>::empty());
                    }
                    Some(SubsystemKey { kind, name: kind_label(kind) })
                } else {
                    None
                }
            },
            KindNaming::FixedName => Some(SubsystemKey { kind, name: kind_label(kind) }),
            KindNaming::NoName => Some(SubsystemKey { kind, name: String::new() }),
        };
        proof {
            if r is Some {
                assert(spec_parse(topic@) matches Some(m) && m =~= r->0@);
            }
        }
        r
    }

    /// Renders the key's canonical wire topic.
    pub fn render(&self) -> (r: String)
        ensures
            r@ == spec_render(self@),
    {
        let label = kind_label(self.kind);
        let naming = naming_of(self.kind);
        let with_name = match naming {
            KindNaming::RequiresName => true,
            KindNaming::DefaultsToKind => !str_eq(self.name.as_str(), label.as_str()),
            KindNaming::BareOnly => false,
            KindNaming::FixedName => false,
            KindNaming::NoName => false,
        };
        if with_name {
            let mut out = label;
            out.append(" ");
            out.append(self.name.as_str());
            proof {
                reveal_strlit(" ");
                assert(" "@ =~= seq![' ']);
            }
            out
        } else {
            label
        }
    }

    /// Whether two keys name the same subsystem instance.
    pub fn same_key(&self, other: &SubsystemKey) -> (r: bool)
        ensures
            r == (self@ == other@),
    {
        if self.kind == other.kind {
            let r = str_eq(self.name.as_str(), other.name.as_str());
            proof {
                if r {
                    assert(self@ =~= other@);
                }
            }
            r
        } else {
            false
        }
    }

    /// An owned copy of the key.
    pub fn duplicate(&self) -> (r: SubsystemKey)
        ensures
            r@ == self@,
    {
        SubsystemKey { kind: self.kind, name: self.name.clone() }
    }
}

} // verus!

use mamalluca::rpc::dec_of_u64;
use mamalluca::rpc::get_field;
use mamalluca::rpc::parse_u64;
use mamalluca::session::Action;
use mamalluca::session::CallOutcome;
use mamalluca::session::ConnectionState;
use mamalluca::session::DeviceSignal;
use mamalluca::session::Engine;
use mamalluca::topic::SubsystemKey;
use mamalluca::topic::SubsystemKind;
use mamalluca::value::clone_value;
use mamalluca::value::JsonValue;

fn num(text: &str) -> JsonValue {
    JsonValue::Num(text.to_string())
}

fn txt(text: &str) -> JsonValue {
    JsonValue::Str(text.to_string())
}

fn obj(pairs: Vec<(&str, JsonValue)>) -> JsonValue {
    JsonValue::Obj(pairs.into_iter().map(|(k, v)| (k.to_string(), v)).collect())
}

fn notification(method: &str, params: JsonValue) -> JsonValue {
    obj(vec![("method", txt(method)), ("params", params)])
}

fn response(id: &str, result: JsonValue) -> JsonValue {
    obj(vec![("id", num(id)), ("result", result)])
}

/// The one frame a single-action list asks to send.
fn sent_frame(acts: &[Action<u32>]) -> &JsonValue {
    assert_eq!(acts.len(), 1);
    match &acts[0] {
        Action::SendFrame(f) => f,
        other => panic!("expected a frame to send, got {:?}", other),
    }
}

fn frame_field<'a>(frame: &'a JsonValue, name: &str) -> &'a JsonValue {
    get_field(frame, name).unwrap_or_else(|| panic!("frame has no field {:?}", name))
}

fn frame_id_text(frame: &JsonValue) -> String {
    match frame_field(frame, "id") {
        JsonValue::Num(s) => s.clone(),
        other => panic!("id is not a number: {:?}", other),
    }
}

fn method_of(frame: &JsonValue) -> String {
    match frame_field(frame, "method") {
        JsonValue::Str(s) => s.clone(),
        other => panic!("method is not a string: {:?}", other),
    }
}

/// Drives a full bootstrap: connect, answer discovery with `topics`, and
/// answer the subscribe call with `status_pairs` as the initial snapshot.
fn bootstrap(eng: &mut Engine<u32>, topics: Vec<&str>, status_pairs: Vec<(&str, JsonValue)>) {
    let acts = eng.on_connected();
    let discover = sent_frame(&acts);
    assert_eq!(method_of(discover), "printer.objects.list");
    let discover_id = frame_id_text(discover);

    let objects = JsonValue::Arr(topics.into_iter().map(txt).collect());
    let acts = eng.on_frame(response(&discover_id, obj(vec![("objects", objects)])));
    let subscribe = sent_frame(&acts);
    assert_eq!(method_of(subscribe), "printer.objects.subscribe");
    let subscribe_id = frame_id_text(subscribe);

    let acts = eng.on_frame(response(&subscribe_id, obj(vec![("status", obj(status_pairs))])));
    assert!(acts.is_empty());
}

fn key(topic: &str) -> SubsystemKey {
    SubsystemKey::parse(topic).expect(topic)
}

#[test]
fn bootstrap_filters_unknown_topics_and_seeds() {
    let mut eng: Engine<u32> = Engine::new();
    let acts = eng.on_connected();
    let discover = sent_frame(&acts);
    assert_eq!(method_of(discover), "printer.objects.list");
    let discover_id = frame_id_text(discover);

    let objects = JsonValue::Arr(vec![
        txt("extruder"),
        txt("mcu bogus_unknown_subsystem"),
        txt("heater_bed"),
    ]);
    let acts = eng.on_frame(response(&discover_id, obj(vec![("objects", objects)])));
    let subscribe = sent_frame(&acts);
    assert_eq!(method_of(subscribe), "printer.objects.subscribe");

    // The filtered set keeps the two known topics and drops the bogus one.
    let wanted = frame_field(frame_field(subscribe, "params"), "objects");
    assert_eq!(
        wanted,
        &obj(vec![("extruder", JsonValue::Null), ("heater_bed", JsonValue::Null)])
    );

    // Seed the snapshot and check the cache became authoritative.
    assert!(!eng.authoritative());
    let subscribe_id = frame_id_text(subscribe);
    let status = obj(vec![
        ("extruder", obj(vec![("temperature", num("200.1"))])),
        ("heater_bed", obj(vec![("temperature", num("60.0"))])),
    ]);
    let acts = eng.on_frame(response(&subscribe_id, obj(vec![("status", status)])));
    assert!(acts.is_empty());
    assert!(eng.authoritative());
    assert_eq!(eng.state(), ConnectionState::Subscribed);

    assert_eq!(
        eng.lookup(&key("extruder")),
        Some(&obj(vec![("temperature", num("200.1"))]))
    );
    assert_eq!(
        eng.lookup(&key("heater_bed")),
        Some(&obj(vec![("temperature", num("60.0"))]))
    );
    assert_eq!(eng.snapshot().len(), 2);
}

#[test]
fn discovery_call_uses_the_rpc_envelope() {
    let mut eng: Engine<u32> = Engine::new();
    let acts = eng.on_connected();
    assert_eq!(
        sent_frame(&acts),
        &obj(vec![
            ("method", txt("printer.objects.list")),
            ("id", num("0")),
            ("jsonrpc", txt("2.0")),
            ("params", obj(vec![])),
        ])
    );
    assert_eq!(eng.state(), ConnectionState::Connected);
}

#[test]
fn patch_updates_only_its_fields() {
    let mut eng: Engine<u32> = Engine::new();
    bootstrap(
        &mut eng,
        vec!["extruder", "heater_bed"],
        vec![
            ("extruder", obj(vec![("temperature", num("200.1")), ("target", num("205.0"))])),
            ("heater_bed", obj(vec![("temperature", num("60.0"))])),
        ],
    );

    let patch = JsonValue::Arr(vec![obj(vec![(
        "extruder",
        obj(vec![("temperature", num("205.3"))]),
    )])]);
    let acts = eng.on_frame(notification("notify_status_update", patch));
    assert!(acts.is_empty());

    assert_eq!(
        eng.lookup(&key("extruder")),
        Some(&obj(vec![("temperature", num("205.3")), ("target", num("205.0"))]))
    );
    assert_eq!(
        eng.lookup(&key("heater_bed")),
        Some(&obj(vec![("temperature", num("60.0"))]))
    );
}

#[test]
fn disconnect_clears_the_snapshot() {
    let mut eng: Engine<u32> = Engine::new();
    bootstrap(
        &mut eng,
        vec!["extruder"],
        vec![("extruder", obj(vec![("temperature", num("200.1"))]))],
    );
    let patch = JsonValue::Arr(vec![obj(vec![(
        "extruder",
        obj(vec![("temperature", num("201.0"))]),
    )])]);
    eng.on_frame(notification("notify_status_update", patch));
    assert_eq!(eng.snapshot().len(), 1);

    let acts = eng.on_disconnected();
    assert!(acts.is_empty());
    assert_eq!(eng.state(), ConnectionState::Disconnected);
    assert!(!eng.authoritative());
    assert!(eng.snapshot().is_empty());
}

#[test]
fn orphaned_calls_fail_on_disconnect() {
    let mut eng: Engine<u32> = Engine::new();
    let acts = eng.call("server.info", obj(vec![]), 7);
    let frame = sent_frame(&acts);
    assert_eq!(method_of(frame), "server.info");
    let call_id = frame_id_text(frame);

    // The disconnect strikes before the response arrives: the caller is
    // told the connection was lost instead of hanging forever.
    let acts = eng.on_disconnected();
    assert_eq!(acts, vec![Action::CompleteCall(7, CallOutcome::ConnectionLost)]);

    // The response that arrives afterwards finds no pending call and is
    // dropped without any effect.
    let acts = eng.on_frame(response(&call_id, txt("late")));
    assert!(acts.is_empty());
}

#[test]
fn unparsable_topic_in_batch_skips_only_that_pair() {
    let mut eng: Engine<u32> = Engine::new();
    bootstrap(
        &mut eng,
        vec!["extruder", "heater_bed"],
        vec![
            ("extruder", obj(vec![("temperature", num("200.0"))])),
            ("heater_bed", obj(vec![("temperature", num("60.0"))])),
        ],
    );

    let patch = JsonValue::Arr(vec![obj(vec![
        ("extruder", obj(vec![("temperature", num("210.0"))])),
        ("bogus_subsystem", obj(vec![("temperature", num("999.9"))])),
        ("heater_bed", obj(vec![("temperature", num("61.0"))])),
    ])]);
    eng.on_frame(notification("notify_status_update", patch));

    assert_eq!(
        eng.lookup(&key("extruder")),
        Some(&obj(vec![("temperature", num("210.0"))]))
    );
    assert_eq!(
        eng.lookup(&key("heater_bed")),
        Some(&obj(vec![("temperature", num("61.0"))]))
    );
    // Only the two valid topics are in the cache.
    assert_eq!(eng.snapshot().len(), 2);
}

#[test]
fn call_resolves_with_the_result() {
    let mut eng: Engine<u32> = Engine::new();
    let acts = eng.call("server.info", obj(vec![]), 3);
    let call_id = frame_id_text(sent_frame(&acts));
    let acts = eng.on_frame(response(&call_id, obj(vec![("state", txt("ready"))])));
    assert_eq!(
        acts,
        vec![Action::CompleteCall(3, CallOutcome::Success(obj(vec![("state", txt("ready"))])))]
    );
}

#[test]
fn call_resolves_with_the_remote_error() {
    let mut eng: Engine<u32> = Engine::new();
    let acts = eng.call("server.info", obj(vec![]), 4);
    let call_id = frame_id_text(sent_frame(&acts));
    let error = obj(vec![("code", num("-32601")), ("message", txt("method not found"))]);
    let frame = obj(vec![("id", num(&call_id)), ("error", clone_value(&error))]);
    let acts = eng.on_frame(frame);
    assert_eq!(acts, vec![Action::CompleteCall(4, CallOutcome::RemoteError(error))]);
}

#[test]
fn response_with_unknown_id_is_dropped() {
    let mut eng: Engine<u32> = Engine::new();
    let acts = eng.on_frame(response("12345", txt("nobody asked")));
    assert!(acts.is_empty());
    let acts = eng.on_frame(obj(vec![("result", txt("no id at all"))]));
    assert!(acts.is_empty());
    // A frame that is not even an object reads as a response without an id.
    let acts = eng.on_frame(num("3.14"));
    assert!(acts.is_empty());
}

#[test]
fn device_signals_are_forwarded() {
    let mut eng: Engine<u32> = Engine::new();
    let acts = eng.on_frame(notification("notify_klippy_ready", obj(vec![])));
    assert_eq!(acts, vec![Action::DeviceEvent(DeviceSignal::Ready)]);
    let acts = eng.on_frame(notification("notify_klippy_shutdown", obj(vec![])));
    assert_eq!(acts, vec![Action::DeviceEvent(DeviceSignal::Shutdown)]);
    let acts = eng.on_frame(notification("notify_klippy_disconnected", obj(vec![])));
    assert_eq!(acts, vec![Action::DeviceEvent(DeviceSignal::DeviceDisconnected)]);
}

#[test]
fn unknown_notifications_are_ignored() {
    let mut eng: Engine<u32> = Engine::new();
    let acts = eng.on_frame(notification("notify_update_refreshed", obj(vec![])));
    assert!(acts.is_empty());
    assert!(eng.snapshot().is_empty());
}

#[test]
fn proc_stat_update_replaces_the_service_slot() {
    let mut eng: Engine<u32> = Engine::new();
    eng.on_frame(notification("notify_proc_stat_update", obj(vec![("cpu", num("12.5"))])));
    let slot = SubsystemKey { kind: SubsystemKind::MoonrakerStatus, name: String::new() };
    assert_eq!(eng.lookup(&slot), Some(&obj(vec![("cpu", num("12.5"))])));

    // A later update replaces the slot wholesale rather than merging.
    eng.on_frame(notification("notify_proc_stat_update", obj(vec![("mem", num("42"))])));
    assert_eq!(eng.lookup(&slot), Some(&obj(vec![("mem", num("42"))])));
}

#[test]
fn malformed_discovery_subscribes_to_nothing() {
    let mut eng: Engine<u32> = Engine::new();
    let acts = eng.on_connected();
    let discover_id = frame_id_text(sent_frame(&acts));
    let acts = eng.on_frame(response(&discover_id, txt("not an object list")));
    let subscribe = sent_frame(&acts);
    assert_eq!(method_of(subscribe), "printer.objects.subscribe");
    let wanted = frame_field(frame_field(subscribe, "params"), "objects");
    assert_eq!(wanted, &obj(vec![]));
}

#[test]
fn subscribe_without_snapshot_stays_unsubscribed() {
    let mut eng: Engine<u32> = Engine::new();
    let acts = eng.on_connected();
    let discover_id = frame_id_text(sent_frame(&acts));
    let objects = JsonValue::Arr(vec![txt("extruder")]);
    let acts = eng.on_frame(response(&discover_id, obj(vec![("objects", objects)])));
    let subscribe_id = frame_id_text(sent_frame(&acts));

    // The subscribe response carries no initial snapshot: this connection
    // epoch never becomes authoritative; the next reconnect retries.
    let acts = eng.on_frame(response(&subscribe_id, obj(vec![])));
    assert!(acts.is_empty());
    assert!(!eng.authoritative());
    assert_eq!(eng.state(), ConnectionState::Connected);
}

#[test]
fn call_ids_render_and_parse_as_decimal() {
    assert_eq!(dec_of_u64(0), "0");
    assert_eq!(dec_of_u64(7), "7");
    assert_eq!(dec_of_u64(1234567890123456789), "1234567890123456789");
    assert_eq!(dec_of_u64(u64::MAX), "18446744073709551615");
    assert_eq!(parse_u64("0"), Some(0));
    assert_eq!(parse_u64("42"), Some(42));
    assert_eq!(parse_u64("18446744073709551615"), Some(u64::MAX));
    assert_eq!(parse_u64("18446744073709551616"), None);
    assert_eq!(parse_u64(""), None);
    assert_eq!(parse_u64("12x"), None);
    assert_eq!(parse_u64("-3"), None);
    for n in [0u64, 1, 9, 10, 99, 100, 4096, u64::MAX - 1, u64::MAX] {
        assert_eq!(parse_u64(&dec_of_u64(n)), Some(n));
    }
}

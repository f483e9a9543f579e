//! The status synchronization engine.
//!
//! The engine is the decision core of one upstream session: it owns the
//! connection state, the status cache and the table of calls in flight, and
//! turns each event — connected, disconnected, an inbound frame — into the
//! next state plus a list of actions.  The surrounding process owns the
//! socket and the timers: it performs each action (write a frame, resolve a
//! waiting caller, report a device signal) and feeds the next event back in.
//! Events arrive strictly one at a time, as the single consumer task reads
//! them off the transport's channel.

use vstd::prelude::*;

use crate::cache::cache_after_merge;
use crate::cache::StatusCache;
use crate::correlator::Correlator;
use crate::rpc::build_request;
use crate::rpc::dec_digits;
use crate::rpc::frame_error;
use crate::rpc::frame_id;
use crate::rpc::frame_is_notification;
use crate::rpc::frame_method;
use crate::rpc::frame_params;
use crate::rpc::frame_result;
use crate::rpc::get_field;
use crate::rpc::jv_field;
use crate::rpc::parse_u64;
use crate::rpc::rpc_request;
use crate::topic::spec_parse;
use crate::topic::spec_render;
use crate::topic::KeyModel;
use crate::topic::SubsystemKey;
use crate::topic::SubsystemKind;
use crate::value::clone_value;
use crate::value::jv_wf;
use crate::value::lemma_wf_arr_item;
use crate::value::lemma_wf_obj_value;
use crate::value::view_value;
use crate::value::Jv;
use crate::value::JsonValue;

verus! {

/// Where the session stands with the upstream server.
#[derive(Clone, Copy, Debug, PartialEq, Eq, Structural)]
pub enum ConnectionState {
    /// No connection; the transport is about to retry.
    Disconnected,
    /// The first connection attempt is under way.
    Connecting,
    /// Connected; bootstrap has not finished, so the cache is not yet
    /// authoritative.
    Connected,
    /// Bootstrap finished: discovered, subscribed and seeded.
    Subscribed,
}

/// What a call in flight is waiting for.
pub enum PendingCall<S> {
    /// The bootstrap's "list known subsystems" call.
    Discover,
    /// The bootstrap's "subscribe and send the initial snapshot" call.
    Subscribe,
    /// An outside caller's request; `S` stands for the one place its
    /// response goes.
    External(S),
}

/// How a finished call came out.
#[derive(Debug, PartialEq, Eq)]
pub enum CallOutcome {
    /// The peer answered; the payload is the `result` value.
    Success(JsonValue),
    /// The peer answered with an RPC-level error object.
    RemoteError(JsonValue),
    /// The connection dropped before a response arrived.
    ConnectionLost,
}

/// A device-level signal forwarded to the projection collaborator.
#[derive(Clone, Copy, Debug, PartialEq, Eq, Structural)]
pub enum DeviceSignal {
    Ready,
    Shutdown,
    DeviceDisconnected,
}

/// What the surrounding process must do next.
#[derive(Debug, PartialEq, Eq)]
pub enum Action<S> {
    /// Write this frame to the socket.
    SendFrame(JsonValue),
    /// Resolve the waiting caller whose slot this is.
    CompleteCall(S, CallOutcome),
    /// Hand this signal to the projection/log collaborator.
    DeviceEvent(DeviceSignal),
}

/// The model of an outcome.
pub enum OutcomeModel {
    Success(Jv),
    RemoteError(Jv),
    ConnectionLost,
}

/// The model of an action.  The response slot `S` is opaque to the engine
/// and appears in the model as itself.
pub enum ActionModel<S> {
    SendFrame(Jv),
    CompleteCall(S, OutcomeModel),
    DeviceEvent(DeviceSignal),
}

/// The model of an engine: its state, its cache as a map, its calls in
/// flight and its id counter.
pub struct EngineModel<S> {
    pub state: ConnectionState,
    pub cache: Map<KeyModel, Jv>,
    pub pending: Map<u64, PendingCall<S>>,
    pub counter: u64,
}

/// The model of an outcome value.
pub open spec fn outcome_view(oc: CallOutcome) -> OutcomeModel {
    match oc {
        CallOutcome::Success(v) => OutcomeModel::Success(view_value(v)),
        CallOutcome::RemoteError(v) => OutcomeModel::RemoteError(view_value(v)),
        CallOutcome::ConnectionLost => OutcomeModel::ConnectionLost,
    }
}

/// The model of an action value.
pub open spec fn action_view<S>(a: Action<S>) -> ActionModel<S> {
    match a {
        Action::SendFrame(v) => ActionModel::SendFrame(view_value(v)),
        Action::CompleteCall(s, oc) => ActionModel::CompleteCall(s, outcome_view(oc)),
        Action::DeviceEvent(d) => ActionModel::DeviceEvent(d),
    }
}

/// The models of an action list, in order.
pub open spec fn actions_view<S>(s: Seq<Action<S>>) -> Seq<ActionModel<S>> {
    s.map(|i: int, a: Action<S>| action_view(a))
}

/// The cache slot that holds the service's own process statistics.
pub open spec fn moonraker_key() -> KeyModel {
    KeyModel { kind: SubsystemKind::MoonrakerStatus, name: Seq::empty() }
}

// ---------------------------------------------------------------------------
// What one event does: the specification of the engine.
// ---------------------------------------------------------------------------

/// One topic/patch pair of a status update applied to the cache: a
/// parsable topic is merged, an unparsable one is skipped and the rest of
/// the batch still lands.
pub open spec fn apply_status_pair(m: Map<KeyModel, Jv>, key: Seq<char>, patch: Jv) -> Map<
    KeyModel,
    Jv,
> {
    match spec_parse(key) {
        Some(k) => cache_after_merge(m, k, patch),
        None => m,
    }
}

/// A whole batch of topic/patch pairs applied in order.
pub open spec fn apply_status_pairs(
    m: Map<KeyModel, Jv>,
    fields: Seq<(Seq<char>, Jv)>,
) -> Map<KeyModel, Jv>
    decreases fields.len(),
{
    if fields.len() == 0 {
        m
    } else {
        apply_status_pairs(
            apply_status_pair(m, fields[0].0, fields[0].1),
            fields.subrange(1, fields.len() as int),
        )
    }
}

/// The elements of a status-update payload applied in order; an element
/// that is not an object is skipped.
pub open spec fn apply_status_updates(m: Map<KeyModel, Jv>, arr: Seq<Jv>) -> Map<KeyModel, Jv>
    decreases arr.len(),
{
    if arr.len() == 0 {
        m
    } else {
        let m1 = if arr[0] is Obj {
            apply_status_pairs(m, arr[0]->Obj_0)
        } else {
            m
        };
        apply_status_updates(m1, arr.subrange(1, arr.len() as int))
    }
}

/// What a status-update notification with payload `p` does to the cache:
/// a payload that is not an array is dropped whole.
pub open spec fn status_update_effect(m: Map<KeyModel, Jv>, p: Jv) -> Map<KeyModel, Jv> {
    if p is Arr {
        apply_status_updates(m, p->Arr_0)
    } else {
        m
    }
}

/// The string elements of a discovery response's subsystem list, in order.
pub open spec fn string_items(items: Seq<Jv>) -> Seq<Seq<char>>
    decreases items.len(),
{
    if items.len() == 0 {
        Seq::empty()
    } else {
        let rest = string_items(items.subrange(1, items.len() as int));
        match items[0] {
            Jv::Str(s) => seq![s] + rest,
            _ => rest,
        }
    }
}

/// The parsable topics of a list, as keys, in order: the filter step of the
/// bootstrap, where unknown subsystem types are silently dropped.
pub open spec fn parsed_keys(ts: Seq<Seq<char>>) -> Seq<KeyModel>
    decreases ts.len(),
{
    if ts.len() == 0 {
        Seq::empty()
    } else {
        let rest = parsed_keys(ts.subrange(1, ts.len() as int));
        match spec_parse(ts[0]) {
            Some(k) => seq![k] + rest,
            None => rest,
        }
    }
}

/// The topic list of a discovery response: `result.objects`, where that is
/// an array; anything else reads as the empty list.
pub open spec fn discover_objects(fv: Jv) -> Seq<Seq<char>> {
    match frame_result(fv) {
        Some(res) => match jv_field(res, "objects"@) {
            Some(Jv::Arr(items)) => string_items(items),
            _ => Seq::empty(),
        },
        None => Seq::empty(),
    }
}

/// The parameters of the subscribe call for the filtered key set: each key
/// rendered back to its topic, asking for whole-object snapshots.
pub open spec fn subscribe_params(ks: Seq<KeyModel>) -> Jv {
    Jv::Obj(
        seq![("objects"@, Jv::Obj(ks.map(|i: int, k: KeyModel| (spec_render(k), Jv::Null))))],
    )
}

/// The initial snapshot of a subscribe response: its `result.status`
/// value, if any.
pub open spec fn subscribe_status(fv: Jv) -> Option<Jv> {
    match frame_result(fv) {
        Some(res) => jv_field(res, "status"@),
        None => None,
    }
}

/// The cache seeded from an initial snapshot: cleared, then every pair of
/// the snapshot object merged; a snapshot that is not an object leaves the
/// cache cleared.
pub open spec fn seeded_cache(status: Jv) -> Map<KeyModel, Jv> {
    if status is Obj {
        apply_status_pairs(Map::empty(), status->Obj_0)
    } else {
        Map::empty()
    }
}

/// Nothing observable changed.
pub open spec fn engine_unchanged<S>(pre: EngineModel<S>, post: EngineModel<S>) -> bool {
    post.state == pre.state && post.cache == pre.cache && post.pending == pre.pending
        && post.counter == pre.counter
}

/// What the response outcome handed to a waiting caller must say: the
/// peer's error object where one came, else the `result` value.
pub open spec fn outcome_of(fv: Jv, oc: OutcomeModel) -> bool {
    match frame_error(fv) {
        Some(e) => oc == OutcomeModel::RemoteError(e),
        None => oc == OutcomeModel::Success(
            match frame_result(fv) {
                Some(r) => r,
                None => Jv::Null,
            },
        ),
    }
}

/// What an inbound notification does (the notification router).
pub open spec fn notification_step<S>(
    pre: EngineModel<S>,
    fv: Jv,
    post: EngineModel<S>,
    acts: Seq<ActionModel<S>>,
) -> bool {
    post.state == pre.state && post.pending == pre.pending && post.counter == pre.counter
        && match frame_method(fv) {
        Some(m) => {
            if m == "notify_status_update"@ {
                post.cache == status_update_effect(pre.cache, frame_params(fv)) && acts.len() == 0
            } else if m == "notify_proc_stat_update"@ {
                post.cache == pre.cache.insert(moonraker_key(), frame_params(fv)) && acts.len()
                    == 0
            } else if m == "notify_klippy_ready"@ {
                post.cache == pre.cache && acts == seq![
                    ActionModel::<S>::DeviceEvent(DeviceSignal::Ready),
                ]
            } else if m == "notify_klippy_shutdown"@ {
                post.cache == pre.cache && acts == seq![
                    ActionModel::<S>::DeviceEvent(DeviceSignal::Shutdown),
                ]
            } else if m == "notify_klippy_disconnected"@ {
                post.cache == pre.cache && acts == seq![
                    ActionModel::<S>::DeviceEvent(DeviceSignal::DeviceDisconnected),
                ]
            } else {
                post.cache == pre.cache && acts.len() == 0
            }
        },
        None => post.cache == pre.cache && acts.len() == 0,
    }
}

/// What an inbound response does (the correlator, and the bootstrap's two
/// continuations).
pub open spec fn response_step<S>(
    pre: EngineModel<S>,
    fv: Jv,
    post: EngineModel<S>,
    acts: Seq<ActionModel<S>>,
) -> bool {
    match frame_id(fv) {
        None => engine_unchanged(pre, post) && acts.len() == 0,
        Some(id) => {
            if !pre.pending.dom().contains(id) {
                // A response nothing waits for, e.g. a late duplicate:
                // dropped, never fatal.
                engine_unchanged(pre, post) && acts.len() == 0
            } else {
                match pre.pending[id] {
                    PendingCall::External(s) => post.state == pre.state && post.cache == pre.cache
                        && post.counter == pre.counter && post.pending == pre.pending.remove(id)
                        && acts.len() == 1 && (acts[0] matches ActionModel::CompleteCall(s2, oc)
                        && s2 == s && outcome_of(fv, oc)),
                    PendingCall::Discover => post.state == pre.state && post.cache == pre.cache
                        && post.counter == pre.counter + 1 && post.pending == pre.pending.remove(
                        id,
                    ).insert(pre.counter, PendingCall::Subscribe) && acts == seq![
                        ActionModel::<S>::SendFrame(
                            rpc_request(
                                "printer.objects.subscribe"@,
                                pre.counter,
                                subscribe_params(parsed_keys(discover_objects(fv))),
                            ),
                        ),
                    ],
                    PendingCall::Subscribe => post.counter == pre.counter && post.pending
                        == pre.pending.remove(id) && acts.len() == 0 && match subscribe_status(
                        fv,
                    ) {
                        Some(st) => post.cache == seeded_cache(st) && post.state
                            == ConnectionState::Subscribed,
                        None => post.cache == pre.cache && post.state == pre.state,
                    },
                }
            }
        },
    }
}

/// What one inbound frame does: a frame carrying a `method` is routed as a
/// notification, anything else as a response.
pub open spec fn frame_step<S>(
    pre: EngineModel<S>,
    fv: Jv,
    post: EngineModel<S>,
    acts: Seq<ActionModel<S>>,
) -> bool {
    if frame_is_notification(fv) {
        notification_step(pre, fv, post, acts)
    } else {
        response_step(pre, fv, post, acts)
    }
}

/// The connection-lost completions for a drained call table: one per
/// external caller, none for the bootstrap's own calls.
fn lost_call_actions<S>(input: Vec<(u64, PendingCall<S>)>) -> (r: Vec<Action<S>>)
    ensures
        forall|i: int|
            0 <= i < r@.len() ==> (#[trigger] r@[i] matches Action::CompleteCall(
                s,
                CallOutcome::ConnectionLost,
            ) && exists|j: int|
                0 <= j < input@.len() && (#[trigger] input@[j]).1 == PendingCall::External(s)),
        forall|j: int|
            0 <= j < input@.len() && (#[trigger] input@[j]).1 is External ==> exists|i: int|
                0 <= i < r@.len() && r@[i] == Action::CompleteCall(
                    input@[j].1->External_0,
                    CallOutcome::ConnectionLost,
                ),
{
    let ghost all = input@;
    let mut rest = input;
    let mut out: Vec<Action<S>> = Vec::new();
    proof {
        assert(all.subrange(0, all.len() as int) =~= all);
    }
    while rest.len() > 0
        invariant
            rest@.len() <= all.len(),
            rest@ == all.subrange(0, rest@.len() as int),
            forall|i: int|
                0 <= i < out@.len() ==> (#[trigger] out@[i] matches Action::CompleteCall(
                    s,
                    CallOutcome::ConnectionLost,
                ) && exists|j: int|
                    rest@.len() <= j < all.len() && (#[trigger] all[j]).1 == PendingCall::External(
                        s,
                    )),
            forall|j: int|
                rest@.len() <= j < all.len() && (#[trigger] all[j]).1 is External ==> exists|i: int|
                    0 <= i < out@.len() && out@[i] == Action::CompleteCall(
                        all[j].1->External_0,
                        CallOutcome::ConnectionLost,
                    ),
        decreases rest@.len(),
    {
        let ghost before = rest@;
        let pair = rest.pop().unwrap();
        proof {
            assert(before == all.subrange(0, before.len() as int));
            assert(before[before.len() - 1] == pair);
            assert(all.subrange(0, before.len() as int)[before.len() - 1] == all[before.len() - 1]);
            assert(all[before.len() - 1] == pair);
            assert forall|m: int| 0 <= m < rest@.len() implies rest@[m] == all[m] by {
                assert(rest@[m] == before[m]);
                assert(all.subrange(0, before.len() as int)[m] == all[m]);
            }
            assert(rest@ =~= all.subrange(0, rest@.len() as int));
        }
        let ghost prev_out = out@;
        let ghost pair_g = pair;
        let is_external = match &pair.1 {
            PendingCall::External(_) => true,
            _ => false,
        };
        if is_external {
            let s = match pair.1 {
                PendingCall::External(s) => s,
                _ => unreached(),
            };
            out.push(Action::CompleteCall(s, CallOutcome::ConnectionLost));
        }
        proof {
            assert forall|j: int|
                rest@.len() <= j < all.len() && (#[trigger] all[j]).1 is External implies exists|
                i: int,
            |
                0 <= i < out@.len() && out@[i] == Action::CompleteCall(
                    all[j].1->External_0,
                    CallOutcome::ConnectionLost,
                ) by {
                if j == rest@.len() {
                    assert(all[j] == pair_g);
                    assert(out@[out@.len() - 1] == Action::CompleteCall(
                        pair_g.1->External_0,
                        CallOutcome::ConnectionLost,
                    ));
                } else {
                    let i0 = choose|i: int|
                        0 <= i < prev_out.len() && prev_out[i] == Action::CompleteCall(
                            all[j].1->External_0,
                            CallOutcome::ConnectionLost,
                        );
                    assert(out@[i0] == prev_out[i0]);
                }
            }
        }
    }
    out
}

/// Skipping is harmless: a batch with an unparsable topic at `i` lands
/// exactly as the batch without that one pair, so every other pair still
/// merges.
pub proof fn lemma_status_pairs_skip_unparsable(
    m: Map<KeyModel, Jv>,
    fields: Seq<(Seq<char>, Jv)>,
    i: int,
)
    requires
        0 <= i < fields.len(),
        spec_parse(fields[i].0) is None,
    ensures
        apply_status_pairs(m, fields) == apply_status_pairs(m, fields.remove(i)),
    decreases fields.len(),
{
    let rest = fields.subrange(1, fields.len() as int);
    if i == 0 {
        assert(fields.remove(0) =~= rest);
    } else {
        let m1 = apply_status_pair(m, fields[0].0, fields[0].1);
        lemma_status_pairs_skip_unparsable(m1, rest, i - 1);
        assert(fields.remove(i)[0] == fields[0]);
        assert(fields.remove(i).subrange(1, fields.remove(i).len() as int) =~= rest.remove(i - 1));
    }
}

/// Applies one batch of topic/patch pairs to the cache, merging each pair
/// whose topic parses and skipping the others.
#[verifier::loop_isolation(false)]
fn apply_pairs_exec(cache: &mut StatusCache, fields: &Vec<(String, JsonValue)>)
    requires
        old(cache).wf(),
        forall|i: int|
            0 <= i < fields@.len() ==> jv_wf(view_value((#[trigger] fields@[i]).1)),
    ensures
        final(cache).wf(),
        final(cache)@ == apply_status_pairs(old(cache)@, crate::value::view_fields(fields@)),
{
    let ghost m0 = cache@;
    let ghost vfs = crate::value::view_fields(fields@);
    proof {
        crate::value::lemma_view_fields(fields@);
        assert(vfs.subrange(0, vfs.len() as int) =~= vfs);
    }
    let n = fields.len();
    let mut i: usize = 0;
    while i < n
        invariant
            i <= n,
            cache.wf(),
            apply_status_pairs(m0, vfs) == apply_status_pairs(
                cache@,
                vfs.subrange(i as int, vfs.len() as int),
            ),
        decreases n - i,
    {
        let ghost sub_i = vfs.subrange(i as int, vfs.len() as int);
        let ghost sub_n = vfs.subrange(i as int + 1, vfs.len() as int);
        proof {
            assert(sub_i[0] == vfs[i as int]);
            assert(sub_i.subrange(1, sub_i.len() as int) =~= sub_n);
        }
        match SubsystemKey::parse(fields[i].0.as_str()) {
            Some(key) => {
                proof {
                    assert(spec_parse(vfs[i as int].0) == Some(key@));
                    assert(jv_wf(view_value(fields@[i as int].1)));
                }
                cache.merge(key, &fields[i].1);
            },
            None => {
                proof {
                    assert(spec_parse(vfs[i as int].0) is None);
                }
            },
        }
        i = i + 1;
    }
    proof {
        assert(vfs.subrange(vfs.len() as int, vfs.len() as int) =~= Seq::<(Seq<char>, Jv)>::empty());
    }
}

/// Applies every object of a status-update payload to the cache, in order.
#[verifier::loop_isolation(false)]
fn apply_updates_exec(cache: &mut StatusCache, items: &Vec<JsonValue>)
    requires
        old(cache).wf(),
        forall|i: int| 0 <= i < items@.len() ==> jv_wf(view_value(#[trigger] items@[i])),
    ensures
        final(cache).wf(),
        final(cache)@ == apply_status_updates(old(cache)@, crate::value::view_items(items@)),
{
    let ghost m0 = cache@;
    let ghost vits = crate::value::view_items(items@);
    proof {
        crate::value::lemma_view_items(items@);
        assert(vits.subrange(0, vits.len() as int) =~= vits);
    }
    let n = items.len();
    let mut i: usize = 0;
    while i < n
        invariant
            i <= n,
            cache.wf(),
            apply_status_updates(m0, vits) == apply_status_updates(
                cache@,
                vits.subrange(i as int, vits.len() as int),
            ),
        decreases n - i,
    {
        let ghost sub_i = vits.subrange(i as int, vits.len() as int);
        let ghost sub_n = vits.subrange(i as int + 1, vits.len() as int);
        proof {
            assert(sub_i[0] == vits[i as int]);
            assert(sub_i.subrange(1, sub_i.len() as int) =~= sub_n);
        }
        match &items[i] {
            JsonValue::Obj(fields) => {
                proof {
                    assert(view_value(items@[i as int]) == Jv::Obj(
                        crate::value::view_fields(fields@),
                    ));
                    assert forall|j: int|
                        0 <= j < fields@.len() implies jv_wf(
                        view_value((#[trigger] fields@[j]).1),
                    ) by {
                        crate::value::lemma_view_fields(fields@);
                        assert(jv_wf(crate::value::view_fields(fields@)[j].1));
                    }
                }
                apply_pairs_exec(cache, fields);
            },
            _ => {},
        }
        i = i + 1;
    }
    proof {
        assert(vits.subrange(vits.len() as int, vits.len() as int) =~= Seq::<Jv>::empty());
    }
}

// ---------------------------------------------------------------------------
// The engine.
// ---------------------------------------------------------------------------

/// The decision core of one session.
pub struct Engine<S> {
    state: ConnectionState,
    cache: StatusCache,
    calls: Correlator<PendingCall<S>>,
}

impl<S> Engine<S> {
    /// The engine as its model.
    pub closed spec fn model(&self) -> EngineModel<S> {
        EngineModel {
            state: self.state,
            cache: self.cache@,
            pending: self.calls@,
            counter: self.calls.counter(),
        }
    }

    /// The cache holds each key once with a well-formed value, and call ids
    /// are unique and below the counter.
    pub closed spec fn wf(&self) -> bool {
        self.cache.wf() && self.calls.wf()
    }

    /// A fresh engine: first connection attempt under way, empty cache,
    /// no calls in flight.
    pub fn new() -> (r: Engine<S>)
        ensures
            r.wf(),
            r.model().state == ConnectionState::Connecting,
            r.model().cache == Map::<KeyModel, Jv>::empty(),
            r.model().pending == Map::<u64, PendingCall<S>>::empty(),
            r.model().counter == 0,
    {
        Engine { state: ConnectionState::Connecting, cache: StatusCache::new(), calls: Correlator::new() }
    }

    /// The connection state the engine believes.
    pub fn state(&self) -> (r: ConnectionState)
        ensures
            r == self.model().state,
    {
        self.state
    }

    /// The id the next issued call would get.  Ids only grow within one
    /// engine, so a caller can see that the id space is not exhausted.
    pub fn next_call_id(&self) -> (r: u64)
        ensures
            r == self.model().counter,
    {
        self.calls.peek_next_id()
    }

    /// Whether the cache is authoritative for export: bootstrap has
    /// finished and no disconnect has struck since.
    pub fn authoritative(&self) -> (r: bool)
        ensures
            r == (self.model().state == ConnectionState::Subscribed),
    {
        match self.state {
            ConnectionState::Subscribed => true,
            _ => false,
        }
    }

    /// A point-in-time copy of the cache for the exporter: each key at most
    /// once, reading exactly as the cache does.
    pub fn snapshot(&self) -> (r: Vec<(SubsystemKey, JsonValue)>)
        requires
            self.wf(),
        ensures
            crate::cache::cache_view(r@) == self.model().cache,
            crate::cache::entry_keys_unique(r@),
            forall|i: int|
                0 <= i < r@.len() ==> self.model().cache.dom().contains((#[trigger] r@[i]).0@)
                    && self.model().cache[r@[i].0@] == view_value(r@[i].1),
            r@.len() == 0 <==> self.model().cache.dom() =~= Set::<KeyModel>::empty(),
    {
        self.cache.snapshot()
    }

    /// The cached value of one subsystem, if any.
    pub fn lookup(&self, key: &SubsystemKey) -> (r: Option<&JsonValue>)
        requires
            self.wf(),
        ensures
            match r {
                Some(v) => self.model().cache.dom().contains(key@) && view_value(*v)
                    == self.model().cache[key@],
                None => !self.model().cache.dom().contains(key@),
            },
    {
        self.cache.lookup(key)
    }

    /// The connection came up (again): remember it and start the bootstrap
    /// by issuing the discovery call.
    pub fn on_connected(&mut self) -> (r: Vec<Action<S>>)
        requires
            old(self).wf(),
            old(self).model().counter < u64::MAX,
        ensures
            final(self).wf(),
            final(self).model().state == ConnectionState::Connected,
            final(self).model().cache == old(self).model().cache,
            final(self).model().pending == old(self).model().pending.insert(
                old(self).model().counter,
                PendingCall::Discover,
            ),
            final(self).model().counter == old(self).model().counter + 1,
            actions_view(r@) == seq![
                ActionModel::<S>::SendFrame(
                    rpc_request(
                        "printer.objects.list"@,
                        old(self).model().counter,
                        Jv::Obj(Seq::empty()),
                    ),
                ),
            ],
    {
        self.state = ConnectionState::Connected;
        let id = self.calls.next_id();
        self.calls.register(id, PendingCall::Discover);
        let params = JsonValue::Obj(Vec::new());
        proof {
            assert(crate::value::view_fields(Seq::<(String, JsonValue)>::empty()) =~= Seq::<
                (Seq<char>, Jv),
            >::empty());
        }
        let req = build_request("printer.objects.list", id, params);
        let mut out: Vec<Action<S>> = Vec::new();
        out.push(Action::SendFrame(req));
        proof {
            assert(actions_view(out@) =~= seq![
                ActionModel::<S>::SendFrame(
                    rpc_request(
                        "printer.objects.list"@,
                        old(self).model().counter,
                        Jv::Obj(Seq::empty()),
                    ),
                ),
            ]);
        }
        out
    }

    /// The connection dropped: clear the cache, go back to `Disconnected`,
    /// and fail every call still in flight with a connection-lost outcome,
    /// so no caller ever hangs on a response that cannot come.
    pub fn on_disconnected(&mut self) -> (r: Vec<Action<S>>)
        requires
            old(self).wf(),
        ensures
            final(self).wf(),
            final(self).model().state == ConnectionState::Disconnected,
            final(self).model().cache == Map::<KeyModel, Jv>::empty(),
            final(self).model().pending == Map::<u64, PendingCall<S>>::empty(),
            final(self).model().counter == old(self).model().counter,
            forall|i: int|
                0 <= i < r@.len() ==> (#[trigger] r@[i] matches Action::CompleteCall(
                    s,
                    CallOutcome::ConnectionLost,
                ) && exists|id: u64|
                    old(self).model().pending.dom().contains(id) && old(
                        self,
                    ).model().pending[id] == PendingCall::External(s)),
            forall|id: u64| #[trigger]
                old(self).model().pending.dom().contains(id) && old(self).model().pending[id]
                    is External ==> exists|i: int|
                    0 <= i < r@.len() && r@[i] == Action::CompleteCall(
                        old(self).model().pending[id]->External_0,
                        CallOutcome::ConnectionLost,
                    ),
    {
        self.cache.clear();
        self.state = ConnectionState::Disconnected;
        let drained = self.calls.fail_all();
        let ghost all = drained@;
        let out = lost_call_actions(drained);
        proof {
            assert forall|id: u64|
                #[trigger] old(self).model().pending.dom().contains(id) && old(
                    self,
                ).model().pending[id] is External implies exists|i: int|
                0 <= i < out@.len() && out@[i] == Action::CompleteCall(
                    old(self).model().pending[id]->External_0,
                    CallOutcome::ConnectionLost,
                ) by {
                let j = choose|j: int|
                    0 <= j < all.len() && (#[trigger] all[j]).0 == id && all[j].1 == old(
                        self,
                    ).model().pending[id];
                assert(all[j].1 is External);
            }
        }
        out
    }

    /// Issues a call on behalf of an outside caller: assigns it a fresh id,
    /// parks the caller's slot until the response or the next disconnect,
    /// and asks for the envelope to be written out.
    pub fn call(&mut self, method: &str, params: JsonValue, slot: S) -> (r: Vec<Action<S>>)
        requires
            old(self).wf(),
            old(self).model().counter < u64::MAX,
        ensures
            final(self).wf(),
            final(self).model().state == old(self).model().state,
            final(self).model().cache == old(self).model().cache,
            final(self).model().pending == old(self).model().pending.insert(
                old(self).model().counter,
                PendingCall::External(slot),
            ),
            final(self).model().counter == old(self).model().counter + 1,
            actions_view(r@) == seq![
                ActionModel::<S>::SendFrame(
                    rpc_request(method@, old(self).model().counter, view_value(params)),
                ),
            ],
    {
        let id = self.calls.next_id();
        self.calls.register(id, PendingCall::External(slot));
        let req = build_request(method, id, params);
        let mut out: Vec<Action<S>> = Vec::new();
        out.push(Action::SendFrame(req));
        proof {
            assert(actions_view(out@) =~= seq![
                ActionModel::<S>::SendFrame(
                    rpc_request(method@, old(self).model().counter, view_value(params)),
                ),
            ]);
        }
        out
    }

    /// One inbound frame, already decoded from its wire text: a frame that
    /// carries a `method` is routed as a notification, anything else as a
    /// response.
    pub fn on_frame(&mut self, frame: JsonValue) -> (r: Vec<Action<S>>)
        requires
            old(self).wf(),
            jv_wf(view_value(frame)),
            old(self).model().counter < u64::MAX,
        ensures
            final(self).wf(),
            frame_step(old(self).model(), view_value(frame), final(self).model(), actions_view(r@)),
    {
        let is_notification = match get_field(&frame, "method") {
            Some(_) => true,
            None => false,
        };
        if is_notification {
            self.handle_notification(&frame)
        } else {
            self.handle_response(&frame)
        }
    }

    /// The notification router.
    fn handle_notification(&mut self, frame: &JsonValue) -> (r: Vec<Action<S>>)
        requires
            old(self).wf(),
            jv_wf(view_value(*frame)),
            frame_is_notification(view_value(*frame)),
        ensures
            final(self).wf(),
            notification_step(
                old(self).model(),
                view_value(*frame),
                final(self).model(),
                actions_view(r@),
            ),
    {
        let ghost fv = view_value(*frame);
        let method = match get_field(frame, "method") {
            Some(JsonValue::Str(m)) => m,
            _ => {
                return Vec::new();
            },
        };
        let empty_params = JsonValue::Obj(Vec::new());
        proof {
            assert(crate::value::view_fields(Seq::<(String, JsonValue)>::empty()) =~= Seq::<
                (Seq<char>, Jv),
            >::empty());
        }
        let params: &JsonValue = match get_field(frame, "params") {
            Some(p) => p,
            None => &empty_params,
        };
        proof {
            assert(view_value(*params) == frame_params(fv));
            assert(fv is Obj);
            if jv_field(fv, "params"@) is Some {
                lemma_wf_obj_value(fv->Obj_0, "params"@);
            }
            assert(jv_wf(frame_params(fv)));
        }
        if crate::topic::str_eq(method.as_str(), "notify_status_update") {
            match params {
                JsonValue::Arr(items) => {
                    proof {
                        crate::value::lemma_view_items(items@);
                        assert forall|i: int|
                            0 <= i < items@.len() implies jv_wf(
                            view_value(#[trigger] items@[i]),
                        ) by {
                            lemma_wf_arr_item(crate::value::view_items(items@), i);
                        }
                    }
                    apply_updates_exec(&mut self.cache, items);
                },
                _ => {},
            }
            Vec::new()
        } else if crate::topic::str_eq(method.as_str(), "notify_proc_stat_update") {
            let key = SubsystemKey { kind: SubsystemKind::MoonrakerStatus, name: String::new() };
            proof {
                assert(key@ =~= moonraker_key());
            }
            self.cache.put(key, clone_value(params));
            Vec::new()
        } else if crate::topic::str_eq(method.as_str(), "notify_klippy_ready") {
            let mut out: Vec<Action<S>> = Vec::new();
            out.push(Action::DeviceEvent(DeviceSignal::Ready));
            proof {
                assert(actions_view(out@) =~= seq![
                    ActionModel::<S>::DeviceEvent(DeviceSignal::Ready),
                ]);
            }
            out
        } else if crate::topic::str_eq(method.as_str(), "notify_klippy_shutdown") {
            let mut out: Vec<Action<S>> = Vec::new();
            out.push(Action::DeviceEvent(DeviceSignal::Shutdown));
            proof {
                assert(actions_view(out@) =~= seq![
                    ActionModel::<S>::DeviceEvent(DeviceSignal::Shutdown),
                ]);
            }
            out
        } else if crate::topic::str_eq(method.as_str(), "notify_klippy_disconnected") {
            let mut out: Vec<Action<S>> = Vec::new();
            out.push(Action::DeviceEvent(DeviceSignal::DeviceDisconnected));
            proof {
                assert(actions_view(out@) =~= seq![
                    ActionModel::<S>::DeviceEvent(DeviceSignal::DeviceDisconnected),
                ]);
            }
            out
        } else {
            Vec::new()
        }
    }

    /// The response path: hand the frame to whatever call was waiting on
    /// its id, and run the bootstrap's next step for its own calls.
    fn handle_response(&mut self, frame: &JsonValue) -> (r: Vec<Action<S>>)
        requires
            old(self).wf(),
            jv_wf(view_value(*frame)),
            !frame_is_notification(view_value(*frame)),
            old(self).model().counter < u64::MAX,
        ensures
            final(self).wf(),
            response_step(
                old(self).model(),
                view_value(*frame),
                final(self).model(),
                actions_view(r@),
            ),
    {
        let ghost fv = view_value(*frame);
        let id_opt = match get_field(frame, "id") {
            Some(JsonValue::Num(s)) => parse_u64(s.as_str()),
            _ => None,
        };
        let id = match id_opt {
            Some(id) => id,
            None => {
                proof {
                    assert(frame_id(fv) is None);
                }
                return Vec::new();
            },
        };
        proof {
            assert(frame_id(fv) == Some(id));
        }
        match self.calls.resolve(id) {
            None => Vec::new(),
            Some(PendingCall::External(slot)) => {
                let outcome = match get_field(frame, "error") {
                    Some(e) => CallOutcome::RemoteError(clone_value(e)),
                    None => match get_field(frame, "result") {
                        Some(res) => CallOutcome::Success(clone_value(res)),
                        None => CallOutcome::Success(JsonValue::Null),
                    },
                };
                proof {
                    assert(outcome_of(fv, outcome_view(outcome)));
                }
                let mut out: Vec<Action<S>> = Vec::new();
                out.push(Action::CompleteCall(slot, outcome));
                out
            },
            Some(PendingCall::Discover) => self.continue_discover(frame),
            Some(PendingCall::Subscribe) => {
                self.seed_from(frame);
                Vec::new()
            },
        }
    }

    /// The bootstrap's filter and subscribe steps, run on the discovery
    /// response: parse each listed topic, drop the unknown ones, and ask to
    /// subscribe to the rest with whole-object snapshots.
    #[verifier::loop_isolation(false)]
    fn continue_discover(&mut self, frame: &JsonValue) -> (r: Vec<Action<S>>)
        requires
            old(self).wf(),
            old(self).model().counter < u64::MAX,
        ensures
            final(self).wf(),
            final(self).model().state == old(self).model().state,
            final(self).model().cache == old(self).model().cache,
            final(self).model().pending == old(self).model().pending.insert(
                old(self).model().counter,
                PendingCall::Subscribe,
            ),
            final(self).model().counter == old(self).model().counter + 1,
            actions_view(r@) == seq![
                ActionModel::<S>::SendFrame(
                    rpc_request(
                        "printer.objects.subscribe"@,
                        old(self).model().counter,
                        subscribe_params(parsed_keys(discover_objects(view_value(*frame)))),
                    ),
                ),
            ],
    {
        let ghost fv = view_value(*frame);
        let mut keys: Vec<SubsystemKey> = Vec::new();
        let mut listed = false;
        if let Some(res) = get_field(frame, "result") {
            if let Some(objs) = get_field(res, "objects") {
                if let JsonValue::Arr(items) = objs {
                    proof {
                        crate::value::lemma_view_items(items@);
                        assert(discover_objects(fv) == string_items(
                            crate::value::view_items(items@),
                        ));
                    }
                    listed = true;
                    let ghost vits = crate::value::view_items(items@);
                    let ghost target = parsed_keys(string_items(vits));
                    proof {
                        assert(vits.subrange(0, vits.len() as int) =~= vits);
                    }
                    let n = items.len();
                    let mut i: usize = 0;
                    while i < n
                        invariant
                            i <= n,
                            n == items@.len(),
                            key_views(keys@) + parsed_keys(
                                string_items(vits.subrange(i as int, vits.len() as int)),
                            ) == target,
                        decreases n - i,
                    {
                        let ghost sub_i = vits.subrange(i as int, vits.len() as int);
                        let ghost sub_n = vits.subrange(i as int + 1, vits.len() as int);
                        proof {
                            assert(sub_i[0] == vits[i as int]);
                            assert(sub_i.subrange(1, sub_i.len() as int) =~= sub_n);
                        }
                        match &items[i] {
                            JsonValue::Str(s) => {
                                let ghost sv = s@;
                                proof {
                                    assert(string_items(sub_i) == seq![sv] + string_items(sub_n));
                                    assert((seq![sv] + string_items(sub_n))[0] == sv);
                                    assert((seq![sv] + string_items(sub_n)).subrange(
                                        1,
                                        (seq![sv] + string_items(sub_n)).len() as int,
                                    ) =~= string_items(sub_n));
                                }
                                match SubsystemKey::parse(s.as_str()) {
                                    Some(key) => {
                                        let ghost prev = keys@;
                                        keys.push(key);
                                        proof {
                                            assert(key_views(keys@) =~= key_views(prev).push(
                                                key@,
                                            ));
                                            assert(key_views(prev).push(key@) + parsed_keys(
                                                string_items(sub_n),
                                            ) =~= key_views(prev) + (seq![key@] + parsed_keys(
                                                string_items(sub_n),
                                            )));
                                        }
                                    },
                                    None => {},
                                }
                            },
                            _ => {},
                        }
                        i = i + 1;
                    }
                    proof {
                        assert(vits.subrange(vits.len() as int, vits.len() as int) =~= Seq::<
                            Jv,
                        >::empty());
                        assert(key_views(keys@) + Seq::<KeyModel>::empty() =~= key_views(keys@));
                    }
                }
            }
        }
        proof {
            if !listed {
                assert(parsed_keys(discover_objects(fv)) =~= Seq::<KeyModel>::empty());
                assert(key_views(keys@) =~= Seq::<KeyModel>::empty());
            }
            assert(key_views(keys@) == parsed_keys(discover_objects(fv)));
        }
        let mut obj_fields: Vec<(String, JsonValue)> = Vec::new();
        let kn = keys.len();
        let mut j: usize = 0;
        while j < kn
            invariant
                j <= kn,
                kn == keys@.len(),
                obj_fields@.len() == j as int,
                forall|m: int|
                    0 <= m < j ==> (#[trigger] obj_fields@[m]).0@ == spec_render(keys@[m]@)
                        && obj_fields@[m].1 is Null,
            decreases kn - j,
        {
            obj_fields.push((keys[j].render(), JsonValue::Null));
            j = j + 1;
        }
        proof {
            crate::value::lemma_view_fields(obj_fields@);
            assert(crate::value::view_fields(obj_fields@) =~= key_views(keys@).map(
                |i: int, k: KeyModel| (spec_render(k), Jv::Null),
            ));
        }
        let mut params_fields: Vec<(String, JsonValue)> = Vec::new();
        params_fields.push((String::from_str("objects"), JsonValue::Obj(obj_fields)));
        let params = JsonValue::Obj(params_fields);
        proof {
            crate::value::lemma_view_fields(params->Obj_0@);
            assert(view_value(params) matches Jv::Obj(pf) && pf =~= subscribe_params(
                parsed_keys(discover_objects(fv)),
            )->Obj_0);
        }
        let id2 = self.calls.next_id();
        self.calls.register(id2, PendingCall::Subscribe);
        let req = build_request("printer.objects.subscribe", id2, params);
        let mut out: Vec<Action<S>> = Vec::new();
        out.push(Action::SendFrame(req));
        proof {
            assert(actions_view(out@) =~= seq![
                ActionModel::<S>::SendFrame(
                    rpc_request(
                        "printer.objects.subscribe"@,
                        old(self).model().counter,
                        subscribe_params(parsed_keys(discover_objects(fv))),
                    ),
                ),
            ]);
        }
        out
    }

    /// The bootstrap's seed step, run on the subscribe response: clear the
    /// cache, merge the initial per-subsystem snapshot, and only then call
    /// the session subscribed.  A response without an initial snapshot
    /// leaves this connection epoch unfinished; the next reconnect retries.
    fn seed_from(&mut self, frame: &JsonValue)
        requires
            old(self).wf(),
            jv_wf(view_value(*frame)),
        ensures
            final(self).wf(),
            final(self).model().pending == old(self).model().pending,
            final(self).model().counter == old(self).model().counter,
            match subscribe_status(view_value(*frame)) {
                Some(st) => final(self).model().cache == seeded_cache(st)
                    && final(self).model().state == ConnectionState::Subscribed,
                None => final(self).model().cache == old(self).model().cache
                    && final(self).model().state == old(self).model().state,
            },
    {
        let ghost fv = view_value(*frame);
        if let Some(res) = get_field(frame, "result") {
            proof {
                assert(fv is Obj);
                lemma_wf_obj_value(fv->Obj_0, "result"@);
            }
            if let Some(st) = get_field(res, "status") {
                proof {
                    assert(view_value(*res) is Obj);
                    lemma_wf_obj_value(view_value(*res)->Obj_0, "status"@);
                    assert(jv_wf(view_value(*st)));
                }
                self.cache.clear();
                if let JsonValue::Obj(fields) = st {
                    proof {
                        crate::value::lemma_view_fields(fields@);
                        assert forall|m: int|
                            0 <= m < fields@.len() implies jv_wf(
                            view_value((#[trigger] fields@[m]).1),
                        ) by {
                            assert(jv_wf(crate::value::view_fields(fields@)[m].1));
                        }
                    }
                    apply_pairs_exec(&mut self.cache, fields);
                }
                self.state = ConnectionState::Subscribed;
            }
        }
    }
}

/// The models of a key list, in order.
pub open spec fn key_views(s: Seq<SubsystemKey>) -> Seq<KeyModel> {
    s.map(|i: int, k: SubsystemKey| k@)
}

} // verus!
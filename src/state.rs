//! The state of one command: its topic, its status and its JSON payload,
//! which always agree on the status while the command is not cleared.
use crate::command::extract_invoking_operation_names;
use crate::command::infer_invoking_command_topic;
use crate::command::invoking_operations;
use crate::command::invoking_topic;
use crate::command::lemma_sub_command_topic_invoking;
use crate::command::opt_view;
use crate::command::sub_command_id;
use crate::command::sub_command_id_of;
use crate::json::JsonObject;
use crate::json::JsonValue;
use crate::json::text_at;
use crate::text::free_of;
use crate::text::same_text;
use crate::text::views;
use crate::topics::command_topic;
use crate::topics::command_topic_for;
use crate::topics::command_topic_parts;
use crate::topics::split_command_topic;
use crate::topics::EntityTopicId;
use vstd::prelude::*;

verus! {

pub open spec fn status_key() -> Seq<char> {
    "status"@
}

pub open spec fn reason_key() -> Seq<char> {
    "reason"@
}

pub open spec fn log_path_key() -> Seq<char> {
    "logPath"@
}

pub open spec fn version_key() -> Seq<char> {
    "@version"@
}

/// The reserved keys of a command payload are distinct.
pub proof fn lemma_keys_distinct()
    ensures
        status_key() != reason_key(),
        status_key() != log_path_key(),
        status_key() != version_key(),
{
    reveal_strlit("status");
    reveal_strlit("reason");
    reveal_strlit("logPath");
    reveal_strlit("@version");
    assert(status_key()[0] != reason_key()[0]);
    assert(status_key()[0] != log_path_key()[0]);
    assert(status_key()[0] != version_key()[0]);
}

/// The reserved status words are distinct.
pub proof fn lemma_status_words_distinct()
    ensures
        "init"@ != "scheduled"@,
        "init"@ != "executing"@,
        "init"@ != "successful"@,
        "init"@ != "failed"@,
        "scheduled"@ != "executing"@,
        "scheduled"@ != "successful"@,
        "scheduled"@ != "failed"@,
        "executing"@ != "successful"@,
        "executing"@ != "failed"@,
        "successful"@ != "failed"@,
{
    reveal_strlit("init");
    reveal_strlit("scheduled");
    reveal_strlit("executing");
    reveal_strlit("successful");
    reveal_strlit("failed");
    assert("init"@[0] != "scheduled"@[0]);
    assert("init"@[0] != "executing"@[0]);
    assert("init"@[0] != "successful"@[0]);
    assert("init"@[0] != "failed"@[0]);
    assert("scheduled"@[0] != "executing"@[0]);
    assert("scheduled"@[1] != "successful"@[1]);
    assert("scheduled"@[0] != "failed"@[0]);
    assert("executing"@[0] != "successful"@[0]);
    assert("executing"@[0] != "failed"@[0]);
    assert("successful"@[0] != "failed"@[0]);
}

/// The top-level fields of a payload; none unless it is an object.
pub open spec fn fields(p: JsonValue) -> Map<Seq<char>, JsonValue> {
    match p {
        JsonValue::Object(o) => o@,
        _ => Map::<Seq<char>, JsonValue>::empty(),
    }
}

/// `after` is `before` with the string `v` set under `k`, where `before` is
/// an object; any other payload is left as it is.
pub open spec fn sets_text(before: JsonValue, after: JsonValue, k: Seq<char>, v: Seq<char>) -> bool {
    match before {
        JsonValue::Object(o) => after is Object && fields(after).dom() == o@.dom().insert(k)
            && text_at(fields(after), k) == Some(v) && forall|k2: Seq<char>|
            k2 != k && #[trigger] o@.contains_key(k2) ==> fields(after)[k2] == o@[k2],
        _ => after == before,
    }
}

/// Every field of `before` but `k1` and `k2` is in `after`, unchanged.
pub open spec fn keeps_fields_but(
    before: JsonValue,
    after: JsonValue,
    k1: Seq<char>,
    k2: Seq<char>,
) -> bool {
    keeps_map_but(fields(before), after, k1, k2)
}

/// Every entry of `before` but those under `k1` and `k2` is a field of
/// `after`, unchanged.
pub open spec fn keeps_map_but(
    before: Map<Seq<char>, JsonValue>,
    after: JsonValue,
    k1: Seq<char>,
    k2: Seq<char>,
) -> bool {
    forall|k: Seq<char>|
        k != k1 && k != k2 && #[trigger] before.contains_key(k) ==> fields(after).contains_key(k)
            && fields(after)[k] == before[k]
}

/// The fields after merging the top-level fields of `update` into `p`, when
/// both are objects.
pub open spec fn merged_fields(p: JsonValue, update: JsonValue) -> Map<Seq<char>, JsonValue> {
    if p is Object && update is Object {
        fields(p).union_prefer_right(fields(update))
    } else {
        fields(p)
    }
}

/// Sets the string `value` under `property` when `json` is an object.
pub fn inject_text_property(json: JsonValue, property: &str, value: &str) -> (r: JsonValue)
    ensures
        sets_text(json, r, property@, value@),
{
    match json {
        JsonValue::Object(o) => {
            let ghost before = o@;
            let s = value.to_owned();
            let o2 = o.with(property.to_owned(), JsonValue::Str(s));
            assert(o2@.dom() =~= before.dom().insert(property@));
            JsonValue::Object(o2)
        },
        other => other,
    }
}

/// A status change: the new status and, for a failure, its reason.
#[derive(Debug)]
pub struct GenericStateUpdate {
    pub status: String,
    pub reason: Option<String>,
}

impl GenericStateUpdate {
    /// `{"status": "scheduled"}`
    pub fn scheduled() -> (r: Self)
        ensures
            r.status@ == "scheduled"@,
            r.reason is None,
    {
        GenericStateUpdate { status: "scheduled".to_owned(), reason: None }
    }

    /// `{"status": "executing"}`
    pub fn executing() -> (r: Self)
        ensures
            r.status@ == "executing"@,
            r.reason is None,
    {
        GenericStateUpdate { status: "executing".to_owned(), reason: None }
    }

    /// `{"status": "successful"}`
    pub fn successful() -> (r: Self)
        ensures
            r.status@ == "successful"@,
            r.reason is None,
    {
        GenericStateUpdate { status: "successful".to_owned(), reason: None }
    }

    /// `{"status": "failed"}` with no reason.
    pub fn unknown_error() -> (r: Self)
        ensures
            r.status@ == "failed"@,
            r.reason is None,
    {
        GenericStateUpdate { status: "failed".to_owned(), reason: None }
    }

    /// `{"status": "failed", "reason": reason}`
    pub fn failed(reason: String) -> (r: Self)
        ensures
            r.status@ == "failed"@,
            r.reason is Some && r.reason->Some_0@ == reason@,
    {
        GenericStateUpdate { status: "failed".to_owned(), reason: Some(reason) }
    }

    /// A failure for want of a response in time.
    pub fn timeout() -> (r: Self)
        ensures
            r.status@ == "failed"@,
            r.reason is Some && r.reason->Some_0@ == "timeout"@,
    {
        Self::failed("timeout".to_owned())
    }

    /// An update to the given status, with no reason.
    pub fn to_status(status: &str) -> (r: Self)
        ensures
            r.status@ == status@,
            r.reason is None,
    {
        GenericStateUpdate { status: status.to_owned(), reason: None }
    }

    /// Injects this update into the JSON state update returned by a script:
    /// this status always wins, this reason only fills a missing `reason`.
    /// A value that is not an object is replaced by this update as JSON.
    pub fn inject_into_json(self, json: JsonValue) -> (r: JsonValue)
        ensures
            r is Object,
            text_at(fields(r), status_key()) == Some(self.status@),
            json is Object ==> fields(r).dom() == (if fields(json).contains_key(reason_key())
                || self.reason is None {
                fields(json).dom().insert(status_key())
            } else {
                fields(json).dom().insert(status_key()).insert(reason_key())
            }),
            json is Object ==> keeps_fields_but(json, r, status_key(), reason_key()),
            json is Object && fields(json).contains_key(reason_key()) ==> fields(r)[reason_key()]
                == fields(json)[reason_key()],
            self.reason is Some && !(json is Object && fields(json).contains_key(reason_key()))
                ==> text_at(fields(r), reason_key()) == Some(self.reason->Some_0@),
            !(json is Object) ==> fields(r).dom() == (match self.reason {
                Some(_) => set![status_key(), reason_key()],
                None => set![status_key()],
            }),
    {
        proof {
            lemma_keys_distinct();
        }
        match json {
            JsonValue::Object(o) => {
                let ghost before = o@;
                let o = o.with("status".to_owned(), JsonValue::Str(self.status));
                let has_reason = match o.get("reason") {
                    Some(_) => true,
                    None => false,
                };
                let o = match self.reason {
                    Some(reason) => {
                        if has_reason {
                            o
                        } else {
                            let o2 = o.with("reason".to_owned(), JsonValue::Str(reason));
                            assert(o2@.dom() =~= before.dom().insert(status_key()).insert(reason_key()));
                            o2
                        }
                    },
                    None => o,
                };
                assert(has_reason ==> o@.dom() =~= before.dom().insert(status_key()));
                assert(self.reason is None ==> o@.dom() =~= before.dom().insert(status_key()));
                JsonValue::Object(o)
            },
            _ => self.into_json(),
        }
    }

    /// The `reason` field of a JSON object, if it is a string.
    pub fn extract_reason(json: &JsonValue) -> (r: Option<String>)
        ensures
            opt_view(r) == text_at(fields(*json), reason_key()),
    {
        match text_field(json, "reason") {
            Some(s) => Some(s.clone()),
            None => None,
        }
    }

    /// The update as a JSON object: its status and, if any, its reason.
    pub fn into_json(self) -> (r: JsonValue)
        ensures
            r is Object,
            text_at(fields(r), status_key()) == Some(self.status@),
            fields(r).dom() == (match self.reason {
                Some(_) => set![status_key(), reason_key()],
                None => set![status_key()],
            }),
            self.reason is Some ==> text_at(fields(r), reason_key()) == Some(
                self.reason->Some_0@,
            ),
    {
        let o = JsonObject::new();
        let ghost st = self.status@;
        let ghost rs = self.reason;
        let mut o = o.with("status".to_owned(), JsonValue::Str(self.status));
        if let Some(reason) = self.reason {
            let ghost rv = reason@;
            o = o.with("reason".to_owned(), JsonValue::Str(reason));
            proof {
                lemma_keys_distinct();
            }
            assert(o@.dom() =~= set![status_key(), reason_key()]);
        } else {
            assert(o@.dom() =~= set![status_key()]);
        }
        JsonValue::Object(o)
    }
}

/// Why a command message could not be read.
#[derive(Debug, Clone, Copy, PartialEq, Eq, Structural)]
pub enum WorkflowExecutionError {
    /// A non-empty payload without a string `status` field.
    MissingStatus,
}

/// The status of a command, as the reserved words name it.
#[derive(Debug)]
pub enum CommandStatus {
    Init,
    Scheduled,
    Executing,
    Successful,
    Failed { reason: String },
    Unknown,
}

/// What to publish for a command state: its topic and payload, where no
/// payload is the empty retained message that clears the topic.
#[derive(Debug)]
pub struct CommandMessage {
    pub topic: String,
    pub payload: Option<JsonValue>,
}

/// The state of one command.
#[derive(Debug, PartialEq)]
pub struct GenericCommandState {
    /// The topic that identifies the command.
    pub topic: String,
    /// The status; empty once cleared.
    pub status: String,
    /// The payload; `Null` once cleared.
    pub payload: JsonValue,
}

/// A command state as plain values.
pub struct CommandStateView {
    pub topic: Seq<char>,
    pub status: Seq<char>,
    pub payload: JsonValue,
}

impl View for GenericCommandState {
    type V = CommandStateView;

    open spec fn view(&self) -> CommandStateView {
        CommandStateView { topic: self.topic@, status: self.status@, payload: self.payload }
    }
}

/// The state after clearing: same topic, empty status, `Null` payload.
pub open spec fn cleared(s: CommandStateView) -> CommandStateView {
    CommandStateView { topic: s.topic, status: Seq::<char>::empty(), payload: JsonValue::Null }
}

/// Whether the message of a state is the empty retained message.
pub open spec fn publishes_empty(s: CommandStateView) -> bool {
    s.payload is Null
}

/// Clearing twice leaves the state that clearing once leaves, and the message
/// of a cleared state is the empty retained message whatever the payload was.
pub proof fn lemma_clear_idempotent(s: CommandStateView)
    ensures
        cleared(cleared(s)) == cleared(s),
        cleared(s).status == Seq::<char>::empty(),
        cleared(s).payload is Null,
        publishes_empty(cleared(s)),
{
}

impl GenericCommandState {
    /// A state on `topic` with the given status, which is also set in the
    /// payload when that is an object.
    pub fn new(topic: String, status: String, payload: JsonValue) -> (r: Self)
        ensures
            r.topic@ == topic@,
            r.status@ == status@,
            sets_text(payload, r.payload, status_key(), status@),
    {
        let payload = inject_text_property(payload, "status", status.as_str());
        GenericCommandState { topic, status, payload }
    }

    /// The `init` state of a sub-command of `sub_operation` invoked by
    /// command `cmd_id` of `operation` on `entity`, under topic root `root`.
    /// Its topic leads back to the invoking command's topic.
    pub fn sub_command_init_state(
        root: &str,
        entity: &EntityTopicId,
        operation: &str,
        cmd_id: &str,
        sub_operation: &str,
    ) -> (r: Self)
        ensures
            r.topic@ == command_topic(
                root@,
                entity@,
                sub_operation@,
                sub_command_id_of(operation@, cmd_id@),
            ),
            r.status@ == "init"@,
            r.payload is Object,
            fields(r.payload).dom() == set![status_key()],
            text_at(fields(r.payload), status_key()) == Some("init"@),
            free_of(root@, '/') && free_of(operation@, '/') && free_of(cmd_id@, '/') && free_of(
                sub_operation@,
                '/',
            ) && free_of(operation@, ':') ==> invoking_topic(r.topic@) == Some(
                command_topic(root@, entity@, operation@, cmd_id@),
            ),
    {
        let sub_id = sub_command_id(operation, cmd_id);
        let topic = command_topic_for(root, entity.as_str(), sub_operation, sub_id.as_str());
        proof {
            if free_of(root@, '/') && free_of(operation@, '/') && free_of(cmd_id@, '/') && free_of(
                sub_operation@,
                '/',
            ) && free_of(operation@, ':') {
                lemma_sub_command_topic_invoking(root@, entity@, operation@, cmd_id@, sub_operation@);
            }
        }
        let o = JsonObject::new().with("status".to_owned(), JsonValue::Str("init".to_owned()));
        assert(o@.dom() =~= set![status_key()]);
        GenericCommandState { topic, status: "init".to_owned(), payload: JsonValue::Object(o) }
    }

    /// Reads a state from a retained command message: no payload is the
    /// cleared state; a payload must hold a string `status` field.
    pub fn from_command_message(topic: &str, payload: Option<JsonValue>) -> (r: Result<
        Self,
        WorkflowExecutionError,
    >)
        ensures
            match payload {
                None => r is Ok && r->Ok_0.topic@ == topic@ && r->Ok_0.status@ == Seq::<
                    char,
                >::empty() && r->Ok_0.payload is Null,
                Some(json) => match text_at(fields(json), status_key()) {
                    Some(st) => r is Ok && r->Ok_0.topic@ == topic@ && r->Ok_0.status@ == st
                        && r->Ok_0.payload == json,
                    None => r == Err::<Self, WorkflowExecutionError>(
                        WorkflowExecutionError::MissingStatus,
                    ),
                },
            },
    {
        match payload {
            None => {
                proof {
                    reveal_strlit("");
                }
                Ok(
                    GenericCommandState {
                        topic: topic.to_owned(),
                        status: "".to_owned(),
                        payload: JsonValue::Null,
                    },
                )
            },
            Some(json) => {
                let status = match &json {
                    JsonValue::Object(o) => match o.get_text("status") {
                        Some(s) => s.clone(),
                        None => {
                            return Err(WorkflowExecutionError::MissingStatus);
                        },
                    },
                    _ => {
                        return Err(WorkflowExecutionError::MissingStatus);
                    },
                };
                Ok(GenericCommandState { topic: topic.to_owned(), status, payload: json })
            },
        }
    }

    /// The message that publishes this state: the payload with its status
    /// set, or the empty message once cleared.
    pub fn into_message(self) -> (r: CommandMessage)
        ensures
            r.topic@ == self.topic@,
            publishes_empty(self@) <==> r.payload is None,
            !(self.payload is Null) ==> r.payload is Some && sets_text(
                self.payload,
                r.payload->Some_0,
                status_key(),
                self.status@,
            ),
    {
        if self.is_cleared() {
            return self.clear_message();
        }
        let payload = inject_text_property(self.payload, "status", self.status.as_str());
        CommandMessage { topic: self.topic, payload: Some(payload) }
    }

    /// The empty retained message on this state's topic.
    fn clear_message(self) -> (r: CommandMessage)
        ensures
            r.topic@ == self.topic@,
            r.payload is None,
    {
        CommandMessage { topic: self.topic, payload: None }
    }

    /// Moves to the status of `update`, setting its reason if it has one.
    pub fn update(self, update: GenericStateUpdate) -> (r: Self)
        ensures
            r.topic@ == self.topic@,
            r.status@ == update.status@,
            r.payload is Object <==> self.payload is Object,
            self.payload is Object ==> text_at(fields(r.payload), status_key()) == Some(
                update.status@,
            ),
            self.payload is Object && update.reason is Some ==> text_at(
                fields(r.payload),
                reason_key(),
            ) == Some(update.reason->Some_0@),
            update.reason is None && fields(self.payload).contains_key(reason_key()) ==> fields(
                r.payload,
            ).contains_key(reason_key()) && fields(r.payload)[reason_key()] == fields(
                self.payload,
            )[reason_key()],
            keeps_fields_but(self.payload, r.payload, status_key(), reason_key()),
    {
        self.move_to(update)
    }

    /// Moves to the status of `update`, setting its reason if it has one;
    /// every other field of the payload is kept as it was.
    pub fn move_to(self, update: GenericStateUpdate) -> (r: Self)
        ensures
            r.topic@ == self.topic@,
            r.status@ == update.status@,
            r.payload is Object <==> self.payload is Object,
            self.payload is Object ==> text_at(fields(r.payload), status_key()) == Some(
                update.status@,
            ),
            self.payload is Object && update.reason is Some ==> text_at(
                fields(r.payload),
                reason_key(),
            ) == Some(update.reason->Some_0@),
            self.payload is Object ==> fields(r.payload).dom() == (match update.reason {
                Some(_) => fields(self.payload).dom().insert(status_key()).insert(reason_key()),
                None => fields(self.payload).dom().insert(status_key()),
            }),
            update.reason is None && fields(self.payload).contains_key(reason_key()) ==> fields(
                r.payload,
            ).contains_key(reason_key()) && fields(r.payload)[reason_key()] == fields(
                self.payload,
            )[reason_key()],
            keeps_fields_but(self.payload, r.payload, status_key(), reason_key()),
    {
        proof {
            lemma_keys_distinct();
        }
        let payload = inject_text_property(self.payload, "status", update.status.as_str());
        let payload = match update.reason {
            Some(reason) => inject_text_property(payload, "reason", reason.as_str()),
            None => payload,
        };
        GenericCommandState { topic: self.topic, status: update.status, payload }
    }

    /// Moves to `failed` with the given reason; every other field of the
    /// payload is kept as it was.
    pub fn fail_with(self, reason: String) -> (r: Self)
        ensures
            r.topic@ == self.topic@,
            r.status@ == "failed"@,
            r.payload is Object <==> self.payload is Object,
            self.payload is Object ==> text_at(fields(r.payload), status_key()) == Some(
                "failed"@,
            ),
            self.payload is Object ==> text_at(fields(r.payload), reason_key()) == Some(reason@),
            self.payload is Object ==> fields(r.payload).dom() == fields(self.payload).dom().insert(
                status_key(),
            ).insert(reason_key()),
            keeps_fields_but(self.payload, r.payload, status_key(), reason_key()),
    {
        self.move_to(GenericStateUpdate::failed(reason))
    }

    /// Merges the top-level fields of `json` into the payload, then takes the
    /// status from the merged payload; without a string status there, the
    /// state fails with reason `Unknown status`.
    pub fn update_with_json(self, json: JsonValue) -> (r: Self)
        ensures
            r.topic@ == self.topic@,
            r.payload is Object <==> self.payload is Object,
            match text_at(merged_fields(self.payload, json), status_key()) {
                Some(st) => r.status@ == st && fields(r.payload) == merged_fields(
                    self.payload,
                    json,
                ),
                None => r.status@ == "failed"@ && (self.payload is Object ==> text_at(
                    fields(r.payload),
                    reason_key(),
                ) == Some("Unknown status"@) && text_at(fields(r.payload), status_key()) == Some(
                    "failed"@,
                )) && keeps_map_but(
                    merged_fields(self.payload, json),
                    r.payload,
                    status_key(),
                    reason_key(),
                ),
            },
    {
        let ghost merged = merged_fields(self.payload, json);
        let payload = match (self.payload, json) {
            (JsonValue::Object(mut o), JsonValue::Object(n)) => {
                o.merge(n);
                JsonValue::Object(o)
            },
            (p, _) => p,
        };
        assert(fields(payload) == merged);
        let status = match &payload {
            JsonValue::Object(o) => match o.get_text("status") {
                Some(s) => Some(s.clone()),
                None => None,
            },
            _ => None,
        };
        let state = GenericCommandState { topic: self.topic, status: self.status, payload };
        match status {
            None => state.fail_with("Unknown status".to_owned()),
            Some(status) => GenericCommandState { status, ..state },
        }
    }
}

impl GenericCommandState {
    /// Marks the command as completed: empty status and `Null` payload.
    pub fn clear(self) -> (r: Self)
        ensures
            r@ == cleared(self@),
    {
        proof {
            reveal_strlit("");
        }
        let status = "".to_owned();
        assert(status@ =~= Seq::<char>::empty());
        GenericCommandState { topic: self.topic, status, payload: JsonValue::Null }
    }

    /// Whether the command has been cleared.
    pub fn is_cleared(&self) -> (r: bool)
        ensures
            r == (self.payload is Null),
    {
        match self.payload {
            JsonValue::Null => true,
            _ => false,
        }
    }

    pub fn is_init(&self) -> (r: bool)
        ensures
            r == (self.status@ == "init"@),
    {
        same_text(self.status.as_str(), "init")
    }

    pub fn is_executing(&self) -> (r: bool)
        ensures
            r == (self.status@ == "executing"@),
    {
        same_text(self.status.as_str(), "executing")
    }

    pub fn is_successful(&self) -> (r: bool)
        ensures
            r == (self.status@ == "successful"@),
    {
        same_text(self.status.as_str(), "successful")
    }

    pub fn is_failed(&self) -> (r: bool)
        ensures
            r == (self.status@ == "failed"@),
    {
        same_text(self.status.as_str(), "failed")
    }

    /// Whether the command reached a terminal status.
    pub fn is_finished(&self) -> (r: bool)
        ensures
            r == (self.status@ == "successful"@ || self.status@ == "failed"@),
    {
        self.is_successful() || self.is_failed()
    }

    /// The `reason` field of the payload, if it is a string.
    pub fn failure_reason(&self) -> (r: Option<&String>)
        ensures
            match r {
                Some(s) => text_at(fields(self.payload), reason_key()) == Some(s@),
                None => text_at(fields(self.payload), reason_key()) is None,
            },
    {
        text_field(&self.payload, "reason")
    }

    /// The `logPath` field of the payload, if it is a string.
    pub fn get_log_path(&self) -> (r: Option<&String>)
        ensures
            match r {
                Some(s) => text_at(fields(self.payload), log_path_key()) == Some(s@),
                None => text_at(fields(self.payload), log_path_key()) is None,
            },
    {
        text_field(&self.payload, "logPath")
    }

    /// The `@version` field of the payload, if it is a string.
    pub fn workflow_version(&self) -> (r: Option<&String>)
        ensures
            match r {
                Some(s) => text_at(fields(self.payload), version_key()) == Some(s@),
                None => text_at(fields(self.payload), version_key()) is None,
            },
    {
        text_field(&self.payload, "@version")
    }

    /// Sets a string field of the payload; setting `status` also sets the
    /// state's status.
    pub fn with_key_value(self, key: &str, val: &str) -> (r: Self)
        ensures
            r.topic@ == self.topic@,
            sets_text(self.payload, r.payload, key@, val@),
            r.status@ == (if key@ == status_key() {
                val@
            } else {
                self.status@
            }),
    {
        let payload = inject_text_property(self.payload, key, val);
        let status = if same_text(key, "status") {
            val.to_owned()
        } else {
            self.status
        };
        GenericCommandState { topic: self.topic, status, payload }
    }

    /// Sets a string field of the payload in place.
    pub fn set_key_value(&mut self, key: &str, val: &str)
        ensures
            final(self).topic@ == old(self).topic@,
            sets_text(old(self).payload, final(self).payload, key@, val@),
            final(self).status@ == (if key@ == status_key() {
                val@
            } else {
                old(self).status@
            }),
    {
        let mut taken = GenericCommandState {
            topic: String::new(),
            status: String::new(),
            payload: JsonValue::Null,
        };
        std::mem::swap(self, &mut taken);
        *self = taken.with_key_value(key, val);
    }

    /// Sets the `logPath` field.
    pub fn with_log_path(self, path: &str) -> (r: Self)
        ensures
            r.topic@ == self.topic@,
            r.status@ == self.status@,
            sets_text(self.payload, r.payload, log_path_key(), path@),
    {
        proof {
            lemma_keys_distinct();
        }
        self.with_key_value("logPath", path)
    }

    /// Sets the `logPath` field in place.
    pub fn set_log_path(&mut self, path: &str)
        ensures
            final(self).topic@ == old(self).topic@,
            final(self).status@ == old(self).status@,
            sets_text(old(self).payload, final(self).payload, log_path_key(), path@),
    {
        proof {
            lemma_keys_distinct();
        }
        self.set_key_value("logPath", path)
    }

    /// Sets the `@version` field.
    pub fn with_workflow_version(self, version: &str) -> (r: Self)
        ensures
            r.topic@ == self.topic@,
            r.status@ == self.status@,
            sets_text(self.payload, r.payload, version_key(), version@),
    {
        proof {
            lemma_keys_distinct();
        }
        self.with_key_value("@version", version)
    }

    /// Sets the `@version` field in place.
    pub fn set_workflow_version(&mut self, version: &str)
        ensures
            final(self).topic@ == old(self).topic@,
            final(self).status@ == old(self).status@,
            sets_text(old(self).payload, final(self).payload, version_key(), version@),
    {
        proof {
            lemma_keys_distinct();
        }
        self.set_key_value("@version", version)
    }

    /// Merges this state into a more complete one: this status wins, and
    /// when both payloads are objects this payload's fields override.
    pub fn merge_into(self, state: Self) -> (r: Self)
        ensures
            r.topic@ == state.topic@,
            r.status@ == self.status@,
            r.payload is Object <==> state.payload is Object,
            fields(r.payload) == merged_fields(state.payload, self.payload),
    {
        let payload = match (state.payload, self.payload) {
            (JsonValue::Object(mut o), JsonValue::Object(n)) => {
                o.merge(n);
                JsonValue::Object(o)
            },
            (p, _) => p,
        };
        GenericCommandState { topic: state.topic, status: self.status, payload }
    }

    /// The topic that identifies the command.
    pub fn command_topic(&self) -> (r: &String)
        ensures
            r@ == self.topic@,
    {
        &self.topic
    }

    /// The topic of the command that invoked this one, if it is a
    /// sub-command.
    pub fn invoking_command_topic(&self) -> (r: Option<String>)
        ensures
            opt_view(r) == invoking_topic(self.topic@),
    {
        infer_invoking_command_topic(self.topic.as_str())
    }

    /// The operations that led to this command, outermost first, excluding
    /// its own.
    pub fn invoking_operation_names(&self) -> (r: Vec<String>)
        ensures
            views(r@) == match command_topic_parts(self.topic@) {
                Some((_, _, _, id)) => invoking_operations(id),
                None => Seq::<Seq<char>>::empty(),
            },
    {
        match split_command_topic(self.topic.as_str()) {
            Some(parts) => extract_invoking_operation_names(parts.cmd_id.as_str()),
            None => {
                let r: Vec<String> = Vec::new();
                assert(views(r@) =~= Seq::<Seq<char>>::empty());
                r
            },
        }
    }

    /// The topic root, for a command topic.
    pub fn root_prefix(&self) -> (r: Option<String>)
        ensures
            opt_view(r) == match command_topic_parts(self.topic@) {
                Some((root, _, _, _)) => Some(root),
                None => None::<Seq<char>>,
            },
    {
        match split_command_topic(self.topic.as_str()) {
            Some(parts) => Some(parts.root),
            None => None,
        }
    }

    /// The entity the command is addressed to, for a command topic.
    pub fn target(&self) -> (r: Option<String>)
        ensures
            opt_view(r) == match command_topic_parts(self.topic@) {
                Some((_, entity, _, _)) => Some(entity),
                None => None::<Seq<char>>,
            },
    {
        match split_command_topic(self.topic.as_str()) {
            Some(parts) => Some(parts.entity),
            None => None,
        }
    }

    /// The operation of the command, for a command topic.
    pub fn operation(&self) -> (r: Option<String>)
        ensures
            opt_view(r) == match command_topic_parts(self.topic@) {
                Some((_, _, op, _)) => Some(op),
                None => None::<Seq<char>>,
            },
    {
        match split_command_topic(self.topic.as_str()) {
            Some(parts) => Some(parts.operation),
            None => None,
        }
    }

    /// The command id, for a command topic.
    pub fn cmd_id(&self) -> (r: Option<String>)
        ensures
            opt_view(r) == match command_topic_parts(self.topic@) {
                Some((_, _, _, id)) => Some(id),
                None => None::<Seq<char>>,
            },
    {
        match split_command_topic(self.topic.as_str()) {
            Some(parts) => Some(parts.cmd_id),
            None => None,
        }
    }

    /// The status as one of the reserved words, with the failure reason
    /// (`unknown reason` when the payload has none).
    pub fn get_command_status(&self) -> (r: CommandStatus)
        ensures
            self.status@ == "init"@ ==> r is Init,
            self.status@ == "scheduled"@ ==> r is Scheduled,
            self.status@ == "executing"@ ==> r is Executing,
            self.status@ == "successful"@ ==> r is Successful,
            self.status@ == "failed"@ ==> r is Failed && r->reason@ == match text_at(
                fields(self.payload),
                reason_key(),
            ) {
                Some(s) => s,
                None => "unknown reason"@,
            },
            self.status@ != "init"@ && self.status@ != "scheduled"@ && self.status@
                != "executing"@ && self.status@ != "successful"@ && self.status@ != "failed"@
                ==> r is Unknown,
    {
        proof {
            lemma_status_words_distinct();
        }
        let st = self.status.as_str();
        if same_text(st, "init") {
            CommandStatus::Init
        } else if same_text(st, "scheduled") {
            CommandStatus::Scheduled
        } else if same_text(st, "executing") {
            CommandStatus::Executing
        } else if same_text(st, "successful") {
            CommandStatus::Successful
        } else if same_text(st, "failed") {
            let reason = match self.failure_reason() {
                Some(s) => s.clone(),
                None => "unknown reason".to_owned(),
            };
            CommandStatus::Failed { reason }
        } else {
            CommandStatus::Unknown
        }
    }
}

/// The string field `k` of a payload object.
fn text_field<'a>(p: &'a JsonValue, k: &str) -> (r: Option<&'a String>)
    ensures
        match r {
            Some(s) => text_at(fields(*p), k@) == Some(s@),
            None => text_at(fields(*p), k@) is None,
        },
{
    match p {
        JsonValue::Object(o) => o.get_text(k),
        _ => None,
    }
}

} // verus!

use tedge_core::command::extract_invoking_operation_names;
use tedge_core::command::sub_command_id;
use tedge_core::json::JsonObject;
use tedge_core::json::JsonValue;
use tedge_core::state::CommandStatus;
use tedge_core::state::GenericCommandState;
use tedge_core::state::GenericStateUpdate;
use tedge_core::state::WorkflowExecutionError;
use tedge_core::topics::EntityTopicId;

fn s(v: &str) -> JsonValue {
    JsonValue::Str(v.to_string())
}

fn n(v: &str) -> JsonValue {
    JsonValue::Number(v.to_string())
}

fn obj(fields: Vec<(&str, JsonValue)>) -> JsonValue {
    let mut o = JsonObject::new();
    for (k, v) in fields {
        o.insert(k.to_string(), v);
    }
    JsonValue::Object(o)
}

/// Two JSON values are equal as JSON: objects compare as maps.
fn same_json(a: &JsonValue, b: &JsonValue) -> bool {
    match (a, b) {
        (JsonValue::Object(x), JsonValue::Object(y)) => {
            let xs = x.as_entries();
            let ys = y.as_entries();
            xs.len() == ys.len()
                && xs
                    .iter()
                    .all(|(k, v)| y.get(k).map(|w| same_json(v, w)).unwrap_or(false))
        }
        (JsonValue::Array(x), JsonValue::Array(y)) => {
            x.len() == y.len() && x.iter().zip(y.iter()).all(|(v, w)| same_json(v, w))
        }
        _ => a == b,
    }
}

fn extra() -> JsonValue {
    obj(vec![(
        "extra",
        JsonValue::Array(vec![n("1"), n("2"), n("3")]),
    )])
}

fn read(topic: &str, payload: JsonValue) -> GenericCommandState {
    GenericCommandState::from_command_message(topic, Some(payload)).expect("parsing error")
}

#[test]
fn serde_generic_command_payload() {
    let topic = "te/device/main///cmd/make_it/123";
    let payload = obj(vec![("status", s("init")), ("foo", n("42")), ("bar", extra())]);
    let cmd = read(topic, payload);
    assert!(cmd.is_init());
    assert!(!cmd.is_finished());
    assert!(!cmd.is_successful());
    assert!(!cmd.is_failed());
    assert_eq!(cmd.operation(), Some("make_it".to_string()));
    assert!(cmd.invoking_operation_names().is_empty());
    assert_eq!(cmd.topic, topic);
    assert_eq!(cmd.status, "init");
    assert!(same_json(
        &cmd.payload,
        &obj(vec![("status", s("init")), ("foo", n("42")), ("bar", extra())])
    ));
    assert_eq!(cmd.invoking_command_topic(), None);

    let update_cmd = cmd.move_to(GenericStateUpdate::to_status("executing"));
    assert_eq!(update_cmd.topic, topic);
    assert_eq!(update_cmd.status, "executing");
    assert!(same_json(
        &update_cmd.payload,
        &obj(vec![("status", s("executing")), ("foo", n("42")), ("bar", extra())])
    ));
    assert_eq!(update_cmd.invoking_command_topic(), None);

    let final_cmd = update_cmd.fail_with("panic".to_string());
    assert_eq!(final_cmd.topic, topic);
    assert_eq!(final_cmd.status, "failed");
    assert!(same_json(
        &final_cmd.payload,
        &obj(vec![
            ("status", s("failed")),
            ("reason", s("panic")),
            ("foo", n("42")),
            ("bar", extra())
        ])
    ));
    assert_eq!(final_cmd.invoking_command_topic(), None);
}

#[test]
fn retrieve_invoking_command() {
    let topic = "te/device/main///cmd/do_it/sub:make_it:456";
    let payload = obj(vec![("status", s("successful")), ("foo", n("42")), ("bar", extra())]);
    let cmd = read(topic, payload);
    assert!(cmd.is_successful());
    assert!(cmd.is_finished());
    assert!(!cmd.is_failed());
    assert_eq!(cmd.operation(), Some("do_it".to_string()));
    assert_eq!(cmd.invoking_operation_names(), vec!["make_it".to_string()]);
    assert_eq!(cmd.topic, topic);
    assert_eq!(cmd.status, "successful");
    assert!(same_json(
        &cmd.payload,
        &obj(vec![("status", s("successful")), ("foo", n("42")), ("bar", extra())])
    ));
    assert_eq!(
        cmd.invoking_command_topic(),
        Some("te/device/main///cmd/make_it/456".to_string())
    );
}

#[test]
fn retrieve_invoking_command_of_sub_sub_command() {
    let topic = "te/device/main///cmd/child/sub:parent:sub:grand-parent:456";
    let payload = obj(vec![("status", s("failed")), ("reason", s("no idea"))]);
    let cmd = read(topic, payload);
    assert!(cmd.is_finished());
    assert!(cmd.is_failed());
    assert_eq!(cmd.failure_reason().map(|r| r.as_str()), Some("no idea"));
    assert!(!cmd.is_successful());
    assert_eq!(cmd.operation(), Some("child".to_string()));
    assert_eq!(
        cmd.invoking_operation_names(),
        vec!["grand-parent".to_string(), "parent".to_string()]
    );
    assert_eq!(cmd.topic, topic);
    assert_eq!(cmd.status, "failed");
    assert!(same_json(
        &cmd.payload,
        &obj(vec![("status", s("failed")), ("reason", s("no idea"))])
    ));
    assert_eq!(
        cmd.invoking_command_topic(),
        Some("te/device/main///cmd/parent/sub:grand-parent:456".to_string())
    );
}

#[test]
fn parse_empty_payload() {
    let topic = "te/device/main///cmd/make_it/123";
    let cmd = GenericCommandState::from_command_message(topic, None).expect("parsing error");
    assert!(cmd.is_cleared())
}

#[test]
fn payload_without_status_is_refused() {
    let topic = "te/device/main///cmd/make_it/123";
    let r = GenericCommandState::from_command_message(topic, Some(obj(vec![("foo", n("1"))])));
    assert_eq!(r, Err(WorkflowExecutionError::MissingStatus));
    let r = GenericCommandState::from_command_message(topic, Some(s("init")));
    assert_eq!(r, Err(WorkflowExecutionError::MissingStatus));
}

#[test]
fn sub_command_ids_chain_back_in_nesting_order() {
    let id1 = sub_command_id("o1", "id");
    let id2 = sub_command_id("o2", &id1);
    let id3 = sub_command_id("o3", &id2);
    assert_eq!(id3, "sub:o3:sub:o2:sub:o1:id");
    assert_eq!(
        extract_invoking_operation_names(&id3),
        vec!["o1".to_string(), "o2".to_string(), "o3".to_string()]
    );
    assert!(extract_invoking_operation_names("robot-123").is_empty());
}

#[test]
fn move_to_keeps_other_fields() {
    let topic = "te/device/main///cmd/make_it/1";
    let cmd = read(
        topic,
        obj(vec![("status", s("init")), ("logPath", s("/tmp/x.log")), ("n", n("7"))]),
    );
    let next = cmd.move_to(GenericStateUpdate::failed("boom".to_string()));
    assert_eq!(next.status, "failed");
    assert!(same_json(
        &next.payload,
        &obj(vec![
            ("status", s("failed")),
            ("logPath", s("/tmp/x.log")),
            ("n", n("7")),
            ("reason", s("boom"))
        ])
    ));
    assert_eq!(next.get_log_path().map(|p| p.as_str()), Some("/tmp/x.log"));
}

#[test]
fn clear_twice_gives_the_same_empty_state() {
    let topic = "te/device/main///cmd/make_it/2";
    let cmd = read(topic, obj(vec![("status", s("successful")), ("x", n("1"))]));
    let once = cmd.clear();
    assert_eq!(once.status, "");
    assert_eq!(once.payload, JsonValue::Null);
    let twice = GenericCommandState {
        topic: once.topic.clone(),
        status: once.status.clone(),
        payload: JsonValue::Null,
    }
    .clear();
    assert_eq!(twice, once);
    let message = twice.into_message();
    assert_eq!(message.topic, topic);
    assert!(message.payload.is_none());
}

#[test]
fn into_message_sets_the_status() {
    let cmd = GenericCommandState {
        topic: "te/device/main///cmd/a/1".to_string(),
        status: "executing".to_string(),
        payload: obj(vec![("status", s("init"))]),
    };
    let message = cmd.into_message();
    assert!(same_json(
        &message.payload.unwrap(),
        &obj(vec![("status", s("executing"))])
    ));
}

#[test]
fn update_with_json_merges_and_takes_the_status() {
    let cmd = read(
        "te/device/main///cmd/a/1",
        obj(vec![("status", s("init")), ("a", n("1"))]),
    );
    let next = cmd.update_with_json(obj(vec![("status", s("executing")), ("b", n("2"))]));
    assert_eq!(next.status, "executing");
    assert!(same_json(
        &next.payload,
        &obj(vec![("status", s("executing")), ("a", n("1")), ("b", n("2"))])
    ));
    let next = next.update_with_json(obj(vec![("status", n("3"))]));
    assert_eq!(next.status, "failed");
    assert_eq!(
        next.failure_reason().map(|r| r.as_str()),
        Some("Unknown status")
    );
}

#[test]
fn merge_into_overrides_fields() {
    let small = GenericCommandState::new(
        "t".to_string(),
        "successful".to_string(),
        obj(vec![("x", n("2"))]),
    );
    let big = GenericCommandState::new(
        "t".to_string(),
        "executing".to_string(),
        obj(vec![("x", n("1")), ("y", n("1"))]),
    );
    let merged = small.merge_into(big);
    assert_eq!(merged.status, "successful");
    assert!(same_json(
        &merged.payload,
        &obj(vec![("status", s("successful")), ("x", n("2")), ("y", n("1"))])
    ));
}

#[test]
fn command_status_words() {
    let mk = |st: &str, reason: Option<&str>| {
        let mut fields = vec![("status", s(st))];
        if let Some(r) = reason {
            fields.push(("reason", s(r)));
        }
        read("te/device/main///cmd/a/1", obj(fields))
    };
    assert!(matches!(mk("init", None).get_command_status(), CommandStatus::Init));
    assert!(matches!(mk("scheduled", None).get_command_status(), CommandStatus::Scheduled));
    assert!(matches!(mk("executing", None).get_command_status(), CommandStatus::Executing));
    assert!(matches!(mk("successful", None).get_command_status(), CommandStatus::Successful));
    match mk("failed", Some("oops")).get_command_status() {
        CommandStatus::Failed { reason } => assert_eq!(reason, "oops"),
        other => panic!("{other:?}"),
    }
    match mk("failed", None).get_command_status() {
        CommandStatus::Failed { reason } => assert_eq!(reason, "unknown reason"),
        other => panic!("{other:?}"),
    }
    assert!(matches!(mk("custom", None).get_command_status(), CommandStatus::Unknown));
}

#[test]
fn sub_command_init_state_points_to_its_invoker() {
    let entity = EntityTopicId::parse("device/main//").unwrap();
    let st = GenericCommandState::sub_command_init_state("te", &entity, "do_it", "123", "make_it");
    assert_eq!(st.topic, "te/device/main///cmd/make_it/sub:do_it:123");
    assert!(st.is_init());
    assert_eq!(
        st.invoking_command_topic(),
        Some("te/device/main///cmd/do_it/123".to_string())
    );
    assert_eq!(st.root_prefix(), Some("te".to_string()));
    assert_eq!(st.target(), Some("device/main//".to_string()));
    assert_eq!(st.cmd_id(), Some("sub:do_it:123".to_string()));
}

#[test]
fn key_values_and_versions() {
    let cmd = read("te/device/main///cmd/a/1", obj(vec![("status", s("init"))]));
    let mut cmd = cmd.with_workflow_version("2.0").with_log_path("/var/log/a.log");
    assert_eq!(cmd.workflow_version().map(|v| v.as_str()), Some("2.0"));
    cmd.set_key_value("status", "scheduled");
    assert_eq!(cmd.status, "scheduled");
    cmd.set_log_path("/tmp/b.log");
    cmd.set_workflow_version("3");
    assert_eq!(cmd.get_log_path().map(|v| v.as_str()), Some("/tmp/b.log"));
    assert_eq!(cmd.workflow_version().map(|v| v.as_str()), Some("3"));
    let cmd = cmd.update(GenericStateUpdate::timeout());
    assert_eq!(cmd.failure_reason().map(|v| v.as_str()), Some("timeout"));
}

#[test]
fn state_updates() {
    assert_eq!(GenericStateUpdate::scheduled().status, "scheduled");
    assert_eq!(GenericStateUpdate::executing().status, "executing");
    assert_eq!(GenericStateUpdate::successful().status, "successful");
    let u = GenericStateUpdate::unknown_error();
    assert_eq!((u.status.as_str(), u.reason), ("failed", None));
    let u = GenericStateUpdate::timeout();
    assert_eq!(u.reason, Some("timeout".to_string()));
    let json = GenericStateUpdate::failed("bad".to_string()).into_json();
    assert!(same_json(&json, &obj(vec![("status", s("failed")), ("reason", s("bad"))])));
    assert_eq!(
        GenericStateUpdate::extract_reason(&json),
        Some("bad".to_string())
    );
    let injected = GenericStateUpdate::failed("default".to_string())
        .inject_into_json(obj(vec![("status", s("ok")), ("reason", s("script"))]));
    assert!(same_json(
        &injected,
        &obj(vec![("status", s("failed")), ("reason", s("script"))])
    ));
    let injected = GenericStateUpdate::failed("default".to_string()).inject_into_json(n("1"));
    assert!(same_json(
        &injected,
        &obj(vec![("status", s("failed")), ("reason", s("default"))])
    ));
}

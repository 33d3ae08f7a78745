use tedge_core::entity_store::EntityMetadata;
use tedge_core::entity_store::EntityRegistrationMessage;
use tedge_core::entity_store::EntityStore;
use tedge_core::entity_store::EntityStoreError;
use tedge_core::entity_store::EntityType;
use tedge_core::entity_store::InputValidationError;
use tedge_core::entity_store::ListFilters;
use tedge_core::entity_store::ListParams;
use tedge_core::entity_store::is_valid_twin_key;
use tedge_core::json::JsonObject;
use tedge_core::json::JsonValue;
use tedge_core::topics::Channel;
use tedge_core::topics::EntityTopicId;
use tedge_core::topics::PathError;
use tedge_core::topics::TopicIdError;
use tedge_core::topics::normalize_name;
use tedge_core::topics::parse_path;
use tedge_core::topics::topic_id_from_path_segments;

fn id(s: &str) -> EntityTopicId {
    EntityTopicId::parse(s).unwrap()
}

fn reg(topic: &str, ty: EntityType, parent: Option<&str>) -> EntityRegistrationMessage {
    EntityRegistrationMessage {
        topic_id: id(topic),
        external_id: None,
        entity_type: ty,
        parent: parent.map(id),
        health_endpoint: None,
        twin_data: JsonObject::new(),
    }
}

fn store() -> EntityStore {
    let mut st = EntityStore::new();
    st.register(reg("device/main//", EntityType::MainDevice, None)).unwrap();
    st.register(reg("device/child1//", EntityType::ChildDevice, Some("device/main//")))
        .unwrap();
    st.register(reg("device/child2//", EntityType::ChildDevice, Some("device/child1//")))
        .unwrap();
    st.register(reg("device/child1/service/s1", EntityType::Service, Some("device/child1//")))
        .unwrap();
    st.register(reg("device/other//", EntityType::ChildDevice, Some("device/main//")))
        .unwrap();
    st
}

fn ids(v: Vec<EntityTopicId>) -> Vec<String> {
    v.iter().map(|t| t.as_str().to_string()).collect()
}

fn snapshot(st: &EntityStore) -> Vec<String> {
    let all = st.list(&ListFilters { root: None, parent: None, entity_type: None });
    all.iter()
        .map(|t| {
            let e: &EntityMetadata = st.get(t).unwrap();
            format!("{:?}", e)
        })
        .collect()
}

#[test]
fn parse_entity_paths() {
    let (t, c) = parse_path("device/main").unwrap();
    assert_eq!(t.as_str(), "device/main//");
    assert!(matches!(c, Channel::EntityMetadata));
    let (t, _) = parse_path("device/child/service").unwrap();
    assert_eq!(t.as_str(), "device/child/service/");
    let (t, c) = parse_path("device/child/service/collectd").unwrap();
    assert_eq!(t.as_str(), "device/child/service/collectd");
    assert!(matches!(c, Channel::EntityMetadata));
    let (t, c) = parse_path("device/test-child///twin").unwrap();
    assert_eq!(t.as_str(), "device/test-child//");
    match c {
        Channel::EntityTwinData { fragment_key } => assert_eq!(fragment_key, ""),
        other => panic!("{other:?}"),
    }
    let (_, c) = parse_path("device/test-child///twin/foo").unwrap();
    match c {
        Channel::EntityTwinData { fragment_key } => assert_eq!(fragment_key, "foo"),
        other => panic!("{other:?}"),
    }
}

#[test]
fn parse_path_errors() {
    match parse_path("device/test-child///cmd/") {
        Err(PathError::UnsupportedChannel(c)) => assert_eq!(c, "cmd"),
        other => panic!("{other:?}"),
    }
    match parse_path("device/test-child///twin/a/b") {
        Err(PathError::InvalidTwinData(k)) => assert_eq!(k, "a/b"),
        other => panic!("{other:?}"),
    }
    assert!(matches!(parse_path("device"), Err(PathError::ResourceNotFound)));
    assert!(matches!(
        parse_path("device/+"),
        Err(PathError::InvalidEntityTopicId(TopicIdError::InvalidMqttTopic))
    ));
}

#[test]
fn topic_ids() {
    assert_eq!(
        EntityTopicId::parse("device/main").unwrap_err(),
        TopicIdError::InvalidNumberOfSegments
    );
    assert_eq!(
        EntityTopicId::parse("device/#//").unwrap_err(),
        TopicIdError::InvalidMqttTopic
    );
    let t = topic_id_from_path_segments("device", Some("c"), None, None).unwrap();
    assert_eq!(t.as_str(), "device/c//");
    assert_eq!(normalize_name(&id("device/child1//")), "device:child1");
    assert_eq!(normalize_name(&id("device/main/service/collectd")), "device:main:service:collectd");
}

#[test]
fn register_and_get() {
    let st = store();
    let e = st.get(&id("device/child2//")).unwrap();
    assert_eq!(e.entity_type, EntityType::ChildDevice);
    assert_eq!(e.parent.as_ref().unwrap().as_str(), "device/child1//");
    assert!(st.get(&id("device/none//")).is_none());
}

#[test]
fn register_refusals_change_nothing() {
    let mut st = store();
    let before = snapshot(&st);
    assert!(matches!(
        st.register(reg("device/child1//", EntityType::ChildDevice, Some("device/main//"))),
        Err(EntityStoreError::EntityAlreadyRegistered(_))
    ));
    assert!(matches!(
        st.register(reg("device/x//", EntityType::ChildDevice, Some("device/nope//"))),
        Err(EntityStoreError::NoParent(_))
    ));
    let mut bad = reg("device/y//", EntityType::ChildDevice, None);
    bad.twin_data.insert("@id".to_string(), JsonValue::Null);
    assert!(matches!(st.register(bad), Err(EntityStoreError::InvalidTwinData(_))));
    assert_eq!(snapshot(&st), before);
    let done = st.register(reg("device/z//", EntityType::ChildDevice, None)).unwrap();
    assert_eq!(ids(done), vec!["device/z//".to_string()]);
}

#[test]
fn delete_cascades_to_descendants() {
    let mut st = store();
    let gone = ids(st.delete(&id("device/child1//")));
    assert_eq!(
        gone,
        vec![
            "device/child1//".to_string(),
            "device/child2//".to_string(),
            "device/child1/service/s1".to_string()
        ]
    );
    let left = ids(st.list(&ListFilters { root: None, parent: None, entity_type: None }));
    assert_eq!(left, vec!["device/main//".to_string(), "device/other//".to_string()]);
    assert!(st.delete(&id("device/unknown//")).is_empty());
}

#[test]
fn list_with_filters() {
    let st = store();
    let by_root = ids(st.list(&ListFilters {
        root: Some(id("device/child1//")),
        parent: None,
        entity_type: None,
    }));
    assert_eq!(
        by_root,
        vec![
            "device/child1//".to_string(),
            "device/child2//".to_string(),
            "device/child1/service/s1".to_string()
        ]
    );
    let by_parent = ids(st.list(&ListFilters {
        root: None,
        parent: Some(id("device/main//")),
        entity_type: None,
    }));
    assert_eq!(by_parent, vec!["device/child1//".to_string(), "device/other//".to_string()]);
    let services = ids(st.list(&ListFilters {
        root: None,
        parent: None,
        entity_type: Some(EntityType::Service),
    }));
    assert_eq!(services, vec!["device/child1/service/s1".to_string()]);
}

#[test]
fn list_params_validation() {
    let both = ListParams {
        root: Some("device/main//".to_string()),
        parent: Some("device/main//".to_string()),
        entity_type: None,
    };
    assert_eq!(
        ListFilters::try_from(both).unwrap_err(),
        InputValidationError::IncompatibleParams("root".to_string(), "parent".to_string())
    );
    let bad_type = ListParams { entity_type: Some("gadget".to_string()), ..Default::default() };
    assert_eq!(
        ListFilters::try_from(bad_type).unwrap_err(),
        InputValidationError::InvalidEntityType("gadget".to_string())
    );
    let bad_topic = ListParams { parent: Some("a/b".to_string()), ..Default::default() };
    assert_eq!(
        ListFilters::try_from(bad_topic).unwrap_err(),
        InputValidationError::InvalidEntityTopic(TopicIdError::InvalidNumberOfSegments)
    );
    let empty = ListParams {
        root: Some(String::new()),
        parent: Some("device/main//".to_string()),
        entity_type: Some("child-device".to_string()),
    };
    let f = ListFilters::try_from(empty).unwrap();
    assert!(f.root.is_none());
    assert_eq!(f.parent.unwrap().as_str(), "device/main//");
    assert_eq!(f.entity_type, Some(EntityType::ChildDevice));
}

#[test]
fn twin_key_rejection_changes_nothing() {
    let mut st = store();
    let child = id("device/child1//");
    st.set_twin_fragment(&child, "foo".to_string(), JsonValue::Str("bar".to_string()))
        .unwrap();
    for key in ["@id", "with/slash", ""] {
        let before = snapshot(&st);
        let err = st
            .set_twin_fragment(&child, key.to_string(), JsonValue::Str("new-id".to_string()))
            .unwrap_err();
        assert!(matches!(err, EntityStoreError::InvalidTwinData(_)));
        assert_eq!(snapshot(&st), before);
    }
    let err = st
        .set_twin_fragment(&child, "@id".to_string(), JsonValue::Null)
        .unwrap_err();
    assert_eq!(
        err.message().unwrap(),
        "Invalid twin key: '@id'. Keys that are empty, containing '/' or starting with '@' are not allowed"
    );
    assert!(!is_valid_twin_key("@id"));
    assert!(is_valid_twin_key("name"));
}

#[test]
fn twin_fragments() {
    let mut st = store();
    let child = id("device/child1//");
    st.set_twin_fragment(&child, "foo".to_string(), JsonValue::Str("bar".to_string()))
        .unwrap();
    assert_eq!(
        st.get_twin_fragment(&child, "foo").unwrap(),
        Some(&JsonValue::Str("bar".to_string()))
    );
    st.set_twin_fragment(&child, "foo".to_string(), JsonValue::Null).unwrap();
    assert_eq!(st.get_twin_fragment(&child, "foo").unwrap(), None);
    assert!(matches!(
        st.get_twin_fragment(&id("device/nope//"), "foo"),
        Err(EntityStoreError::UnknownEntity(_))
    ));
    assert!(matches!(
        st.set_twin_fragment(&id("device/nope//"), "foo".to_string(), JsonValue::Null),
        Err(EntityStoreError::UnknownEntity(_))
    ));

    let mut all = JsonObject::new();
    all.insert("a".to_string(), JsonValue::Bool(true));
    all.insert("@id".to_string(), JsonValue::Bool(true));
    let before = snapshot(&st);
    assert!(matches!(
        st.set_twin_fragments(&child, all),
        Err(EntityStoreError::InvalidTwinData(_))
    ));
    assert_eq!(snapshot(&st), before);

    let mut all = JsonObject::new();
    all.insert("a".to_string(), JsonValue::Bool(true));
    st.set_twin_fragments(&child, all).unwrap();
    let twin = st.get_twin_fragments(&child).unwrap();
    assert_eq!(twin.get("a"), Some(&JsonValue::Bool(true)));
    st.set_twin_fragments(&child, JsonObject::new()).unwrap();
    assert!(st.get_twin_fragments(&child).unwrap().is_empty());
}

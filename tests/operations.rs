use tedge_core::config::Multi;
use tedge_core::config::MultiError;
use tedge_core::config::ProxyScheme;
use tedge_core::firmware::ActiveOperationState;
use tedge_core::firmware::ChildStatus;
use tedge_core::firmware::DownloadDecision;
use tedge_core::firmware::FirmwareManager;
use tedge_core::firmware::FirmwareOperationEntry;
use tedge_core::firmware::FirmwareRequest;
use tedge_core::firmware::RequestDecision;
use tedge_core::firmware::firmware_cache_key;
use tedge_core::software::SelfUpdateError;
use tedge_core::software::SoftwareOperationKind;
use tedge_core::software::detect_self_update;
use tedge_core::software::pending_operation_failure;

fn request(device: &str) -> FirmwareRequest {
    FirmwareRequest {
        device: device.to_string(),
        name: "fw".to_string(),
        version: "1.0".to_string(),
        url: "hello".to_string(),
    }
}

const HELLO_DIGEST: &str = "2cf24dba5fb0a30e26e83b2ac5b9e29e1b161e5c1fa7425e73043362938b9824";

fn started(m: &mut FirmwareManager, child: &str) -> FirmwareOperationEntry {
    let op_id = match m.handle_firmware_request(request(child)) {
        RequestDecision::Download(id) => id,
        other => panic!("{other:?}"),
    };
    assert_eq!(op_id.chars().count(), 21);
    let req = match m.process_after_download(&op_id, None) {
        DownloadDecision::Start(req) => req,
        other => panic!("{other:?}"),
    };
    assert!(m.take_pending_download(&op_id).is_none());
    m.start_with_file(req, &op_id, "127.0.0.1:8000", "abc".to_string())
}

#[test]
fn cache_key_is_the_digest_of_the_url() {
    assert_eq!(firmware_cache_key("hello"), HELLO_DIGEST);
}

#[test]
fn new_request_starts_an_operation() {
    let mut m = FirmwareManager::new("main".to_string(), 3600);
    let e = started(&mut m, "child1");
    assert_eq!(e.attempt, 1);
    assert_eq!(e.child_id, "child1");
    assert_eq!(
        e.file_transfer_url,
        format!("http://127.0.0.1:8000/tedge/file-transfer/child1/firmware_update/{HELLO_DIGEST}")
    );
    assert_eq!(m.get_state("child1", &e.operation_id), Some(ActiveOperationState::Pending));
    assert_eq!(m.stored_records().len(), 1);
}

#[test]
fn request_for_main_device_is_left_alone() {
    let mut m = FirmwareManager::new("main".to_string(), 3600);
    assert!(matches!(m.handle_firmware_request(request("main")), RequestDecision::NotForChild));
    assert!(m.stored_records().is_empty());
}

#[test]
fn duplicate_request_is_already_addressed() {
    let mut m = FirmwareManager::new("main".to_string(), 3600);
    let first = started(&mut m, "child1");
    match m.handle_firmware_request(request("child1")) {
        RequestDecision::AlreadyAddressed(e) => {
            assert_eq!(e.operation_id, first.operation_id);
            assert_eq!(e.attempt, 2);
        }
        other => panic!("{other:?}"),
    }
    assert_eq!(m.stored_records().len(), 1);
    assert_eq!(m.stored_records()[0].attempt, 2);
    assert_eq!(
        m.get_state("child1", &first.operation_id),
        Some(ActiveOperationState::Pending)
    );
}

#[test]
fn responses_drive_the_operation() {
    let mut m = FirmwareManager::new("main".to_string(), 3600);
    let e = started(&mut m, "child1");
    let op = e.operation_id.as_str();
    let d = m.handle_child_response("child1", op, ChildStatus::Executing);
    assert!(!d.ignored && d.publish_executing && d.rearm_timeout);
    assert_eq!(m.get_state("child1", op), Some(ActiveOperationState::Executing));
    let d = m.handle_child_response("child1", op, ChildStatus::Executing);
    assert!(!d.publish_executing && d.rearm_timeout);
    let d = m.handle_child_response("child1", op, ChildStatus::Successful);
    assert_eq!(d.succeeded.unwrap().operation_id, op);
    assert_eq!(m.get_state("child1", op), None);
    assert!(m.stored_records().is_empty());
    let d = m.handle_child_response("child1", op, ChildStatus::Failed);
    assert!(d.ignored);
}

#[test]
fn failed_response_removes_the_operation() {
    let mut m = FirmwareManager::new("main".to_string(), 3600);
    let e = started(&mut m, "child1");
    let d = m.handle_child_response("child1", &e.operation_id, ChildStatus::Failed);
    assert_eq!(d.failed.as_deref(), Some("No failure reason provided by child device."));
    assert!(d.publish_executing && d.succeeded.is_none() && !d.record_missing);
    assert!(m.stored_records().is_empty());
}

#[test]
fn timeouts_fail_tracked_operations_only() {
    let mut m = FirmwareManager::new("main".to_string(), 3600);
    let e = started(&mut m, "child1");
    let failure = m.process_operation_timeout("child1", &e.operation_id).unwrap();
    assert!(failure.publish_executing);
    assert_eq!(
        failure.reason,
        format!(
            "Child device child1 did not respond within the timeout interval of 3600sec. Operation ID={}",
            e.operation_id
        )
    );
    assert!(m.stored_records().is_empty());
    assert!(m.process_operation_timeout("child1", &e.operation_id).is_none());
    let e = started(&mut m, "child2");
    m.handle_child_response("child2", &e.operation_id, ChildStatus::Executing);
    assert!(!m.process_operation_timeout("child2", &e.operation_id).unwrap().publish_executing);
    assert!(m.fail_operation("child3", None));
}

#[test]
fn remove_entry_defaults_to_pending() {
    let mut m = FirmwareManager::new("main".to_string(), 3600);
    assert_eq!(
        m.remove_entry_from_active_operations("c", "x"),
        ActiveOperationState::Pending
    );
}

#[test]
fn restart_resends_every_record() {
    let mut m = FirmwareManager::new("main".to_string(), 3600);
    let stored = vec![FirmwareOperationEntry {
        operation_id: "op1".to_string(),
        child_id: "child1".to_string(),
        name: "fw".to_string(),
        version: "1".to_string(),
        server_url: "u".to_string(),
        file_transfer_url: "f".to_string(),
        sha256: "s".to_string(),
        attempt: 3,
    }];
    let out = m.resend_operations(stored);
    assert_eq!(out.len(), 1);
    assert_eq!(out[0].attempt, 4);
    assert_eq!(m.get_state("child1", "op1"), Some(ActiveOperationState::Pending));
    let e = out[0].duplicate().increment_attempt();
    assert_eq!(e.attempt, 5);
    let max = FirmwareOperationEntry { attempt: u32::MAX, ..out[0].duplicate() };
    assert_eq!(max.increment_attempt().attempt, u32::MAX);
}

#[test]
fn leftover_software_operation_is_cancelled() {
    assert_eq!(pending_operation_failure(None), None);
    assert_eq!(
        pending_operation_failure(Some(SoftwareOperationKind::SoftwareUpdate)).unwrap(),
        "Software Update command cancelled due to unexpected agent restart"
    );
    assert_eq!(
        pending_operation_failure(Some(SoftwareOperationKind::SoftwareList)).unwrap(),
        "Software List request cancelled due to unexpected agent restart"
    );
}

#[test]
fn self_update_detection() {
    assert_eq!(detect_self_update("1.2.0", "tedge-agent 1.2.0\n"), Ok(()));
    assert_eq!(
        detect_self_update("1.2.0", "tedge-agent   1.3.0"),
        Err(SelfUpdateError::NotRunningLatestVersion)
    );
    assert_eq!(
        detect_self_update("1.2.0", "something else entirely"),
        Err(SelfUpdateError::UnexpectedVersionOutput)
    );
}

#[test]
fn proxy_scheme_flags() {
    assert_eq!(ProxyScheme::parse("HTTP").unwrap(), ProxyScheme::Http);
    assert_eq!(ProxyScheme::parse("HtTpS").unwrap(), ProxyScheme::Https);
    let err = ProxyScheme::parse("ftp").unwrap_err();
    assert_eq!(err.input, "ftp");
    assert_eq!(
        err.message(),
        "Failed to parse flag: ftp. Supported values are: HTTP, HTTPS"
    );
    assert_eq!(ProxyScheme::Https.as_str(), "https");
}

#[test]
fn multi_values() {
    let single: Multi<u32> = Multi::Single(0);
    assert!(single.is_default());
    assert_eq!(single.get(None), Ok(&0));
    assert_eq!(single.get(Some("x")), Err(MultiError::MultiNotSingle));
    let mut named: Multi<u32> = Multi::Multi(vec![("a".to_string(), 1), ("b".to_string(), 2)]);
    assert!(!named.is_default());
    assert_eq!(named.get(Some("b")), Ok(&2));
    assert_eq!(named.get(Some("c")), Err(MultiError::MultiKeyNotFound));
    assert_eq!(named.get(None), Err(MultiError::SingleNotMulti));
    *named.get_mut(Some("a")).unwrap() = 10;
    assert_eq!(named.get(Some("a")), Ok(&10));
    let lens = named.map(|k| k.map(|k| k.len()).unwrap_or(0));
    match lens {
        Multi::Multi(v) => assert_eq!(v, vec![("a".to_string(), 1), ("b".to_string(), 1)]),
        other => panic!("{other:?}"),
    }
    assert!(matches!(single.map(|k| k.is_none()), Multi::Single(true)));
    assert_eq!(
        MultiError::SingleNotMulti.message(),
        "You are trying to access a named field, but the fields are not named"
    );
    assert_eq!(MultiError::MultiKeyNotFound.message(), "You need a name for this field");
}

#[test]
fn failed_download_fails_the_operation() {
    let mut m = FirmwareManager::new("main".to_string(), 10);
    let op_id = match m.handle_firmware_request(request("child1")) {
        RequestDecision::Download(id) => id,
        other => panic!("{other:?}"),
    };
    match m.process_after_download(&op_id, Some("404")) {
        DownloadDecision::Failed { child_id, reason } => {
            assert_eq!(child_id, "child1");
            assert!(reason.publish_executing);
            assert_eq!(reason.reason, "Download from hello failed with 404");
        }
        other => panic!("{other:?}"),
    }
    assert!(matches!(m.process_after_download(&op_id, None), DownloadDecision::Unknown));
    assert!(m.stored_records().is_empty());
}

#[test]
fn decimal_rendering() {
    assert_eq!(tedge_core::text::decimal_text(0), "0");
    assert_eq!(tedge_core::text::decimal_text(3600), "3600");
    assert_eq!(tedge_core::text::decimal_text(u64::MAX), u64::MAX.to_string());
}

use verse::json::{JsonKind, JsonValue};
use verse::reports::{
    models_report, models_report_from, pending_report, pending_total, validation_request_report,
    validation_request_report_from, ModelsReport, PendingReport,
};

#[test]
fn models_list() {
    let body = r#"[{"id":"m1","name":"Skin","vectorFormat":"len=3","createdAt":"t0","updatedAt":"t1"},{"name":5}]"#;
    match models_report(body) {
        ModelsReport::Models(ms) => {
            assert_eq!(ms.len(), 2);
            assert_eq!(ms[0].id, "m1");
            assert_eq!(ms[0].name, "Skin");
            assert_eq!(ms[0].vector_format, "len=3");
            assert_eq!(ms[0].created_at, "t0");
            assert_eq!(ms[0].updated_at, "t1");
            assert_eq!(ms[1].id, "-");
            assert_eq!(ms[1].name, "-");
        }
        other => panic!("unexpected {:?}", other),
    }
    assert!(matches!(models_report("[]"), ModelsReport::NoModels));
    assert!(matches!(models_report("{}"), ModelsReport::Raw));
    assert!(matches!(models_report("not json"), ModelsReport::Raw));
}

#[test]
fn models_from_a_built_document() {
    let item = JsonValue {
        kind: JsonKind::Object(vec![(
            "id".to_string(),
            JsonValue { kind: JsonKind::Str("abc".to_string()), text: "\"abc\"".to_string() },
        )]),
        text: String::new(),
    };
    let doc = JsonValue { kind: JsonKind::Array(vec![item]), text: String::new() };
    match models_report_from(&Some(doc)) {
        ModelsReport::Models(ms) => {
            assert_eq!(ms[0].id, "abc");
            assert_eq!(ms[0].updated_at, "-");
        }
        other => panic!("unexpected {:?}", other),
    }
    assert!(matches!(models_report_from(&None), ModelsReport::Raw));
}

#[test]
fn validation_request_summary() {
    let body = r#"{"id":"v1","modelId":"m1","status":"pending","proofHash":[1,2,3],"jsonUrl":7}"#;
    let s = validation_request_report(body).unwrap();
    assert_eq!(s.id, "v1");
    assert_eq!(s.model_id, "m1");
    assert_eq!(s.verifier_id, "-");
    assert_eq!(s.json_url, "-");
    assert_eq!(s.status, "pending");
    assert_eq!(s.proof_hash, "[1, 2, 3]");
    let s = validation_request_report(r#"{"proofHash":["ab", 1.5, null]}"#).unwrap();
    assert_eq!(s.proof_hash, "[\"ab\", 1.5, null]");
    let s = validation_request_report(r#"{"proofHash":"abc"}"#).unwrap();
    assert_eq!(s.proof_hash, "\"abc\"");
    let s = validation_request_report(r#"{"proofHash":[]}"#).unwrap();
    assert_eq!(s.proof_hash, "[]");
    let s = validation_request_report(r#"{}"#).unwrap();
    assert_eq!(s.proof_hash, "-");
    assert!(validation_request_report("[1]").is_none());
    assert!(validation_request_report_from(&None).is_none());
}

#[test]
fn pending_validations() {
    let body = r#"{"models":[
        {"id":"a","name":"A","validationRequests":[{"id":"r1","status":"done"}]},
        {"id":"b","validationRequests":[
            {"id":"r2","status":"pending","verifierId":"v","elfFileUrl":"u","createdAt":"c"},
            {"id":"r3","status":"pending"},
            {"id":"r4","status":"PENDING"}]},
        {"name":"C","validationRequests":[{"status":"pending"}]},
        {"id":"d"}
    ]}"#;
    match pending_report(body) {
        PendingReport::Pending(groups) => {
            assert_eq!(groups.len(), 2);
            assert_eq!(groups[0].number, 2);
            assert_eq!(groups[0].model_id, "b");
            assert_eq!(groups[0].model_name, "");
            assert_eq!(groups[0].requests.len(), 2);
            assert_eq!(groups[0].requests[0].id, "r2");
            assert_eq!(groups[0].requests[0].verifier_id, "v");
            assert_eq!(groups[0].requests[0].elf_file_url, "u");
            assert_eq!(groups[0].requests[0].created_at, "c");
            assert_eq!(groups[0].requests[1].id, "r3");
            assert_eq!(groups[0].requests[1].created_at, "-");
            assert_eq!(groups[1].number, 3);
            assert_eq!(groups[1].model_id, "-");
            assert_eq!(groups[1].model_name, "C");
            assert_eq!(pending_total(&groups), 3);
        }
        other => panic!("unexpected {:?}", other),
    }
    assert!(matches!(pending_report(r#"{"models":[{"id":"a"}]}"#), PendingReport::NoPending));
    assert!(matches!(pending_report(r#"{"models":[]}"#), PendingReport::NoPending));
    assert!(matches!(pending_report(r#"{"models":3}"#), PendingReport::Raw));
    assert!(matches!(pending_report(r#"[]"#), PendingReport::Raw));
    assert!(matches!(pending_report("oops"), PendingReport::Raw));
}

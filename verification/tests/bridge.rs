use mwpf_bridge::descriptor::{DecodeError, RawDoc, RawFlag, RawInput};
use mwpf_bridge::envelope::{Envelope, WeightRangeEnc};
use mwpf_bridge::pipeline::{
    complete_envelope, pipeline_advance, plan_invocation, PipelinePhase, PipelineStage,
};
use mwpf_bridge::rational::{parse_int_token, rat_le, tokens_rat_le, weight_range_ordered};
use mwpf_bridge::task::{task_step, TaskAction, TaskEvent, TaskState};
use mwpf_bridge::transport::parse_envelope;

fn raw_input_full() -> RawInput {
    RawInput {
        is_object: true,
        initializer: Some(b"{\"vertex_num\":2}".to_vec()),
        syndrome_pattern: Some(b"{\"defect_vertices\":[0]}".to_vec()),
        positions: RawDoc::Value(b"[{\"i\":0.0,\"j\":0.0,\"t\":0.0}]".to_vec()),
        solver_config: RawDoc::Value(b"{\"timeout\":1.0}".to_vec()),
        html_override_config: RawDoc::Value(b"{\"patch\":true}".to_vec()),
        with_json: RawFlag::Flag(true),
        with_html: RawFlag::Flag(false),
    }
}

#[test]
fn decode_applies_defaults() {
    let raw = RawInput {
        is_object: true,
        initializer: Some(b"{}".to_vec()),
        syndrome_pattern: Some(b"{}".to_vec()),
        positions: RawDoc::Absent,
        solver_config: RawDoc::Absent,
        html_override_config: RawDoc::Absent,
        with_json: RawFlag::Absent,
        with_html: RawFlag::Absent,
    };
    let d = raw.decode().unwrap();
    assert_eq!(d.positions, b"[]".to_vec());
    assert_eq!(d.solver_config, b"{}".to_vec());
    assert_eq!(d.html_override_config, b"{}".to_vec());
    assert!(!d.with_json);
    assert!(!d.with_html);
}

#[test]
fn decode_keeps_given_fields() {
    let d = raw_input_full().decode().unwrap();
    assert_eq!(d.initializer, b"{\"vertex_num\":2}".to_vec());
    assert_eq!(d.syndrome_pattern, b"{\"defect_vertices\":[0]}".to_vec());
    assert_eq!(d.solver_config, b"{\"timeout\":1.0}".to_vec());
    assert!(d.with_json);
    assert!(!d.with_html);
}

#[test]
fn decode_rejects_non_object() {
    let mut raw = raw_input_full();
    raw.is_object = false;
    assert!(matches!(raw.decode(), Err(DecodeError::NotAnObject)));
}

#[test]
fn decode_rejects_missing_initializer() {
    let mut raw = raw_input_full();
    raw.initializer = None;
    assert!(matches!(raw.decode(), Err(DecodeError::MissingInitializer)));
}

#[test]
fn decode_rejects_missing_syndrome() {
    let mut raw = raw_input_full();
    raw.syndrome_pattern = None;
    assert!(matches!(raw.decode(), Err(DecodeError::MissingSyndromePattern)));
}

#[test]
fn decode_errors_name_the_offending_field() {
    let mut raw = raw_input_full();
    raw.initializer = None;
    assert_eq!(raw.decode().unwrap_err().field_path(), "initializer");
    let mut raw = raw_input_full();
    raw.syndrome_pattern = None;
    assert_eq!(raw.decode().unwrap_err().field_path(), "syndrome_pattern");
    let mut raw = raw_input_full();
    raw.with_json = RawFlag::WrongShape;
    assert_eq!(raw.decode().unwrap_err().field_path(), "with_json");
}

#[test]
fn decode_rejects_documents_of_wrong_shape() {
    let mut raw = raw_input_full();
    raw.positions = RawDoc::WrongShape;
    assert!(matches!(raw.decode(), Err(DecodeError::PositionsNotASequence)));
    let mut raw = raw_input_full();
    raw.solver_config = RawDoc::WrongShape;
    assert!(matches!(raw.decode(), Err(DecodeError::SolverConfigNotAnObject)));
    let mut raw = raw_input_full();
    raw.solver_config = RawDoc::WrongShape;
    assert_eq!(raw.decode().unwrap_err().field_path(), "solver_config");
    let mut raw = raw_input_full();
    raw.html_override_config = RawDoc::WrongShape;
    assert!(matches!(raw.decode(), Err(DecodeError::HtmlOverrideConfigNotAnObject)));
    let mut raw = raw_input_full();
    raw.html_override_config = RawDoc::WrongShape;
    assert_eq!(raw.decode().unwrap_err().field_path(), "html_override_config");
}

#[test]
fn decode_rejects_flag_of_wrong_shape() {
    let mut raw = raw_input_full();
    raw.with_json = RawFlag::WrongShape;
    assert!(matches!(raw.decode(), Err(DecodeError::WithJsonNotBool)));
    let mut raw = raw_input_full();
    raw.with_html = RawFlag::WrongShape;
    assert!(matches!(raw.decode(), Err(DecodeError::WithHtmlNotBool)));
}

fn weight_range_enc() -> WeightRangeEnc {
    WeightRangeEnc {
        lower: b"1.5".to_vec(),
        upper: b"1.5".to_vec(),
        ln: b"3".to_vec(),
        ld: b"2".to_vec(),
        un: b"3".to_vec(),
        ud: b"2".to_vec(),
    }
}

#[test]
fn serializes_exact_text_without_artifacts() {
    let out = complete_envelope(false, false, None, None, vec![7], weight_range_enc());
    let expected = "{\"subgraph\":[7],\"weight_range\":{\"lower\":1.5,\"upper\":1.5,\"ln\":3,\"ld\":2,\"un\":3,\"ud\":2}}";
    assert_eq!(String::from_utf8(out).unwrap(), expected);
}

#[test]
fn artifacts_present_exactly_when_requested() {
    let none = complete_envelope(false, false, None, None, vec![], weight_range_enc());
    let text = String::from_utf8(none).unwrap();
    assert!(!text.contains("\"json\""));
    assert!(!text.contains("\"html\""));

    let json_only = complete_envelope(
        true,
        false,
        Some(b"{\"snapshots\":[]}".to_vec()),
        None,
        vec![],
        weight_range_enc(),
    );
    let text = String::from_utf8(json_only).unwrap();
    assert!(text.contains("\"json\""));
    assert!(!text.contains("\"html\""));

    let html_only = complete_envelope(
        false,
        true,
        None,
        Some(b"<html></html>".to_vec()),
        vec![],
        weight_range_enc(),
    );
    let text = String::from_utf8(html_only).unwrap();
    assert!(!text.contains("\"json\""));
    assert!(text.contains("\"html\""));

    let both = complete_envelope(
        true,
        true,
        Some(b"{}".to_vec()),
        Some(b"<html></html>".to_vec()),
        vec![],
        weight_range_enc(),
    );
    let text = String::from_utf8(both).unwrap();
    assert!(text.contains("\"json\""));
    assert!(text.contains("\"html\""));
}

#[test]
fn output_is_well_formed_for_an_oracle() {
    let out = complete_envelope(
        true,
        true,
        Some(b"{\"snapshots\":[1,2]}".to_vec()),
        Some(b"a \"quoted\" back\\slash".to_vec()),
        vec![3, 1, 2],
        weight_range_enc(),
    );
    let v: serde_json::Value = serde_json::from_slice(&out).unwrap();
    assert_eq!(v["subgraph"], serde_json::Value::from(vec![3u64, 1, 2]));
    assert_eq!(v["html"], serde_json::Value::from("a \"quoted\" back\\slash"));
    assert_eq!(v["json"]["snapshots"][0], serde_json::Value::from(1u64));
    assert_eq!(v["weight_range"]["ln"], serde_json::Value::from(3u64));
    assert_eq!(v["weight_range"]["lower"], serde_json::Value::from(1.5f64));
}

#[test]
fn transport_round_trip_preserves_everything() {
    let env = Envelope {
        json_doc: Some(b"{\"snapshots\":[{\"x\":1}]}".to_vec()),
        html: Some(b"page with \"quotes\" and \\ slashes".to_vec()),
        subgraph: vec![0, 18446744073709551615, 10],
        weight_range: WeightRangeEnc {
            lower: b"0.75".to_vec(),
            upper: b"1.25".to_vec(),
            ln: b"170141183460469231731687303715884105727".to_vec(),
            ld: b"226854911280625642308916404954512140970".to_vec(),
            un: b"5".to_vec(),
            ud: b"4".to_vec(),
        },
    };
    let text = env.serialize();
    let back = parse_envelope(&text).unwrap();
    assert_eq!(back.json_doc, env.json_doc);
    assert_eq!(back.html, env.html);
    assert_eq!(back.subgraph, env.subgraph);
    assert_eq!(back.weight_range.lower, env.weight_range.lower);
    assert_eq!(back.weight_range.upper, env.weight_range.upper);
    assert_eq!(back.weight_range.ln, env.weight_range.ln);
    assert_eq!(back.weight_range.ld, env.weight_range.ld);
    assert_eq!(back.weight_range.un, env.weight_range.un);
    assert_eq!(back.weight_range.ud, env.weight_range.ud);
}

#[test]
fn transport_round_trip_without_artifacts() {
    let env = Envelope {
        json_doc: None,
        html: None,
        subgraph: vec![],
        weight_range: weight_range_enc(),
    };
    let text = env.serialize();
    let back = parse_envelope(&text).unwrap();
    assert_eq!(back.json_doc, None);
    assert_eq!(back.html, None);
    assert_eq!(back.subgraph, Vec::<u64>::new());
}

#[test]
fn transport_rejects_garbage() {
    assert!(parse_envelope(&b"".to_vec()).is_none());
    assert!(parse_envelope(&b"{}".to_vec()).is_none());
    assert!(parse_envelope(&b"{\"subgraph\":[1]".to_vec()).is_none());
    assert!(parse_envelope(&b"not json at all".to_vec()).is_none());
}

#[test]
fn rational_comparison_is_exact() {
    assert!(rat_le(1, 2, 3, 4));
    assert!(!rat_le(3, 4, 1, 2));
    assert!(rat_le(3, 2, 3, 2));
    assert!(rat_le(-1, 2, 1, 2));
    assert!(!rat_le(1, 2, -1, 2));
    // 1/3 <= 2/6 and 2/6 <= 1/3: equal rationals in different terms
    assert!(rat_le(1, 3, 2, 6));
    assert!(rat_le(2, 6, 1, 3));
}

#[test]
fn integer_tokens_parse_exactly() {
    assert_eq!(parse_int_token(&b"0".to_vec()), Some(0));
    assert_eq!(parse_int_token(&b"42".to_vec()), Some(42));
    assert_eq!(parse_int_token(&b"-7".to_vec()), Some(-7));
    assert_eq!(parse_int_token(&b"9223372036854775807".to_vec()), Some(i64::MAX));
    assert_eq!(parse_int_token(&b"".to_vec()), None);
    assert_eq!(parse_int_token(&b"1.5".to_vec()), None);
    assert_eq!(parse_int_token(&b"-".to_vec()), None);
    assert_eq!(parse_int_token(&b"99999999999999999999".to_vec()), None);
}

#[test]
fn weight_bound_order_is_checked_exactly() {
    let w = weight_range_enc();
    assert_eq!(weight_range_ordered(&w), Some(true));
    let swapped = WeightRangeEnc {
        lower: b"2.0".to_vec(),
        upper: b"1.0".to_vec(),
        ln: b"2".to_vec(),
        ld: b"1".to_vec(),
        un: b"1".to_vec(),
        ud: b"1".to_vec(),
    };
    assert_eq!(weight_range_ordered(&swapped), Some(false));
    let huge = WeightRangeEnc {
        ln: b"170141183460469231731687303715884105727".to_vec(),
        ..weight_range_enc()
    };
    assert_eq!(weight_range_ordered(&huge), None);
    assert_eq!(
        tokens_rat_le(&b"1".to_vec(), &b"2".to_vec(), &b"3".to_vec(), &b"4".to_vec()),
        Some(true)
    );
}

#[test]
fn plan_requests_recorder_exactly_when_needed() {
    let mut raw = raw_input_full();
    raw.with_json = RawFlag::Flag(false);
    raw.with_html = RawFlag::Flag(false);
    let d = raw.decode().unwrap();
    assert!(!plan_invocation(&d).needs_recorder);

    let d = raw_input_full().decode().unwrap();
    let plan = plan_invocation(&d);
    assert!(plan.needs_recorder);
    assert!(plan.with_json);
    assert!(!plan.with_html);
}

#[test]
fn cancel_before_start_settles_without_running() {
    let (s, a) = task_step(TaskState::Pending, TaskEvent::CancelRequested);
    assert_eq!(s, TaskState::Cancelled);
    assert_eq!(a, TaskAction::SettleCancelled);
    // every later event leaves the cancelled task alone
    let (s2, a2) = task_step(s, TaskEvent::Start);
    assert_eq!(s2, TaskState::Cancelled);
    assert_eq!(a2, TaskAction::Ignore);
}

#[test]
fn cancel_while_running_lets_the_solve_finish() {
    let (s, a) = task_step(TaskState::Pending, TaskEvent::Start);
    assert_eq!(s, TaskState::Running);
    assert_eq!(a, TaskAction::RunPipeline);
    // the in-flight native call is not aborted: the runtime does nothing now
    let (s, a) = task_step(s, TaskEvent::CancelRequested);
    assert_eq!(s, TaskState::CancelPending);
    assert_eq!(a, TaskAction::Ignore);
    // but when the call finishes, the handle settles cancelled and the
    // result is not delivered
    let (s, a) = task_step(s, TaskEvent::Complete);
    assert_eq!(s, TaskState::Cancelled);
    assert_eq!(a, TaskAction::SettleCancelled);
    // a failure after a late cancel also delivers nothing
    let (s, _) = task_step(TaskState::Pending, TaskEvent::Start);
    let (s, _) = task_step(s, TaskEvent::CancelRequested);
    let (s, a) = task_step(s, TaskEvent::Fail);
    assert_eq!(s, TaskState::Cancelled);
    assert_eq!(a, TaskAction::SettleCancelled);
}

#[test]
fn pipeline_stages_run_in_order_only() {
    let p = PipelinePhase::Decoded;
    assert_eq!(pipeline_advance(p, PipelineStage::InvokeSolver), None);
    assert_eq!(pipeline_advance(p, PipelineStage::ExtractArtifacts), None);
    let p = pipeline_advance(p, PipelineStage::SetUpRecorder).unwrap();
    assert_eq!(p, PipelinePhase::RecorderReady);
    assert_eq!(pipeline_advance(p, PipelineStage::SetUpRecorder), None);
    let p = pipeline_advance(p, PipelineStage::InvokeSolver).unwrap();
    let p = pipeline_advance(p, PipelineStage::ExtractArtifacts).unwrap();
    let p = pipeline_advance(p, PipelineStage::AssembleEnvelope).unwrap();
    assert_eq!(p, PipelinePhase::Assembled);
}

#[test]
fn html_with_control_bytes_stays_valid_and_round_trips() {
    let page = b"line one\nline two\ttabbed \"quoted\"".to_vec();
    let out = complete_envelope(false, true, None, Some(page.clone()), vec![1], weight_range_enc());
    let v: serde_json::Value = serde_json::from_slice(&out).unwrap();
    assert_eq!(
        v["html"],
        serde_json::Value::from("line one\nline two\ttabbed \"quoted\"")
    );
    let env = mwpf_bridge::envelope::Envelope {
        json_doc: None,
        html: Some(page.clone()),
        subgraph: vec![1],
        weight_range: weight_range_enc(),
    };
    let back = parse_envelope(&env.serialize()).unwrap();
    assert_eq!(back.html, Some(page));
}

#[test]
fn failure_settles_once_and_only_once() {
    let (s, _) = task_step(TaskState::Pending, TaskEvent::Start);
    let (s, a) = task_step(s, TaskEvent::Fail);
    assert_eq!(s, TaskState::Failed);
    assert_eq!(a, TaskAction::DeliverError);
    let (s, a) = task_step(s, TaskEvent::Complete);
    assert_eq!(s, TaskState::Failed);
    assert_eq!(a, TaskAction::Ignore);
}

use dioxus_ipc_bridge::streaming::{ItemStep, StreamingTask};
use serde_json::Value;

fn j(text: &str) -> Value {
    serde_json::from_str(text).unwrap()
}

#[test]
fn test_streaming_task_creation() {
    let task = StreamingTask::new();
    assert!(!task.task_id.is_empty());
}

#[test]
fn task_ids_are_uuid_shaped_and_distinct() {
    let a = StreamingTask::new();
    let b = StreamingTask::new();
    assert_eq!(a.task_id.len(), 36);
    assert_eq!(&a.task_id[8..9], "-");
    assert_eq!(&a.task_id[14..15], "4");
    assert!("89ab".contains(&a.task_id[19..20]));
    for (i, c) in a.task_id.chars().enumerate() {
        if [8, 13, 18, 23].contains(&i) {
            assert_eq!(c, '-');
        } else {
            assert!(c.is_ascii_digit() || ('a'..='f').contains(&c));
        }
    }
    assert_ne!(a.task_id, b.task_id);
}

#[test]
fn channels_and_messages() {
    let task = StreamingTask::with_id("abc".to_string());
    assert_eq!(task.task_id, "abc");
    assert_eq!(task.progress_channel(), "task:abc:progress");
    assert_eq!(task.chunk_channel(), "task:abc:chunk");
    assert_eq!(task.complete_channel(), "task:abc:complete");
    assert_eq!(task.error_channel(), "task:abc:error");
    assert_eq!(task.initial_response(), j(r#"{"task_id": "abc", "message": "Task started"}"#));
    assert_eq!(StreamingTask::error_data("oops"), j(r#"{"message": "oops"}"#));
    assert_eq!(StreamingTask::item_message(3, 10), "Processing item 3/10");
    assert_eq!(StreamingTask::failure_message(0, "bad"), "Failed at item 0: bad");
}

#[test]
fn data_is_chunked_and_encoded() {
    let chunks = StreamingTask::chunked_data(b"hello world", 4);
    assert_eq!(chunks.len(), 3);
    let data: Vec<&str> = chunks.iter().map(|c| c.data.as_str()).collect();
    assert_eq!(data, vec!["aGVsbA==", "byB3bw==", "cmxk"]);
    for (i, c) in chunks.iter().enumerate() {
        assert_eq!(c.index, i);
        assert_eq!(c.total_chunks, Some(3));
    }
    assert!(StreamingTask::chunked_data(b"", 3).is_empty());
    let exact = StreamingTask::chunked_string("abcdef", 3);
    assert_eq!(exact.len(), 2);
    assert_eq!(exact[0].data, "YWJj");
    assert_eq!(exact[1].data, "ZGVm");
    assert_eq!(exact[1].total_chunks, Some(2));
}

#[test]
fn completion_data_wraps_the_result() {
    assert_eq!(StreamingTask::complete_data(j(r#"{"status": "success"}"#)), j(r#"{"result": {"status": "success"}}"#));
    assert_eq!(StreamingTask::complete_data(Value::Null), j(r#"{"result": null}"#));
}

#[test]
fn default_task_has_a_fresh_id() {
    let task = StreamingTask::default();
    assert_eq!(task.task_id.len(), 36);
    assert_ne!(task.task_id, StreamingTask::default().task_id);
}

#[test]
fn item_reports_and_steps() {
    assert_eq!(StreamingTask::item_report(0, 5), (1, 5, "Processing item 1/5".to_string()));
    assert_eq!(StreamingTask::item_report(4, 5), (5, 5, "Processing item 5/5".to_string()));
    match StreamingTask::item_step::<u32>(2, 5, Ok(7)) {
        ItemStep::Keep(v) => assert_eq!(v, 7),
        ItemStep::Fail { .. } => panic!("expected the result to be kept"),
    }
    match StreamingTask::item_step::<u32>(2, 5, Err("bad input".to_string())) {
        ItemStep::Fail { message, error } => {
            assert_eq!(message, "Failed at item 3: bad input");
            assert_eq!(error, "bad input");
        }
        ItemStep::Keep(_) => panic!("expected a failure"),
    }
}

use juncture_core::command::{Command, Goto, GraphTarget};
use juncture_core::interrupt::ResumeValue;

#[derive(Clone, Debug, Default)]
struct TestUpdate;

#[test]
fn command_constructors() {
    let cmd = Command::<TestUpdate>::default();
    assert!(cmd.stream_data.is_empty());
    assert!(matches!(cmd.goto, Goto::Edges));
    let cmd = Command::update(TestUpdate);
    assert!(cmd.update.is_some());
    let cmd = Command::<TestUpdate>::goto("target");
    assert!(matches!(cmd.goto, Goto::Next(ref t) if t == "target"));
    assert_eq!(cmd.graph, GraphTarget::Current);
    let cmd = Command::<TestUpdate>::end();
    assert!(matches!(cmd.goto, Goto::End));
    let cmd = Command::<TestUpdate>::send(vec![]);
    assert!(cmd.stream_data.is_empty());
    let cmd = Command::<TestUpdate>::goto_parent("parent");
    assert_eq!(cmd.graph, GraphTarget::Parent);
    assert!(cmd.stream_data.is_empty());
    let cmd = Command::update_and_goto(TestUpdate, "n");
    assert!(cmd.update.is_some() && matches!(cmd.goto, Goto::Next(_)));
}

#[test]
fn command_with_stream_data_and_resume() {
    let cmd = Command::<TestUpdate>::end()
        .with_stream_data(serde_json::Value::from(1))
        .with_stream_data(serde_json::Value::from(2))
        .with_stream_data(serde_json::Value::from(3));
    assert_eq!(cmd.stream_data.len(), 3);
    assert_eq!(cmd.stream_data[2], serde_json::Value::from(3));
    let cmd = Command::update(TestUpdate)
        .with_stream_data(serde_json::Value::from("progress"))
        .with_resume(ResumeValue::Single(serde_json::Value::from("resumed")));
    assert!(cmd.update.is_some());
    assert_eq!(cmd.stream_data.len(), 1);
    assert!(cmd.resume.is_some());
}

fn object(key: &str, value: serde_json::Value) -> serde_json::Value {
    let mut m = serde_json::Map::new();
    m.insert(key.to_string(), value);
    serde_json::Value::Object(m)
}

#[test]
fn command_default_has_empty_stream_data() {
    let cmd = Command::<TestUpdate>::default();
    assert!(cmd.stream_data.is_empty());
}

#[test]
fn command_update_has_empty_stream_data() {
    let cmd = Command::<TestUpdate>::update(TestUpdate);
    assert!(cmd.stream_data.is_empty());
}

#[test]
fn command_goto_has_empty_stream_data() {
    let cmd = Command::<TestUpdate>::goto("target");
    assert!(cmd.stream_data.is_empty());
}

#[test]
fn command_end_has_empty_stream_data() {
    let cmd = Command::<TestUpdate>::end();
    assert!(cmd.stream_data.is_empty());
}

#[test]
fn command_with_stream_data_appends_single_item() {
    let cmd = Command::<TestUpdate>::end().with_stream_data(object("key", serde_json::Value::from("value")));
    assert_eq!(cmd.stream_data.len(), 1);
    assert_eq!(cmd.stream_data[0], object("key", serde_json::Value::from("value")));
}

#[test]
fn command_with_stream_data_appends_multiple_items() {
    let cmd = Command::<TestUpdate>::end()
        .with_stream_data(object("step", serde_json::Value::from(1)))
        .with_stream_data(object("step", serde_json::Value::from(2)))
        .with_stream_data(object("step", serde_json::Value::from(3)));
    assert_eq!(cmd.stream_data.len(), 3);
    assert_eq!(cmd.stream_data[0], object("step", serde_json::Value::from(1)));
    assert_eq!(cmd.stream_data[1], object("step", serde_json::Value::from(2)));
    assert_eq!(cmd.stream_data[2], object("step", serde_json::Value::from(3)));
}

#[test]
fn command_with_stream_data_preserves_other_fields() {
    let cmd = Command::<TestUpdate>::update(TestUpdate)
        .with_stream_data(serde_json::Value::from("progress"))
        .with_resume(ResumeValue::Single(serde_json::Value::from("resumed")));
    assert!(cmd.update.is_some());
    assert_eq!(cmd.stream_data.len(), 1);
    assert!(cmd.resume.is_some());
}

#[test]
fn command_with_stream_data_works_with_goto() {
    let cmd = Command::<TestUpdate>::goto("next_node").with_stream_data(serde_json::Value::from("data"));
    assert!(matches!(cmd.goto, Goto::Next(ref target) if target == "next_node"));
    assert_eq!(cmd.stream_data.len(), 1);
}

#[test]
fn command_send_has_empty_stream_data() {
    let cmd = Command::<TestUpdate>::send(vec![]);
    assert!(cmd.stream_data.is_empty());
}

#[test]
fn command_goto_parent_has_empty_stream_data() {
    let cmd = Command::<TestUpdate>::goto_parent("parent");
    assert!(cmd.stream_data.is_empty());
}

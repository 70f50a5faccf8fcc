use juncture_core::cache::{CacheKeyInput, HashedOptions};
use juncture_core::chat::Role;
use juncture_core::request::{Content, Message};

fn message(id: &str, text: &str) -> Message {
    Message {
        id: id.to_string(),
        role: Role::Human,
        content: Content::Text(text.to_string()),
        tool_calls: vec![],
        tool_call_id: None,
        name: None,
        usage: None,
    }
}

#[test]
fn cache_hash_ignores_message_ids() {
    let a = CacheKeyInput::new("gpt-4".to_string(), vec![message("1", "hi")], vec![], None);
    let b = CacheKeyInput::new("gpt-4".to_string(), vec![message("2", "hi")], vec![], None);
    assert_eq!(a.hash(), b.hash());
    assert_eq!(a.hash(), a.clone().hash());
}

#[test]
fn cache_hash_depends_on_model_text_and_settings() {
    let base = CacheKeyInput::new("gpt-4".to_string(), vec![message("1", "hi")], vec![], None);
    let other_model = CacheKeyInput::new("gpt-3".to_string(), vec![message("1", "hi")], vec![], None);
    let other_text = CacheKeyInput::new("gpt-4".to_string(), vec![message("1", "hello")], vec![], None);
    let opts = HashedOptions { temperature_bits: Some(0.5f32.to_bits()), max_tokens: Some(10), top_p_bits: None };
    let with_opts = CacheKeyInput::new("gpt-4".to_string(), vec![message("1", "hi")], vec![], Some(opts));
    assert_ne!(base.hash(), other_model.hash());
    assert_ne!(base.hash(), other_text.hash());
    assert_ne!(base.hash(), with_opts.hash());
}

#[test]
fn cache_hash_depends_on_role() {
    let mut m = message("1", "hi");
    let a = CacheKeyInput::new("gpt-4".to_string(), vec![m.clone()], vec![], None);
    m.role = Role::Ai;
    let b = CacheKeyInput::new("gpt-4".to_string(), vec![m], vec![], None);
    assert_ne!(a.hash(), b.hash());
}

use juncture_core::checkpoint::{
    generate_checkpoint_id, CheckpointError, CheckpointFilter, CheckpointNamespace, DeltaCounters, NamespaceSegment,
    CHECKPOINT_NS_SEPARATOR,
};

#[test]
fn namespace_root_child_parent() {
    let root_ns = CheckpointNamespace::root();
    let child_ns = root_ns.child("agent_a");
    let grandchild_ns = child_ns.child("step_1");
    assert_eq!(root_ns.as_str(), "");
    assert_eq!(child_ns.as_str(), "agent_a");
    assert_eq!(grandchild_ns.as_str(), "agent_a|step_1");
    assert_eq!(grandchild_ns.to_string(), "agent_a|step_1");
    assert!(root_ns.is_root());
    assert!(!child_ns.is_root());
    assert!(root_ns.parent().is_none());
    assert_eq!(grandchild_ns.parent().unwrap().segments, vec!["agent_a".to_string()]);
    assert_eq!(CHECKPOINT_NS_SEPARATOR, "|");
}

#[test]
fn namespace_parse_round_trips() {
    assert!(CheckpointNamespace::parse("").is_root());
    let ns = CheckpointNamespace::parse("a|b|c");
    assert_eq!(ns.segments, vec!["a".to_string(), "b".to_string(), "c".to_string()]);
    assert_eq!(ns.as_str(), "a|b|c");
    let odd = CheckpointNamespace::parse("|x|");
    assert_eq!(odd.segments, vec!["".to_string(), "x".to_string(), "".to_string()]);
    assert_eq!(odd.as_str(), "|x|");
    let single_empty = CheckpointNamespace::new(vec!["".to_string()]);
    assert_eq!(single_empty.as_str(), "");
    assert!(CheckpointNamespace::parse(&single_empty.as_str()).is_root());
}

#[test]
fn namespace_segment_text() {
    let seg = NamespaceSegment::new("node".to_string(), "1234".to_string());
    assert_eq!(seg.as_str(), "node:1234");
}

#[test]
fn checkpoint_error_messages() {
    assert_eq!(CheckpointError::Serialize("x".to_string()).to_string(), "Serialization failed: x");
    assert_eq!(CheckpointError::Deserialize("x".to_string()).to_string(), "Deserialization failed: x");
    assert_eq!(
        CheckpointError::NotFound { thread_id: "t".to_string(), checkpoint_id: "c".to_string() }.to_string(),
        "Checkpoint not found: thread=t, id=c"
    );
    assert_eq!(CheckpointError::Storage("x".to_string()).to_string(), "Storage error: x");
    assert_eq!(CheckpointError::Other("x".to_string()).to_string(), "Checkpoint error: x");
}

#[test]
fn checkpoint_defaults_and_ids() {
    let c = DeltaCounters::default();
    assert_eq!(c.updates, 0);
    assert_eq!(c.supersteps, 0);
    let f = CheckpointFilter::default();
    assert!(f.source.is_none() && f.limit.is_none() && f.before.is_none());
    let id = generate_checkpoint_id();
    assert_eq!(id.len(), 36);
    assert_eq!(&id[8..9], "-");
    assert_eq!(&id[14..15], "6");
    assert_ne!(id, generate_checkpoint_id());
}

#[test]
fn namespace_from_segments_and_text() {
    let v = vec!["a".to_string(), "".to_string(), "b|c".to_string()];
    let ns = CheckpointNamespace::from(v.clone());
    assert_eq!(ns.segments, v);
    assert_eq!(ns.segments, CheckpointNamespace::new(v).segments);
    let parsed = CheckpointNamespace::from("x|y");
    assert_eq!(parsed.segments, vec!["x".to_string(), "y".to_string()]);
    assert!(CheckpointNamespace::from("").is_root());
}

fn uuid_shape(id: &str, version: char) {
    let cs: Vec<char> = id.chars().collect();
    assert_eq!(cs.len(), 36);
    for (i, c) in cs.iter().enumerate() {
        if [8, 13, 18, 23].contains(&i) {
            assert_eq!(*c, '-');
        } else {
            assert!(c.is_ascii_digit() || ('a'..='f').contains(c), "{id}");
        }
    }
    assert_eq!(cs[14], version);
    assert!(['8', '9', 'a', 'b'].contains(&cs[19]));
}

#[test]
fn checkpoint_ids_are_version_six_uuids() {
    for _ in 0..20 {
        uuid_shape(&generate_checkpoint_id(), '6');
    }
}

#[test]
fn namespace_default_equality_and_hash() {
    let root = CheckpointNamespace::default();
    assert!(root.is_root());
    assert_eq!(root, CheckpointNamespace::root());
    let a = CheckpointNamespace::parse("x|y");
    let b = CheckpointNamespace::root().child("x").child("y");
    assert_eq!(a, b);
    assert_ne!(a, CheckpointNamespace::parse("x"));
    assert_ne!(a, CheckpointNamespace::parse("x|z"));
    let mut set = std::collections::HashSet::new();
    set.insert(a.clone());
    assert!(set.contains(&b));
}

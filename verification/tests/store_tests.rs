use stream_store::{AgentSpec, ChannelSpec, StreamDoc, StreamError, StreamStore};

fn doc(name: &str) -> StreamDoc {
    StreamDoc {
        name: name.to_string(),
        agents: Vec::new(),
        channels: Vec::new(),
        run_on_start: false,
    }
}

#[test]
fn register_and_get() {
    let mut store = StreamStore::new();
    let id = store.add_agent_stream(doc("main")).unwrap();
    let got = store.get_agent_stream(id).unwrap();
    assert_eq!(got.name, "main");
    assert!(store.get_agent_stream(id + 1).is_none());
}

#[test]
fn register_rejects_duplicate_name() {
    let mut store = StreamStore::new();
    store.add_agent_stream(doc("main")).unwrap();
    let err = store.add_agent_stream(doc("main")).unwrap_err();
    assert_eq!(err, StreamError::NameCollision);
}

#[test]
fn registered_ids_are_distinct() {
    let mut store = StreamStore::new();
    let a = store.add_agent_stream(doc("a")).unwrap();
    let b = store.add_agent_stream(doc("b")).unwrap();
    let c = store.add_agent_stream(doc("c")).unwrap();
    assert!(a != b && b != c && a != c);
}

#[test]
fn remove_frees_the_name() {
    let mut store = StreamStore::new();
    let id = store.add_agent_stream(doc("gone")).unwrap();
    let plan = store.remove_agent_stream(id).unwrap();
    assert_eq!(plan.doc.name, "gone");
    assert_eq!(plan.rel_path, "gone.json");
    assert!(store.get_agent_stream(id).is_none());
    // The name is free for reuse.
    store.add_agent_stream(doc("gone")).unwrap();
}

#[test]
fn remove_unknown_id_is_not_found() {
    let mut store = StreamStore::new();
    let err = store.remove_agent_stream(7).unwrap_err();
    assert_eq!(err, StreamError::NotFound);
}

#[test]
fn unique_name_returns_base_when_free() {
    let store = StreamStore::new();
    assert_eq!(store.unique_stream_name("fresh"), "fresh");
}

#[test]
fn unique_name_suffixes_from_two() {
    let mut store = StreamStore::new();
    store.add_agent_stream(doc("foo")).unwrap();
    assert_eq!(store.unique_stream_name("foo"), "foo2");
    store.add_agent_stream(doc("foo2")).unwrap();
    assert_eq!(store.unique_stream_name("foo"), "foo3");
}

#[test]
fn copy_sub_stream_remaps_references() {
    let mut store = StreamStore::new();
    let agents = vec![AgentSpec { id: 100 }, AgentSpec { id: 200 }];
    let channels = vec![ChannelSpec { id: 300, source: 100, target: 200 }];
    let (new_agents, new_channels) = store.copy_sub_stream(&agents, &channels);
    assert_eq!(new_agents.len(), 2);
    assert_eq!(new_channels.len(), 1);
    let a0 = new_agents[0].id;
    let a1 = new_agents[1].id;
    assert!(a0 != a1);
    // The channel follows the copied agents, not the originals.
    assert_eq!(new_channels[0].source, a0);
    assert_eq!(new_channels[0].target, a1);
    assert!(new_channels[0].id != a0 && new_channels[0].id != a1);
}

#[test]
fn copy_sub_stream_leaves_unknown_references() {
    let mut store = StreamStore::new();
    let agents = vec![AgentSpec { id: 5 }];
    let channels = vec![ChannelSpec { id: 6, source: 5, target: 999 }];
    let (new_agents, new_channels) = store.copy_sub_stream(&agents, &channels);
    assert_eq!(new_channels[0].source, new_agents[0].id);
    assert_eq!(new_channels[0].target, 999);
}

#[test]
fn rename_moves_the_entry() {
    let mut store = StreamStore::new();
    let id = store.add_agent_stream(doc("old")).unwrap();
    let plan = store.rename_agent_stream(id, "new", false).unwrap();
    assert_eq!(plan.new_name, "new");
    assert_eq!(plan.old_rel_path, "old.json");
    assert_eq!(plan.new_rel_path, "new.json");
    assert_eq!(store.get_agent_stream(id).unwrap().name, "new");
}

#[test]
fn rename_unknown_id_is_not_found() {
    let mut store = StreamStore::new();
    let err = store.rename_agent_stream(3, "x", false).unwrap_err();
    assert_eq!(err, StreamError::NotFound);
}

#[test]
fn rename_rejects_malformed_name() {
    let mut store = StreamStore::new();
    let id = store.add_agent_stream(doc("a")).unwrap();
    let err = store.rename_agent_stream(id, "bad//name", false).unwrap_err();
    assert_eq!(err, StreamError::InvalidName);
    assert_eq!(store.get_agent_stream(id).unwrap().name, "a");
}

#[test]
fn rename_guards_against_existing_file() {
    // Even with no registry entry named "x", an existing file at x.json
    // blocks the rename and leaves the document unchanged.
    let mut store = StreamStore::new();
    let id = store.add_agent_stream(doc("a")).unwrap();
    let err = store.rename_agent_stream(id, "x", true).unwrap_err();
    assert_eq!(err, StreamError::NameCollision);
    assert_eq!(store.get_agent_stream(id).unwrap().name, "a");
}

#[test]
fn rename_rejects_name_held_by_other_document() {
    let mut store = StreamStore::new();
    let a = store.add_agent_stream(doc("a")).unwrap();
    store.add_agent_stream(doc("b")).unwrap();
    let err = store.rename_agent_stream(a, "b", false).unwrap_err();
    assert_eq!(err, StreamError::NameCollision);
    assert_eq!(store.get_agent_stream(a).unwrap().name, "a");
}

#[test]
fn rename_to_own_name_is_allowed() {
    let mut store = StreamStore::new();
    let a = store.add_agent_stream(doc("same")).unwrap();
    let plan = store.rename_agent_stream(a, "same", false).unwrap();
    assert_eq!(plan.new_name, "same");
}

use stream_store::{
    save_agent_stream, AgentSpec, ChannelSpec, ScanFile, StreamDoc, StreamError, StreamStore,
};

fn graph_doc(name: &str, run_on_start: bool) -> StreamDoc {
    StreamDoc {
        name: name.to_string(),
        agents: vec![AgentSpec { id: 1 }, AgentSpec { id: 2 }],
        channels: vec![ChannelSpec { id: 3, source: 1, target: 2 }],
        run_on_start,
    }
}

fn scan_file(dirs: &[&str], file_name: &str, parsed: Option<StreamDoc>) -> ScanFile {
    ScanFile {
        dir_segments: dirs.iter().map(|d| d.to_string()).collect(),
        file_name: file_name.to_string(),
        parsed,
    }
}

#[test]
fn save_plan_for_nested_name() {
    // Saving "x/y" means creating directory "x" and writing "x/y.json".
    let plan = save_agent_stream(&graph_doc("x/y", false)).unwrap();
    assert_eq!(plan.dir_segments, vec!["x".to_string()]);
    assert_eq!(plan.rel_path, "x/y.json");
}

#[test]
fn save_plan_for_flat_name() {
    let plan = save_agent_stream(&graph_doc("flat", false)).unwrap();
    assert!(plan.dir_segments.is_empty());
    assert_eq!(plan.rel_path, "flat.json");
}

#[test]
fn save_rejects_malformed_name() {
    let err = save_agent_stream(&graph_doc("", false)).unwrap_err();
    assert_eq!(err, StreamError::InvalidName);
    let err = save_agent_stream(&graph_doc("a//b", false)).unwrap_err();
    assert_eq!(err, StreamError::InvalidName);
}

#[test]
fn scan_registers_files_under_directory_names() {
    // A root with `a.json` (whatever name its content claims) and
    // `sub/b.json` yields documents named "a" and "sub/b".
    let mut store = StreamStore::new();
    let files = vec![
        scan_file(&[], "a.json", Some(graph_doc("content says otherwise", false))),
        scan_file(&["sub"], "b.json", Some(graph_doc("ignored too", false))),
    ];
    store.read_agent_streams_dir(&files);
    let mut names = Vec::new();
    for id in 0..10 {
        if let Some(d) = store.get_agent_stream(id) {
            names.push(d.name.clone());
        }
    }
    names.sort();
    assert_eq!(names, vec!["a".to_string(), "sub/b".to_string()]);
}

#[test]
fn scan_skips_bad_files_and_keeps_going() {
    let mut store = StreamStore::new();
    let files = vec![
        scan_file(&[], "notes.txt", Some(graph_doc("x", false))),
        scan_file(&[], "broken.json", None),
        scan_file(&[], " .json", Some(graph_doc("y", false))),
        scan_file(&[], "good.json", Some(graph_doc("z", false))),
    ];
    store.read_agent_streams_dir(&files);
    let mut names = Vec::new();
    for id in 0..10 {
        if let Some(d) = store.get_agent_stream(id) {
            names.push(d.name.clone());
        }
    }
    assert_eq!(names, vec!["good".to_string()]);
}

#[test]
fn scan_twice_registers_the_same_set() {
    // Two fresh registries scanned over the same unchanged listing end up
    // with the same (name, content) pairs.
    let listing = || {
        vec![
            scan_file(&[], "a.json", Some(graph_doc("m", true))),
            scan_file(&["d"], "e.json", Some(graph_doc("n", false))),
            scan_file(&["d"], "bad.json", None),
        ]
    };
    let mut first = StreamStore::new();
    first.read_agent_streams_dir(&listing());
    let mut second = StreamStore::new();
    second.read_agent_streams_dir(&listing());
    for id in 0..10 {
        let a = first.get_agent_stream(id);
        let b = second.get_agent_stream(id);
        match (a, b) {
            (None, None) => {}
            (Some(x), Some(y)) => {
                assert_eq!(x.name, y.name);
                assert_eq!(x.agents, y.agents);
                assert_eq!(x.channels, y.channels);
                assert_eq!(x.run_on_start, y.run_on_start);
            }
            _ => panic!("the two scans registered different sets"),
        }
    }
}

#[test]
fn import_clears_run_on_start_and_disambiguates() {
    // Importing foo.json into a registry that already holds "foo" lands as
    // "foo2" with auto-launch off.
    let mut store = StreamStore::new();
    store
        .add_agent_stream(StreamDoc {
            name: "foo".to_string(),
            agents: Vec::new(),
            channels: Vec::new(),
            run_on_start: false,
        })
        .unwrap();
    let id = store
        .import_agent_stream("foo.json", Some(graph_doc("inner name", true)))
        .unwrap();
    let imported = store.get_agent_stream(id).unwrap();
    assert_eq!(imported.name, "foo2");
    assert!(!imported.run_on_start);
}

#[test]
fn import_rejects_wrong_extension_and_unparsed_content() {
    let mut store = StreamStore::new();
    let err = store
        .import_agent_stream("foo.yaml", Some(graph_doc("x", false)))
        .unwrap_err();
    assert_eq!(err, StreamError::InvalidFormat);
    let err = store.import_agent_stream("foo.json", None).unwrap_err();
    assert_eq!(err, StreamError::InvalidFormat);
}

#[test]
fn import_rejects_empty_stem() {
    let mut store = StreamStore::new();
    let err = store
        .import_agent_stream("  .json", Some(graph_doc("x", false)))
        .unwrap_err();
    assert_eq!(err, StreamError::InvalidName);
}

#[test]
fn importing_twice_isolates_the_documents() {
    let mut store = StreamStore::new();
    let first = store
        .import_agent_stream("twin.json", Some(graph_doc("a", false)))
        .unwrap();
    let second = store
        .import_agent_stream("twin.json", Some(graph_doc("a", false)))
        .unwrap();
    assert!(first != second);
    let d1 = store.get_agent_stream(first).unwrap().clone();
    let d2 = store.get_agent_stream(second).unwrap().clone();
    assert!(d1.name != d2.name);
    let ids1: Vec<u64> = d1
        .agents
        .iter()
        .map(|a| a.id)
        .chain(d1.channels.iter().map(|c| c.id))
        .collect();
    let ids2: Vec<u64> = d2
        .agents
        .iter()
        .map(|a| a.id)
        .chain(d2.channels.iter().map(|c| c.id))
        .collect();
    for x in &ids1 {
        assert!(!ids2.contains(x));
    }
}

#[test]
fn remove_succeeds_without_touching_files() {
    // The registry entry goes first; whether the file still exists is the
    // caller's concern, so a file deleted out-of-band cannot fail the
    // removal itself.
    let mut store = StreamStore::new();
    let id = store.add_agent_stream(graph_doc("orphaned", false)).unwrap();
    let plan = store.remove_agent_stream(id).unwrap();
    assert_eq!(plan.rel_path, "orphaned.json");
    assert!(store.get_agent_stream(id).is_none());
}

#[test]
fn scan_keeps_run_on_start() {
    // Only an import clears the auto-launch flag; a scanned document keeps
    // what its file says.
    let mut store = StreamStore::new();
    let files = vec![scan_file(&[], "auto.json", Some(graph_doc("x", true)))];
    store.read_agent_streams_dir(&files);
    let mut found = false;
    for id in 0..5 {
        if let Some(d) = store.get_agent_stream(id) {
            assert_eq!(d.name, "auto");
            assert!(d.run_on_start);
            found = true;
        }
    }
    assert!(found);
}

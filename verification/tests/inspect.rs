use multiplexedblob::bookmark::is_valid_bookmark_suffix;
use multiplexedblob::response::DataArgs;
use multiplexedblob::response::DataEntry;
use multiplexedblob::response::DataOutput;
use multiplexedblob::response::DataValidity;
use multiplexedblob::response::HistoryArgs;
use multiplexedblob::response::HistoryOutput;
use multiplexedblob::response::HistoryResponseChunk;
use multiplexedblob::response::Key;
use multiplexedblob::response::Parents;
use multiplexedblob::response::WireHistoryEntry;
use multiplexedblob::response::cmd_data;
use multiplexedblob::response::cmd_history;

fn key(path: &str, hgid: &[u8]) -> Key {
    Key::new(path.to_owned(), hgid.to_vec())
}

fn data_entry(path: &str, hgid: &[u8], data: &[u8], validity: DataValidity) -> DataEntry {
    DataEntry { key: key(path, hgid), data: data.to_vec(), validity }
}

fn hist_entry(node: &[u8]) -> WireHistoryEntry {
    WireHistoryEntry {
        node: node.to_vec(),
        parents: Parents::NoParents,
        linknode: vec![0],
        copyfrom: None,
    }
}

fn chunk(path: &str, nodes: &[&[u8]]) -> HistoryResponseChunk {
    HistoryResponseChunk {
        path: path.to_owned(),
        entries: nodes.iter().map(|n| hist_entry(n)).collect(),
    }
}

#[test]
fn data_ls_lists_every_key_in_order() {
    let entries = vec![
        data_entry("a.txt", &[1], b"one", DataValidity::Valid),
        data_entry("b.txt", &[2], b"two", DataValidity::Redacted),
    ];
    match cmd_data(&DataArgs::Ls, &entries) {
        Ok(DataOutput::Listing(keys)) => {
            assert_eq!(keys.len(), 2);
            assert_eq!(keys[0].path, "a.txt");
            assert_eq!(keys[1].path, "b.txt");
            assert_eq!(keys[1].hgid, vec![2]);
        },
        other => panic!("expected a listing, got {:?}", other),
    }
}

#[test]
fn data_cat_returns_the_first_matching_content() {
    let entries = vec![
        data_entry("a.txt", &[1], b"one", DataValidity::Valid),
        data_entry("b.txt", &[2], b"two", DataValidity::Valid),
    ];
    match cmd_data(&DataArgs::Cat(key("b.txt", &[2])), &entries) {
        Ok(DataOutput::Content(d)) => assert_eq!(d, b"two".to_vec()),
        other => panic!("expected the content, got {:?}", other),
    }
}

#[test]
fn data_cat_misses_and_invalid_entries() {
    let entries = vec![data_entry("a.txt", &[1], b"one", DataValidity::Redacted)];
    assert_eq!(
        cmd_data(&DataArgs::Cat(key("zzz", &[9])), &entries).unwrap_err(),
        "Key not found"
    );
    assert_eq!(
        cmd_data(&DataArgs::Cat(key("a.txt", &[1])), &entries).unwrap_err(),
        "contents redacted"
    );
    let corrupt = vec![data_entry("c", &[3], b"x", DataValidity::Corrupt("bad hash".to_owned()))];
    assert_eq!(
        cmd_data(&DataArgs::Cat(key("c", &[3])), &corrupt).unwrap_err(),
        "bad hash"
    );
}

#[test]
fn data_check_flags_only_questionable_entries() {
    let entries = vec![
        data_entry("a", &[1], b"one", DataValidity::Valid),
        data_entry("b", &[2], b"two", DataValidity::Redacted),
        data_entry("c", &[3], b"three", DataValidity::MaybeHybridManifest("odd".to_owned())),
        data_entry("d", &[4], b"four", DataValidity::Corrupt("bad".to_owned())),
    ];
    match cmd_data(&DataArgs::Check, &entries) {
        Ok(DataOutput::Issues(issues)) => {
            assert_eq!(issues.len(), 3);
            assert_eq!(issues[0].0.path, "b");
            assert!(matches!(issues[0].1, DataValidity::Redacted));
            assert_eq!(issues[1].0.path, "c");
            assert!(matches!(issues[2].1, DataValidity::Corrupt(ref m) if m == "bad"));
        },
        other => panic!("expected the issues, got {:?}", other),
    }
}

#[test]
fn history_ls_sorts_and_deduplicates_paths() {
    let chunks = vec![
        chunk("zebra", &[&[1]]),
        chunk("alpha", &[&[2]]),
        chunk("zebra", &[&[3]]),
        chunk("middle", &[&[4]]),
    ];
    match cmd_history(&HistoryArgs::Ls, &chunks) {
        HistoryOutput::Paths(ps) => {
            assert_eq!(ps, vec!["alpha", "middle", "zebra"]);
        },
        other => panic!("expected the paths, got {:?}", other),
    }
}

#[test]
fn history_show_one_file_concatenates_its_chunks() {
    let chunks = vec![
        chunk("a", &[&[1], &[2]]),
        chunk("b", &[&[9]]),
        chunk("a", &[&[3]]),
    ];
    match cmd_history(&HistoryArgs::Show(Some("a".to_owned())), &chunks) {
        HistoryOutput::Single(Some(block)) => {
            assert_eq!(block.path, "a");
            let nodes: Vec<Vec<u8>> = block.entries.iter().map(|e| e.node.clone()).collect();
            assert_eq!(nodes, vec![vec![1], vec![2], vec![3]]);
        },
        other => panic!("expected one block, got {:?}", other),
    }
    assert!(matches!(
        cmd_history(&HistoryArgs::Show(Some("nowhere".to_owned())), &chunks),
        HistoryOutput::Single(None)
    ));
}

#[test]
fn history_show_everything_groups_by_sorted_path() {
    let chunks = vec![
        chunk("b", &[&[4]]),
        chunk("a", &[&[1]]),
        chunk("b", &[&[5]]),
    ];
    match cmd_history(&HistoryArgs::Show(None), &chunks) {
        HistoryOutput::Full(blocks) => {
            assert_eq!(blocks.len(), 2);
            assert_eq!(blocks[0].path, "a");
            assert_eq!(blocks[1].path, "b");
            assert_eq!(blocks[0].entries.len(), 1);
            let nodes: Vec<Vec<u8>> = blocks[1].entries.iter().map(|e| e.node.clone()).collect();
            assert_eq!(nodes, vec![vec![4], vec![5]]);
        },
        other => panic!("expected grouped blocks, got {:?}", other),
    }
}

#[test]
fn history_entries_carry_their_fields() {
    let e = WireHistoryEntry {
        node: vec![7],
        parents: Parents::TwoParents(vec![1], vec![2]),
        linknode: vec![9],
        copyfrom: Some("old/path".to_owned()),
    };
    let d = e.duplicate();
    assert_eq!(d.node, vec![7]);
    assert!(matches!(d.parents, Parents::TwoParents(ref p1, ref p2) if p1 == &vec![1] && p2 == &vec![2]));
    assert_eq!(d.copyfrom.as_deref(), Some("old/path"));
}

#[test]
fn bookmark_suffixes_allow_word_characters_and_separators() {
    assert!(is_valid_bookmark_suffix("release/v1.2-rc_3"));
    assert!(is_valid_bookmark_suffix(""));
    assert!(is_valid_bookmark_suffix("heads9"));
    assert!(!is_valid_bookmark_suffix("spaced out"));
    assert!(!is_valid_bookmark_suffix("quest?"));
    assert!(!is_valid_bookmark_suffix("col:on"));
}

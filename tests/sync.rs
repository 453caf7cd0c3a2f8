use dirsync::client::{plan_sync, transfer_outcome, FileOutcome, SyncError, SyncReport};
use dirsync::digest::content_hash;
use dirsync::index::{diff, FileHashIndex};
use dirsync::server::{
    index_reply, is_success, transfer_reply, wants_index, FileLookup, Reply, STATUS_NOT_FOUND,
    STATUS_OK, STATUS_SERVER_ERROR,
};
use dirsync::tree::{build_index, Node};
use dirsync::wire::{decode_index, encode_index};

fn file(name: &str, content: &[u8]) -> Node {
    Node::File { name: name.to_string(), content: content.to_vec() }
}

fn dir(name: &str, children: Vec<Node>) -> Node {
    Node::Dir { name: name.to_string(), children }
}

fn server_tree() -> Vec<Node> {
    vec![file("a", b"x"), dir("b", vec![file("c", b"y")])]
}

fn index_of(pairs: &[(&str, &str)]) -> FileHashIndex {
    let mut index = FileHashIndex::new();
    for (p, h) in pairs {
        index.insert(p.to_string(), h.to_string());
    }
    index
}

fn sorted(mut v: Vec<String>) -> Vec<String> {
    v.sort();
    v
}

/// Looks up `path` in a tree, as the server does for a transfer.
fn lookup(tree: &[Node], path: &str) -> FileLookup {
    let mut nodes = tree;
    let parts: Vec<&str> = path.split('/').collect();
    for (i, part) in parts.iter().enumerate() {
        let last = i + 1 == parts.len();
        let found = nodes.iter().find(|n| match n {
            Node::File { name, .. } | Node::Dir { name, .. } | Node::Other { name } => name == part,
        });
        match (found, last) {
            (Some(Node::File { content, .. }), true) => return FileLookup::Contents(content.clone()),
            (Some(Node::Dir { children, .. }), false) => nodes = children,
            _ => return FileLookup::Missing,
        }
    }
    FileLookup::Missing
}

/// Runs one sync of `client` against `server`, applying every write to
/// `client`, and returns the report.
fn run_sync(client: &mut Vec<Node>, server: &[Node], served: impl Fn(&str) -> FileLookup) -> Result<SyncReport, SyncError> {
    let local = build_index(client);
    let remote = index_reply(Some(&server.to_vec_nodes()));
    let paths = plan_sync(Some(&local), Some(&remote))?;
    let mut report = SyncReport::new();
    for path in sorted(paths) {
        let reply = transfer_reply(served(&path));
        let outcome = transfer_outcome(Some(reply));
        if let FileOutcome::Store(bytes) = &outcome {
            store(client, &path, bytes);
        }
        report.record(path, &outcome);
    }
    Ok(report)
}

trait CloneNodes {
    fn to_vec_nodes(&self) -> Vec<Node>;
}

impl CloneNodes for [Node] {
    fn to_vec_nodes(&self) -> Vec<Node> {
        self.iter().map(clone_node).collect()
    }
}

fn clone_node(n: &Node) -> Node {
    match n {
        Node::File { name, content } => file(name, content),
        Node::Dir { name, children } => dir(name, children.iter().map(clone_node).collect()),
        Node::Other { name } => Node::Other { name: name.clone() },
    }
}

/// Writes `bytes` at `path` in the tree, creating directories on the way.
fn store(tree: &mut Vec<Node>, path: &str, bytes: &[u8]) {
    match path.split_once('/') {
        None => {
            tree.retain(|n| !matches!(n, Node::File { name, .. } if name == path));
            tree.push(file(path, bytes));
        }
        Some((head, rest)) => {
            let pos = tree.iter().position(|n| matches!(n, Node::Dir { name, .. } if name == head));
            let pos = match pos {
                Some(p) => p,
                None => {
                    tree.push(dir(head, Vec::new()));
                    tree.len() - 1
                }
            };
            if let Node::Dir { children, .. } = &mut tree[pos] {
                store(children, rest, bytes);
            }
        }
    }
}

#[test]
fn content_hash_is_blake3_hex() {
    let h = content_hash(b"");
    assert_eq!(h, "af1349b9f5f9a1a6a0404dea36dcc9499bcb25c9adc112b7cc9a93cae41f3262");
    let h = content_hash(b"hello");
    assert_eq!(h, blake3::hash(b"hello").to_hex().to_string());
    assert_eq!(h.len(), 64);
    assert_ne!(content_hash(b"x"), content_hash(b"y"));
}

#[test]
fn index_keys_are_slash_joined_relative_paths() {
    let index = build_index(&server_tree());
    assert_eq!(index.len(), 2);
    assert_eq!(index.get(&"a".to_string()), Some(content_hash(b"x")));
    assert_eq!(index.get(&"b/c".to_string()), Some(content_hash(b"y")));
    assert_eq!(index.get(&"b".to_string()), None);
    assert_eq!(index.get(&"c".to_string()), None);
}

#[test]
fn index_skips_non_regular_files_and_empty_dirs() {
    let tree = vec![
        Node::Other { name: "link".to_string() },
        dir("empty", vec![]),
        dir("d", vec![dir("e", vec![file("f", b"deep")]), Node::Other { name: "dev".to_string() }]),
    ];
    let index = build_index(&tree);
    assert_eq!(index.len(), 1);
    assert_eq!(index.get(&"d/e/f".to_string()), Some(content_hash(b"deep")));
}

#[test]
fn empty_tree_gives_empty_index() {
    let index = build_index(&vec![]);
    assert_eq!(index.len(), 0);
}

#[test]
fn insert_replaces_hash_of_same_path() {
    let mut index = index_of(&[("p", "1"), ("q", "2")]);
    index.insert("p".to_string(), "3".to_string());
    assert_eq!(index.len(), 2);
    assert_eq!(index.get(&"p".to_string()), Some("3".to_string()));
    assert_eq!(index.get(&"q".to_string()), Some("2".to_string()));
}

#[test]
fn identical_trees_need_nothing() {
    let a = build_index(&server_tree());
    let b = build_index(&server_tree());
    assert!(diff(&a, &b).is_empty());
}

#[test]
fn changing_one_file_changes_only_its_hash() {
    let before = build_index(&server_tree());
    let changed = vec![file("a", b"x"), dir("b", vec![file("c", b"z")])];
    let after = build_index(&changed);
    assert_eq!(after.len(), before.len());
    assert_eq!(after.get(&"a".to_string()), before.get(&"a".to_string()));
    assert_ne!(after.get(&"b/c".to_string()), before.get(&"b/c".to_string()));
    assert_eq!(after.get(&"b/c".to_string()), Some(content_hash(b"z")));
    assert_eq!(diff(&before, &after), vec!["b/c".to_string()]);
}

#[test]
fn diff_lists_changed_and_missing_but_not_local_only() {
    let local = index_of(&[("same", "h1"), ("changed", "old"), ("local_only", "h4")]);
    let remote = index_of(&[("same", "h1"), ("changed", "new"), ("missing", "h3")]);
    let paths = sorted(diff(&local, &remote));
    assert_eq!(paths, vec!["changed".to_string(), "missing".to_string()]);
}

#[test]
fn diff_against_empty_local_lists_everything() {
    let remote = index_of(&[("x", "1"), ("y", "2")]);
    let paths = sorted(diff(&FileHashIndex::new(), &remote));
    assert_eq!(paths, vec!["x".to_string(), "y".to_string()]);
    assert!(diff(&remote, &FileHashIndex::new()).is_empty());
}

#[test]
fn index_survives_the_wire() {
    let index = build_index(&server_tree());
    let body = encode_index(&index);
    let text = String::from_utf8(body.clone()).unwrap();
    assert!(text.starts_with('{'));
    assert!(text.contains("\"b/c\""));
    let back = decode_index(&body).unwrap();
    assert_eq!(back.len(), 2);
    assert_eq!(back.get(&"a".to_string()), Some(content_hash(b"x")));
    assert_eq!(back.get(&"b/c".to_string()), Some(content_hash(b"y")));
}

#[test]
fn decode_refuses_what_is_not_an_object_of_strings() {
    assert!(decode_index(b"Error calculating hashes").is_none());
    assert!(decode_index(b"[\"a\"]").is_none());
    assert!(decode_index(b"{\"a\": 1}").is_none());
    let empty = decode_index(b"{}").unwrap();
    assert_eq!(empty.len(), 0);
}

#[test]
fn hashes_action_selects_the_listing() {
    assert!(wants_index(&Some("hashes".to_string())));
    assert!(!wants_index(&Some("other".to_string())));
    assert!(!wants_index(&Some("".to_string())));
    assert!(!wants_index(&None));
}

#[test]
fn success_is_the_2xx_class() {
    assert!(is_success(200));
    assert!(is_success(299));
    assert!(!is_success(199));
    assert!(!is_success(300));
    assert!(!is_success(404));
    assert!(!is_success(500));
}

#[test]
fn transfer_replies_by_lookup() {
    let ok = transfer_reply(FileLookup::Contents(b"bytes".to_vec()));
    assert_eq!(ok.status, STATUS_OK);
    assert_eq!(ok.body, b"bytes".to_vec());
    let missing = transfer_reply(FileLookup::Missing);
    assert_eq!(missing.status, STATUS_NOT_FOUND);
    assert!(missing.body.is_empty());
    let open = transfer_reply(FileLookup::OpenFailed);
    assert_eq!(open.status, STATUS_SERVER_ERROR);
    assert_eq!(open.body, b"File open error".to_vec());
    let read = transfer_reply(FileLookup::ReadFailed);
    assert_eq!(read.status, STATUS_SERVER_ERROR);
    assert_eq!(read.body, b"File read error".to_vec());
}

#[test]
fn index_reply_serves_the_index_or_an_error() {
    let ok = index_reply(Some(&server_tree()));
    assert_eq!(ok.status, STATUS_OK);
    let back = decode_index(&ok.body).unwrap();
    assert_eq!(back.get(&"a".to_string()), Some(content_hash(b"x")));
    let failed = index_reply(None);
    assert_eq!(failed.status, STATUS_SERVER_ERROR);
    assert!(decode_index(&failed.body).is_none());
}

#[test]
fn plan_sync_errors() {
    let local = FileHashIndex::new();
    let good = index_reply(Some(&server_tree()));
    assert_eq!(plan_sync(None, Some(&good)).err(), Some(SyncError::LocalIndexUnavailable));
    assert_eq!(plan_sync(Some(&local), None).err(), Some(SyncError::ServerUnreachable));
    let failed = Reply { status: STATUS_SERVER_ERROR, body: b"Error calculating hashes".to_vec() };
    assert_eq!(plan_sync(Some(&local), Some(&failed)).err(), Some(SyncError::RemoteIndexUnavailable));
    let garbled = Reply { status: STATUS_OK, body: b"not json".to_vec() };
    assert_eq!(plan_sync(Some(&local), Some(&garbled)).err(), Some(SyncError::BadRemoteIndex));
}

#[test]
fn transfer_outcome_writes_only_on_success() {
    match transfer_outcome(Some(Reply { status: 200, body: b"data".to_vec() })) {
        FileOutcome::Store(bytes) => assert_eq!(bytes, b"data".to_vec()),
        FileOutcome::Failed => panic!("a success reply must be stored"),
    }
    assert!(matches!(transfer_outcome(Some(Reply { status: 404, body: vec![] })), FileOutcome::Failed));
    assert!(matches!(transfer_outcome(Some(Reply { status: 500, body: b"x".to_vec() })), FileOutcome::Failed));
    assert!(matches!(transfer_outcome(None), FileOutcome::Failed));
}

#[test]
fn report_records_in_order() {
    let mut report = SyncReport::new();
    report.record("a".to_string(), &FileOutcome::Store(vec![1]));
    report.record("b".to_string(), &FileOutcome::Failed);
    report.record("c".to_string(), &FileOutcome::Store(vec![]));
    assert_eq!(report.written, vec!["a".to_string(), "c".to_string()]);
    assert_eq!(report.failed, vec!["b".to_string()]);
}

#[test]
fn sync_into_empty_root_copies_the_tree() {
    let server = server_tree();
    let mut client: Vec<Node> = Vec::new();
    let report = run_sync(&mut client, &server, |p| lookup(&server_tree(), p)).unwrap();
    assert_eq!(report.written, vec!["a".to_string(), "b/c".to_string()]);
    assert!(report.failed.is_empty());
    assert!(matches!(lookup(&client, "a"), FileLookup::Contents(c) if c == b"x".to_vec()));
    assert!(matches!(lookup(&client, "b/c"), FileLookup::Contents(c) if c == b"y".to_vec()));
}

#[test]
fn second_sync_writes_nothing() {
    let server = server_tree();
    let mut client = vec![file("a", b"old"), file("extra", b"kept")];
    let first = run_sync(&mut client, &server, |p| lookup(&server_tree(), p)).unwrap();
    assert_eq!(first.written, vec!["a".to_string(), "b/c".to_string()]);
    let second = run_sync(&mut client, &server, |p| lookup(&server_tree(), p)).unwrap();
    assert!(second.written.is_empty());
    assert!(second.failed.is_empty());
    assert!(matches!(lookup(&client, "extra"), FileLookup::Contents(c) if c == b"kept".to_vec()));
}

#[test]
fn one_missing_file_does_not_stop_the_sync() {
    let server = vec![file("a", b"1"), file("b", b"2"), file("c", b"3")];
    let mut client: Vec<Node> = Vec::new();
    let report = run_sync(&mut client, &server, |p| {
        if p == "b" {
            FileLookup::Missing
        } else {
            lookup(&[file("a", b"1"), file("b", b"2"), file("c", b"3")], p)
        }
    })
    .unwrap();
    assert_eq!(report.written, vec!["a".to_string(), "c".to_string()]);
    assert_eq!(report.failed, vec!["b".to_string()]);
    assert!(matches!(lookup(&client, "a"), FileLookup::Contents(_)));
    assert!(matches!(lookup(&client, "b"), FileLookup::Missing));
    assert!(matches!(lookup(&client, "c"), FileLookup::Contents(_)));
}

#[test]
fn unreadable_server_root_aborts_without_writes() {
    let reply = index_reply(None);
    assert_eq!(reply.status, STATUS_SERVER_ERROR);
    let local = build_index(&vec![file("mine", b"m")]);
    let plan = plan_sync(Some(&local), Some(&reply));
    assert_eq!(plan.err(), Some(SyncError::RemoteIndexUnavailable));
}

use datahog::storage::dir_trait::EmulatedDir;
use datahog::storage::disk::SourceDisk;
use datahog::storage::imap::SourceIMAP;
use datahog::structs::{BFContainer, Base, DataHash, EdgeKind, NodeKind, Record};
use datahog::worldview::{WorldView, WorldViewError};

const NOTES: &str = r#"
        # Notes

        ## First Section

        This is the content of the first section.

        ## Second Section

        This is the content of the second section.
        "#;

#[test]
fn test_single() {
    let dir = EmulatedDir::new_from_string(&[("notes.md", NOTES)]);
    let mut source = SourceDisk::new(dir);
    let caps = source.capabilities();
    let txs = source.get_updates();
    let mut ww = WorldView::new();
    let root_id = ww.add_source(caps, txs).unwrap();
    assert_eq!(ww.root_nodes(), vec![root_id]);
    let root = ww.get_node(&root_id).unwrap();
    assert_eq!(root.label, "root");
    assert_eq!(root.kind, NodeKind::Label);
    assert_eq!(root.edges.len(), 1);
    let (eid, kind) = root.edges[0].clone();
    let object = match kind {
        EdgeKind::Contains { container, object } => {
            assert_eq!(container, root_id);
            object
        }
        other => panic!("unexpected edge kind {other:?}"),
    };
    let file = ww.get_node(&object).unwrap();
    assert_eq!(file.label, "notes.md");
    assert_eq!(file.kind, NodeKind::Container(BFContainer::MimeType("text/plain".to_string())));
    assert_eq!(file.data, DataHash::Bytes(NOTES.as_bytes().to_vec()));
    assert_eq!(file.edges.len(), 1);
    assert_eq!(file.edges[0].0, eid);
    assert!(ww.get_edge(&eid).is_some());
    assert_eq!(ww.root_nodes(), vec![root_id]);
    assert!(source.get_updates().is_empty());
}

#[test]
fn nested_directories_are_linked_to_their_parents() {
    let dir = EmulatedDir::new_from_string(&[("a/b/c.txt", "x"), ("a/d.txt", "y"), ("e.txt", "z")]);
    let mut source = SourceDisk::new(dir);
    let txs = source.get_updates();
    assert_eq!(txs.len(), 1 + 2 * 5);
    let mut ww = WorldView::new();
    let (_, nodes, edges) = ww.process_updates(txs);
    assert_eq!(nodes.len(), 6);
    assert_eq!(edges.len(), 5);
    for e in &edges {
        let edge = ww.get_edge(e).unwrap();
        if let EdgeKind::Contains { container, object } = edge.kind {
            assert!(ww.get_node(&container).unwrap().edges.iter().any(|(x, _)| x == e));
            assert!(ww.get_node(&object).unwrap().edges.iter().any(|(x, _)| x == e));
        } else {
            panic!("not a containment");
        }
    }
}

#[test]
fn first_crawl_starts_with_the_root() {
    let mut source = SourceDisk::new(EmulatedDir::new());
    let txs = source.get_updates();
    assert_eq!(txs.len(), 1);
    match &txs[0].records[0] {
        Record::Node(c) => match &c.base {
            Base::Create(n) => assert_eq!(n.label, "root"),
            Base::ID(_) => panic!("not a creation"),
        },
        Record::Edge(_) => panic!("not a node"),
    }
}

#[test]
fn mailbox_source_yields_nothing_and_is_refused() {
    let mut source = SourceIMAP::new();
    let caps = source.capabilities();
    assert_eq!(caps.id, source.get_id());
    let txs = source.get_updates();
    assert!(txs.is_empty());
    let mut ww = WorldView::new();
    assert_eq!(ww.add_source(caps, txs), Err(WorldViewError::NoRootNode));
}

#[test]
fn one_file_crawl_gives_root_file_and_edge() {
    let mut source = SourceDisk::new(EmulatedDir::new_from_string(&[("notes.md", NOTES)]));
    let txs = source.get_updates();
    assert_eq!(txs.len(), 3);
    let node = |i: usize| match &txs[i].records[0] {
        Record::Node(c) => match &c.base {
            Base::Create(n) => n.clone(),
            Base::ID(_) => panic!("not a creation"),
        },
        Record::Edge(_) => panic!("not a node"),
    };
    let (root, file) = (node(0), node(1));
    assert_eq!(root.label, "root");
    assert_eq!(file.label, "notes.md");
    assert_eq!(file.data, DataHash::Bytes(NOTES.as_bytes().to_vec()));
    match &txs[2].records[0] {
        Record::Edge(c) => match &c.base {
            Base::Create(e) => assert_eq!(e.kind, EdgeKind::Contains { container: root.id, object: file.id }),
            Base::ID(_) => panic!("not a creation"),
        },
        Record::Node(_) => panic!("not an edge"),
    }
}

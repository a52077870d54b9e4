//! Builders of new nodes, edges and transactions, and the current time.
use vstd::prelude::*;

use crate::ids::{EdgeID, NodeID};
use crate::structs::{
    Base, BFContainer, DataHash, DataHashM, Edge, EdgeBaseM, EdgeKind, EdgeKindM, Node, NodeBaseM, NodeKind,
    NodeKindM, Record, RecordCUD, RecordM, Timestamp, Transaction, Validity,
};

verus! {

/// Relies on std's `SystemTime::now` read against `UNIX_EPOCH`: the
/// nanoseconds since the epoch, or before it in `Err`. Nothing is known of
/// the value.
#[verifier::external_body]
fn system_time_nanos() -> (r: Result<u128, u128>) {
    match std::time::SystemTime::now().duration_since(std::time::UNIX_EPOCH) {
        Ok(d) => Ok(d.as_nanos()),
        Err(e) => Err(e.duration().as_nanos()),
    }
}

/// The largest timestamp.
pub const TIMESTAMP_MAX: i128 = 0x7fff_ffff_ffff_ffff_ffff_ffff_ffff_ffffi128;

/// The timestamp of a clock reading: nanoseconds after the epoch (`Ok`) or
/// before it (`Err`, negative), beyond the range of a timestamp at its
/// nearest bound.
pub open spec fn clock_timestamp(clock: Result<u128, u128>) -> int {
    match clock {
        Ok(n) => if n > TIMESTAMP_MAX {
            TIMESTAMP_MAX as int
        } else {
            n as int
        },
        Err(n) => if n > TIMESTAMP_MAX {
            -(TIMESTAMP_MAX as int)
        } else {
            -(n as int)
        },
    }
}

/// Turns a clock reading into a timestamp.
pub fn clock_to_timestamp(clock: Result<u128, u128>) -> (r: Timestamp)
    ensures
        r as int == clock_timestamp(clock),
{
    let max: u128 = TIMESTAMP_MAX as u128;
    match clock {
        Ok(n) => if n > max {
            TIMESTAMP_MAX
        } else {
            n as i128
        },
        Err(n) => if n > max {
            -TIMESTAMP_MAX
        } else {
            -(n as i128)
        },
    }
}

/// The time now, in nanoseconds since the UNIX epoch, negative before it;
/// a time beyond the range of a timestamp gives its nearest bound.
pub fn timestamp_now() -> (r: Timestamp) {
    clock_to_timestamp(system_time_nanos())
}

impl Validity {
    /// Valid from now on.
    pub fn from_now() -> (r: Validity)
        ensures
            r is From,
    {
        Validity::From(timestamp_now())
    }
}

impl Node {
    /// A new node of a fresh identifier with the given kind and label, at
    /// version 0, with empty data and no edges, arguments or history.
    pub fn init(kind: NodeKind, label: String) -> (r: Node)
        ensures
            r@.kind == kind@,
            r@.label == label@,
            r@.op_version == 0,
            r@.data == DataHashM::Bytes(Seq::empty()),
            r@.edges.len() == 0,
            r@.arguments.len() == 0,
            r@.history.len() == 0,
    {
        Node {
            id: NodeID::rnd(),
            kind,
            label,
            op_version: 0,
            data: DataHash::Bytes(Vec::new()),
            edges: Vec::new(),
            arguments: Vec::new(),
            history: Vec::new(),
        }
    }

    /// A new label node.
    pub fn label(label: &str) -> (r: Node)
        ensures
            r@.kind == NodeKindM::Label,
            r@.label == label@,
            r@.op_version == 0,
            r@.data == DataHashM::Bytes(Seq::empty()),
            r@.edges.len() == 0,
            r@.arguments.len() == 0,
            r@.history.len() == 0,
    {
        Node::init(NodeKind::Label, label.to_owned())
    }

    /// A new node holding data of the given MIME type.
    pub fn mime(mime_type: String, label: String) -> (r: Node)
        ensures
            r@.kind == NodeKindM::MimeType(mime_type@),
            r@.label == label@,
            r@.op_version == 0,
            r@.data == DataHashM::Bytes(Seq::empty()),
            r@.edges.len() == 0,
            r@.arguments.len() == 0,
            r@.history.len() == 0,
    {
        Node::init(NodeKind::MimeType(mime_type), label)
    }

    /// A new container node of the given sort, labelled "container".
    pub fn container(container: BFContainer) -> (r: Node)
        ensures
            r@.kind == NodeKindM::Container(container@),
            r@.label == "container"@,
            r@.op_version == 0,
            r@.data == DataHashM::Bytes(Seq::empty()),
            r@.edges.len() == 0,
            r@.arguments.len() == 0,
            r@.history.len() == 0,
    {
        Node::init(NodeKind::Container(container), "container".to_owned())
    }

    /// A new schema node.
    pub fn schema(label: String) -> (r: Node)
        ensures
            r@.kind == NodeKindM::Schema,
            r@.label == label@,
            r@.op_version == 0,
            r@.data == DataHashM::Bytes(Seq::empty()),
            r@.edges.len() == 0,
            r@.arguments.len() == 0,
            r@.history.len() == 0,
    {
        Node::init(NodeKind::Schema, label)
    }
}

impl Edge {
    /// A new edge of a fresh identifier from a container to an object, valid
    /// from now on, with no history.
    pub fn contains(container: NodeID, object: NodeID) -> (r: Edge)
        ensures
            r@.kind == (EdgeKindM::Contains { container, object }),
            r@.validity is From,
            r@.history.len() == 0,
    {
        Edge {
            id: EdgeID::rnd(),
            kind: EdgeKind::Contains { container, object },
            validity: Validity::from_now(),
            history: Vec::new(),
        }
    }
}

impl Transaction {
    /// A transaction of now that creates the node.
    pub fn create_node(node: Node) -> (r: Transaction)
        ensures
            r@.records == seq![RecordM::Node(NodeBaseM::Create(node@), Seq::empty())],
    {
        let ghost nv = node@;
        let updates: Vec<crate::structs::NodeUpdate> = Vec::new();
        assert(crate::structs::updates_view(updates) =~= Seq::empty());
        let r = Transaction {
            timestamp: timestamp_now(),
            records: vec![Record::Node(RecordCUD { base: Base::Create(node), updates })],
        };
        assert(r@.records =~= seq![RecordM::Node(NodeBaseM::Create(nv), Seq::empty())]);
        r
    }

    /// A transaction of now that creates the edge.
    pub fn create_edge(edge: Edge) -> (r: Transaction)
        ensures
            r@.records == seq![RecordM::Edge(EdgeBaseM::Create(edge@), Seq::empty())],
    {
        let ghost ev = edge@;
        let updates: Vec<crate::structs::EdgeAction> = Vec::new();
        assert(crate::structs::actions_view(updates) =~= Seq::empty());
        let r = Transaction {
            timestamp: timestamp_now(),
            records: vec![Record::Edge(RecordCUD { base: Base::Create(edge), updates })],
        };
        assert(r@.records =~= seq![RecordM::Edge(EdgeBaseM::Create(ev), Seq::empty())]);
        r
    }
}

} // verus!

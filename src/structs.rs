//! The data model: nodes, edges, records and transactions, each with the
//! mathematical value (its view) that the contracts speak of.
use vstd::prelude::*;

use crate::ids::{EdgeID, NodeID};

verus! {

broadcast use vstd::std_specs::vec::group_vec_axioms;

/// Nanoseconds since the UNIX epoch.
pub type Timestamp = i128;

/// The version of a node's interpretation, advanced by `NodeUpdate::Migrate`.
pub type OpVersion = u32;

/// What functionality a node has; it never changes.
#[derive(Clone, PartialEq, Eq, Debug)]
pub enum NodeKind {
    /// Label node used to categorize other nodes.
    Label,
    /// Any type of data potentially represented as a file.
    MimeType(String),
    /// Defines fields that the nodes of the schema fill.
    Schema,
    /// Renders other nodes and edges.
    Render(BFRender),
    /// Holds data of the given sort.
    Container(BFContainer),
}

/// How the nodes and edges linked to a rendering node are shown.
#[derive(Clone, Copy, PartialEq, Eq, Structural, Debug)]
pub enum BFRender {
    /// The node's data as markdown, with the nodes linked to it.
    Markdown,
    /// The nodes and their edges as a graph.
    Graph,
    /// The node's data as a table.
    Tabular,
}

/// The sort of data that a container node holds.
#[derive(Clone, PartialEq, Eq, Debug)]
pub enum BFContainer {
    Formatted,
    /// Any type of data potentially represented as a file.
    MimeType(String),
    /// Defines fields that the nodes of the schema fill.
    Schema,
    Concrete,
}

/// The data of a node: a content hash or the bytes themselves.
#[derive(Clone, PartialEq, Eq, Debug)]
pub enum DataHash {
    /// A 256-bit hash of the content.
    Hash([u8; 32]),
    /// The content itself.
    Bytes(Vec<u8>),
}

/// A named value held by a node.
#[derive(Clone, PartialEq, Eq, Debug)]
pub enum Argument {
    /// Points to another node.
    ID(NodeID),
    /// Generic text.
    String(String),
    /// An integer of any size, in decimal notation.
    Int(String),
    /// A real number, in decimal notation.
    Float(String),
}

/// A change to one node.
#[derive(Debug)]
pub enum NodeUpdate {
    Label(String),
    Data(Vec<u8>),
    SetArgument(String, Argument),
    RemoveArgument(String),
    /// Sets the operation version, then applies the nested updates in order.
    Migrate(OpVersion, Vec<NodeUpdate>),
    /// Kept in the history; the node itself stays as it is.
    Delete,
}

/// The time span in which an edge holds.
#[derive(Clone, Copy, PartialEq, Eq, Structural, Debug)]
pub enum Validity {
    From(Timestamp),
    To(Timestamp),
    Period(Timestamp, Timestamp),
}

/// The different kinds of edges, each naming the nodes it links.
#[derive(Clone, PartialEq, Eq, Debug)]
pub enum EdgeKind {
    /// Two or more nodes that are alike in some sense.
    Equality(Vec<NodeID>),
    /// Points from an object to its label.
    Definition { object: NodeID, label: NodeID },
    /// A client using an object.
    Using { client: NodeID, object: NodeID },
    /// A container holding an object.
    Contains { container: NodeID, object: NodeID },
    /// A pointer to another node, optionally to one of its blobs.
    Reference { dest: NodeID, blob: Option<u32> },
}

/// A change to one edge.
#[derive(Clone, PartialEq, Eq, Debug)]
pub enum EdgeAction {
    /// Replaces the edge's kind, and so the nodes it links.
    Kind(EdgeKind),
    /// Replaces the edge's validity.
    Validity(Validity),
    /// Kept in the history; the edge itself stays as it is.
    Delete,
}

/// A node of the graph.
#[derive(Debug)]
pub struct Node {
    pub id: NodeID,
    pub kind: NodeKind,
    pub label: String,
    pub op_version: OpVersion,
    pub data: DataHash,
    /// The edges that link this node, each with its current kind.
    pub edges: Vec<(EdgeID, EdgeKind)>,
    /// Named values, each name at most once.
    pub arguments: Vec<(String, Argument)>,
    /// Every event that built this node, in order.
    pub history: Vec<RecordEvent>,
}

/// An edge between nodes.
#[derive(Debug)]
pub struct Edge {
    pub id: EdgeID,
    pub kind: EdgeKind,
    pub validity: Validity,
    pub history: Vec<RecordEvent>,
}

/// Either a bare identifier of an existing entity, or a whole new entity.
#[derive(Debug)]
pub enum Base<ID, C> {
    ID(ID),
    Create(C),
}

/// Creates or looks up one entity, then applies the updates in order.
#[derive(Debug)]
pub struct RecordCUD<ID, C, U> {
    pub base: Base<ID, C>,
    pub updates: Vec<U>,
}

pub type RecordCUDNode = RecordCUD<NodeID, Node, NodeUpdate>;

pub type RecordCUDEdge = RecordCUD<EdgeID, Edge, EdgeAction>;

/// One entry of a transaction: a change to one node or one edge.
#[derive(Debug)]
pub enum Record {
    Node(RecordCUDNode),
    Edge(RecordCUDEdge),
}

/// A record with the time of its transaction, as kept in an entity's history.
#[derive(Debug)]
pub struct RecordEvent(pub Timestamp, pub Record);

/// A timestamped, ordered batch of records.
#[derive(Debug)]
pub struct Transaction {
    pub timestamp: Timestamp,
    pub records: Vec<Record>,
}

// ---------------------------------------------------------------------------
// Mathematical values
// ---------------------------------------------------------------------------

/// The value of a `NodeKind`.
pub enum NodeKindM {
    Label,
    MimeType(Seq<char>),
    Schema,
    Render(BFRender),
    Container(BFContainerM),
}

/// The value of a `BFContainer`.
pub enum BFContainerM {
    Formatted,
    MimeType(Seq<char>),
    Schema,
    Concrete,
}

/// The value of a `DataHash`.
pub enum DataHashM {
    Hash([u8; 32]),
    Bytes(Seq<u8>),
}

/// The value of an `Argument`.
pub enum ArgumentM {
    ID(NodeID),
    Str(Seq<char>),
    Int(Seq<char>),
    Float(Seq<char>),
}

/// The value of a `NodeUpdate`.
pub enum NodeUpdateM {
    Label(Seq<char>),
    Data(Seq<u8>),
    SetArgument(Seq<char>, ArgumentM),
    RemoveArgument(Seq<char>),
    Migrate(OpVersion, Seq<NodeUpdateM>),
    Delete,
}

/// The value of an `EdgeKind`.
pub enum EdgeKindM {
    Equality(Seq<NodeID>),
    Definition { object: NodeID, label: NodeID },
    Using { client: NodeID, object: NodeID },
    Contains { container: NodeID, object: NodeID },
    Reference { dest: NodeID, blob: Option<u32> },
}

/// The value of an `EdgeAction`.
pub enum EdgeActionM {
    Kind(EdgeKindM),
    Validity(Validity),
    Delete,
}

/// The value of a `Node`.
pub struct NodeM {
    pub id: NodeID,
    pub kind: NodeKindM,
    pub label: Seq<char>,
    pub op_version: OpVersion,
    pub data: DataHashM,
    pub edges: Seq<(EdgeID, EdgeKindM)>,
    pub arguments: Seq<(Seq<char>, ArgumentM)>,
    pub history: Seq<EventM>,
}

/// The value of an `Edge`.
pub struct EdgeM {
    pub id: EdgeID,
    pub kind: EdgeKindM,
    pub validity: Validity,
    pub history: Seq<EventM>,
}

/// The value of the base of a node record.
pub enum NodeBaseM {
    ID(NodeID),
    Create(NodeM),
}

/// The value of the base of an edge record.
pub enum EdgeBaseM {
    ID(EdgeID),
    Create(EdgeM),
}

/// The value of a `Record`: its base and its updates.
pub enum RecordM {
    Node(NodeBaseM, Seq<NodeUpdateM>),
    Edge(EdgeBaseM, Seq<EdgeActionM>),
}

/// The value of a `RecordEvent`.
pub struct EventM {
    pub ts: Timestamp,
    pub record: RecordM,
}

/// The value of a `Transaction`.
pub struct TransactionM {
    pub timestamp: Timestamp,
    pub records: Seq<RecordM>,
}

impl View for NodeKind {
    type V = NodeKindM;

    open spec fn view(&self) -> NodeKindM {
        match self {
            NodeKind::Label => NodeKindM::Label,
            NodeKind::MimeType(s) => NodeKindM::MimeType(s@),
            NodeKind::Schema => NodeKindM::Schema,
            NodeKind::Render(r) => NodeKindM::Render(*r),
            NodeKind::Container(c) => NodeKindM::Container(c@),
        }
    }
}

impl View for BFContainer {
    type V = BFContainerM;

    open spec fn view(&self) -> BFContainerM {
        match self {
            BFContainer::Formatted => BFContainerM::Formatted,
            BFContainer::MimeType(s) => BFContainerM::MimeType(s@),
            BFContainer::Schema => BFContainerM::Schema,
            BFContainer::Concrete => BFContainerM::Concrete,
        }
    }
}

impl View for DataHash {
    type V = DataHashM;

    open spec fn view(&self) -> DataHashM {
        match self {
            DataHash::Hash(h) => DataHashM::Hash(*h),
            DataHash::Bytes(b) => DataHashM::Bytes(b@),
        }
    }
}

impl View for Argument {
    type V = ArgumentM;

    open spec fn view(&self) -> ArgumentM {
        match self {
            Argument::ID(id) => ArgumentM::ID(*id),
            Argument::String(s) => ArgumentM::Str(s@),
            Argument::Int(s) => ArgumentM::Int(s@),
            Argument::Float(s) => ArgumentM::Float(s@),
        }
    }
}

/// The value of a node update.
pub open spec fn update_view(u: NodeUpdate) -> NodeUpdateM
    decreases u,
{
    match u {
        NodeUpdate::Label(l) => NodeUpdateM::Label(l@),
        NodeUpdate::Data(b) => NodeUpdateM::Data(b@),
        NodeUpdate::SetArgument(k, v) => NodeUpdateM::SetArgument(k@, v@),
        NodeUpdate::RemoveArgument(k) => NodeUpdateM::RemoveArgument(k@),
        NodeUpdate::Migrate(v, us) => NodeUpdateM::Migrate(
            v,
            Seq::new(
                us.len() as nat,
                |i: int|
                    if 0 <= i < us.len() {
                        update_view(us[i])
                    } else {
                        NodeUpdateM::Delete
                    },
            ),
        ),
        NodeUpdate::Delete => NodeUpdateM::Delete,
    }
}

impl View for NodeUpdate {
    type V = NodeUpdateM;

    open spec fn view(&self) -> NodeUpdateM {
        update_view(*self)
    }
}

impl View for EdgeKind {
    type V = EdgeKindM;

    open spec fn view(&self) -> EdgeKindM {
        match self {
            EdgeKind::Equality(ids) => EdgeKindM::Equality(ids@),
            EdgeKind::Definition { object, label } => EdgeKindM::Definition {
                object: *object,
                label: *label,
            },
            EdgeKind::Using { client, object } => EdgeKindM::Using { client: *client, object: *object },
            EdgeKind::Contains { container, object } => EdgeKindM::Contains {
                container: *container,
                object: *object,
            },
            EdgeKind::Reference { dest, blob } => EdgeKindM::Reference { dest: *dest, blob: *blob },
        }
    }
}

impl View for EdgeAction {
    type V = EdgeActionM;

    open spec fn view(&self) -> EdgeActionM {
        match self {
            EdgeAction::Kind(k) => EdgeActionM::Kind(k@),
            EdgeAction::Validity(v) => EdgeActionM::Validity(*v),
            EdgeAction::Delete => EdgeActionM::Delete,
        }
    }
}

/// The values of a list of updates.
pub open spec fn updates_view(us: Vec<NodeUpdate>) -> Seq<NodeUpdateM> {
    Seq::new(us.len() as nat, |i: int| update_view(us[i]))
}

/// The values of a list of edge actions.
pub open spec fn actions_view(us: Vec<EdgeAction>) -> Seq<EdgeActionM> {
    Seq::new(us.len() as nat, |i: int| us[i]@)
}

/// The values of a node's edge list.
pub open spec fn edge_list_view(es: Vec<(EdgeID, EdgeKind)>) -> Seq<(EdgeID, EdgeKindM)> {
    Seq::new(es.len() as nat, |i: int| (es[i].0, es[i].1@))
}

/// The values of a node's argument list.
pub open spec fn argument_list_view(args: Vec<(String, Argument)>) -> Seq<(Seq<char>, ArgumentM)> {
    Seq::new(args.len() as nat, |i: int| (args[i].0@, args[i].1@))
}

/// The value of a node.
pub open spec fn node_view(n: Node) -> NodeM
    decreases n,
{
    NodeM {
        id: n.id,
        kind: n.kind@,
        label: n.label@,
        op_version: n.op_version,
        data: n.data@,
        edges: edge_list_view(n.edges),
        arguments: argument_list_view(n.arguments),
        history: Seq::new(
            n.history.len() as nat,
            |i: int|
                if 0 <= i < n.history.len() {
                    event_view(n.history[i])
                } else {
                    EventM { ts: 0, record: RecordM::Node(NodeBaseM::ID(n.id), Seq::empty()) }
                },
        ),
    }
}

/// The value of an edge.
pub open spec fn edge_view(e: Edge) -> EdgeM
    decreases e,
{
    EdgeM {
        id: e.id,
        kind: e.kind@,
        validity: e.validity,
        history: Seq::new(
            e.history.len() as nat,
            |i: int|
                if 0 <= i < e.history.len() {
                    event_view(e.history[i])
                } else {
                    EventM { ts: 0, record: RecordM::Edge(EdgeBaseM::ID(e.id), Seq::empty()) }
                },
        ),
    }
}

/// The value of a record.
pub open spec fn record_view(r: Record) -> RecordM
    decreases r,
{
    match r {
        Record::Node(c) => RecordM::Node(
            match c.base {
                Base::ID(id) => NodeBaseM::ID(id),
                Base::Create(n) => NodeBaseM::Create(node_view(n)),
            },
            updates_view(c.updates),
        ),
        Record::Edge(c) => RecordM::Edge(
            match c.base {
                Base::ID(id) => EdgeBaseM::ID(id),
                Base::Create(e) => EdgeBaseM::Create(edge_view(e)),
            },
            actions_view(c.updates),
        ),
    }
}

/// The value of an event.
pub open spec fn event_view(e: RecordEvent) -> EventM
    decreases e,
{
    EventM { ts: e.0, record: record_view(e.1) }
}

/// The values of a list of events.
pub open spec fn events_view(es: Vec<RecordEvent>) -> Seq<EventM> {
    Seq::new(es.len() as nat, |i: int| event_view(es[i]))
}

/// The values of a list of records.
pub open spec fn records_view(rs: Vec<Record>) -> Seq<RecordM> {
    Seq::new(rs.len() as nat, |i: int| record_view(rs[i]))
}

impl View for Node {
    type V = NodeM;

    open spec fn view(&self) -> NodeM {
        node_view(*self)
    }
}

impl View for Edge {
    type V = EdgeM;

    open spec fn view(&self) -> EdgeM {
        edge_view(*self)
    }
}

impl View for Record {
    type V = RecordM;

    open spec fn view(&self) -> RecordM {
        record_view(*self)
    }
}

impl View for RecordEvent {
    type V = EventM;

    open spec fn view(&self) -> EventM {
        event_view(*self)
    }
}

impl View for Transaction {
    type V = TransactionM;

    open spec fn view(&self) -> TransactionM {
        TransactionM { timestamp: self.timestamp, records: records_view(self.records) }
    }
}

/// The value of a `Migrate` update, stated through `updates_view`.
pub proof fn lemma_migrate_view(v: OpVersion, us: Vec<NodeUpdate>)
    ensures
        update_view(NodeUpdate::Migrate(v, us)) == NodeUpdateM::Migrate(v, updates_view(us)),
{
    if let NodeUpdateM::Migrate(_, s) = update_view(NodeUpdate::Migrate(v, us)) {
        assert(s =~= updates_view(us));
    }
}

/// The history of a node's value, stated through `events_view`.
pub proof fn lemma_node_history_view(n: Node)
    ensures
        node_view(n).history == events_view(n.history),
{
    assert(node_view(n).history =~= events_view(n.history));
}

/// The history of an edge's value, stated through `events_view`.
pub proof fn lemma_edge_history_view(e: Edge)
    ensures
        edge_view(e).history == events_view(e.history),
{
    assert(edge_view(e).history =~= events_view(e.history));
}

} // verus!

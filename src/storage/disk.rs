//! A source that reads a directory tree: each directory and each file
//! becomes a node, linked to the node of its parent directory by a
//! `Contains` edge, under one root node.
use vstd::prelude::*;
use vstd::utf8::encode_utf8;

use crate::ids::{NodeID, SourceID};
use crate::storage::dir_trait::{lemma_dir_view, DirM, EmulatedDir};
use crate::structs::{
    BFContainer, BFContainerM, DataHash, DataHashM, Edge, EdgeBaseM, EdgeKindM, Node, NodeBaseM,
    NodeKindM, NodeM, RecordM, Transaction, TransactionM,
};
use crate::worldview::{transactions_view, SourceCapabilities};

verus! {

broadcast use vstd::std_specs::vec::group_vec_axioms;

/// The node that a transaction creates, when it creates exactly one node and
/// nothing else.
pub open spec fn node_of(t: TransactionM) -> Option<NodeM> {
    if t.records.len() == 1 {
        match t.records[0] {
            RecordM::Node(NodeBaseM::Create(n), us) => if us.len() == 0 {
                Some(n)
            } else {
                None
            },
            _ => None,
        }
    } else {
        None
    }
}

/// The container and the object of the `Contains` edge that a transaction
/// creates, when it creates exactly one such edge and nothing else.
pub open spec fn contains_of(t: TransactionM) -> Option<(NodeID, NodeID)> {
    if t.records.len() == 1 {
        match t.records[0] {
            RecordM::Edge(EdgeBaseM::Create(e), us) => if us.len() == 0 {
                match e.kind {
                    EdgeKindM::Contains { container, object } => Some((container, object)),
                    _ => None,
                }
            } else {
                None
            },
            _ => None,
        }
    } else {
        None
    }
}

/// One entry met by a crawl: its name, a file's content (`None` for a
/// directory), and where the node that contains it stands: `back` pairs
/// before its own, or, when `back` is not positive, the node the crawl
/// started from.
pub struct CrawlItem {
    pub name: Seq<char>,
    pub content: Option<Seq<char>>,
    pub back: int,
}

/// A crawl of a subdirectory placed right after its directory's own entry:
/// what the subdirectory's crawl hangs from its start hangs from that entry.
pub open spec fn embed(sub: Seq<CrawlItem>) -> Seq<CrawlItem> {
    Seq::new(
        sub.len(),
        |j: int|
            if sub[j].back <= 0 {
                CrawlItem { back: j + 1, ..sub[j] }
            } else {
                sub[j]
            },
    )
}

/// The entries of the files of a directory, in order.
pub open spec fn file_items(fs: Seq<(Seq<char>, Seq<char>)>) -> Seq<CrawlItem> {
    Seq::new(fs.len(), |i: int| CrawlItem { name: fs[i].0, content: Some(fs[i].1), back: 0 })
}

/// The entries of a tree in the order of a crawl: each subdirectory, in
/// order, followed by its own crawl, then the files.
pub open spec fn crawl(d: DirM) -> Seq<CrawlItem>
    decreases d, 0nat,
{
    crawl_dirs(d.dirs, d.dirs.len()) + file_items(d.files)
}

/// The crawl of the first `k` subdirectories of a list.
pub open spec fn crawl_dirs(ds: Seq<(Seq<char>, DirM)>, k: nat) -> Seq<CrawlItem>
    decreases ds, k,
{
    if k == 0 || k > ds.len() {
        Seq::empty()
    } else {
        crawl_dirs(ds, (k - 1) as nat).push(CrawlItem { name: ds[k - 1].0, content: None, back: 0 })
            + embed(crawl(ds[k - 1].1))
    }
}

/// Pair `p` of `out` (transactions `2p` and `2p + 1`) creates the node of
/// entry `it` and then the `Contains` edge to it from its container.
pub open spec fn pair_matches(out: Seq<TransactionM>, p: int, it: CrawlItem, parent: NodeID) -> bool {
    &&& 0 <= p
    &&& 2 * p + 1 < out.len()
    &&& node_of(out[2 * p]) is Some
    &&& node_of(out[2 * p])->Some_0.label == it.name
    &&& node_of(out[2 * p])->Some_0.op_version == 0
    &&& node_of(out[2 * p])->Some_0.edges.len() == 0
    &&& node_of(out[2 * p])->Some_0.arguments.len() == 0
    &&& node_of(out[2 * p])->Some_0.history.len() == 0
    &&& match it.content {
        Some(c) => {
            &&& node_of(out[2 * p])->Some_0.kind == NodeKindM::Container(
                BFContainerM::MimeType("text/plain"@),
            )
            &&& node_of(out[2 * p])->Some_0.data == DataHashM::Bytes(encode_utf8(c))
        },
        None => {
            &&& node_of(out[2 * p])->Some_0.kind == NodeKindM::Label
            &&& node_of(out[2 * p])->Some_0.data == DataHashM::Bytes(Seq::empty())
        },
    }
    &&& it.back > 0 ==> 0 <= p - it.back && node_of(out[2 * (p - it.back)]) is Some
    &&& contains_of(out[2 * p + 1]) == Some(
        (
            if it.back <= 0 {
                parent
            } else {
                node_of(out[2 * (p - it.back)])->Some_0.id
            },
            node_of(out[2 * p])->Some_0.id,
        ),
    )
}

/// The pairs of `out` from pair `start` on are those of `items`, in order.
pub open spec fn crawled(out: Seq<TransactionM>, start: int, items: Seq<CrawlItem>, parent: NodeID) -> bool {
    forall|k: int| 0 <= k < items.len() ==> #[trigger] pair_matches(out, start + k, items[k], parent)
}

proof fn lemma_crawled_extend(
    a: Seq<TransactionM>,
    b: Seq<TransactionM>,
    start: int,
    items: Seq<CrawlItem>,
    parent: NodeID,
)
    requires
        crawled(a, start, items, parent),
        a.len() <= b.len(),
        b.subrange(0, a.len() as int) == a,
    ensures
        crawled(b, start, items, parent),
{
    assert forall|k: int| 0 <= k < items.len() implies #[trigger] pair_matches(b, start + k, items[k], parent) by {
        assert(pair_matches(a, start + k, items[k], parent));
        let p = start + k;
        assert(b[2 * p] == a[2 * p]);
        assert(b[2 * p + 1] == a[2 * p + 1]);
        if items[k].back > 0 {
            assert(b[2 * (p - items[k].back)] == a[2 * (p - items[k].back)]);
        }
    }
}

proof fn lemma_crawled_concat(
    out: Seq<TransactionM>,
    start: int,
    a: Seq<CrawlItem>,
    b: Seq<CrawlItem>,
    parent: NodeID,
)
    requires
        crawled(out, start, a, parent),
        crawled(out, start + a.len(), b, parent),
    ensures
        crawled(out, start, a + b, parent),
{
    assert forall|k: int| 0 <= k < (a + b).len() implies #[trigger] pair_matches(out, start + k, (a + b)[k], parent) by {
        if k < a.len() {
            assert(pair_matches(out, start + k, a[k], parent));
        } else {
            assert(pair_matches(out, start + a.len() + (k - a.len()), b[k - a.len()], parent));
        }
    }
}

proof fn lemma_crawled_embed(
    out: Seq<TransactionM>,
    dir_pair: int,
    sub: Seq<CrawlItem>,
    dir_id: NodeID,
    parent: NodeID,
)
    requires
        crawled(out, dir_pair + 1, sub, dir_id),
        0 <= dir_pair,
        node_of(out[2 * dir_pair]) is Some,
        node_of(out[2 * dir_pair])->Some_0.id == dir_id,
    ensures
        crawled(out, dir_pair + 1, embed(sub), parent),
{
    assert forall|k: int| 0 <= k < embed(sub).len() implies #[trigger] pair_matches(out, dir_pair + 1 + k, embed(sub)[k], parent) by {
        assert(pair_matches(out, dir_pair + 1 + k, sub[k], dir_id));
    }
}

/// Appends a node and the edge from `parent` to it.
fn push_pair(out: &mut Vec<Transaction>, node: Node, parent: NodeID)
    ensures
        final(out).len() == old(out).len() + 2,
        transactions_view(*final(out)).subrange(0, old(out).len() as int) == transactions_view(*old(out)),
        node_of(transactions_view(*final(out))[old(out).len() as int]) == Some(node@),
        contains_of(transactions_view(*final(out))[old(out).len() + 1]) == Some((parent, node@.id)),
{
    let ghost before = transactions_view(*out);
    let ghost nv = node@;
    let id = node.id;
    let edge = Edge::contains(parent, id);
    out.push(Transaction::create_node(node));
    out.push(Transaction::create_edge(edge));
    let ghost after = transactions_view(*out);
    assert(after.subrange(0, before.len() as int) =~= before);
}

/// Copies the bytes of a text.
fn text_bytes(s: &String) -> (r: Vec<u8>)
    ensures
        r@ == encode_utf8(s@),
{
    let b = s.as_str().as_bytes();
    let mut r: Vec<u8> = Vec::new();
    let mut i: usize = 0;
    while i < b.len()
        invariant
            i <= b@.len(),
            r@ == b@.subrange(0, i as int),
        decreases b.len() - i,
    {
        r.push(b[i]);
        i = i + 1;
    }
    assert(r@ =~= b@);
    r
}

/// A source of nodes and edges read from a directory tree.
#[derive(Debug)]
pub struct SourceDisk {
    id: SourceID,
    disk: EmulatedDir,
    read: bool,
}

impl SourceDisk {
    /// Whether the tree has been read already.
    pub closed spec fn was_read(&self) -> bool {
        self.read
    }

    /// The identifier of this source.
    pub closed spec fn spec_id(&self) -> SourceID {
        self.id
    }

    /// The tree that this source reads.
    pub closed spec fn disk_view(&self) -> DirM {
        self.disk@
    }

    /// A source over the tree, of a fresh identifier, not read yet.
    pub fn new(disk: EmulatedDir) -> (r: SourceDisk)
        ensures
            !r.was_read(),
            r.disk_view() == disk@,
    {
        SourceDisk { id: SourceID::rnd(), disk, read: false }
    }

    /// What this source declares: it is read once, by itself, and takes
    /// no transactions back.
    pub fn capabilities(&self) -> (r: SourceCapabilities)
        ensures
            r.id == self.spec_id(),
            r.auto_fetch,
            !r.accepts_txs,
            !r.can_search,
    {
        SourceCapabilities { id: self.id, auto_fetch: true, accepts_txs: false, can_search: false }
    }

    /// The identifier of this source.
    pub fn get_id(&self) -> (r: SourceID)
        ensures
            r == self.spec_id(),
    {
        self.id
    }

    /// All transactions not returned before. The first call crawls the tree:
    /// a root node labelled "root", then for each entry of the crawl a node
    /// and the `Contains` edge that links it into the tree. Later calls
    /// return nothing.
    pub fn get_updates(&mut self) -> (r: Vec<Transaction>)
        ensures
            final(self).was_read(),
            final(self).spec_id() == old(self).spec_id(),
            final(self).disk_view() == old(self).disk_view(),
            old(self).was_read() ==> r.len() == 0,
            !old(self).was_read() ==> {
                &&& r.len() == 1 + 2 * crawl(old(self).disk_view()).len()
                &&& node_of(r[0]@) is Some
                &&& node_of(r[0]@)->Some_0.label == "root"@
                &&& node_of(r[0]@)->Some_0.kind == NodeKindM::Label
                &&& crawled(
                    transactions_view(r).drop_first(),
                    0,
                    crawl(old(self).disk_view()),
                    node_of(r[0]@)->Some_0.id,
                )
            },
    {
        if self.read {
            return Vec::new();
        }
        self.read = true;
        let root = Node::label("root");
        let root_id = root.id;
        let mut out: Vec<Transaction> = Vec::new();
        Self::read_dir(&self.disk, root_id, &mut out);
        let mut r: Vec<Transaction> = vec![Transaction::create_node(root)];
        let ghost first = r[0]@;
        let ghost rest = transactions_view(out);
        r.append(&mut out);
        assert(transactions_view(r).drop_first() =~= rest);
        assert(r[0]@ == first);
        r
    }

    /// Appends, for each entry of the crawl of `dir`, a node and the edge
    /// that links it: from `parent` for the entries of `dir` itself, from
    /// its directory's node for the others.
    fn read_dir(dir: &EmulatedDir, parent: NodeID, out: &mut Vec<Transaction>)
        requires
            old(out).len() % 2 == 0,
        ensures
            final(out).len() == old(out).len() + 2 * crawl(dir@).len(),
            transactions_view(*final(out)).subrange(0, old(out).len() as int) == transactions_view(*old(out)),
            crawled(transactions_view(*final(out)), old(out).len() as int / 2, crawl(dir@), parent),
        decreases dir,
    {
        proof {
            lemma_dir_view(*dir);
        }
        let ghost dv = dir@;
        let ghost start = transactions_view(*out);
        let ghost n0 = out.len() as int;
        let ghost s0 = n0 / 2;
        let mut i: usize = 0;
        while i < dir.dirs.len()
            invariant
                dv == dir@,
                dv.dirs == crate::storage::dir_trait::dir_view_of(dir.dirs),
                n0 == start.len(),
                n0 % 2 == 0,
                s0 == n0 / 2,
                i <= dir.dirs.len(),
                out.len() == n0 + 2 * crawl_dirs(dv.dirs, i as nat).len(),
                transactions_view(*out).subrange(0, n0) == start,
                crawled(transactions_view(*out), s0, crawl_dirs(dv.dirs, i as nat), parent),
            decreases dir.dirs.len() - i,
        {
            let ghost before = transactions_view(*out);
            let ghost m = out.len() as int;
            let ghost prev = crawl_dirs(dv.dirs, i as nat);
            let dir_node = Node::label(dir.dirs[i].0.as_str());
            let id = dir_node.id;
            push_pair(out, dir_node, parent);
            let ghost mid = transactions_view(*out);
            let ghost item = CrawlItem { name: dv.dirs[i as int].0, content: None, back: 0 };
            proof {
                lemma_crawled_extend(before, mid, s0, prev, parent);
                assert(m == 2 * (s0 + prev.len()));
                assert(pair_matches(mid, s0 + prev.len(), item, parent));
                assert(crawled(mid, s0 + prev.len(), seq![item], parent)) by {
                    assert(seq![item][0] == item);
                }
                lemma_crawled_concat(mid, s0, prev, seq![item], parent);
                assert(prev + seq![item] =~= prev.push(item));
                vstd::std_specs::vec::axiom_vec_index_decreases(dir.dirs, i as int);
            }
            Self::read_dir(&dir.dirs[i].1, id, out);
            proof {
                let fin = transactions_view(*out);
                let sub = crawl(dir.dirs[i as int].1@);
                let dp = s0 + prev.len();
                assert(fin.subrange(0, mid.len() as int) == mid);
                assert(fin[2 * dp] == mid[2 * dp]);
                lemma_crawled_extend(mid, fin, s0, prev.push(item), parent);
                assert(mid.len() / 2 == dp + 1);
                lemma_crawled_embed(fin, dp, sub, id, parent);
                lemma_crawled_concat(fin, s0, prev.push(item), embed(sub), parent);
                assert(dv.dirs[i as int].1 == dir.dirs[i as int].1@);
                assert(crawl_dirs(dv.dirs, (i + 1) as nat) == prev.push(item) + embed(sub));
                assert(fin.subrange(0, n0) =~= mid.subrange(0, n0));
                assert(mid.subrange(0, n0) =~= before.subrange(0, n0));
            }
            i = i + 1;
        }
        let ghost dirs_items = crawl_dirs(dv.dirs, dv.dirs.len());
        let ghost mark = out.len() as int;
        let mut k: usize = 0;
        proof {
            assert(crawled(transactions_view(*out), s0 + dirs_items.len(), file_items(dv.files).take(0), parent));
        }
        while k < dir.files.len()
            invariant
                dv == dir@,
                dv.files == crate::storage::dir_trait::file_view_of(dir.files),
                n0 == start.len(),
                n0 % 2 == 0,
                s0 == n0 / 2,
                mark == n0 + 2 * dirs_items.len(),
                k <= dir.files.len(),
                out.len() == mark + 2 * k,
                transactions_view(*out).subrange(0, n0) == start,
                crawled(transactions_view(*out), s0, dirs_items, parent),
                crawled(transactions_view(*out), s0 + dirs_items.len(), file_items(dv.files).take(k as int), parent),
            decreases dir.files.len() - k,
        {
            let ghost before = transactions_view(*out);
            let ghost item = file_items(dv.files)[k as int];
            let mut file_node = Node::container(BFContainer::MimeType("text/plain".to_owned()));
            file_node.label = dir.files[k].0.clone();
            file_node.data = DataHash::Bytes(text_bytes(&dir.files[k].1));
            let ghost fv = file_node@;
            assert(fv.label == item.name);
            assert(fv.data == DataHashM::Bytes(encode_utf8(item.content->Some_0)));
            push_pair(out, file_node, parent);
            let ghost fin = transactions_view(*out);
            proof {
                assert(out.len() as int == 2 * (s0 + dirs_items.len() + k) + 2);
                lemma_crawled_extend(before, fin, s0, dirs_items, parent);
                lemma_crawled_extend(before, fin, s0 + dirs_items.len(), file_items(dv.files).take(k as int), parent);
                assert(pair_matches(fin, s0 + dirs_items.len() + k, item, parent));
                assert(crawled(fin, s0 + dirs_items.len() + k, seq![item], parent)) by {
                    assert(seq![item][0] == item);
                }
                lemma_crawled_concat(fin, s0 + dirs_items.len(), file_items(dv.files).take(k as int), seq![item], parent);
                assert(file_items(dv.files).take(k as int) + seq![item] =~= file_items(dv.files).take(k + 1));
                assert(fin.subrange(0, n0) =~= before.subrange(0, n0));
            }
            k = k + 1;
        }
        proof {
            assert(file_items(dv.files).take(dir.files.len() as int) =~= file_items(dv.files));
            lemma_crawled_concat(transactions_view(*out), s0, dirs_items, file_items(dv.files), parent);
        }
    }
}

} // verus!

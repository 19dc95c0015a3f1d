use crate::errors::StructuralError;
use crate::responses::Request;
use vstd::prelude::*;
use vstd::string::*;

verus! {

/// The closed set of envelope kinds.
#[derive(Clone, Copy, Debug, PartialEq, Eq, Structural)]
pub enum Kind {
    Comment,
    Account,
    Submission,
    Message,
    Subreddit,
    More,
    Listing,
}

/// The generic wrapper around every payload: a kind, and the data that the
/// kind says how to read.
pub struct Envelope<T> {
    pub kind: String,
    pub data: T,
}

/// A comment as the payload carries it. `parent` is the fullname of the comment
/// it answers, or the name of the root when it is a top-level comment.
pub struct CommentData {
    pub name: String,
    pub parent: String,
    pub body: String,
    pub author: String,
    pub score: i64,
}

/// A continuation stub: the fullnames of the children that were left out under
/// `parent`, and the count that the payload declares.
pub struct MoreData {
    pub parent: String,
    pub children: Vec<String>,
    pub count: u64,
}

/// A decoded envelope of a comment listing.
pub enum Thing {
    Comment(CommentData),
    More(MoreData),
}

/// One node of a tree: what it holds and how deep it hangs. The depth is
/// derived while the tree is built; the payload does not carry it.
pub struct CommentNode {
    pub thing: Thing,
    pub depth: usize,
}

/// A comment tree, kept in document order: every node stands before its
/// children, siblings stand in the order in which they were attached, and a
/// node's subtree is the run of deeper nodes that follows it.
pub struct CommentTree {
    pub root: String,
    pub nodes: Vec<CommentNode>,
}

impl Thing {
    /// The name that this item gives for its parent.
    pub open spec fn parent_name(self) -> Seq<char> {
        match self {
            Thing::Comment(c) => c.parent@,
            Thing::More(m) => m.parent@,
        }
    }

    /// True for the comment that bears `name`. A stub bears no name.
    pub open spec fn is_named(self, name: Seq<char>) -> bool {
        self matches Thing::Comment(c) && c.name@ == name
    }

    /// True for a comment, false for a continuation stub.
    pub fn is_comment(&self) -> (r: bool)
        ensures
            r == (*self is Comment),
    {
        match self {
            Thing::Comment(_) => true,
            Thing::More(_) => false,
        }
    }
}

/// The node that holds `thing` at `depth`.
pub open spec fn node_of(thing: Thing, depth: int) -> CommentNode {
    CommentNode { thing, depth: depth as usize }
}

/// The first position at or after `from` of the comment that bears `name`.
pub open spec fn first_named(nodes: Seq<CommentNode>, name: Seq<char>, from: int) -> Option<int>
    decreases nodes.len() - from,
{
    if from < 0 || from >= nodes.len() {
        None
    } else if nodes[from].thing.is_named(name) {
        Some(from)
    } else {
        first_named(nodes, name, from + 1)
    }
}

/// Where the run of nodes deeper than `depth` that starts at `from` ends.
pub open spec fn span_end(nodes: Seq<CommentNode>, depth: int, from: int) -> int
    decreases nodes.len() - from,
{
    if from < 0 || from >= nodes.len() {
        nodes.len() as int
    } else if nodes[from].depth <= depth {
        from
    } else {
        span_end(nodes, depth, from + 1)
    }
}

/// Where `thing` goes in a tree under `root`, and at which depth: after the last
/// top-level node when its parent is the root; else behind the subtree of the
/// first comment that bears its parent's name, as that comment's last child.
/// `None` when no such comment is in the tree.
pub open spec fn slot(root: Seq<char>, nodes: Seq<CommentNode>, thing: Thing) -> Option<(int, int)> {
    if thing.parent_name() == root {
        Some((nodes.len() as int, 0int))
    } else {
        match first_named(nodes, thing.parent_name(), 0) {
            None => None,
            Some(p) => Some((span_end(nodes, nodes[p].depth as int, p + 1), nodes[p].depth + 1)),
        }
    }
}

/// One walk over the payload in its order. An item whose parent is in the tree
/// is attached at once; the others are set aside, in order.
pub open spec fn first_pass(
    root: Seq<char>,
    nodes: Seq<CommentNode>,
    pending: Seq<Thing>,
    items: Seq<Thing>,
) -> (Seq<CommentNode>, Seq<Thing>)
    decreases items.len(),
{
    if items.len() == 0 {
        (nodes, pending)
    } else {
        match slot(root, nodes, items[0]) {
            Some((pos, depth)) => first_pass(
                root,
                nodes.insert(pos, node_of(items[0], depth)),
                pending,
                items.skip(1),
            ),
            None => first_pass(root, nodes, pending.push(items[0]), items.skip(1)),
        }
    }
}

/// The second attempt on what was set aside, in order. `None` when an item
/// still has no parent at its turn.
pub open spec fn second_pass(root: Seq<char>, nodes: Seq<CommentNode>, pending: Seq<Thing>) -> Option<
    Seq<CommentNode>,
>
    decreases pending.len(),
{
    if pending.len() == 0 {
        Some(nodes)
    } else {
        match slot(root, nodes, pending[0]) {
            Some((pos, depth)) => second_pass(
                root,
                nodes.insert(pos, node_of(pending[0], depth)),
                pending.skip(1),
            ),
            None => None,
        }
    }
}

/// The nodes of the tree that `items` describe under `root`, in document order.
pub open spec fn built(root: Seq<char>, items: Seq<Thing>) -> Option<Seq<CommentNode>> {
    let first = first_pass(root, Seq::empty(), Seq::empty(), items);
    second_pass(root, first.0, first.1)
}

/// Node `i` hangs under node `j`: `j` stands before it, bears the name that `i`
/// gives for its parent, and is one level higher.
pub open spec fn hangs_under(nodes: Seq<CommentNode>, j: int, i: int) -> bool {
    &&& 0 <= j < i < nodes.len()
    &&& nodes[j].thing.is_named(nodes[i].thing.parent_name())
    &&& nodes[i].depth == nodes[j].depth + 1
}

/// Node `i` is a top-level node under the root, or hangs under an earlier comment.
pub open spec fn anchored(root: Seq<char>, nodes: Seq<CommentNode>, i: int) -> bool {
    (nodes[i].thing.parent_name() == root && nodes[i].depth == 0) || exists|j: int|
        hangs_under(nodes, j, i)
}

/// Every node's parent reference resolves: to the root, or to a comment that
/// stands before it in the tree.
pub open spec fn well_formed(root: Seq<char>, nodes: Seq<CommentNode>) -> bool {
    forall|i: int| 0 <= i < nodes.len() ==> #[trigger] anchored(root, nodes, i)
}

proof fn lemma_first_named(nodes: Seq<CommentNode>, name: Seq<char>, from: int)
    requires
        0 <= from,
    ensures
        match first_named(nodes, name, from) {
            Some(p) => from <= p < nodes.len() && nodes[p].thing.is_named(name),
            None => forall|k: int| from <= k < nodes.len() ==> !nodes[k].thing.is_named(name),
        },
    decreases nodes.len() - from,
{
    if from < nodes.len() && !nodes[from].thing.is_named(name) {
        lemma_first_named(nodes, name, from + 1);
    }
}

proof fn lemma_span_end(nodes: Seq<CommentNode>, depth: int, from: int)
    requires
        0 <= from <= nodes.len(),
    ensures
        from <= span_end(nodes, depth, from) <= nodes.len(),
    decreases nodes.len() - from,
{
    if from < nodes.len() && nodes[from].depth > depth {
        lemma_span_end(nodes, depth, from + 1);
    }
}

/// In a well-formed tree no node is deeper than the number of nodes before it.
proof fn lemma_depth_bound(root: Seq<char>, nodes: Seq<CommentNode>, i: int)
    requires
        well_formed(root, nodes),
        0 <= i < nodes.len(),
    ensures
        nodes[i].depth <= i,
    decreases i,
{
    assert(anchored(root, nodes, i));
    if !(nodes[i].thing.parent_name() == root && nodes[i].depth == 0) {
        let j = choose|j: int| hangs_under(nodes, j, i);
        lemma_depth_bound(root, nodes, j);
    }
}

/// A node put where `slot` says keeps the tree well formed.
proof fn lemma_insert_keeps_form(root: Seq<char>, nodes: Seq<CommentNode>, thing: Thing)
    requires
        well_formed(root, nodes),
        nodes.len() <= usize::MAX,
        slot(root, nodes, thing) is Some,
    ensures
        ({
            let (pos, depth) = slot(root, nodes, thing).unwrap();
            &&& 0 <= pos <= nodes.len()
            &&& 0 <= depth <= pos
            &&& well_formed(root, nodes.insert(pos, node_of(thing, depth)))
        }),
{
    let (pos, depth) = slot(root, nodes, thing).unwrap();
    let parent = first_named(nodes, thing.parent_name(), 0);
    if thing.parent_name() != root {
        lemma_first_named(nodes, thing.parent_name(), 0);
        let p = parent.unwrap();
        lemma_span_end(nodes, nodes[p].depth as int, p + 1);
        lemma_depth_bound(root, nodes, p);
    }
    assert(0 <= pos <= nodes.len());
    let after = nodes.insert(pos, node_of(thing, depth));
    assert forall|i: int| 0 <= i < after.len() implies #[trigger] anchored(root, after, i) by {
        if i < pos {
            assert(anchored(root, nodes, i));
            assert(after[i] == nodes[i]);
            if !(nodes[i].thing.parent_name() == root && nodes[i].depth == 0) {
                let j = choose|j: int| hangs_under(nodes, j, i);
                assert(after[j] == nodes[j]);
                assert(hangs_under(after, j, i));
            }
        } else if i == pos {
            if thing.parent_name() != root {
                let p = parent.unwrap();
                assert(after[p] == nodes[p]);
                assert(hangs_under(after, p, i));
            }
        } else {
            let k = i - 1;
            assert(anchored(root, nodes, k));
            assert(after[i] == nodes[k]);
            if !(nodes[k].thing.parent_name() == root && nodes[k].depth == 0) {
                let j = choose|j: int| hangs_under(nodes, j, k);
                if j < pos {
                    assert(after[j] == nodes[j]);
                    assert(hangs_under(after, j, i));
                } else {
                    assert(after[j + 1] == nodes[j]);
                    assert(hangs_under(after, j + 1, i));
                }
            }
        }
    }
}

/// The position of the first comment that bears `name`.
fn find_named(nodes: &Vec<CommentNode>, name: &String) -> (r: Option<usize>)
    ensures
        match first_named(nodes@, name@, 0) {
            Some(p) => r == Some(p as usize) && 0 <= p < nodes@.len(),
            None => r is None,
        },
{
    let mut i: usize = 0;
    while i < nodes.len()
        invariant
            i <= nodes.len(),
            first_named(nodes@, name@, 0) == first_named(nodes@, name@, i as int),
        decreases nodes.len() - i,
    {
        match &nodes[i].thing {
            Thing::Comment(c) => {
                if c.name == *name {
                    return Some(i);
                }
            },
            Thing::More(_) => {},
        }
        i += 1;
    }
    None
}

/// The position behind the subtree of the node at `p`.
fn subtree_end(nodes: &Vec<CommentNode>, p: usize) -> (r: usize)
    requires
        p < nodes.len(),
    ensures
        r == span_end(nodes@, nodes@[p as int].depth as int, p + 1),
        p < r <= nodes.len(),
{
    let depth: usize = nodes[p].depth;
    let mut k: usize = p + 1;
    while k < nodes.len() && nodes[k].depth > depth
        invariant
            p < k <= nodes.len(),
            depth == nodes@[p as int].depth,
            span_end(nodes@, depth as int, p + 1) == span_end(nodes@, depth as int, k as int),
        decreases nodes.len() - k,
    {
        k += 1;
    }
    k
}

/// Puts `thing` into the tree where `slot` says. Where its parent is not in the
/// tree, nothing changes and the item is handed back.
fn attach(root: &String, nodes: &mut Vec<CommentNode>, thing: Thing) -> (left: Option<Thing>)
    requires
        well_formed(root@, old(nodes)@),
    ensures
        well_formed(root@, final(nodes)@),
        match slot(root@, old(nodes)@, thing) {
            Some((pos, depth)) => left is None && final(nodes)@ == old(nodes)@.insert(
                pos,
                node_of(thing, depth),
            ),
            None => left == Some(thing) && final(nodes)@ == old(nodes)@,
        },
{
    let at_root = match &thing {
        Thing::Comment(c) => c.parent == *root,
        Thing::More(m) => m.parent == *root,
    };
    let found = if at_root {
        None
    } else {
        match &thing {
            Thing::Comment(c) => find_named(nodes, &c.parent),
            Thing::More(m) => find_named(nodes, &m.parent),
        }
    };
    // Reading the length bounds it, and with it every depth, by the largest usize.
    let _fits: usize = nodes.len();
    proof {
        if slot(root@, nodes@, thing) is Some {
            lemma_insert_keeps_form(root@, nodes@, thing);
        }
    }
    if at_root {
        nodes.push(CommentNode { thing, depth: 0 });
        proof {
            assert(final(nodes)@ =~= old(nodes)@.insert(old(nodes)@.len() as int, node_of(thing, 0)));
        }
        None
    } else {
        match found {
            None => Some(thing),
            Some(p) => {
                let pos = subtree_end(nodes, p);
                let depth: usize = nodes[p].depth + 1;
                nodes.insert(pos, CommentNode { thing, depth });
                None
            },
        }
    }
}

impl CommentTree {
    /// The tree is well formed: every parent reference resolves to the root or
    /// to a comment that stands earlier.
    pub open spec fn wf(&self) -> bool {
        well_formed(self.root@, self.nodes@)
    }

    /// Arranges a flat payload under `root`. Items are attached in payload
    /// order; one whose parent has not come yet is set aside and tried once
    /// more, in order, when the walk is over. An item that has no parent even
    /// then makes the payload unusable.
    pub fn build_under(root: String, items: Vec<Thing>) -> (r: Result<CommentTree, StructuralError>)
        ensures
            match built(root@, items@) {
                Some(nodes) => r matches Ok(tree) && tree.nodes@ == nodes && tree.root == root
                    && tree.wf(),
                None => r == Err::<CommentTree, StructuralError>(StructuralError::UnresolvedParent),
            },
    {
        let ghost all = items@;
        let mut rest = items;
        let mut nodes: Vec<CommentNode> = Vec::new();
        let mut pending: Vec<Thing> = Vec::new();
        while rest.len() > 0
            invariant
                all == items@,
                well_formed(root@, nodes@),
                first_pass(root@, nodes@, pending@, rest@) == first_pass(
                    root@,
                    Seq::empty(),
                    Seq::empty(),
                    all,
                ),
            decreases rest.len(),
        {
            let ghost before = rest@;
            let thing = rest.remove(0);
            proof {
                assert(rest@ =~= before.skip(1));
            }
            match attach(&root, &mut nodes, thing) {
                None => {},
                Some(back) => {
                    pending.push(back);
                },
            }
        }
        while pending.len() > 0
            invariant
                all == items@,
                well_formed(root@, nodes@),
                second_pass(root@, nodes@, pending@) == built(root@, all),
            decreases pending.len(),
        {
            let ghost before = pending@;
            let thing = pending.remove(0);
            proof {
                assert(pending@ =~= before.skip(1));
            }
            match attach(&root, &mut nodes, thing) {
                None => {},
                Some(_) => {
                    proof {
                        assert(before[0] == thing);
                        assert(second_pass(root@, nodes@, before) is None);
                    }
                    return Err(StructuralError::UnresolvedParent);
                },
            }
        }
        Ok(CommentTree { root, nodes })
    }
}

/// The wire name of each kind.
pub open spec fn kind_tag(kind: Kind) -> Seq<char> {
    match kind {
        Kind::Comment => "t1"@,
        Kind::Account => "t2"@,
        Kind::Submission => "t3"@,
        Kind::Message => "t4"@,
        Kind::Subreddit => "t5"@,
        Kind::More => "more"@,
        Kind::Listing => "Listing"@,
    }
}

/// The name that top-level items give for their parent when no other root is set.
pub open spec fn root_name() -> Seq<char> {
    "root"@
}

fn same_text(a: &str, b: &str) -> (r: bool)
    ensures
        r == (a@ == b@),
{
    a.to_owned() == b.to_owned()
}

/// Reads an envelope's kind. A kind outside the closed set is an error, never
/// a default.
pub fn decode_kind(kind: &str) -> (r: Result<Kind, StructuralError>)
    ensures
        match r {
            Ok(k) => kind@ == kind_tag(k),
            Err(e) => e == StructuralError::UnknownKind && forall|k: Kind| kind@ != kind_tag(k),
        },
{
    if same_text(kind, "t1") {
        Ok(Kind::Comment)
    } else if same_text(kind, "t2") {
        Ok(Kind::Account)
    } else if same_text(kind, "t3") {
        Ok(Kind::Submission)
    } else if same_text(kind, "t4") {
        Ok(Kind::Message)
    } else if same_text(kind, "t5") {
        Ok(Kind::Subreddit)
    } else if same_text(kind, "more") {
        Ok(Kind::More)
    } else if same_text(kind, "Listing") {
        Ok(Kind::Listing)
    } else {
        Err(StructuralError::UnknownKind)
    }
}

impl<T> Envelope<T> {
    /// The kind of this envelope; an error where it is none of the known kinds.
    pub fn kind(&self) -> (r: Result<Kind, StructuralError>)
        ensures
            match r {
                Ok(k) => self.kind@ == kind_tag(k),
                Err(e) => e == StructuralError::UnknownKind && forall|k: Kind| self.kind@ != kind_tag(k),
            },
    {
        decode_kind(self.kind.as_str())
    }

    /// The kind of this envelope as an item of a comment listing, where only
    /// comments and continuation stubs may stand; an error for anything else.
    pub fn comment_kind(&self) -> (r: Result<Kind, StructuralError>)
        ensures
            match r {
                Ok(k) => (k == Kind::Comment || k == Kind::More) && self.kind@ == kind_tag(k),
                Err(e) => e == StructuralError::UnknownKind && self.kind@ != kind_tag(Kind::Comment)
                    && self.kind@ != kind_tag(Kind::More),
            },
    {
        if same_text(self.kind.as_str(), "t1") {
            Ok(Kind::Comment)
        } else if same_text(self.kind.as_str(), "more") {
            Ok(Kind::More)
        } else {
            Err(StructuralError::UnknownKind)
        }
    }
}

/// The positions of the children of a node of depth `depth`, read from `from`
/// to the end of that node's subtree. With depth -1 and from 0: the top level.
pub open spec fn child_positions(nodes: Seq<CommentNode>, depth: int, from: int) -> Seq<usize>
    decreases nodes.len() - from,
{
    if from < 0 || from >= nodes.len() || nodes[from].depth <= depth {
        Seq::empty()
    } else if nodes[from].depth == depth + 1 {
        seq![from as usize] + child_positions(nodes, depth, from + 1)
    } else {
        child_positions(nodes, depth, from + 1)
    }
}

/// The payload is in document order: each item, at its turn, belongs at the
/// very end of the tree made of the items before it. Its parent is the root, or
/// a comment behind whose subtree nothing has come yet.
pub open spec fn in_document_order(root: Seq<char>, nodes: Seq<CommentNode>, items: Seq<Thing>) -> bool
    decreases items.len(),
{
    items.len() == 0 || match slot(root, nodes, items[0]) {
        Some((pos, depth)) => pos == nodes.len() && in_document_order(
            root,
            nodes.push(node_of(items[0], depth)),
            items.skip(1),
        ),
        None => false,
    }
}

proof fn lemma_in_order_appends(
    root: Seq<char>,
    nodes: Seq<CommentNode>,
    pending: Seq<Thing>,
    items: Seq<Thing>,
)
    requires
        in_document_order(root, nodes, items),
    ensures
        first_pass(root, nodes, pending, items).1 == pending,
        first_pass(root, nodes, pending, items).0.len() == nodes.len() + items.len(),
        forall|i: int|
            0 <= i < nodes.len() ==> first_pass(root, nodes, pending, items).0[i] == nodes[i],
        forall|i: int|
            0 <= i < items.len() ==> (#[trigger] first_pass(root, nodes, pending, items).0[nodes.len()
                + i]).thing == items[i],
    decreases items.len(),
{
    if items.len() > 0 {
        let (pos, depth) = slot(root, nodes, items[0]).unwrap();
        let next = nodes.push(node_of(items[0], depth));
        assert(nodes.insert(pos, node_of(items[0], depth)) =~= next);
        lemma_in_order_appends(root, next, pending, items.skip(1));
        let out = first_pass(root, nodes, pending, items).0;
        assert(out == first_pass(root, next, pending, items.skip(1)).0);
        assert forall|i: int| 0 <= i < nodes.len() implies out[i] == nodes[i] by {
            assert(next[i] == nodes[i]);
        }
        assert forall|i: int| 0 <= i < items.len() implies (#[trigger] out[nodes.len() + i]).thing
            == items[i] by {
            if i == 0 {
                assert(out[nodes.len() as int] == next[nodes.len() as int]);
            } else {
                assert(items.skip(1)[i - 1] == items[i]);
                assert(out[next.len() + (i - 1)].thing == items.skip(1)[i - 1]);
            }
        }
    }
}

/// A payload in document order is kept as it is: the tree holds exactly the
/// items, comments and stubs alike, each at the place it had in the payload.
/// Reading the tree front to back, which visits every node before its children
/// and siblings in their order, gives the payload back.
pub proof fn lemma_build_preserves_order(root: Seq<char>, items: Seq<Thing>)
    requires
        in_document_order(root, Seq::empty(), items),
    ensures
        built(root, items) is Some,
        built(root, items).unwrap().len() == items.len(),
        forall|i: int| 0 <= i < items.len() ==> (#[trigger] built(root, items).unwrap()[i]).thing == items[i],
{
    lemma_in_order_appends(root, Seq::empty(), Seq::empty(), items);
    let first = first_pass(root, Seq::empty(), Seq::empty(), items);
    assert(first.1.len() == 0);
    assert forall|i: int| 0 <= i < items.len() implies (#[trigger] first.0[i]).thing == items[i] by {
        assert(first.0[0 + i].thing == items[i]);
    }
}

/// No two comments among `items` bear the same fullname.
pub open spec fn distinct_comment_names(items: Seq<Thing>) -> bool {
    forall|a: int, b: int|
        0 <= a < b < items.len() && (#[trigger] items[a]) is Comment && (#[trigger] items[b]) is Comment
            ==> items[a]->Comment_0.name@ != items[b]->Comment_0.name@
}

/// The open comments once `thing` has come below `path`: a comment opens
/// itself, a stub opens nothing.
pub open spec fn grown(path: Seq<Seq<char>>, thing: Thing) -> Seq<Seq<char>> {
    match thing {
        Thing::Comment(c) => path.push(c.name@),
        Thing::More(_) => path,
    }
}

/// The payload reads like an outline. `path` names the comments that are
/// open, outermost first; each item answers the root, which closes them all,
/// or one of the open comments, which closes those below it.
pub open spec fn nests(root: Seq<char>, path: Seq<Seq<char>>, items: Seq<Thing>) -> bool
    decreases items.len(),
{
    items.len() == 0 || if items[0].parent_name() == root {
        nests(root, grown(Seq::empty(), items[0]), items.skip(1))
    } else {
        exists|k: int|
            0 <= k < path.len() && #[trigger] path[k] == items[0].parent_name() && nests(
                root,
                grown(path.take(k + 1), items[0]),
                items.skip(1),
            )
    }
}

/// Every node of `nodes` behind position `from` is deeper than `depth`.
pub open spec fn deeper_behind(nodes: Seq<CommentNode>, from: int, depth: int) -> bool {
    forall|m: int| from < m < nodes.len() ==> (#[trigger] nodes[m]).depth > depth
}

/// `at` tells where the open comments of `path` stand in `nodes`: the comment
/// of level `t` bears the name `path[t]`, has depth `t`, and only deeper nodes
/// come after it.
pub open spec fn open_at(nodes: Seq<CommentNode>, path: Seq<Seq<char>>, at: Seq<int>) -> bool {
    &&& at.len() == path.len()
    &&& forall|t: int|
        0 <= t < path.len() ==> t <= #[trigger] at[t] < nodes.len() && nodes[at[t]].thing.is_named(
            path[t],
        ) && nodes[at[t]].depth == t && deeper_behind(nodes, at[t], t)
}

proof fn lemma_span_open(nodes: Seq<CommentNode>, depth: int, from: int)
    requires
        0 <= from <= nodes.len(),
        forall|m: int| from <= m < nodes.len() ==> (#[trigger] nodes[m]).depth > depth,
    ensures
        span_end(nodes, depth, from) == nodes.len(),
    decreases nodes.len() - from,
{
    if from < nodes.len() {
        lemma_span_open(nodes, depth, from + 1);
    }
}

proof fn lemma_outline_appends(
    root: Seq<char>,
    all: Seq<Thing>,
    nodes: Seq<CommentNode>,
    path: Seq<Seq<char>>,
    at: Seq<int>,
)
    requires
        distinct_comment_names(all),
        all.len() <= usize::MAX,
        nodes.len() <= all.len(),
        forall|i: int| 0 <= i < nodes.len() ==> (#[trigger] nodes[i]).thing == all[i],
        open_at(nodes, path, at),
        nests(root, path, all.skip(nodes.len() as int)),
    ensures
        in_document_order(root, nodes, all.skip(nodes.len() as int)),
    decreases all.len() - nodes.len(),
{
    let n = nodes.len() as int;
    let items = all.skip(n);
    if items.len() > 0 {
        let thing = items[0];
        assert(thing == all[n]);
        let q = thing.parent_name();
        assert(items.skip(1) =~= all.skip(n + 1));
        if q == root {
            let next = nodes.push(node_of(thing, 0));
            let path2 = grown(Seq::empty(), thing);
            let at2 = if thing is Comment {
                seq![n]
            } else {
                Seq::<int>::empty()
            };
            assert forall|i: int| 0 <= i < next.len() implies (#[trigger] next[i]).thing == all[i] by {
                if i < n {
                    assert(next[i] == nodes[i]);
                }
            }
            assert(open_at(next, path2, at2));
            lemma_outline_appends(root, all, next, path2, at2);
        } else {
            let k = choose|k: int|
                0 <= k < path.len() && #[trigger] path[k] == q && nests(
                    root,
                    grown(path.take(k + 1), thing),
                    items.skip(1),
                );
            let p = at[k];
            lemma_first_named(nodes, q, 0);
            let found = first_named(nodes, q, 0);
            assert(nodes[p].thing.is_named(q));
            assert(found is Some);
            let f = found.unwrap();
            if f != p {
                assert(nodes[f].thing == all[f] && nodes[p].thing == all[p]);
                if f < p {
                    assert(all[f]->Comment_0.name@ != all[p]->Comment_0.name@);
                } else {
                    assert(all[p]->Comment_0.name@ != all[f]->Comment_0.name@);
                }
            }
            assert(f == p);
            assert(deeper_behind(nodes, p, k));
            lemma_span_open(nodes, k, p + 1);
            assert(slot(root, nodes, thing) == Some((n, k + 1)));
            let next = nodes.push(node_of(thing, k + 1));
            let path2 = grown(path.take(k + 1), thing);
            let at2 = if thing is Comment {
                at.take(k + 1).push(n)
            } else {
                at.take(k + 1)
            };
            assert forall|i: int| 0 <= i < next.len() implies (#[trigger] next[i]).thing == all[i] by {
                if i < n {
                    assert(next[i] == nodes[i]);
                }
            }
            assert forall|t: int| 0 <= t < path2.len() implies t <= #[trigger] at2[t] < next.len()
                && next[at2[t]].thing.is_named(path2[t]) && next[at2[t]].depth == t && deeper_behind(
                next,
                at2[t],
                t,
            ) by {
                if t <= k {
                    assert(at2[t] == at[t]);
                    assert(path2[t] == path[t]);
                    assert(next[at[t]] == nodes[at[t]]);
                    assert(deeper_behind(nodes, at[t], t));
                    assert forall|m: int| at2[t] < m < next.len() implies (#[trigger] next[m]).depth
                        > t by {
                        if m < n {
                            assert(next[m] == nodes[m]);
                        }
                    }
                } else {
                    assert(at2[t] == n);
                    assert(next[n] == node_of(thing, k + 1));
                }
            }
            assert(open_at(next, path2, at2));
            lemma_outline_appends(root, all, next, path2, at2);
        }
    }
}

/// A payload that reads like an outline, with no fullname borne twice, is in
/// document order: every item is the root's or answers a comment that is still
/// open when the item comes.
pub proof fn lemma_outline_is_document_order(root: Seq<char>, items: Seq<Thing>)
    requires
        distinct_comment_names(items),
        items.len() <= usize::MAX,
        nests(root, Seq::empty(), items),
    ensures
        in_document_order(root, Seq::empty(), items),
{
    assert(items.skip(0) =~= items);
    lemma_outline_appends(root, items, Seq::empty(), Seq::empty(), Seq::empty());
}

/// The same stub expanded over the same fetched items gives the same nodes.
pub proof fn lemma_expansion_repeats(parent: Seq<char>, first: Seq<Thing>, second: Seq<Thing>)
    requires
        first =~= second,
    ensures
        built(parent, first) == built(parent, second),
{
}

impl MoreData {
    /// The comma-separated fullnames that a fetch for this stub asks for:
    /// exactly the children it lists, in their order.
    pub open spec fn joined(names: Seq<String>) -> Seq<char>
        decreases names.len(),
    {
        if names.len() == 0 {
            Seq::empty()
        } else if names.len() == 1 {
            names[0]@
        } else {
            Self::joined(names.drop_last()) + ","@ + names.last()@
        }
    }

    /// The value of the `children` parameter of the fetch that expands this stub.
    pub fn children_param(&self) -> (r: String)
        ensures
            r@ == Self::joined(self.children@),
    {
        let mut out = String::new();
        let mut i: usize = 0;
        while i < self.children.len()
            invariant
                i <= self.children.len(),
                out@ == Self::joined(self.children@.take(i as int)),
            decreases self.children.len() - i,
        {
            proof {
                assert(self.children@.take(i + 1).drop_last() =~= self.children@.take(i as int));
                assert(self.children@.take(i + 1).last() == self.children@[i as int]);
            }
            if i > 0 {
                out = out.concat(",");
            }
            out = out.concat(self.children[i].as_str());
            proof {
                assert(Seq::<char>::empty() + self.children@[i as int]@ =~= self.children@[i as int]@);
            }
            i += 1;
        }
        proof {
            assert(self.children@.take(i as int) =~= self.children@);
        }
        out
    }

    /// The call that fetches exactly the children that this stub lists, for
    /// the submission with fullname `link_name`.
    pub fn expand_request(&self, link_name: &str) -> (r: Request)
        ensures
            r.url@ == "/api/morechildren"@,
            r.body@ == "api_type=json&link_id="@ + link_name@ + "&children="@ + Self::joined(
                self.children@,
            ),
    {
        let names = self.children_param();
        Request {
            url: "/api/morechildren".to_owned(),
            body: "api_type=json&link_id=".to_owned().concat(link_name).concat("&children=").concat(
                names.as_str(),
            ),
        }
    }

    /// The nodes that stand in for this stub once `fetched`, the answer to its
    /// fetch, has arrived: the tree of those items under the stub's parent, in
    /// document order. The caller puts them where the stub stood.
    pub fn expand(&self, fetched: Vec<Thing>) -> (r: Result<Vec<CommentNode>, StructuralError>)
        ensures
            match built(self.parent@, fetched@) {
                Some(nodes) => r matches Ok(v) && v@ == nodes && well_formed(self.parent@, v@),
                None => r == Err::<Vec<CommentNode>, StructuralError>(
                    StructuralError::UnresolvedParent,
                ),
            },
    {
        match CommentTree::build_under(self.parent.clone(), fetched) {
            Ok(tree) => Ok(tree.nodes),
            Err(e) => Err(e),
        }
    }
}

impl CommentTree {
    /// Arranges a flat payload whose top-level items name `root` as their parent.
    pub fn build(items: Vec<Thing>) -> (r: Result<CommentTree, StructuralError>)
        ensures
            match built(root_name(), items@) {
                Some(nodes) => r matches Ok(tree) && tree.nodes@ == nodes && tree.root@
                    == root_name() && tree.wf(),
                None => r == Err::<CommentTree, StructuralError>(StructuralError::UnresolvedParent),
            },
    {
        CommentTree::build_under("root".to_owned(), items)
    }

    /// Tells whether the tree is well formed. A tree that `build` made is; one
    /// put together by hand may not be.
    pub fn is_well_formed(&self) -> (r: bool)
        ensures
            r == self.wf(),
    {
        let mut i: usize = 0;
        while i < self.nodes.len()
            invariant
                i <= self.nodes.len(),
                forall|k: int| 0 <= k < i ==> #[trigger] anchored(self.root@, self.nodes@, k),
            decreases self.nodes.len() - i,
        {
            let parent: &String = match &self.nodes[i].thing {
                Thing::Comment(c) => &c.parent,
                Thing::More(m) => &m.parent,
            };
            let depth: usize = self.nodes[i].depth;
            let mut held: bool = depth == 0 && *parent == self.root;
            let mut j: usize = 0;
            while j < i && !held
                invariant
                    j <= i < self.nodes.len(),
                    depth == self.nodes@[i as int].depth,
                    parent@ == self.nodes@[i as int].thing.parent_name(),
                    held ==> anchored(self.root@, self.nodes@, i as int),
                    !held ==> !(parent@ == self.root@ && depth == 0),
                    !held ==> forall|w: int| 0 <= w < j ==> !hangs_under(self.nodes@, w, i as int),
                decreases i - j + (if held { 0int } else { 1int }),
            {
                let named = match &self.nodes[j].thing {
                    Thing::Comment(c) => c.name == *parent,
                    Thing::More(_) => false,
                };
                if named && depth > 0 && self.nodes[j].depth == depth - 1 {
                    held = true;
                    proof {
                        assert(hangs_under(self.nodes@, j as int, i as int));
                    }
                } else {
                    j += 1;
                }
            }
            if !held {
                proof {
                    assert(!anchored(self.root@, self.nodes@, i as int));
                }
                return false;
            }
            i += 1;
        }
        true
    }

    /// The number of nodes, comments and stubs alike.
    pub fn len(&self) -> (n: usize)
        ensures
            n == self.nodes@.len(),
    {
        self.nodes.len()
    }

    /// The top-level nodes, in sibling order.
    pub fn top_level(&self) -> (r: Vec<usize>)
        ensures
            r@ == child_positions(self.nodes@, -1, 0),
    {
        let mut out: Vec<usize> = Vec::new();
        let mut k: usize = 0;
        while k < self.nodes.len()
            invariant
                k <= self.nodes.len(),
                out@ + child_positions(self.nodes@, -1, k as int) == child_positions(self.nodes@, -1, 0),
            decreases self.nodes.len() - k,
        {
            if self.nodes[k].depth == 0 {
                out.push(k);
                proof {
                    assert(out@ + child_positions(self.nodes@, -1, k + 1) =~= out@.drop_last() + (
                    seq![k] + child_positions(self.nodes@, -1, k + 1)));
                }
            }
            k += 1;
        }
        proof {
            assert(out@ + Seq::<usize>::empty() =~= out@);
        }
        out
    }

    /// The children of the node at `i`, in sibling order.
    pub fn children_of(&self, i: usize) -> (r: Vec<usize>)
        requires
            i < self.nodes@.len(),
        ensures
            r@ == child_positions(self.nodes@, self.nodes@[i as int].depth as int, i + 1),
    {
        // Reading the length bounds it by the largest usize, so that `i + 1` fits.
        let _fits: usize = self.nodes.len();
        let depth: usize = self.nodes[i].depth;
        let mut out: Vec<usize> = Vec::new();
        let mut k: usize = i + 1;
        while k < self.nodes.len() && self.nodes[k].depth > depth
            invariant
                i < k <= self.nodes.len(),
                out@ + child_positions(self.nodes@, depth as int, k as int) == child_positions(
                    self.nodes@,
                    depth as int,
                    i + 1,
                ),
            decreases self.nodes.len() - k,
        {
            if self.nodes[k].depth - 1 == depth {
                out.push(k);
                proof {
                    assert(out@ + child_positions(self.nodes@, depth as int, k + 1) =~= out@.drop_last()
                        + (seq![k] + child_positions(self.nodes@, depth as int, k + 1)));
                }
            }
            k += 1;
        }
        proof {
            assert(out@ + Seq::<usize>::empty() =~= out@);
        }
        out
    }

    /// The nodes in document order: each before its children, siblings in
    /// their order.
    pub fn flatten(self) -> (r: Vec<CommentNode>)
        ensures
            r@ == self.nodes@,
    {
        self.nodes
    }
}


/// An item of a payload in which the replies to a comment may come inline,
/// as a listing of their own inside the comment.
pub enum NestedThing {
    Comment { data: CommentData, replies: Vec<NestedThing> },
    More(MoreData),
}

/// The flat run that stands for one nested item: the item itself, then its
/// inline replies, each unfolded in the same way.
pub open spec fn unfolded(item: NestedThing) -> Seq<Thing>
    decreases item, 0nat,
{
    match item {
        NestedThing::Comment { data, replies } => seq![Thing::Comment(data)] + unfolded_upto(
            replies,
            replies.len() as nat,
        ),
        NestedThing::More(m) => seq![Thing::More(m)],
    }
}

/// The flat run that stands for the first `n` of `items`.
pub open spec fn unfolded_upto(items: Vec<NestedThing>, n: nat) -> Seq<Thing>
    decreases items, n,
{
    if n == 0 || n > items.len() {
        Seq::empty()
    } else {
        unfolded_upto(items, (n - 1) as nat) + unfolded(items[n - 1])
    }
}

/// Appends to `out` the flat run that stands for `items`.
fn unfold_into(items: Vec<NestedThing>, out: &mut Vec<Thing>)
    ensures
        final(out)@ == old(out)@ + unfolded_upto(items, items.len() as nat),
    decreases items,
{
    let ghost total = items.len();
    let mut rest = items;
    let mut k: usize = 0;
    while rest.len() > 0
        invariant
            total == items.len(),
            k + rest.len() == total,
            rest@ =~= items@.skip(k as int),
            out@ == old(out)@ + unfolded_upto(items, k as nat),
        decreases rest.len(),
    {
        let ghost held = rest@;
        let item = rest.remove(0);
        proof {
            assert(rest@ =~= held.skip(1));
            assert(item == items[k as int]);
            assert(decreases_to!(items => items[k as int]));
        }
        let ghost before = out@;
        match item {
            NestedThing::Comment { data, replies } => {
                out.push(Thing::Comment(data));
                unfold_into(replies, out);
                proof {
                    assert(out@ =~= before + unfolded(item));
                }
            },
            NestedThing::More(m) => {
                out.push(Thing::More(m));
                proof {
                    assert(out@ =~= before + unfolded(item));
                }
            },
        }
        proof {
            assert(out@ =~= old(out)@ + unfolded_upto(items, (k + 1) as nat));
        }
        k += 1;
    }
}

/// The flat run that stands for a payload with inline replies: every comment,
/// then its replies unfolded in the same way, then what follows the comment.
pub fn unfold(items: Vec<NestedThing>) -> (flat: Vec<Thing>)
    ensures
        flat@ == unfolded_upto(items, items.len() as nat),
{
    let mut flat: Vec<Thing> = Vec::new();
    unfold_into(items, &mut flat);
    proof {
        assert(flat@ =~= unfolded_upto(items, items.len() as nat));
    }
    flat
}

impl CommentTree {
    /// Arranges under `root` a payload in which replies may come inline. Each
    /// inline listing is unfolded behind its comment, and the flat run that
    /// results is arranged as `build_under` does.
    pub fn build_nested(root: String, items: Vec<NestedThing>) -> (r: Result<
        CommentTree,
        StructuralError,
    >)
        ensures
            match built(root@, unfolded_upto(items, items.len() as nat)) {
                Some(nodes) => r matches Ok(tree) && tree.nodes@ == nodes && tree.root == root
                    && tree.wf(),
                None => r == Err::<CommentTree, StructuralError>(StructuralError::UnresolvedParent),
            },
    {
        CommentTree::build_under(root, unfold(items))
    }
}

/// The nodes of an expansion as they hang at depth `depth` in the larger tree.
pub open spec fn lifted(sub: Seq<CommentNode>, depth: int) -> Seq<CommentNode> {
    Seq::new(sub.len(), |i: int| node_of(sub[i].thing, sub[i].depth + depth))
}

/// The tree in which the node at `at` has given way to `sub`, hung at the
/// depth of that node. Everything else keeps its place.
pub open spec fn spliced(nodes: Seq<CommentNode>, at: int, sub: Seq<CommentNode>) -> Seq<CommentNode> {
    nodes.take(at) + lifted(sub, nodes[at].depth as int) + nodes.skip(at + 1)
}

/// An expansion put in the place of its stub keeps the tree well formed.
proof fn lemma_splice_keeps_form(root: Seq<char>, nodes: Seq<CommentNode>, at: int, sub: Seq<CommentNode>)
    requires
        well_formed(root, nodes),
        0 <= at < nodes.len(),
        nodes[at].thing is More,
        well_formed(nodes[at].thing.parent_name(), sub),
        nodes.len() - 1 + sub.len() <= usize::MAX,
    ensures
        well_formed(root, spliced(nodes, at, sub)),
{
    let d = nodes[at].depth as int;
    let m = sub.len() as int;
    let parent = nodes[at].thing.parent_name();
    let after = spliced(nodes, at, sub);
    lemma_depth_bound(root, nodes, at);
    assert(anchored(root, nodes, at));
    assert forall|i: int| 0 <= i < after.len() implies #[trigger] anchored(root, after, i) by {
        if i < at {
            assert(anchored(root, nodes, i));
            assert(after[i] == nodes[i]);
            if !(nodes[i].thing.parent_name() == root && nodes[i].depth == 0) {
                let j = choose|j: int| hangs_under(nodes, j, i);
                assert(after[j] == nodes[j]);
                assert(hangs_under(after, j, i));
            }
        } else if i < at + m {
            let k = i - at;
            lemma_depth_bound(parent, sub, k);
            assert(anchored(parent, sub, k));
            assert(after[i] == node_of(sub[k].thing, sub[k].depth + d));
            if sub[k].thing.parent_name() == parent && sub[k].depth == 0 {
                if !(parent == root && d == 0) {
                    let j = choose|j: int| hangs_under(nodes, j, at);
                    assert(after[j] == nodes[j]);
                    assert(hangs_under(after, j, i));
                }
            } else {
                let j = choose|j: int| hangs_under(sub, j, k);
                lemma_depth_bound(parent, sub, j);
                assert(after[at + j] == node_of(sub[j].thing, sub[j].depth + d));
                assert(hangs_under(after, at + j, i));
            }
        } else {
            let k = i - m + 1;
            assert(anchored(root, nodes, k));
            assert(after[i] == nodes[k]);
            if !(nodes[k].thing.parent_name() == root && nodes[k].depth == 0) {
                let j = choose|j: int| hangs_under(nodes, j, k);
                if j < at {
                    assert(after[j] == nodes[j]);
                    assert(hangs_under(after, j, i));
                } else {
                    assert(after[j + m - 1] == nodes[j]);
                    assert(hangs_under(after, j + m - 1, i));
                }
            }
        }
    }
}

impl CommentTree {
    /// Puts the expansion of the stub at `at` in the stub's place: `fetched`,
    /// the answer to the stub's fetch, is arranged under the stub's parent, and
    /// the nodes that result stand where the stub stood, so that every sibling
    /// keeps its position. Where `fetched` cannot be arranged the tree stays
    /// as it was.
    pub fn splice(&mut self, at: usize, fetched: Vec<Thing>) -> (r: Result<(), StructuralError>)
        requires
            old(self).wf(),
            at < old(self).nodes@.len(),
            old(self).nodes@[at as int].thing is More,
        ensures
            final(self).root == old(self).root,
            final(self).wf(),
            match built(old(self).nodes@[at as int].thing.parent_name(), fetched@) {
                Some(sub) => r is Ok && final(self).nodes@ == spliced(old(self).nodes@, at as int, sub),
                None => r == Err::<(), StructuralError>(StructuralError::UnresolvedParent)
                    && final(self).nodes@ == old(self).nodes@,
            },
    {
        let depth: usize = self.nodes[at].depth;
        let parent = match &self.nodes[at].thing {
            Thing::More(m) => m.parent.clone(),
            Thing::Comment(c) => c.parent.clone(),
        };
        let sub = match CommentTree::build_under(parent, fetched) {
            Ok(tree) => tree.nodes,
            Err(e) => {
                return Err(e);
            },
        };
        let total: usize = sub.len();
        let ghost all = sub@;
        let ghost was = self.nodes@;
        let ghost under = was[at as int].thing.parent_name();
        self.nodes.remove(at);
        let mut rest = sub;
        let mut k: usize = 0;
        while rest.len() > 0
            invariant
                self.root == old(self).root,
                was == old(self).nodes@,
                well_formed(self.root@, was),
                well_formed(under, all),
                at < was.len(),
                depth == was[at as int].depth,
                k + rest.len() == all.len(),
                all.len() == total,
                rest@ =~= all.skip(k as int),
                self.nodes@ =~= was.take(at as int) + lifted(all, depth as int).take(k as int) + was.skip(
                    at + 1,
                ),
            decreases rest.len(),
        {
            let ghost held = rest@;
            let node = rest.remove(0);
            // Reading the length bounds the new node's position and depth.
            let _fits: usize = self.nodes.len();
            proof {
                assert(rest@ =~= held.skip(1));
                assert(node == all[k as int]);
                lemma_depth_bound(under, all, k as int);
                lemma_depth_bound(self.root@, was, at as int);
            }
            self.nodes.insert(at + k, CommentNode { thing: node.thing, depth: node.depth + depth });
            k += 1;
        }
        let _fits: usize = self.nodes.len();
        proof {
            assert(lifted(all, depth as int).take(k as int) =~= lifted(all, depth as int));
            lemma_splice_keeps_form(self.root@, was, at as int, all);
        }
        Ok(())
    }
}

} // verus!

use crate::comment_tree::{hangs_under, CommentNode, Thing};
use crate::errors::APIError;
use vstd::prelude::*;
use vstd::string::*;

verus! {

/// The fullnames that a stream has handed to its consumer.
pub struct SeenSet {
    pub names: Vec<String>,
}

/// True when one of `names` reads `n`.
pub open spec fn holds(names: Seq<String>, n: Seq<char>) -> bool {
    exists|i: int| 0 <= i < names.len() && (#[trigger] names[i])@ == n
}

impl View for SeenSet {
    type V = Set<Seq<char>>;

    open spec fn view(&self) -> Set<Seq<char>> {
        Set::new(|n: Seq<char>| holds(self.names@, n))
    }
}

impl SeenSet {
    /// The set that holds nothing.
    pub fn new() -> (s: SeenSet)
        ensures
            s@ == Set::<Seq<char>>::empty(),
    {
        let s = SeenSet { names: Vec::new() };
        proof {
            assert(s@ =~= Set::<Seq<char>>::empty());
        }
        s
    }

    /// True when `name` has been handed out.
    pub fn contains(&self, name: &String) -> (r: bool)
        ensures
            r == self@.contains(name@),
    {
        let mut i: usize = 0;
        while i < self.names.len()
            invariant
                i <= self.names.len(),
                forall|k: int| 0 <= k < i ==> (#[trigger] self.names@[k])@ != name@,
            decreases self.names.len() - i,
        {
            if self.names[i] == *name {
                return true;
            }
            i += 1;
        }
        false
    }

    /// Adds `name`. The set only ever grows.
    pub fn insert(&mut self, name: String)
        ensures
            final(self)@ == old(self)@.insert(name@),
    {
        let ghost was = self.names@;
        let ghost text = name@;
        self.names.push(name);
        proof {
            let now = self.names@;
            assert forall|n: Seq<char>| holds(now, n) == (n == text || holds(was, n)) by {
                if holds(was, n) {
                    let i = choose|i: int| 0 <= i < was.len() && (#[trigger] was[i])@ == n;
                    assert(now[i]@ == n);
                }
                if n == text {
                    assert(now[was.len() as int]@ == n);
                }
                if holds(now, n) {
                    let i = choose|i: int| 0 <= i < now.len() && (#[trigger] now[i])@ == n;
                    if i < was.len() {
                        assert(was[i]@ == n);
                    }
                }
            }
            assert(self@ =~= old(self)@.insert(text));
        }
    }
}

/// The fullname of a comment node. A stub has none: the empty text stands for it.
pub open spec fn name_of(node: CommentNode) -> Seq<char> {
    match node.thing {
        Thing::Comment(c) => c.name@,
        Thing::More(_) => Seq::empty(),
    }
}

/// True for a comment whose fullname is not in `seen`.
pub open spec fn is_new(seen: Set<Seq<char>>, node: CommentNode) -> bool {
    node.thing is Comment && !seen.contains(name_of(node))
}

/// `seen` after `node` has gone by: a comment's fullname is in it, a stub
/// leaves no trace.
pub open spec fn marked(seen: Set<Seq<char>>, node: CommentNode) -> Set<Seq<char>> {
    if node.thing is Comment {
        seen.insert(name_of(node))
    } else {
        seen
    }
}

/// What one poll cycle hands out: of the observed nodes, read in document
/// order, each comment whose fullname was neither seen before the cycle nor
/// earlier in it.
pub open spec fn unseen(seen: Set<Seq<char>>, nodes: Seq<CommentNode>) -> Seq<CommentNode>
    decreases nodes.len(),
{
    if nodes.len() == 0 {
        Seq::empty()
    } else if is_new(seen, nodes[0]) {
        seq![nodes[0]] + unseen(marked(seen, nodes[0]), nodes.skip(1))
    } else {
        unseen(marked(seen, nodes[0]), nodes.skip(1))
    }
}

/// The seen set after a cycle that observed `nodes`.
pub open spec fn noted(seen: Set<Seq<char>>, nodes: Seq<CommentNode>) -> Set<Seq<char>>
    decreases nodes.len(),
{
    if nodes.len() == 0 {
        seen
    } else {
        noted(marked(seen, nodes[0]), nodes.skip(1))
    }
}

/// Whether a stream still polls.
#[derive(Clone, Copy, Debug, PartialEq, Eq, Structural)]
pub enum StreamState {
    Polling,
    Stopped,
}

/// What a stream asks of its caller before the next cycle.
pub enum StreamAction {
    /// Wait `seconds`, fetch the whole thread at `url`, and hand the outcome
    /// to `cycle`.
    WaitThenFetch { seconds: u64, url: String },
    /// The stream was cancelled: do nothing more.
    Halt,
}

/// An endless, cancellable sequence of the comments that appear under one
/// submission. It keeps no pagination state between cycles: every cycle reads
/// the whole thread again and hands out what it has not handed out before.
pub struct CommentStream {
    pub link_name: String,
    pub link_id: String,
    pub interval: u64,
    pub state: StreamState,
    pub seen: SeenSet,
}

/// The fixed delay between two polls, in seconds.
pub const POLL_INTERVAL: u64 = 5;

impl CommentStream {
    /// A stream over the submission with fullname `link_name` and id
    /// `link_id`, polling at the fixed interval, with nothing seen yet.
    pub fn new(link_name: String, link_id: String) -> (s: CommentStream)
        ensures
            s.link_name == link_name,
            s.link_id == link_id,
            s.interval == POLL_INTERVAL,
            s.state == StreamState::Polling,
            s.seen@ == Set::<Seq<char>>::empty(),
    {
        CommentStream {
            link_name,
            link_id,
            interval: POLL_INTERVAL,
            state: StreamState::Polling,
            seen: SeenSet::new(),
        }
    }

    /// The same stream with another fixed delay between polls.
    pub fn with_interval(link_name: String, link_id: String, interval: u64) -> (s: CommentStream)
        ensures
            s.link_name == link_name,
            s.link_id == link_id,
            s.interval == interval,
            s.state == StreamState::Polling,
            s.seen@ == Set::<Seq<char>>::empty(),
    {
        CommentStream { link_name, link_id, interval, state: StreamState::Polling, seen: SeenSet::new() }
    }

    /// The URL of the whole thread.
    pub open spec fn thread_url(&self) -> Seq<char> {
        "/comments/"@ + self.link_id@
    }

    /// What to do next: wait the fixed interval and fetch the thread, or, once
    /// cancelled, nothing.
    pub fn poll(&self) -> (a: StreamAction)
        ensures
            self.state == StreamState::Polling ==> (a matches StreamAction::WaitThenFetch {
                seconds,
                url,
            } && seconds == self.interval && url@ == self.thread_url()),
            self.state == StreamState::Stopped ==> a is Halt,
    {
        match self.state {
            StreamState::Polling => StreamAction::WaitThenFetch {
                seconds: self.interval,
                url: "/comments/".to_owned().concat(self.link_id.as_str()),
            },
            StreamState::Stopped => StreamAction::Halt,
        }
    }

    /// Stops the stream for good. What was seen stays as it is.
    pub fn cancel(&mut self)
        ensures
            final(self).state == StreamState::Stopped,
            final(self).seen == old(self).seen,
            final(self).interval == old(self).interval,
            final(self).link_name == old(self).link_name,
            final(self).link_id == old(self).link_id,
    {
        self.state = StreamState::Stopped;
    }

    /// Takes the outcome of one cycle's fetch: the thread's nodes in document
    /// order, or a failure. From the nodes it hands out the comments not seen
    /// so far, in order, and marks exactly the observed comments as seen. A
    /// failure is handed on and leaves the seen set untouched; the stream goes
    /// on polling either way. A stream that was cancelled hands out nothing
    /// and marks nothing, whatever arrives.
    pub fn cycle(&mut self, outcome: Result<Vec<CommentNode>, APIError>) -> (r: Result<
        Vec<CommentNode>,
        APIError,
    >)
        ensures
            final(self).state == old(self).state,
            final(self).interval == old(self).interval,
            final(self).link_name == old(self).link_name,
            final(self).link_id == old(self).link_id,
            old(self).state == StreamState::Stopped ==> final(self).seen == old(self).seen && (
            r matches Ok(out) && out@.len() == 0),
            old(self).state == StreamState::Polling ==> match outcome {
                Ok(nodes) => r matches Ok(out) && out@ == unseen(old(self).seen@, nodes@)
                    && final(self).seen@ == noted(old(self).seen@, nodes@),
                Err(e) => r == Err::<Vec<CommentNode>, APIError>(e) && final(self).seen == old(self).seen,
            },
    {
        if self.state == StreamState::Stopped {
            return Ok(Vec::new());
        }
        match outcome {
            Err(e) => Err(e),
            Ok(nodes) => {
                let ghost all = nodes@;
                let ghost before = self.seen@;
                let mut rest = nodes;
                let mut out: Vec<CommentNode> = Vec::new();
                while rest.len() > 0
                    invariant
                        self.state == old(self).state,
                        self.interval == old(self).interval,
                        self.link_name == old(self).link_name,
                        self.link_id == old(self).link_id,
                        out@ + unseen(self.seen@, rest@) == unseen(before, all),
                        noted(self.seen@, rest@) == noted(before, all),
                    decreases rest.len(),
                {
                    let ghost held = rest@;
                    let ghost seen = self.seen@;
                    let node = rest.remove(0);
                    proof {
                        assert(rest@ =~= held.skip(1));
                    }
                    let fresh = match &node.thing {
                        Thing::Comment(c) => !self.seen.contains(&c.name),
                        Thing::More(_) => false,
                    };
                    if fresh {
                        match &node.thing {
                            Thing::Comment(c) => {
                                self.seen.insert(c.name.clone());
                            },
                            Thing::More(_) => {},
                        }
                        out.push(node);
                        proof {
                            assert(out@ + unseen(self.seen@, rest@) =~= out@.drop_last() + (seq![node]
                                + unseen(self.seen@, rest@)));
                        }
                    } else {
                        proof {
                            assert(marked(seen, node) =~= seen);
                        }
                    }
                }
                proof {
                    assert(out@ + Seq::<CommentNode>::empty() =~= out@);
                }
                Ok(out)
            },
        }
    }
}

/// Observing one run of nodes and then another is observing both in a row.
pub proof fn lemma_unseen_split(seen: Set<Seq<char>>, xs: Seq<CommentNode>, ys: Seq<CommentNode>)
    ensures
        unseen(seen, xs + ys) == unseen(seen, xs) + unseen(noted(seen, xs), ys),
        noted(seen, xs + ys) == noted(noted(seen, xs), ys),
    decreases xs.len(),
{
    if xs.len() == 0 {
        assert(xs + ys =~= ys);
        assert(unseen(seen, xs) + unseen(seen, ys) =~= unseen(seen, ys));
    } else {
        assert((xs + ys).skip(1) =~= xs.skip(1) + ys);
        assert((xs + ys)[0] == xs[0]);
        lemma_unseen_split(marked(seen, xs[0]), xs.skip(1), ys);
        assert(unseen(seen, xs + ys) =~= unseen(seen, xs) + unseen(noted(seen, xs), ys));
    }
}

/// A comment that is new at its turn is handed out, at the place that the
/// number of comments handed out before it gives.
proof fn lemma_emitted_at(seen: Set<Seq<char>>, nodes: Seq<CommentNode>, k: int)
    requires
        0 <= k < nodes.len(),
        is_new(noted(seen, nodes.take(k)), nodes[k]),
    ensures
        unseen(seen, nodes.take(k)).len() < unseen(seen, nodes).len(),
        unseen(seen, nodes)[unseen(seen, nodes.take(k)).len() as int] == nodes[k],
        unseen(seen, nodes.take(k + 1)).len() == unseen(seen, nodes.take(k)).len() + 1,
{
    let mid = noted(seen, nodes.take(k));
    assert(nodes =~= nodes.take(k) + nodes.skip(k));
    lemma_unseen_split(seen, nodes.take(k), nodes.skip(k));
    assert(nodes.skip(k)[0] == nodes[k]);
    assert(unseen(mid, nodes.skip(k))[0] == nodes[k]);
    let one = seq![nodes[k]];
    assert(nodes.take(k + 1) =~= nodes.take(k) + one);
    lemma_unseen_split(seen, nodes.take(k), one);
    assert(one.skip(1).len() == 0);
    assert(unseen(marked(mid, nodes[k]), one.skip(1)).len() == 0);
    assert(unseen(mid, one).len() == 1);
}

/// Within one cycle a comment is handed out before its children: where a
/// comment and a child of it are both new at their turn, both are handed out,
/// the parent at an earlier place than the child.
pub proof fn lemma_parent_emitted_first(seen: Set<Seq<char>>, nodes: Seq<CommentNode>, j: int, i: int)
    requires
        hangs_under(nodes, j, i),
        is_new(noted(seen, nodes.take(j)), nodes[j]),
        is_new(noted(seen, nodes.take(i)), nodes[i]),
    ensures
        ({
            let out = unseen(seen, nodes);
            let a = unseen(seen, nodes.take(j)).len() as int;
            let b = unseen(seen, nodes.take(i)).len() as int;
            &&& a < b < out.len()
            &&& out[a] == nodes[j]
            &&& out[b] == nodes[i]
        }),
{
    lemma_emitted_at(seen, nodes, j);
    lemma_emitted_at(seen, nodes, i);
    assert(nodes.take(i) =~= nodes.take(j + 1) + nodes.take(i).skip(j + 1));
    lemma_unseen_split(seen, nodes.take(j + 1), nodes.take(i).skip(j + 1));
}

/// Everything that a stream hands out over a run of cycles, each of which
/// observes one sequence of nodes.
pub open spec fn emitted_over(seen: Set<Seq<char>>, cycles: Seq<Seq<CommentNode>>) -> Seq<CommentNode>
    decreases cycles.len(),
{
    if cycles.len() == 0 {
        Seq::empty()
    } else {
        unseen(seen, cycles[0]) + emitted_over(noted(seen, cycles[0]), cycles.skip(1))
    }
}

/// True when a comment with fullname `n` is among `out`.
pub open spec fn emits(out: Seq<CommentNode>, n: Seq<char>) -> bool {
    exists|a: int| 0 <= a < out.len() && (#[trigger] out[a]).thing is Comment && name_of(out[a]) == n
}

/// No two nodes of `out` bear the same fullname.
pub open spec fn distinct_names(out: Seq<CommentNode>) -> bool {
    forall|a: int, b: int|
        0 <= a < b < out.len() ==> name_of(#[trigger] out[a]) != name_of(#[trigger] out[b])
}

/// Every node of `out` is a comment that `seen` does not hold.
pub open spec fn all_new(seen: Set<Seq<char>>, out: Seq<CommentNode>) -> bool {
    forall|a: int| 0 <= a < out.len() ==> is_new(seen, #[trigger] out[a])
}

/// One cycle: what it hands out is new and free of repeats, and afterwards the
/// seen set holds what it held, every observed comment, and nothing else.
proof fn lemma_cycle(seen: Set<Seq<char>>, xs: Seq<CommentNode>)
    ensures
        all_new(seen, unseen(seen, xs)),
        distinct_names(unseen(seen, xs)),
        forall|n: Seq<char>| #[trigger] seen.contains(n) ==> noted(seen, xs).contains(n),
        forall|k: int|
            0 <= k < xs.len() && (#[trigger] xs[k]).thing is Comment ==> noted(seen, xs).contains(
                name_of(xs[k]),
            ),
        forall|n: Seq<char>| #[trigger]
            noted(seen, xs).contains(n) ==> seen.contains(n) || emits(unseen(seen, xs), n),
    decreases xs.len(),
{
    if xs.len() > 0 {
        let head = xs[0];
        let next = marked(seen, head);
        let rest = xs.skip(1);
        let tail = unseen(next, rest);
        let out = unseen(seen, xs);
        lemma_cycle(next, rest);
        let shift: int = if is_new(seen, head) {
            1
        } else {
            0
        };
        assert(noted(seen, xs) == noted(next, rest));
        assert(out.len() == tail.len() + shift);
        assert forall|a: int| shift <= a < out.len() implies #[trigger] out[a] == tail[a - shift] by {}
        assert forall|a: int| 0 <= a < out.len() implies is_new(seen, #[trigger] out[a]) by {
            if a >= shift {
                assert(is_new(next, tail[a - shift]));
            }
        }
        assert forall|a: int, b: int| 0 <= a < b < out.len() implies name_of(#[trigger] out[a])
            != name_of(#[trigger] out[b]) by {
            assert(is_new(next, tail[b - shift]));
            if a >= shift {
                assert(is_new(next, tail[a - shift]));
            }
        }
        assert forall|n: Seq<char>| #[trigger] seen.contains(n) implies noted(seen, xs).contains(n) by {
            assert(next.contains(n));
        }
        assert forall|k: int| 0 <= k < xs.len() && (#[trigger] xs[k]).thing is Comment implies noted(
            seen,
            xs,
        ).contains(name_of(xs[k])) by {
            if k > 0 {
                assert(rest[k - 1] == xs[k]);
                assert(noted(next, rest).contains(name_of(rest[k - 1])));
            } else {
                assert(next.contains(name_of(head)));
                assert(noted(next, rest).contains(name_of(head)));
            }
        }
        assert forall|n: Seq<char>| #[trigger] noted(seen, xs).contains(n) implies seen.contains(n)
            || emits(out, n) by {
            assert(noted(next, rest).contains(n));
            if !seen.contains(n) {
                if next.contains(n) {
                    assert(is_new(seen, head));
                    assert(out[0] == head);
                } else {
                    assert(emits(tail, n));
                    let a = choose|a: int|
                        0 <= a < tail.len() && (#[trigger] tail[a]).thing is Comment && name_of(tail[a])
                            == n;
                    assert(out[a + shift] == tail[a]);
                }
            }
        }
    }
}

/// Over any run of cycles that starts from `seen`: what is handed out is new
/// to `seen` and free of repeats, and every comment that some cycle observes is
/// in `seen` or handed out.
proof fn lemma_cycles(seen: Set<Seq<char>>, cycles: Seq<Seq<CommentNode>>)
    ensures
        all_new(seen, emitted_over(seen, cycles)),
        distinct_names(emitted_over(seen, cycles)),
        forall|c: int, k: int|
            0 <= c < cycles.len() && 0 <= k < cycles[c].len() && (#[trigger] cycles[c][k]).thing is Comment
                ==> seen.contains(name_of(cycles[c][k])) || emits(
                emitted_over(seen, cycles),
                name_of(cycles[c][k]),
            ),
    decreases cycles.len(),
{
    if cycles.len() > 0 {
        let first = unseen(seen, cycles[0]);
        let next = noted(seen, cycles[0]);
        let later = emitted_over(next, cycles.skip(1));
        let out = emitted_over(seen, cycles);
        lemma_cycle(seen, cycles[0]);
        lemma_cycles(next, cycles.skip(1));
        assert(out == first + later);
        assert forall|a: int| first.len() <= a < out.len() implies #[trigger] out[a] == later[a
            - first.len()] by {}
        assert forall|a: int| 0 <= a < first.len() implies #[trigger] out[a] == first[a] by {}
        assert forall|a: int| 0 <= a < first.len() implies next.contains(name_of(#[trigger] first[a])) by {
            assert(is_new(seen, first[a]));
            lemma_emitted_noted(seen, cycles[0], a);
        }
        assert forall|a: int| 0 <= a < out.len() implies is_new(seen, #[trigger] out[a]) by {
            if a < first.len() {
                assert(is_new(seen, first[a]));
            } else {
                assert(is_new(next, later[a - first.len()]));
            }
        }
        assert forall|a: int, b: int| 0 <= a < b < out.len() implies name_of(#[trigger] out[a])
            != name_of(#[trigger] out[b]) by {
            if b < first.len() {
                assert(out[a] == first[a] && out[b] == first[b]);
            } else if a >= first.len() {
                assert(out[a] == later[a - first.len()] && out[b] == later[b - first.len()]);
            } else {
                assert(next.contains(name_of(first[a])));
                assert(is_new(next, later[b - first.len()]));
            }
        }
        assert forall|c: int, k: int|
            0 <= c < cycles.len() && 0 <= k < cycles[c].len() && (#[trigger] cycles[c][k]).thing is Comment implies seen.contains(
            name_of(cycles[c][k]),
        ) || emits(out, name_of(cycles[c][k])) by {
            let n = name_of(cycles[c][k]);
            if c > 0 {
                assert(cycles.skip(1)[c - 1] == cycles[c]);
                assert(cycles.skip(1)[c - 1][k].thing is Comment);
            }
            if !seen.contains(n) {
                if next.contains(n) {
                    let a = choose|a: int|
                        0 <= a < first.len() && (#[trigger] first[a]).thing is Comment && name_of(
                            first[a],
                        ) == n;
                    assert(out[a] == first[a]);
                } else {
                    let a = choose|a: int|
                        0 <= a < later.len() && (#[trigger] later[a]).thing is Comment && name_of(
                            later[a],
                        ) == n;
                    assert(out[a + first.len()] == later[a]);
                }
            }
        }
    }
}

/// What a cycle hands out is in the seen set afterwards.
proof fn lemma_emitted_noted(seen: Set<Seq<char>>, xs: Seq<CommentNode>, a: int)
    requires
        0 <= a < unseen(seen, xs).len(),
    ensures
        noted(seen, xs).contains(name_of(unseen(seen, xs)[a])),
    decreases xs.len(),
{
    if xs.len() > 0 {
        let next = marked(seen, xs[0]);
        lemma_cycle(next, xs.skip(1));
        if is_new(seen, xs[0]) {
            if a > 0 {
                lemma_emitted_noted(next, xs.skip(1), a - 1);
            } else {
                assert(next.contains(name_of(xs[0])));
            }
        } else {
            lemma_emitted_noted(next, xs.skip(1), a);
        }
    }
}

/// A stream that starts with nothing seen hands out each fullname exactly
/// once, however many cycles observe it: every comment that some cycle
/// observes is handed out, only comments are, and no fullname comes twice.
pub proof fn lemma_each_comment_once(cycles: Seq<Seq<CommentNode>>)
    ensures
        ({
            let out = emitted_over(Set::empty(), cycles);
            &&& forall|a: int| 0 <= a < out.len() ==> (#[trigger] out[a]).thing is Comment
            &&& distinct_names(out)
            &&& forall|c: int, k: int|
                0 <= c < cycles.len() && 0 <= k < cycles[c].len() && (#[trigger] cycles[c][k]).thing is Comment
                    ==> emits(out, name_of(cycles[c][k]))
        }),
{
    let out = emitted_over(Set::empty(), cycles);
    lemma_cycles(Set::empty(), cycles);
    assert forall|a: int| 0 <= a < out.len() implies (#[trigger] out[a]).thing is Comment by {
        assert(is_new(Set::empty(), out[a]));
    }
}

} // verus!

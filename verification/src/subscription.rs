//! Subscription management with a topic tree (a trie over topic levels).

use vstd::prelude::*;
use crate::common::{QoS, topic_levels, filter_levels_match};
use crate::text::{char_vecs_view, chars_of, split_chars_exec, chars_eq, is_single_char};
use vstd::slice::slice_to_vec;

verus! {

/// A client's subscription to a topic filter.
#[derive(Debug, Clone)]
pub struct Subscription {
    /// Client ID.
    pub client_id: String,
    /// Topic filter string.
    pub filter: String,
    /// Maximum QoS requested.
    pub qos: QoS,
}

/// What a subscription says: client, filter and QoS.
pub type SubscriptionView = (Seq<char>, Seq<char>, QoS);

impl Subscription {
    pub open spec fn view(&self) -> SubscriptionView {
        (self.client_id@, self.filter@, self.qos)
    }
}

/// Node in the topic tree.
#[derive(Debug)]
struct TopicNode {
    /// Subscriptions whose filter ends at this node.
    subscriptions: Vec<Subscription>,
    /// Child nodes, one per distinct next topic level.
    children: Vec<(Vec<char>, TopicNode)>,
}

/// The subscriptions in a subtree, in pre-order: a node's own subscriptions,
/// then those under each child in order.
spec fn node_subs(n: TopicNode) -> Seq<Subscription>
    decreases n, n.children@.len() + 1,
{
    n.subscriptions@ + kids_subs(n, 0)
}

/// The subscriptions under the children of `n` from the `i`-th on.
spec fn kids_subs(n: TopicNode, i: nat) -> Seq<Subscription>
    decreases n, n.children@.len() - i,
{
    if i >= n.children@.len() {
        Seq::empty()
    } else {
        proof {
            assert(decreases_to!(n => n.children));
        }
        node_subs(n.children@[i as int].1) + kids_subs(n, i + 1)
    }
}


/// The identity of a stored subscription: client and filter.
pub open spec fn key_of(s: Subscription) -> (Seq<char>, Seq<char>) {
    (s.client_id@, s.filter@)
}

/// No two subscriptions in `s` share client and filter.
pub open spec fn keys_distinct(s: Seq<Subscription>) -> bool {
    forall|i: int, j: int| 0 <= i < j < s.len() ==> key_of(s[i]) != key_of(s[j])
}

/// Some subscription in `s` has identity `k`.
pub open spec fn has_key(s: Seq<Subscription>, k: (Seq<char>, Seq<char>)) -> bool {
    exists|i: int| 0 <= i < s.len() && key_of(s[i]) == k
}

/// The filter levels of a subscription.
pub open spec fn sub_levels(s: Subscription) -> Seq<Seq<char>> {
    topic_levels(s.filter@)
}

/// A well-formed subtree at `path`: each subscription sits at the node its
/// filter's levels lead to, a node holds one subscription per identity, and
/// children have distinct level names.
spec fn node_wf(n: TopicNode, path: Seq<Seq<char>>) -> bool
    decreases n,
{
    &&& forall|i: int| 0 <= i < n.subscriptions@.len() ==> #[trigger] sub_levels(n.subscriptions@[i]) == path
    &&& forall|i: int, j: int|
        0 <= i < j < n.subscriptions@.len() ==> key_of(n.subscriptions@[i]) != key_of(n.subscriptions@[j])
    &&& forall|i: int, j: int|
        0 <= i < j < n.children@.len() ==> n.children@[i].0@ != n.children@[j].0@
    &&& forall|i: int|
        0 <= i < n.children@.len() ==> {
            proof {
                assert(decreases_to!(n => n.children));
            }
            node_wf(#[trigger] n.children@[i].1, path.push(n.children@[i].0@))
        }
}

/// The index of the child of `n` named `name`, if it has one.
spec fn child_named(n: TopicNode, name: Seq<char>) -> Option<int> {
    if exists|i: int| 0 <= i < n.children@.len() && #[trigger] n.children@[i].0@ == name {
        Some(choose|i: int| 0 <= i < n.children@.len() && #[trigger] n.children@[i].0@ == name)
    } else {
        None
    }
}

/// Children have distinct names, so the child found by name is the one
/// `child_named` gives.
proof fn lemma_child_named(n: TopicNode, path: Seq<Seq<char>>, name: Seq<char>, found: Option<usize>)
    requires
        node_wf(n, path),
        found matches Some(i) ==> i < n.children@.len() && n.children@[i as int].0@ == name,
        found is None ==> forall|j: int| 0 <= j < n.children@.len() ==> n.children@[j].0@ != name,
    ensures
        child_named(n, name) == (match found {
            Some(i) => Some(i as int),
            None => None::<int>,
        }),
{
    if let Some(i) = found {
        let j = choose|j: int| 0 <= j < n.children@.len() && #[trigger] n.children@[j].0@ == name;
        assert(n.children@[i as int].0@ == name);
        if j < i {
            assert(n.children@[j].0@ != n.children@[i as int].0@);
        } else if i < j {
            assert(n.children@[i as int].0@ != n.children@[j].0@);
        }
    }
}

/// What routing the topic levels `segs[idx..]` through the subtree `n`
/// appends to `acc`, in order: the subscriptions of the `#` child, then, at
/// the end of the levels, the node's own; otherwise what the child named by
/// the next level appends, then what the `+` child appends. Each is appended
/// only when its identity is not yet there.
spec fn spec_collect(n: TopicNode, segs: Seq<Seq<char>>, idx: int, acc: Seq<Subscription>) -> Seq<Subscription>
    decreases n,
{
    let a1 = match child_named(n, seq!['#']) {
        Some(h) => if 0 <= h < n.children@.len() {
            add_unique_seq(acc, n.children@[h].1.subscriptions@)
        } else {
            acc
        },
        None => acc,
    };
    if idx < 0 || idx >= segs.len() {
        add_unique_seq(a1, n.subscriptions@)
    } else {
        proof {
            assert(decreases_to!(n => n.children));
        }
        let a2 = match child_named(n, segs[idx]) {
            Some(e) => if 0 <= e < n.children@.len() {
                spec_collect(n.children@[e].1, segs, idx + 1, a1)
            } else {
                a1
            },
            None => a1,
        };
        match child_named(n, seq!['+']) {
            Some(p) => if 0 <= p < n.children@.len() {
                spec_collect(n.children@[p].1, segs, idx + 1, a2)
            } else {
                a2
            },
            None => a2,
        }
    }
}

proof fn lemma_distinct_concat(a: Seq<Subscription>, b: Seq<Subscription>)
    requires
        keys_distinct(a),
        keys_distinct(b),
        forall|y: Subscription, z: Subscription| a.contains(y) && b.contains(z) ==> key_of(y) != key_of(z),
    ensures
        keys_distinct(a + b),
{
    let c = a + b;
    assert forall|i: int, j: int| 0 <= i < j < c.len() implies key_of(c[i]) != key_of(c[j]) by {
        if i < a.len() && j >= a.len() {
            assert(a.contains(c[i]));
            assert(b[j - a.len()] == c[j]);
            assert(b.contains(c[j]));
        } else if i >= a.len() {
            assert(c[i] == b[i - a.len()]);
            assert(c[j] == b[j - a.len()]);
        }
    }
}

/// What every subtree satisfies: its subscriptions' levels extend its path
/// (strictly, below its own node), and their identities are distinct.
proof fn lemma_node_facts(n: TopicNode, path: Seq<Seq<char>>)
    requires
        node_wf(n, path),
    ensures
        forall|y: Subscription| #[trigger] node_subs(n).contains(y) ==> path.is_prefix_of(sub_levels(y)),
        forall|y: Subscription| #[trigger] kids_subs(n, 0).contains(y) ==> sub_levels(y).len() > path.len(),
        forall|y: Subscription| n.subscriptions@.contains(y) ==> sub_levels(y) == path,
        keys_distinct(node_subs(n)),
    decreases n, n.children@.len() + 1,
{
    broadcast use vstd::seq_lib::group_seq_properties;

    lemma_kids_facts(n, path, 0);
    assert forall|y: Subscription| n.subscriptions@.contains(y) implies sub_levels(y) == path by {
        let i = choose|i: int| 0 <= i < n.subscriptions@.len() && n.subscriptions@[i] == y;
        assert(sub_levels(n.subscriptions@[i]) == path);
    }
    assert forall|y: Subscription| #[trigger] node_subs(n).contains(y) implies path.is_prefix_of(sub_levels(y)) by {
        if n.subscriptions@.contains(y) {
            assert(sub_levels(y) =~= sub_levels(y).subrange(0, path.len() as int));
        }
    }
    assert(keys_distinct(n.subscriptions@));
    assert forall|y: Subscription, z: Subscription|
        n.subscriptions@.contains(y) && kids_subs(n, 0).contains(z) implies key_of(y) != key_of(z) by {
        assert(sub_levels(y).len() != sub_levels(z).len());
    }
    lemma_distinct_concat(n.subscriptions@, kids_subs(n, 0));
}

proof fn lemma_kids_facts(n: TopicNode, path: Seq<Seq<char>>, i: nat)
    requires
        node_wf(n, path),
    ensures
        forall|y: Subscription| #[trigger] kids_subs(n, i).contains(y) ==> exists|j: int|
            i <= j < n.children@.len() && path.push(n.children@[j].0@).is_prefix_of(sub_levels(y)),
        forall|y: Subscription| #[trigger] kids_subs(n, i).contains(y) ==> sub_levels(y).len() > path.len(),
        forall|y: Subscription| #[trigger] kids_subs(n, i).contains(y) ==> path.is_prefix_of(sub_levels(y)),
        keys_distinct(kids_subs(n, i)),
    decreases n, n.children@.len() - i,
{
    broadcast use vstd::seq_lib::group_seq_properties;

    if i < n.children@.len() {
        let c = n.children@[i as int];
        assert(decreases_to!(n => n.children));
        assert(node_wf(c.1, path.push(c.0@)));
        lemma_node_facts(c.1, path.push(c.0@));
        lemma_kids_facts(n, path, i + 1);
        let a = node_subs(c.1);
        let b = kids_subs(n, i + 1);
        assert(kids_subs(n, i) == a + b);
        assert forall|y: Subscription| #[trigger] kids_subs(n, i).contains(y) implies exists|j: int|
            i <= j < n.children@.len() && path.push(n.children@[j].0@).is_prefix_of(sub_levels(y)) by {
            if a.contains(y) {
                assert(path.push(n.children@[i as int].0@).is_prefix_of(sub_levels(y)));
            }
        }
        assert forall|y: Subscription| #[trigger] kids_subs(n, i).contains(y) implies sub_levels(y).len() > path.len()
            && path.is_prefix_of(sub_levels(y)) by {
            let j = choose|j: int| i <= j < n.children@.len() && path.push(n.children@[j].0@).is_prefix_of(sub_levels(y));
            let q = path.push(n.children@[j].0@);
            assert(sub_levels(y).subrange(0, path.len() as int) =~= q.subrange(0, path.len() as int));
        }
        assert forall|y: Subscription, z: Subscription| a.contains(y) && b.contains(z) implies key_of(y) != key_of(z) by {
            let j = choose|j: int| i + 1 <= j < n.children@.len() && path.push(n.children@[j].0@).is_prefix_of(sub_levels(z));
            let qy = path.push(c.0@);
            let qz = path.push(n.children@[j].0@);
            assert(sub_levels(y)[path.len() as int] == qy[path.len() as int]);
            assert(sub_levels(z)[path.len() as int] == qz[path.len() as int]);
            assert(n.children@[i as int].0@ != n.children@[j].0@);
        }
        lemma_distinct_concat(a, b);
    }
}


proof fn lemma_kids_contains(n: TopicNode, i: nat)
    ensures
        forall|y: Subscription| #[trigger] kids_subs(n, i).contains(y) <==> exists|j: int|
            i <= j < n.children@.len() && #[trigger] node_subs(n.children@[j].1).contains(y),
    decreases n.children@.len() - i,
{
    broadcast use vstd::seq_lib::group_seq_properties;

    if i < n.children@.len() {
        lemma_kids_contains(n, i + 1);
        assert forall|y: Subscription| #[trigger] kids_subs(n, i).contains(y) implies exists|j: int|
            i <= j < n.children@.len() && #[trigger] node_subs(n.children@[j].1).contains(y) by {
            if node_subs(n.children@[i as int].1).contains(y) {
            } else {
                assert(kids_subs(n, i + 1).contains(y));
            }
        }
        assert forall|y: Subscription| (exists|j: int|
            i <= j < n.children@.len() && #[trigger] node_subs(n.children@[j].1).contains(y)) implies
            #[trigger] kids_subs(n, i).contains(y) by {
            let j = choose|j: int| i <= j < n.children@.len() && #[trigger] node_subs(n.children@[j].1).contains(y);
            if j > i {
                assert(kids_subs(n, i + 1).contains(y));
            }
        }
    }
}

proof fn lemma_kids_same_children(n1: TopicNode, n2: TopicNode, i: nat)
    requires
        n1.children@ == n2.children@,
    ensures
        kids_subs(n1, i) == kids_subs(n2, i),
    decreases n1.children@.len() - i,
{
    if i < n1.children@.len() {
        lemma_kids_same_children(n1, n2, i + 1);
    }
}

/// The subscriptions under the children of `n` from the `i`-th up to, not
/// including, the `pos`-th.
spec fn kids_between(n: TopicNode, i: nat, pos: nat) -> Seq<Subscription>
    decreases pos - i,
{
    if i >= pos || i >= n.children@.len() {
        Seq::empty()
    } else {
        node_subs(n.children@[i as int].1) + kids_between(n, i + 1, pos)
    }
}

/// The children's subscriptions around the `pos`-th child.
proof fn lemma_kids_split(n: TopicNode, i: nat, pos: nat)
    requires
        i <= pos < n.children@.len(),
    ensures
        kids_subs(n, i) == kids_between(n, i, pos) + node_subs(n.children@[pos as int].1) + kids_subs(n, pos + 1),
    decreases pos - i,
{
    if i == pos {
        assert(kids_between(n, i, pos) =~= Seq::<Subscription>::empty());
        assert(kids_subs(n, i) =~= kids_between(n, i, pos) + node_subs(n.children@[pos as int].1) + kids_subs(n, pos + 1));
    } else {
        lemma_kids_split(n, i + 1, pos);
        assert(kids_subs(n, i) =~= kids_between(n, i, pos) + node_subs(n.children@[pos as int].1) + kids_subs(n, pos + 1));
    }
}

/// Children that agree before `pos` give the same subscriptions before it.
proof fn lemma_kids_between_same(n: TopicNode, m: TopicNode, i: nat, pos: nat)
    requires
        pos <= n.children@.len(),
        pos <= m.children@.len(),
        forall|j: int| 0 <= j < pos ==> #[trigger] m.children@[j] == n.children@[j],
    ensures
        kids_between(m, i, pos) == kids_between(n, i, pos),
    decreases pos - i,
{
    if i < pos {
        lemma_kids_between_same(n, m, i + 1, pos);
        assert(m.children@[i as int] == n.children@[i as int]);
    }
}

/// Children that agree from the `i`-th on give the same subscriptions there.
proof fn lemma_kids_suffix_same(n: TopicNode, m: TopicNode, i: nat)
    requires
        m.children@.len() == n.children@.len(),
        forall|j: int| i <= j < n.children@.len() ==> #[trigger] m.children@[j] == n.children@[j],
    ensures
        kids_subs(m, i) == kids_subs(n, i),
    decreases n.children@.len() - i,
{
    if i < n.children@.len() {
        lemma_kids_suffix_same(n, m, i + 1);
        assert(m.children@[i as int] == n.children@[i as int]);
    }
}

/// A child added at the end adds its subscriptions at the end.
proof fn lemma_kids_push(n: TopicNode, m: TopicNode, c: (Vec<char>, TopicNode), i: nat)
    requires
        m.children@ == n.children@.push(c),
        i <= n.children@.len(),
    ensures
        kids_subs(m, i) == kids_subs(n, i) + node_subs(c.1),
    decreases n.children@.len() - i,
{
    if i < n.children@.len() {
        lemma_kids_push(n, m, c, i + 1);
        assert(m.children@[i as int] == n.children@[i as int]);
        assert(kids_subs(m, i) =~= kids_subs(n, i) + node_subs(c.1));
    } else {
        assert(m.children@[i as int] == c);
        assert(kids_subs(m, i + 1) =~= Seq::<Subscription>::empty());
        assert(kids_subs(n, i) =~= Seq::<Subscription>::empty());
        assert(kids_subs(m, i) =~= kids_subs(n, i) + node_subs(c.1));
    }
}

/// Every subscription in the subtree at `path`: either one of the node's own
/// (levels exactly `path`) or one under a child whose name is the next level.
proof fn lemma_node_contains(n: TopicNode, path: Seq<Seq<char>>)
    requires
        node_wf(n, path),
    ensures
        forall|y: Subscription| #[trigger] node_subs(n).contains(y) <==> n.subscriptions@.contains(y) || exists|j: int|
            0 <= j < n.children@.len() && #[trigger] node_subs(n.children@[j].1).contains(y),
        forall|j: int, y: Subscription| 0 <= j < n.children@.len() && #[trigger] node_subs(n.children@[j].1).contains(y)
            ==> path.push(n.children@[j].0@).is_prefix_of(sub_levels(y)),
{
    broadcast use vstd::seq_lib::group_seq_properties;

    lemma_kids_contains(n, 0);
    assert(node_subs(n) == n.subscriptions@ + kids_subs(n, 0));
    assert forall|y: Subscription| #[trigger] node_subs(n).contains(y) <==> n.subscriptions@.contains(y) || exists|j: int|
            0 <= j < n.children@.len() && #[trigger] node_subs(n.children@[j].1).contains(y) by {
        assert(kids_subs(n, 0).contains(y) <==> exists|j: int|
            0 <= j < n.children@.len() && #[trigger] node_subs(n.children@[j].1).contains(y));
    }
    assert forall|j: int, y: Subscription| 0 <= j < n.children@.len() && #[trigger] node_subs(n.children@[j].1).contains(y)
        implies path.push(n.children@[j].0@).is_prefix_of(sub_levels(y)) by {
        assert(decreases_to!(n => n.children));
        lemma_node_facts(n.children@[j].1, path.push(n.children@[j].0@));
    }
}

impl TopicNode {
    fn new() -> (n: Self)
        ensures
            n.subscriptions@.len() == 0,
            n.children@.len() == 0,
    {
        TopicNode { subscriptions: Vec::new(), children: Vec::new() }
    }

    /// Append (once per identity) the subscriptions under this node, at
    /// `path`, that route to the topic levels `segs[idx..]`.
    fn collect_matching(
        &self,
        segs: &Vec<Vec<char>>,
        idx: usize,
        results: &mut Vec<Subscription>,
        Ghost(path): Ghost<Seq<Seq<char>>>,
    )
        requires
            node_wf(*self, path),
            idx <= segs@.len(),
            keys_distinct(old(results)@),
        ensures
            keys_distinct(final(results)@),
            forall|s: Subscription| #[trigger] final(results)@.contains(s) <==> old(results)@.contains(s)
                || (node_subs(*self).contains(s) && trie_match(
                    sub_levels(s).skip(path.len() as int),
                    char_vecs_view(segs@).skip(idx as int),
                ) && !has_key(old(results)@, key_of(s))),
            final(results)@ == spec_collect(*self, char_vecs_view(segs@), idx as int, old(results)@),
        decreases segs@.len() - idx,
    {
        broadcast use vstd::seq_lib::group_seq_properties;

        let ghost start = results@;
        let ghost t = char_vecs_view(segs@).skip(idx as int);
        let ghost universe = node_subs(*self);
        let ghost mut acc: spec_fn(Subscription) -> bool = |s: Subscription| false;
        proof {
            lemma_node_facts(*self, path);
            lemma_node_contains(*self, path);
        }
        // Subscriptions ending in '#' right below this node match any rest.
        match find_child_char(&self.children, '#') {
            Some(h) => {
                let ghost cur = results@;
                proof {
                    assert(decreases_to!(*self => self.children));
                    assert(node_wf(self.children@[h as int].1, path.push(self.children@[h as int].0@)));
                    lemma_node_facts(self.children@[h as int].1, path.push(seq!['#']));
                    assert(keys_distinct(self.children@[h as int].1.subscriptions@));
                    assert(node_subs(self.children@[h as int].1) == self.children@[h as int].1.subscriptions@
                        + kids_subs(self.children@[h as int].1, 0));
                }
                add_all_unique(results, &self.children[h].1.subscriptions);
                proof {
                    let c = self.children@[h as int].1;
                    let x = |s: Subscription| c.subscriptions@.contains(s);
                    assert forall|s: Subscription| x(s) || acc(s) implies universe.contains(s) by {
                        assert(node_subs(c).contains(s));
                    }
                    lemma_accumulate(start, start, results@, x, acc, universe);
                    acc = x;
                }
            },
            None => {},
        }
        if idx == segs.len() {
            let ghost cur = results@;
            add_all_unique(results, &self.subscriptions);
            proof {
                assert(universe == self.subscriptions@ + kids_subs(*self, 0));
                let x = |s: Subscription| self.subscriptions@.contains(s);
                let prev = acc;
                lemma_accumulate(start, cur, results@, x, prev, universe);
                acc = |s: Subscription| x(s) || prev(s);
                self.finish_route(path, t, start, results@, acc);
            }
            return;
        }
        let seg = &segs[idx];
        assert(t[0] == seg@);
        assert(t.drop_first() =~= char_vecs_view(segs@).skip(idx + 1));
        // The child named by the next topic level.
        match find_child(&self.children, seg) {
            Some(e) => {
                let ghost cur = results@;
                proof {
                    assert(decreases_to!(*self => self.children));
                }
                self.children[e].1.collect_matching(segs, idx + 1, results, Ghost(path.push(seg@)));
                proof {
                    let c = self.children@[e as int].1;
                    let x = |s: Subscription| node_subs(c).contains(s)
                        && trie_match(sub_levels(s).skip(path.len() as int + 1), t.drop_first());
                    let prev = acc;
                    assert forall|s: Subscription| x(s) || prev(s) implies universe.contains(s) by {
                        if x(s) {
                            assert(node_subs(c).contains(s));
                        }
                    }
                    lemma_accumulate(start, cur, results@, x, prev, universe);
                    acc = |s: Subscription| x(s) || prev(s);
                }
            },
            None => {},
        }
        // The child for the single-level wildcard.
        match find_child_char(&self.children, '+') {
            Some(p) => {
                let ghost cur = results@;
                proof {
                    assert(decreases_to!(*self => self.children));
                }
                self.children[p].1.collect_matching(segs, idx + 1, results, Ghost(path.push(seq!['+'])));
                proof {
                    let c = self.children@[p as int].1;
                    let x = |s: Subscription| node_subs(c).contains(s)
                        && trie_match(sub_levels(s).skip(path.len() as int + 1), t.drop_first());
                    let prev = acc;
                    assert forall|s: Subscription| x(s) || prev(s) implies universe.contains(s) by {
                        if x(s) {
                            assert(node_subs(c).contains(s));
                        }
                    }
                    lemma_accumulate(start, cur, results@, x, prev, universe);
                    acc = |s: Subscription| x(s) || prev(s);
                }
            },
            None => {},
        }
        proof {
            self.finish_route(path, t, start, results@, acc);
        }
    }

    proof fn finish_route(
        &self,
        path: Seq<Seq<char>>,
        t: Seq<Seq<char>>,
        start: Seq<Subscription>,
        fin: Seq<Subscription>,
        acc: spec_fn(Subscription) -> bool,
    )
        requires
            node_wf(*self, path),
            forall|s: Subscription| #[trigger] fin.contains(s) <==> start.contains(s) || (acc(s) && !has_key(start, key_of(s))),
            forall|s: Subscription| acc(s) <==> node_subs(*self).contains(s) && (
                (exists|h: int| 0 <= h < self.children@.len() && self.children@[h].0@ == seq!['#']
                    && #[trigger] self.children@[h].1.subscriptions@.contains(s))
                || (t.len() == 0 && self.subscriptions@.contains(s))
                || (t.len() > 0 && exists|e: int| 0 <= e < self.children@.len() && self.children@[e].0@ == t[0]
                    && #[trigger] node_subs(self.children@[e].1).contains(s)
                    && trie_match(sub_levels(s).skip(path.len() as int + 1), t.drop_first()))
                || (t.len() > 0 && exists|e: int| 0 <= e < self.children@.len() && self.children@[e].0@ == seq!['+']
                    && #[trigger] node_subs(self.children@[e].1).contains(s)
                    && trie_match(sub_levels(s).skip(path.len() as int + 1), t.drop_first()))),
        ensures
            forall|s: Subscription| #[trigger] fin.contains(s) <==> start.contains(s)
                || (node_subs(*self).contains(s) && trie_match(sub_levels(s).skip(path.len() as int), t)
                && !has_key(start, key_of(s))),
    {
        assert forall|s: Subscription| node_subs(*self).contains(s) implies
            (acc(s) <==> trie_match(sub_levels(s).skip(path.len() as int), t)) by {
            lemma_route_step(*self, path, t, s);
        }
    }

    /// Remove, from the node the levels `segs[idx..]` lead to, the
    /// subscriptions of `client`.
    fn remove_subscription(&mut self, segs: &Vec<Vec<char>>, idx: usize, client: &String, Ghost(path): Ghost<Seq<Seq<char>>>)
        requires
            node_wf(*old(self), path),
            idx <= segs@.len(),
            path == char_vecs_view(segs@).take(idx as int),
        ensures
            node_wf(*final(self), path),
            forall|y: Subscription| #[trigger] node_subs(*final(self)).contains(y) <==>
                node_subs(*old(self)).contains(y) && !(y.client_id@ == client@ && sub_levels(y) == char_vecs_view(segs@)),
            node_subs(*final(self)) == node_subs(*old(self)).filter(not_removed(client@, char_vecs_view(segs@))),
        decreases segs@.len() - idx,
    {
        broadcast use vstd::seq_lib::group_seq_properties;

        let ghost old_node = *self;
        proof {
            lemma_node_facts(old_node, path);
            lemma_node_contains(old_node, path);
        }
        if idx == segs.len() {
            assert(path =~= char_vecs_view(segs@));
            let kept = keep_other_clients(&self.subscriptions, client);
            self.subscriptions = kept;
            proof {
                lemma_kids_same_children(*self, old_node, 0);
                assert(node_subs(*self) == self.subscriptions@ + kids_subs(old_node, 0));
                assert(node_subs(old_node) == old_node.subscriptions@ + kids_subs(old_node, 0));
                assert forall|i: int| 0 <= i < self.subscriptions@.len() implies
                    #[trigger] sub_levels(self.subscriptions@[i]) == path by {
                    assert(kept@.contains(self.subscriptions@[i]));
                    assert(old_node.subscriptions@.contains(self.subscriptions@[i]));
                }
                let pr = not_removed(client@, char_vecs_view(segs@));
                assert forall|i: int| 0 <= i < old_node.subscriptions@.len() implies
                    other_client(client@)(#[trigger] old_node.subscriptions@[i]) == pr(old_node.subscriptions@[i]) by {
                    assert(old_node.subscriptions@.contains(old_node.subscriptions@[i]));
                }
                lemma_filter_same(old_node.subscriptions@, other_client(client@), pr);
                assert forall|i: int| 0 <= i < kids_subs(old_node, 0).len() implies pr(#[trigger] kids_subs(old_node, 0)[i]) by {
                    assert(kids_subs(old_node, 0).contains(kids_subs(old_node, 0)[i]));
                }
                lemma_filter_all(kids_subs(old_node, 0), pr);
                Seq::filter_distributes_over_add(old_node.subscriptions@, kids_subs(old_node, 0), pr);
            }
            return;
        }
        let seg = &segs[idx];
        let ghost next = path.push(seg@);
        assert(next =~= char_vecs_view(segs@).take(idx + 1));
        match find_child(&self.children, seg) {
            Some(pos) => {
                proof {
                    assert(decreases_to!(old_node => old_node.children));
                    assert(node_wf(old_node.children@[pos as int].1, next));
                }
                self.children[pos].1.remove_subscription(segs, idx + 1, client, Ghost(next));
                proof {
                    assert forall|j: int| 0 <= j < self.children@.len() && j != pos implies
                        self.children@[j] == old_node.children@[j] by {}
                    assert(node_wf(*self, path));
                    lemma_node_contains(*self, path);
                    assert forall|y: Subscription| #[trigger] node_subs(*self).contains(y) <==>
                        node_subs(old_node).contains(y) && !(y.client_id@ == client@ && sub_levels(y) == char_vecs_view(segs@)) by {
                        if exists|j: int| 0 <= j < old_node.children@.len() && j != pos
                            && #[trigger] node_subs(old_node.children@[j].1).contains(y) {
                            let j = choose|j: int| 0 <= j < old_node.children@.len() && j != pos
                                && #[trigger] node_subs(old_node.children@[j].1).contains(y);
                            let py = path.push(old_node.children@[j].0@);
                            assert(sub_levels(y)[path.len() as int] == py[path.len() as int]);
                            assert(char_vecs_view(segs@)[path.len() as int] == next[path.len() as int]);
                            assert(node_subs(self.children@[j].1).contains(y));
                        }
                        if node_subs(old_node.children@[pos as int].1).contains(y)
                            && !(y.client_id@ == client@ && sub_levels(y) == char_vecs_view(segs@)) {
                            assert(node_subs(self.children@[pos as int].1).contains(y));
                        }
                    }
                    let pr = not_removed(client@, char_vecs_view(segs@));
                    assert forall|j: int| 0 <= j < old_node.children@.len() implies #[trigger] node_subs(
                        self.children@[j].1,
                    ) == node_subs(old_node.children@[j].1).filter(pr) by {
                        if j != pos {
                            let c = old_node.children@[j].1;
                            assert forall|k: int| 0 <= k < node_subs(c).len() implies pr(#[trigger] node_subs(c)[k]) by {
                                let y = node_subs(c)[k];
                                assert(node_subs(c).contains(y));
                                let py = path.push(old_node.children@[j].0@);
                                assert(py.is_prefix_of(sub_levels(y)));
                                assert(sub_levels(y)[path.len() as int] == py[path.len() as int]);
                                assert(old_node.children@[j].0@ != old_node.children@[pos as int].0@);
                                assert(char_vecs_view(segs@)[path.len() as int] == next[path.len() as int]);
                            }
                            lemma_filter_all(node_subs(c), pr);
                        }
                    }
                    assert forall|k: int| 0 <= k < old_node.subscriptions@.len() implies pr(#[trigger] old_node.subscriptions@[k]) by {
                        assert(old_node.subscriptions@.contains(old_node.subscriptions@[k]));
                        assert(sub_levels(old_node.subscriptions@[k]).len() == path.len());
                    }
                    lemma_filter_all(old_node.subscriptions@, pr);
                    lemma_kids_filter(old_node, *self, pr, 0);
                    Seq::filter_distributes_over_add(old_node.subscriptions@, kids_subs(old_node, 0), pr);
                }
            },
            None => {
                proof {
                    assert forall|y: Subscription| node_subs(old_node).contains(y) implies
                        sub_levels(y) != char_vecs_view(segs@) by {
                        if !old_node.subscriptions@.contains(y) {
                            let j = choose|j: int| 0 <= j < old_node.children@.len()
                                && #[trigger] node_subs(old_node.children@[j].1).contains(y);
                            let py = path.push(old_node.children@[j].0@);
                            assert(sub_levels(y)[path.len() as int] == py[path.len() as int]);
                            assert(char_vecs_view(segs@)[path.len() as int] == next[path.len() as int]);
                        }
                    }
                    let pr = not_removed(client@, char_vecs_view(segs@));
                    assert forall|k: int| 0 <= k < node_subs(old_node).len() implies pr(#[trigger] node_subs(old_node)[k]) by {
                        assert(node_subs(old_node).contains(node_subs(old_node)[k]));
                    }
                    lemma_filter_all(node_subs(old_node), pr);
                }
            },
        }
    }

    /// Remove the subscriptions of `client` from the whole subtree.
    fn remove_client(&mut self, client: &String, Ghost(path): Ghost<Seq<Seq<char>>>)
        requires
            node_wf(*old(self), path),
        ensures
            node_wf(*final(self), path),
            forall|y: Subscription| #[trigger] node_subs(*final(self)).contains(y) <==>
                node_subs(*old(self)).contains(y) && y.client_id@ != client@,
            node_subs(*final(self)) == node_subs(*old(self)).filter(other_client(client@)),
        decreases *old(self),
    {
        broadcast use vstd::seq_lib::group_seq_properties;

        let ghost old_node = *self;
        proof {
            lemma_node_facts(old_node, path);
            lemma_node_contains(old_node, path);
        }
        let kept = keep_other_clients(&self.subscriptions, client);
        self.subscriptions = kept;
        let mut i: usize = 0;
        while i < self.children.len()
            invariant
                i <= self.children@.len(),
                old_node == *old(self),
                node_wf(old_node, path),
                self.children@.len() == old_node.children@.len(),
                self.subscriptions@ == kept@,
                forall|j: int| 0 <= j < self.children@.len() ==> #[trigger] self.children@[j].0 == old_node.children@[j].0,
                forall|j: int| i <= j < self.children@.len() ==> #[trigger] self.children@[j] == old_node.children@[j],
                forall|j: int| 0 <= j < i ==> node_wf(#[trigger] self.children@[j].1, path.push(self.children@[j].0@)),
                forall|j: int, y: Subscription| 0 <= j < i ==> (#[trigger] node_subs(self.children@[j].1).contains(y) <==>
                    node_subs(old_node.children@[j].1).contains(y) && y.client_id@ != client@),
                forall|j: int| 0 <= j < i ==> #[trigger] node_subs(self.children@[j].1) == node_subs(
                    old_node.children@[j].1,
                ).filter(other_client(client@)),
            decreases self.children@.len() - i,
        {
            proof {
                assert(decreases_to!(old_node => old_node.children));
                assert(node_wf(old_node.children@[i as int].1, path.push(old_node.children@[i as int].0@)));
            }
            let ghost next = path.push(self.children@[i as int].0@);
            assert(self.children@[i as int].1 == old_node.children@[i as int].1);
            assert(decreases_to!(old_node => old_node.children@[i as int].1)) by {
                assert(decreases_to!(old_node => old_node.children));
                assert(decreases_to!(old_node.children => old_node.children@));
                assert(decreases_to!(old_node.children@ => old_node.children@[i as int]));
                assert(decreases_to!(old_node.children@[i as int] => old_node.children@[i as int].1));
            }
            self.children[i].1.remove_client(client, Ghost(next));
            i = i + 1;
        }
        proof {
            assert forall|k: int| 0 <= k < self.subscriptions@.len() implies
                #[trigger] sub_levels(self.subscriptions@[k]) == path by {
                assert(kept@.contains(self.subscriptions@[k]));
                assert(old_node.subscriptions@.contains(self.subscriptions@[k]));
            }
            assert(node_wf(*self, path));
            lemma_node_contains(*self, path);
            lemma_kids_filter(old_node, *self, other_client(client@), 0);
            Seq::filter_distributes_over_add(old_node.subscriptions@, kids_subs(old_node, 0), other_client(client@));
            assert forall|y: Subscription| #[trigger] node_subs(*self).contains(y) <==>
                node_subs(old_node).contains(y) && y.client_id@ != client@ by {
                if exists|j: int| 0 <= j < old_node.children@.len() && #[trigger] node_subs(old_node.children@[j].1).contains(y) {
                    let j = choose|j: int| 0 <= j < old_node.children@.len() && #[trigger] node_subs(old_node.children@[j].1).contains(y);
                    if y.client_id@ != client@ {
                        assert(node_subs(self.children@[j].1).contains(y));
                    }
                }
                if exists|j: int| 0 <= j < self.children@.len() && #[trigger] node_subs(self.children@[j].1).contains(y) {
                    let j = choose|j: int| 0 <= j < self.children@.len() && #[trigger] node_subs(self.children@[j].1).contains(y);
                    assert(node_subs(old_node.children@[j].1).contains(y));
                }
            }
        }
    }

    /// The number of subscriptions in the subtree (capped at `usize::MAX`).
    fn count_node(&self) -> (r: usize)
        ensures
            r == if node_subs(*self).len() <= usize::MAX { node_subs(*self).len() } else { usize::MAX as nat },
        decreases *self,
    {
        let mut count = self.subscriptions.len();
        let mut i: usize = 0;
        assert(node_subs(*self).len() == self.subscriptions@.len() + kids_subs(*self, 0).len());
        while i < self.children.len()
            invariant
                i <= self.children@.len(),
                node_subs(*self).len() == self.subscriptions@.len() + kids_subs(*self, 0).len(),
                ({
                    let done = self.subscriptions@.len() + kids_subs(*self, 0).len() - kids_subs(*self, i as nat).len();
                    count == if done <= usize::MAX { done } else { usize::MAX as int }
                }),
                kids_subs(*self, i as nat).len() <= kids_subs(*self, 0).len(),
            decreases self.children@.len() - i,
        {
            proof {
                assert(decreases_to!(*self => self.children));
                assert(kids_subs(*self, i as nat) == node_subs(self.children@[i as int].1) + kids_subs(*self, (i + 1) as nat));
            }
            let c = self.children[i].1.count_node();
            count = count.saturating_add(c);
            i = i + 1;
        }
        count
    }

    /// Append the subtree's subscriptions, in pre-order, skipping identities
    /// already present.
    fn collect_all(&self, results: &mut Vec<Subscription>, Ghost(path): Ghost<Seq<Seq<char>>>)
        requires
            node_wf(*self, path),
            keys_distinct(old(results)@),
            forall|y: Subscription| node_subs(*self).contains(y) ==> !has_key(old(results)@, key_of(y)),
        ensures
            keys_distinct(final(results)@),
            final(results)@ == old(results)@ + node_subs(*self),
        decreases *self,
    {
        broadcast use vstd::seq_lib::group_seq_properties;

        let ghost start = results@;
        proof {
            lemma_node_facts(*self, path);
            assert(node_subs(*self) == self.subscriptions@ + kids_subs(*self, 0));
            assert(keys_distinct(self.subscriptions@));
            assert forall|j: int| 0 <= j < self.subscriptions@.len() implies
                !has_key(start, #[trigger] key_of(self.subscriptions@[j])) by {
                assert(node_subs(*self).contains(self.subscriptions@[j]));
            }
        }
        add_all_unique(results, &self.subscriptions);
        let mut i: usize = 0;
        while i < self.children.len()
            invariant
                i <= self.children@.len(),
                node_wf(*self, path),
                keys_distinct(results@),
                keys_distinct(node_subs(*self)),
                node_subs(*self) == self.subscriptions@ + kids_subs(*self, 0),
                forall|y: Subscription| node_subs(*self).contains(y) ==> !has_key(start, key_of(y)),
                results@ + kids_subs(*self, i as nat) == start + node_subs(*self),
                results@.len() >= start.len(),
            decreases self.children@.len() - i,
        {
            let ghost cur = results@;
            proof {
                assert(decreases_to!(*self => self.children));
                assert(node_wf(self.children@[i as int].1, path.push(self.children@[i as int].0@)));
                let c = node_subs(self.children@[i as int].1);
                assert(kids_subs(*self, i as nat) == c + kids_subs(*self, (i + 1) as nat));
                assert(cur + c + kids_subs(*self, (i + 1) as nat) =~= start + node_subs(*self));
                assert forall|y: Subscription| c.contains(y) implies !has_key(cur, key_of(y)) by {
                    let all = start + node_subs(*self);
                    assert(all =~= cur + c + kids_subs(*self, (i + 1) as nat));
                    let k = choose|k: int| 0 <= k < c.len() && c[k] == y;
                    let pos = cur.len() + k;
                    assert(all[pos] == y);
                    assert(all[pos] == node_subs(*self)[pos - start.len()]);
                    assert(node_subs(*self).contains(y));
                    if has_key(cur, key_of(y)) {
                        let m = choose|m: int| 0 <= m < cur.len() && key_of(cur[m]) == key_of(y);
                        assert(all[m] == cur[m]);
                        if m < start.len() {
                            assert(all[m] == start[m]);
                            assert(has_key(start, key_of(y)));
                        } else {
                            assert(all[m] == node_subs(*self)[m - start.len()]);
                        }
                    }
                }
            }
            self.children[i].1.collect_all(results, Ghost(path.push(self.children@[i as int].0@)));
            proof {
                let c = node_subs(self.children@[i as int].1);
                assert(results@ =~= cur + c);
                assert(results@ + kids_subs(*self, (i + 1) as nat) =~= start + node_subs(*self));
            }
            i = i + 1;
        }
        proof {
            assert(kids_subs(*self, i as nat) =~= Seq::<Subscription>::empty());
            assert(results@ =~= start + node_subs(*self));
        }
    }

    /// Store `sub` at the node its levels `segs[idx..]` lead to from here,
    /// creating nodes as needed; a subscription with the same identity there
    /// is replaced.
    #[verifier::spinoff_prover]
    #[verifier::rlimit(60)]
    fn insert_node(&mut self, segs: &Vec<Vec<char>>, idx: usize, sub: Subscription, Ghost(path): Ghost<Seq<Seq<char>>>)
        requires
            node_wf(*old(self), path),
            idx <= segs@.len(),
            path == char_vecs_view(segs@).take(idx as int),
            sub_levels(sub) == char_vecs_view(segs@),
        ensures
            node_wf(*final(self), path),
            forall|y: Subscription| #[trigger] node_subs(*final(self)).contains(y) <==>
                (node_subs(*old(self)).contains(y) && key_of(y) != key_of(sub)) || y == sub,
            has_key(node_subs(*old(self)), key_of(sub)) ==> exists|k: int|
                0 <= k < node_subs(*old(self)).len() && key_of(#[trigger] node_subs(*old(self))[k]) == key_of(sub)
                    && node_subs(*final(self)) == node_subs(*old(self)).update(k, sub),
            !has_key(node_subs(*old(self)), key_of(sub)) ==> exists|k: int|
                0 <= k <= node_subs(*old(self)).len() && node_subs(*final(self)) == #[trigger] node_subs(*old(self)).insert(k, sub),
        decreases segs@.len() - idx,
    {
        broadcast use vstd::seq_lib::group_seq_properties;

        let ghost old_node = *self;
        proof {
            lemma_node_facts(old_node, path);
            lemma_node_contains(old_node, path);
        }
        if idx == segs.len() {
            assert(path =~= char_vecs_view(segs@));
            match find_sub(&self.subscriptions, &sub) {
                Some(i) => {
                    let ghost target = self.subscriptions@[i as int];
                    self.subscriptions.set(i, sub);
                    proof {
                        lemma_kids_same_children(*self, old_node, 0);
                        assert(node_subs(*self) == self.subscriptions@ + kids_subs(old_node, 0));
                        assert(node_subs(old_node) == old_node.subscriptions@ + kids_subs(old_node, 0));
                        assert forall|y: Subscription| #[trigger] node_subs(*self).contains(y) <==>
                            (node_subs(old_node).contains(y) && key_of(y) != key_of(sub)) || y == sub by {
                            if kids_subs(old_node, 0).contains(y) {
                                lemma_levels_differ(y, sub);
                            }
                            if self.subscriptions@.contains(y) && y != sub {
                                let k = choose|k: int| 0 <= k < self.subscriptions@.len() && self.subscriptions@[k] == y;
                                assert(k != i);
                                assert(old_node.subscriptions@[k] == y);
                            }
                            if old_node.subscriptions@.contains(y) && key_of(y) != key_of(sub) {
                                let k = choose|k: int| 0 <= k < old_node.subscriptions@.len() && old_node.subscriptions@[k] == y;
                                assert(k != i);
                                assert(self.subscriptions@[k] == y);
                            }
                            assert(self.subscriptions@[i as int] == sub);
                        }
                        assert(node_subs(*self) =~= node_subs(old_node).update(i as int, sub));
                        assert(key_of(node_subs(old_node)[i as int]) == key_of(sub));
                    }
                },
                None => {
                    self.subscriptions.push(sub);
                    proof {
                        lemma_kids_same_children(*self, old_node, 0);
                        assert(node_subs(*self) == self.subscriptions@ + kids_subs(old_node, 0));
                        assert(node_subs(old_node) == old_node.subscriptions@ + kids_subs(old_node, 0));
                        assert forall|y: Subscription| #[trigger] node_subs(*self).contains(y) <==>
                            (node_subs(old_node).contains(y) && key_of(y) != key_of(sub)) || y == sub by {
                            if kids_subs(old_node, 0).contains(y) {
                                lemma_levels_differ(y, sub);
                            }
                            if old_node.subscriptions@.contains(y) {
                                let k = choose|k: int| 0 <= k < old_node.subscriptions@.len() && old_node.subscriptions@[k] == y;
                                assert(key_of(old_node.subscriptions@[k]) != key_of(sub));
                            }
                        }
                        let ol = old_node.subscriptions@.len() as int;
                        assert(node_subs(*self) =~= node_subs(old_node).insert(ol, sub));
                        if has_key(node_subs(old_node), key_of(sub)) {
                            let k = choose|k: int| 0 <= k < node_subs(old_node).len() && key_of(node_subs(old_node)[k]) == key_of(sub);
                            let y = node_subs(old_node)[k];
                            if k < ol {
                                assert(old_node.subscriptions@[k] == y);
                            } else {
                                assert(kids_subs(old_node, 0)[k - ol] == y);
                                assert(kids_subs(old_node, 0).contains(y));
                                lemma_levels_differ(y, sub);
                            }
                        }
                    }
                },
            }
        } else {
            let seg = &segs[idx];
            let ghost next = path.push(seg@);
            assert(next =~= char_vecs_view(segs@).take(idx + 1));
            match find_child(&self.children, seg) {
                Some(pos) => {
                    proof {
                        assert(decreases_to!(old_node => old_node.children));
                        assert(node_wf(old_node.children@[pos as int].1, next));
                    }
                    self.children[pos].1.insert_node(segs, idx + 1, sub, Ghost(next));
                    proof {
                        assert(self.subscriptions@ == old_node.subscriptions@);
                        assert forall|j: int| 0 <= j < self.children@.len() && j != pos implies
                            self.children@[j] == old_node.children@[j] by {}
                        assert(self.children@[pos as int].0 == old_node.children@[pos as int].0);
                        assert(node_wf(*self, path));
                        lemma_node_contains(*self, path);
                        assert forall|y: Subscription| #[trigger] node_subs(*self).contains(y) <==>
                            (node_subs(old_node).contains(y) && key_of(y) != key_of(sub)) || y == sub by {
                            if old_node.subscriptions@.contains(y) {
                                lemma_levels_differ(y, sub);
                            }
                            if exists|j: int| 0 <= j < old_node.children@.len() && j != pos
                                && #[trigger] node_subs(old_node.children@[j].1).contains(y) {
                                let j = choose|j: int| 0 <= j < old_node.children@.len() && j != pos
                                    && #[trigger] node_subs(old_node.children@[j].1).contains(y);
                                let py = path.push(old_node.children@[j].0@);
                                assert(sub_levels(y)[path.len() as int] == py[path.len() as int]);
                                assert(sub_levels(sub)[path.len() as int] == next[path.len() as int]);
                                lemma_levels_differ(y, sub);
                                assert(node_subs(self.children@[j].1).contains(y));
                            }
                            if y == sub {
                                assert(node_subs(self.children@[pos as int].1).contains(y));
                            }
                            if node_subs(old_node.children@[pos as int].1).contains(y) && key_of(y) != key_of(sub) {
                                assert(node_subs(self.children@[pos as int].1).contains(y));
                            }
                        }
                        let co = old_node.children@[pos as int].1;
                        let cn = self.children@[pos as int].1;
                        lemma_kids_split(old_node, 0, pos as nat);
                        lemma_kids_split(*self, 0, pos as nat);
                        lemma_kids_between_same(old_node, *self, 0, pos as nat);
                        lemma_kids_suffix_same(old_node, *self, (pos + 1) as nat);
                        let a = old_node.subscriptions@;
                        let b = kids_between(old_node, 0, pos as nat);
                        let t = kids_subs(old_node, (pos + 1) as nat);
                        let off = a.len() + b.len();
                        assert(node_subs(old_node) =~= a + b + node_subs(co) + t);
                        assert(node_subs(*self) =~= a + b + node_subs(cn) + t);
                        // Only the changed child can hold the subscription's identity.
                        assert forall|y: Subscription| node_subs(old_node).contains(y) && key_of(y) == key_of(sub)
                            implies #[trigger] node_subs(co).contains(y) by {
                            if old_node.subscriptions@.contains(y) {
                                lemma_levels_differ(y, sub);
                            }
                            if exists|j: int| 0 <= j < old_node.children@.len() && j != pos
                                && #[trigger] node_subs(old_node.children@[j].1).contains(y) {
                                let j = choose|j: int| 0 <= j < old_node.children@.len() && j != pos
                                    && #[trigger] node_subs(old_node.children@[j].1).contains(y);
                                let py = path.push(old_node.children@[j].0@);
                                assert(sub_levels(y)[path.len() as int] == py[path.len() as int]);
                                assert(sub_levels(sub)[path.len() as int] == next[path.len() as int]);
                                lemma_levels_differ(y, sub);
                            }
                        }
                        if has_key(node_subs(old_node), key_of(sub)) {
                            let j = choose|j: int| 0 <= j < node_subs(old_node).len() && key_of(node_subs(old_node)[j]) == key_of(sub);
                            let y = node_subs(old_node)[j];
                            assert(node_subs(old_node).contains(y));
                            assert(node_subs(co).contains(y));
                            let jj = choose|jj: int| 0 <= jj < node_subs(co).len() && node_subs(co)[jj] == y;
                            assert(has_key(node_subs(co), key_of(sub)));
                            let k2 = choose|k2: int| 0 <= k2 < node_subs(co).len() && key_of(#[trigger] node_subs(co)[k2]) == key_of(sub)
                                && node_subs(cn) == node_subs(co).update(k2, sub);
                            assert(node_subs(old_node)[off + k2] == node_subs(co)[k2]);
                            assert(node_subs(*self) =~= node_subs(old_node).update(off + k2, sub));
                        } else {
                            if has_key(node_subs(co), key_of(sub)) {
                                let k2 = choose|k2: int| 0 <= k2 < node_subs(co).len() && key_of(node_subs(co)[k2]) == key_of(sub);
                                assert(node_subs(old_node)[off + k2] == node_subs(co)[k2]);
                            }
                            let k2 = choose|k2: int| 0 <= k2 <= node_subs(co).len() && node_subs(cn) == #[trigger] node_subs(co).insert(k2, sub);
                            assert(node_subs(*self) =~= node_subs(old_node).insert(off + k2, sub));
                        }
                    }
                },
                None => {
                    let mut child = TopicNode::new();
                    proof {
                        lemma_empty_node(child, next);
                    }
                    child.insert_node(segs, idx + 1, sub, Ghost(next));
                    let name = slice_to_vec(seg.as_slice());
                    self.children.push((name, child));
                    proof {
                        assert(self.subscriptions@ == old_node.subscriptions@);
                        assert forall|j: int| 0 <= j < old_node.children@.len() implies
                            self.children@[j] == old_node.children@[j] by {}
                        assert(node_wf(*self, path));
                        lemma_node_contains(*self, path);
                        let last = old_node.children@.len() as int;
                        assert forall|y: Subscription| #[trigger] node_subs(*self).contains(y) <==>
                            (node_subs(old_node).contains(y) && key_of(y) != key_of(sub)) || y == sub by {
                            if old_node.subscriptions@.contains(y) {
                                lemma_levels_differ(y, sub);
                            }
                            if exists|j: int| 0 <= j < old_node.children@.len()
                                && #[trigger] node_subs(old_node.children@[j].1).contains(y) {
                                let j = choose|j: int| 0 <= j < old_node.children@.len()
                                    && #[trigger] node_subs(old_node.children@[j].1).contains(y);
                                let py = path.push(old_node.children@[j].0@);
                                assert(sub_levels(y)[path.len() as int] == py[path.len() as int]);
                                assert(sub_levels(sub)[path.len() as int] == next[path.len() as int]);
                                lemma_levels_differ(y, sub);
                                assert(node_subs(self.children@[j].1).contains(y));
                            }
                            if y == sub {
                                assert(node_subs(self.children@[last].1).contains(y));
                            }
                            if node_subs(self.children@[last].1).contains(y) {
                                assert(y == sub);
                            }
                        }
                        let c = self.children@[last];
                        assert(self.children@ == old_node.children@.push(c));
                        lemma_kids_push(old_node, *self, c, 0);
                        assert(node_subs(c.1) =~= seq![sub]);
                        let ol = node_subs(old_node).len() as int;
                        assert(node_subs(*self) =~= node_subs(old_node).insert(ol, sub));
                        if has_key(node_subs(old_node), key_of(sub)) {
                            let k = choose|k: int| 0 <= k < node_subs(old_node).len() && key_of(node_subs(old_node)[k]) == key_of(sub);
                            let y = node_subs(old_node)[k];
                            assert(node_subs(old_node).contains(y));
                            if old_node.subscriptions@.contains(y) {
                                lemma_levels_differ(y, sub);
                            } else {
                                let j = choose|j: int| 0 <= j < old_node.children@.len()
                                    && #[trigger] node_subs(old_node.children@[j].1).contains(y);
                                let py = path.push(old_node.children@[j].0@);
                                assert(sub_levels(y)[path.len() as int] == py[path.len() as int]);
                                assert(sub_levels(sub)[path.len() as int] == next[path.len() as int]);
                                lemma_levels_differ(y, sub);
                            }
                        }
                    }
                },
            }
        }
    }
}

/// The position of the subscription with the same identity as `sub`, if any.
fn find_sub(subs: &Vec<Subscription>, sub: &Subscription) -> (r: Option<usize>)
    ensures
        r matches Some(i) ==> i < subs@.len() && key_of(subs@[i as int]) == key_of(*sub),
        r is None ==> forall|j: int| 0 <= j < subs@.len() ==> key_of(subs@[j]) != key_of(*sub),
{
    let mut i: usize = 0;
    while i < subs.len()
        invariant
            i <= subs@.len(),
            forall|j: int| 0 <= j < i ==> key_of(subs@[j]) != key_of(*sub),
        decreases subs.len() - i,
    {
        if subs[i].client_id == sub.client_id && subs[i].filter == sub.filter {
            return Some(i);
        }
        i = i + 1;
    }
    None
}

/// The position of the child named `seg`, if any.
fn find_child(children: &Vec<(Vec<char>, TopicNode)>, seg: &Vec<char>) -> (r: Option<usize>)
    ensures
        r matches Some(i) ==> i < children@.len() && children@[i as int].0@ == seg@,
        r is None ==> forall|j: int| 0 <= j < children@.len() ==> children@[j].0@ != seg@,
{
    let mut i: usize = 0;
    while i < children.len()
        invariant
            i <= children@.len(),
            forall|j: int| 0 <= j < i ==> children@[j].0@ != seg@,
        decreases children.len() - i,
    {
        if chars_eq(children[i].0.as_slice(), seg.as_slice()) {
            return Some(i);
        }
        i = i + 1;
    }
    None
}

proof fn lemma_levels_differ(y: Subscription, z: Subscription)
    requires
        sub_levels(y) != sub_levels(z),
    ensures
        key_of(y) != key_of(z),
{
}

/// How the tree routes: relative filter levels `r` (below the current node)
/// against the remaining topic levels `t`. A filter ending in a lone '#'
/// level here matches whatever remains; otherwise levels pair off one by one,
/// a '+' level matching any topic level, until both run out together.
pub open spec fn trie_match(r: Seq<Seq<char>>, t: Seq<Seq<char>>) -> bool
    decreases r.len(),
{
    if r == seq![seq!['#']] {
        true
    } else if r.len() == 0 {
        t.len() == 0
    } else if t.len() == 0 {
        false
    } else {
        (r[0] == t[0] || r[0] == seq!['+']) && trie_match(r.drop_first(), t.drop_first())
    }
}

/// Filter levels where the multi-level wildcard '#', if present, is the last level.
pub open spec fn hash_only_last(f: Seq<Seq<char>>) -> bool {
    forall|i: int| 0 <= i < f.len() - 1 ==> f[i] != seq!['#']
}

/// For filters with '#' only as the last level, the tree routes a topic to a
/// subscription exactly when the filter matches the topic by the standard
/// MQTT rules (`TopicFilter::matches`).
pub proof fn lemma_routing_is_filter_matching(f: Seq<Seq<char>>, t: Seq<Seq<char>>)
    requires
        hash_only_last(f),
    ensures
        trie_match(f, t) == filter_levels_match(f, t),
    decreases f.len(),
{
    if f.len() > 0 {
        if f[0] == seq!['#'] {
            assert(f.len() == 1);
            assert(f =~= seq![seq!['#']]);
        } else {
            assert(f != seq![seq!['#']]);
            if t.len() > 0 {
                lemma_routing_is_filter_matching(f.drop_first(), t.drop_first());
            }
        }
    }
}

proof fn lemma_same_key_same_sub(u: Seq<Subscription>, y: Subscription, z: Subscription)
    requires
        keys_distinct(u),
        u.contains(y),
        u.contains(z),
        key_of(y) == key_of(z),
    ensures
        y == z,
{
    let i = choose|i: int| 0 <= i < u.len() && u[i] == y;
    let j = choose|j: int| 0 <= j < u.len() && u[j] == z;
    if i < j {
        assert(key_of(u[i]) != key_of(u[j]));
    } else if j < i {
        assert(key_of(u[j]) != key_of(u[i]));
    }
}

proof fn lemma_accumulate(
    old_r: Seq<Subscription>,
    cur: Seq<Subscription>,
    fin: Seq<Subscription>,
    x: spec_fn(Subscription) -> bool,
    y: spec_fn(Subscription) -> bool,
    universe: Seq<Subscription>,
)
    requires
        keys_distinct(universe),
        forall|s: Subscription| x(s) || y(s) ==> universe.contains(s),
        forall|s: Subscription| #[trigger] cur.contains(s) <==> old_r.contains(s) || (y(s) && !has_key(old_r, key_of(s))),
        forall|s: Subscription| #[trigger] fin.contains(s) <==> cur.contains(s) || (x(s) && !has_key(cur, key_of(s))),
    ensures
        forall|s: Subscription| #[trigger] fin.contains(s) <==> old_r.contains(s) || ((x(s) || y(s)) && !has_key(old_r, key_of(s))),
{
    assert forall|s: Subscription| #[trigger] fin.contains(s) <==> old_r.contains(s) || ((x(s) || y(s)) && !has_key(old_r, key_of(s))) by {
        if has_key(old_r, key_of(s)) {
            let i = choose|i: int| 0 <= i < old_r.len() && key_of(old_r[i]) == key_of(s);
            assert(old_r.contains(old_r[i]));
            assert(cur.contains(old_r[i]));
            let j = choose|j: int| 0 <= j < cur.len() && cur[j] == old_r[i];
            assert(has_key(cur, key_of(s)));
        }
        if x(s) && !has_key(old_r, key_of(s)) && has_key(cur, key_of(s)) {
            let j = choose|j: int| 0 <= j < cur.len() && key_of(cur[j]) == key_of(s);
            let z = cur[j];
            assert(cur.contains(z));
            if old_r.contains(z) {
                let k = choose|k: int| 0 <= k < old_r.len() && old_r[k] == z;
                assert(has_key(old_r, key_of(s)));
            }
            lemma_same_key_same_sub(universe, z, s);
        }
    }
}

/// Append a copy of `sub` unless a subscription with its identity is there.
fn add_unique(results: &mut Vec<Subscription>, sub: &Subscription)
    requires
        keys_distinct(old(results)@),
    ensures
        keys_distinct(final(results)@),
        forall|s: Subscription| #[trigger] final(results)@.contains(s) <==> old(results)@.contains(s)
            || (s == *sub && !has_key(old(results)@, key_of(*sub))),
        !has_key(old(results)@, key_of(*sub)) ==> final(results)@ == old(results)@.push(*sub),
        has_key(old(results)@, key_of(*sub)) ==> final(results)@ == old(results)@,
{
    broadcast use vstd::seq_lib::group_seq_properties;

    match find_sub(results, sub) {
        Some(i) => {
            assert(has_key(results@, key_of(*sub)));
        },
        None => {
            let copy = Subscription { client_id: sub.client_id.clone(), filter: sub.filter.clone(), qos: sub.qos };
            assert(copy == *sub);
            let ghost before = results@;
            results.push(copy);
            assert forall|i: int, j: int| 0 <= i < j < results@.len() implies
                key_of(results@[i]) != key_of(results@[j]) by {
                if j == before.len() {
                    assert(key_of(before[i]) != key_of(*sub));
                }
            }
        },
    }
}

/// `acc` with each of `subs`, in order, appended when its identity is not
/// yet there.
pub open spec fn add_unique_seq(acc: Seq<Subscription>, subs: Seq<Subscription>) -> Seq<Subscription>
    decreases subs.len(),
{
    if subs.len() == 0 {
        acc
    } else {
        let r = add_unique_seq(acc, subs.drop_last());
        if has_key(r, key_of(subs.last())) {
            r
        } else {
            r.push(subs.last())
        }
    }
}

/// Append copies of the subscriptions in `subs` whose identity is not yet there.
fn add_all_unique(results: &mut Vec<Subscription>, subs: &Vec<Subscription>)
    requires
        keys_distinct(old(results)@),
        keys_distinct(subs@),
    ensures
        keys_distinct(final(results)@),
        final(results)@ == add_unique_seq(old(results)@, subs@),
        forall|s: Subscription| #[trigger] final(results)@.contains(s) <==> old(results)@.contains(s)
            || (subs@.contains(s) && !has_key(old(results)@, key_of(s))),
        (forall|j: int| 0 <= j < subs@.len() ==> !has_key(old(results)@, #[trigger] key_of(subs@[j])))
            ==> final(results)@ == old(results)@ + subs@,
{
    broadcast use vstd::seq_lib::group_seq_properties;

    let ghost start = results@;
    assert(subs@.take(0) =~= Seq::<Subscription>::empty());
    let ghost fresh = forall|j: int| 0 <= j < subs@.len() ==> !has_key(start, #[trigger] key_of(subs@[j]));
    let mut i: usize = 0;
    while i < subs.len()
        invariant
            i <= subs@.len(),
            keys_distinct(subs@),
            keys_distinct(results@),
            forall|s: Subscription| #[trigger] results@.contains(s) <==> start.contains(s)
                || (subs@.take(i as int).contains(s) && !has_key(start, key_of(s))),
            fresh == (forall|j: int| 0 <= j < subs@.len() ==> !has_key(start, #[trigger] key_of(subs@[j]))),
            fresh ==> results@ == start + subs@.take(i as int),
            results@ == add_unique_seq(start, subs@.take(i as int)),
        decreases subs.len() - i,
    {
        let ghost cur = results@;
        assert(subs@.take(i + 1).drop_last() =~= subs@.take(i as int));
        assert(subs@.take(i + 1).last() == subs@[i as int]);
        proof {
            if fresh {
                assert(!has_key(start, key_of(subs@[i as int])));
                assert forall|k: int| 0 <= k < cur.len() implies key_of(cur[k]) != key_of(subs@[i as int]) by {
                    if k >= start.len() {
                        assert(cur[k] == subs@[k - start.len()]);
                        assert(key_of(subs@[k - start.len()]) != key_of(subs@[i as int]));
                    } else {
                        assert(cur[k] == start[k]);
                    }
                }
                assert(!has_key(cur, key_of(subs@[i as int])));
            }
        }
        add_unique(results, &subs[i]);
        proof {
            if fresh {
                assert(results@ =~= start + subs@.take(i + 1));
            }
            let x = |s: Subscription| s == subs@[i as int];
            let y = |s: Subscription| subs@.take(i as int).contains(s);
            assert forall|s: Subscription| x(s) || y(s) implies subs@.contains(s) by {
                if y(s) {
                    let k = choose|k: int| 0 <= k < i && subs@.take(i as int)[k] == s;
                    assert(subs@[k] == s);
                }
            }
            lemma_accumulate(start, cur, results@, x, y, subs@);
            assert(subs@.take(i + 1) =~= subs@.take(i as int).push(subs@[i as int]));
            assert forall|s: Subscription| (x(s) || y(s)) <==> #[trigger] subs@.take(i + 1).contains(s) by {
                vstd::seq_lib::lemma_seq_contains_after_push(subs@.take(i as int), subs@[i as int], s);
            }
        }
        i = i + 1;
    }
    assert(subs@.take(subs@.len() as int) =~= subs@);
}

/// The position of the child named by the single character `c`, if any.
fn find_child_char(children: &Vec<(Vec<char>, TopicNode)>, c: char) -> (r: Option<usize>)
    ensures
        r matches Some(i) ==> i < children@.len() && children@[i as int].0@ == seq![c],
        r is None ==> forall|j: int| 0 <= j < children@.len() ==> children@[j].0@ != seq![c],
{
    let mut i: usize = 0;
    while i < children.len()
        invariant
            i <= children@.len(),
            forall|j: int| 0 <= j < i ==> children@[j].0@ != seq![c],
        decreases children.len() - i,
    {
        if is_single_char(children[i].0.as_slice(), c) {
            return Some(i);
        }
        i = i + 1;
    }
    None
}

/// Where the tree finds a subscription that routes: the '#' child's own
/// subscriptions, the node's own when the topic is used up, or those under the
/// child named by the next topic level or by '+' that route from there.
proof fn lemma_route_step(n: TopicNode, path: Seq<Seq<char>>, t: Seq<Seq<char>>, y: Subscription)
    requires
        node_wf(n, path),
        node_subs(n).contains(y),
    ensures
        trie_match(sub_levels(y).skip(path.len() as int), t) <==> (exists|h: int|
            0 <= h < n.children@.len() && n.children@[h].0@ == seq!['#'] && #[trigger] n.children@[h].1.subscriptions@.contains(y))
            || (t.len() == 0 && n.subscriptions@.contains(y))
            || (t.len() > 0 && exists|e: int| 0 <= e < n.children@.len() && n.children@[e].0@ == t[0]
                && #[trigger] node_subs(n.children@[e].1).contains(y)
                && trie_match(sub_levels(y).skip(path.len() as int + 1), t.drop_first()))
            || (t.len() > 0 && exists|e: int| 0 <= e < n.children@.len() && n.children@[e].0@ == seq!['+']
                && #[trigger] node_subs(n.children@[e].1).contains(y)
                && trie_match(sub_levels(y).skip(path.len() as int + 1), t.drop_first())),
{
    broadcast use vstd::seq_lib::group_seq_properties;

    lemma_node_facts(n, path);
    lemma_node_contains(n, path);
    let lv = sub_levels(y);
    let r = lv.skip(path.len() as int);
    assert(path.is_prefix_of(lv));
    // a subscription under child j has level j's name right after the path
    assert forall|j: int| 0 <= j < n.children@.len() && #[trigger] node_subs(n.children@[j].1).contains(y) implies
        lv.len() > path.len() && lv[path.len() as int] == n.children@[j].0@ by {
        let q = path.push(n.children@[j].0@);
        assert(q.is_prefix_of(lv));
        assert(lv[path.len() as int] == q[path.len() as int]);
    }
    assert forall|j: int| 0 <= j < n.children@.len() && #[trigger] n.children@[j].1.subscriptions@.contains(y) implies
        node_subs(n.children@[j].1).contains(y) && lv =~= path.push(n.children@[j].0@) by {
        assert(decreases_to!(n => n.children));
        lemma_node_facts(n.children@[j].1, path.push(n.children@[j].0@));
        assert(node_subs(n.children@[j].1) == n.children@[j].1.subscriptions@ + kids_subs(n.children@[j].1, 0));
    }
    if n.subscriptions@.contains(y) {
        assert(lv == path);
        assert(r =~= Seq::<Seq<char>>::empty());
        assert forall|j: int| 0 <= j < n.children@.len() implies !#[trigger] node_subs(n.children@[j].1).contains(y) by {}
        assert forall|j: int| 0 <= j < n.children@.len() implies !#[trigger] n.children@[j].1.subscriptions@.contains(y) by {}
    } else {
        let j = choose|j: int| 0 <= j < n.children@.len() && #[trigger] node_subs(n.children@[j].1).contains(y);
        let k = n.children@[j].0@;
        assert(r.len() > 0 && r[0] == k);
        assert(r.drop_first() =~= lv.skip(path.len() as int + 1));
        // the child holding y is the only one named k
        assert forall|e: int| 0 <= e < n.children@.len() && #[trigger] node_subs(n.children@[e].1).contains(y) implies e == j by {
            if e != j {
                if e < j {
                    assert(n.children@[e].0@ != n.children@[j].0@);
                } else {
                    assert(n.children@[j].0@ != n.children@[e].0@);
                }
            }
        }
        assert forall|h: int| 0 <= h < n.children@.len() && #[trigger] n.children@[h].1.subscriptions@.contains(y) implies
            h == j && lv =~= path.push(k) by {}
        if r == seq![seq!['#']] {
            assert(k == seq!['#']);
            assert(lv =~= path.push(k));
            assert(decreases_to!(n => n.children));
            lemma_node_facts(n.children@[j].1, path.push(k));
            lemma_node_contains(n.children@[j].1, path.push(k));
            if !n.children@[j].1.subscriptions@.contains(y) {
                let c = n.children@[j].1;
                let e = choose|e: int| 0 <= e < c.children@.len() && #[trigger] node_subs(c.children@[e].1).contains(y);
                assert(decreases_to!(c => c.children));
                lemma_node_facts(c.children@[e].1, path.push(k).push(c.children@[e].0@));
            }
        } else if n.children@[j].1.subscriptions@.contains(y) {
            assert(lv =~= path.push(k));
            assert(r =~= seq![k]);
            assert(r.drop_first() =~= Seq::<Seq<char>>::empty());
        }
    }
}

/// Keeps the subscriptions of clients other than `c`.
spec fn other_client(c: Seq<char>) -> spec_fn(Subscription) -> bool {
    |y: Subscription| y.client_id@ != c
}

/// Keeps all but the subscriptions of `c` whose filter has the levels `levels`.
spec fn not_removed(c: Seq<char>, levels: Seq<Seq<char>>) -> spec_fn(Subscription) -> bool {
    |y: Subscription| !(y.client_id@ == c && sub_levels(y) == levels)
}

/// Filters that agree on every element give the same sequence.
proof fn lemma_filter_same<A>(s: Seq<A>, p: spec_fn(A) -> bool, q: spec_fn(A) -> bool)
    requires
        forall|i: int| 0 <= i < s.len() ==> p(#[trigger] s[i]) == q(s[i]),
    ensures
        s.filter(p) == s.filter(q),
    decreases s.len(),
{
    reveal(Seq::filter);
    if s.len() > 0 {
        let d = s.drop_last();
        assert forall|i: int| 0 <= i < d.len() implies p(#[trigger] d[i]) == q(d[i]) by {
            assert(d[i] == s[i]);
        }
        lemma_filter_same(d, p, q);
        assert(p(s.last()) == q(s.last()));
    }
}

/// A filter every element passes keeps the sequence.
proof fn lemma_filter_all<A>(s: Seq<A>, p: spec_fn(A) -> bool)
    requires
        forall|i: int| 0 <= i < s.len() ==> p(#[trigger] s[i]),
    ensures
        s.filter(p) == s,
    decreases s.len(),
{
    reveal(Seq::filter);
    if s.len() > 0 {
        let d = s.drop_last();
        assert forall|i: int| 0 <= i < d.len() implies p(#[trigger] d[i]) by {
            assert(d[i] == s[i]);
        }
        lemma_filter_all(d, p);
        assert(p(s.last()));
        assert(d.push(s.last()) =~= s);
    }
}

/// Filtering subscriptions, then viewing them, is viewing them, then
/// filtering by a predicate that agrees on each view.
proof fn lemma_view_filter(s: Seq<Subscription>, p: spec_fn(Subscription) -> bool, q: spec_fn(SubscriptionView) -> bool)
    requires
        forall|i: int| 0 <= i < s.len() ==> p(#[trigger] s[i]) == q(s[i].view()),
    ensures
        subs_view(s.filter(p)) == subs_view(s).filter(q),
    decreases s.len(),
{
    reveal(Seq::filter);
    if s.len() > 0 {
        let d = s.drop_last();
        assert forall|i: int| 0 <= i < d.len() implies p(#[trigger] d[i]) == q(d[i].view()) by {
            assert(d[i] == s[i]);
        }
        lemma_view_filter(d, p, q);
        assert(subs_view(s).drop_last() =~= subs_view(d));
        assert(subs_view(s).last() == s.last().view());
        if p(s.last()) {
            assert(subs_view(d.filter(p).push(s.last())) =~= subs_view(d.filter(p)).push(s.last().view()));
        }
    }
}

/// When each child's subscriptions are filtered, so are all the children's.
proof fn lemma_kids_filter(n: TopicNode, m: TopicNode, p: spec_fn(Subscription) -> bool, i: nat)
    requires
        m.children@.len() == n.children@.len(),
        forall|j: int| i <= j < n.children@.len() ==> #[trigger] node_subs(m.children@[j].1) == node_subs(
            n.children@[j].1,
        ).filter(p),
    ensures
        kids_subs(m, i) == kids_subs(n, i).filter(p),
    decreases n.children@.len() - i,
{
    reveal(Seq::filter);
    if i < n.children@.len() {
        lemma_kids_filter(n, m, p, i + 1);
        assert(node_subs(m.children@[i as int].1) == node_subs(n.children@[i as int].1).filter(p));
        Seq::filter_distributes_over_add(node_subs(n.children@[i as int].1), kids_subs(n, i + 1), p);
    } else {
        assert(kids_subs(n, i).filter(p) =~= Seq::<Subscription>::empty());
    }
}

/// The subscriptions of `subs` whose client is not `client`, in order.
fn keep_other_clients(subs: &Vec<Subscription>, client: &String) -> (kept: Vec<Subscription>)
    requires
        keys_distinct(subs@),
    ensures
        keys_distinct(kept@),
        forall|y: Subscription| #[trigger] kept@.contains(y) <==> subs@.contains(y) && y.client_id@ != client@,
        kept@ == subs@.filter(other_client(client@)),
{
    broadcast use vstd::seq_lib::group_seq_properties;

    let mut kept: Vec<Subscription> = Vec::new();
    let mut i: usize = 0;
    proof {
        reveal(Seq::filter);
        assert(subs@.take(0) =~= Seq::<Subscription>::empty());
    }
    while i < subs.len()
        invariant
            kept@ == subs@.take(i as int).filter(other_client(client@)),
            i <= subs@.len(),
            keys_distinct(subs@),
            keys_distinct(kept@),
            forall|y: Subscription| #[trigger] kept@.contains(y) <==> subs@.take(i as int).contains(y) && y.client_id@ != client@,
            forall|k: int| 0 <= k < kept@.len() ==> exists|j: int| 0 <= j < i && subs@[j] == #[trigger] kept@[k],
        decreases subs.len() - i,
    {
        assert(subs@.take(i + 1) =~= subs@.take(i as int).push(subs@[i as int]));
        proof {
            reveal(Seq::filter);
            assert(subs@.take(i + 1).drop_last() =~= subs@.take(i as int));
        }
        let ghost kept_before = kept@;
        if subs[i].client_id != *client {
            let s = &subs[i];
            let copy = Subscription { client_id: s.client_id.clone(), filter: s.filter.clone(), qos: s.qos };
            assert(copy == subs@[i as int]);
            let ghost before = kept@;
            kept.push(copy);
            assert forall|a: int, b: int| 0 <= a < b < kept@.len() implies key_of(kept@[a]) != key_of(kept@[b]) by {
                if b == before.len() {
                    let j = choose|j: int| 0 <= j < i && subs@[j] == before[a];
                    assert(key_of(subs@[j]) != key_of(subs@[i as int]));
                }
            }
            assert forall|k: int| 0 <= k < kept@.len() implies exists|j: int| 0 <= j < i + 1 && subs@[j] == #[trigger] kept@[k] by {
                if k == before.len() {
                    assert(subs@[i as int] == kept@[k]);
                } else {
                    let j = choose|j: int| 0 <= j < i && subs@[j] == before[k];
                    assert(subs@[j] == kept@[k]);
                }
            }
        }
        assert forall|y: Subscription| #[trigger] kept@.contains(y) <==> subs@.take(i + 1).contains(y) && y.client_id@ != client@ by {
            vstd::seq_lib::lemma_seq_contains_after_push(subs@.take(i as int), subs@[i as int], y);
            if kept@.len() > kept_before.len() {
                vstd::seq_lib::lemma_seq_contains_after_push(kept_before, subs@[i as int], y);
            }
        }
        i = i + 1;
    }
    assert(subs@.take(subs@.len() as int) =~= subs@);
    kept
}

proof fn lemma_empty_node(n: TopicNode, path: Seq<Seq<char>>)
    requires
        n.subscriptions@.len() == 0,
        n.children@.len() == 0,
    ensures
        node_wf(n, path),
        node_subs(n) =~= Seq::<Subscription>::empty(),
{
}

/// Topic tree for message routing. Supports the wildcards '+' (one level) and
/// '#' (all remaining levels).
#[derive(Debug)]
pub struct SubscriptionTree {
    root: TopicNode,
}

impl View for SubscriptionTree {
    type V = Seq<SubscriptionView>;

    /// The stored subscriptions, in tree pre-order.
    closed spec fn view(&self) -> Seq<SubscriptionView> {
        node_subs(self.root).map_values(|s: Subscription| s.view())
    }
}

/// No two subscriptions share client and filter.
pub open spec fn view_keys_distinct(s: Seq<SubscriptionView>) -> bool {
    forall|i: int, j: int| 0 <= i < j < s.len() ==> (s[i].0, s[i].1) != (s[j].0, s[j].1)
}

/// The stored subscriptions other than the one of `client` on `filter`.
pub open spec fn without_key(s: Set<SubscriptionView>, client: Seq<char>, filter: Seq<char>) -> Set<SubscriptionView> {
    s.filter(|x: SubscriptionView| !(x.0 == client && x.1 == filter))
}

/// Unsubscribing undoes subscribing: subscribing `client` to `filter` and
/// then unsubscribing it leaves the subscriptions as unsubscribing alone
/// would, and as they were when `client` had no subscription to `filter`.
pub proof fn lemma_unsubscribe_undoes_subscribe(s: Set<SubscriptionView>, client: Seq<char>, filter: Seq<char>, qos: QoS)
    ensures
        without_key(without_key(s, client, filter).insert((client, filter, qos)), client, filter) == without_key(
            s,
            client,
            filter,
        ),
        (forall|x: SubscriptionView| #[trigger] s.contains(x) ==> !(x.0 == client && x.1 == filter)) ==> without_key(
            without_key(s, client, filter).insert((client, filter, qos)),
            client,
            filter,
        ) == s,
{
    assert(without_key(without_key(s, client, filter).insert((client, filter, qos)), client, filter) =~= without_key(
        s,
        client,
        filter,
    ));
    if forall|x: SubscriptionView| #[trigger] s.contains(x) ==> !(x.0 == client && x.1 == filter) {
        assert(without_key(s, client, filter) =~= s);
    }
}

/// The (client, filter) pairs of the given subscriptions.
pub open spec fn sub_pairs(s: Set<SubscriptionView>) -> Set<(Seq<char>, Seq<char>)> {
    s.map(|x: SubscriptionView| (x.0, x.1))
}

/// Subscriptions with distinct client/filter pairs are as many as their
/// pairs: a tree's count is the number of distinct pairs it holds.
pub proof fn lemma_count_is_pairs(s: Seq<SubscriptionView>)
    requires
        view_keys_distinct(s),
    ensures
        sub_pairs(s.to_set()).finite(),
        s.len() == sub_pairs(s.to_set()).len(),
{
    broadcast use vstd::seq_lib::group_seq_properties;
    let f = |x: SubscriptionView| (x.0, x.1);
    assert(s.no_duplicates()) by {
        assert forall|i: int, j: int| 0 <= i < s.len() && 0 <= j < s.len() && i != j implies s[i] != s[j] by {
            if i < j {
                assert((s[i].0, s[i].1) != (s[j].0, s[j].1));
            } else {
                assert((s[j].0, s[j].1) != (s[i].0, s[i].1));
            }
        }
    }
    s.unique_seq_to_set();
    assert(vstd::relations::injective_on(f, s.to_set())) by {
        assert forall|x: SubscriptionView, y: SubscriptionView|
            s.to_set().contains(x) && s.to_set().contains(y) && #[trigger] f(x) == #[trigger] f(y) implies x == y by {
            let i = choose|i: int| 0 <= i < s.len() && s[i] == x;
            let j = choose|j: int| 0 <= j < s.len() && s[j] == y;
            if i < j {
                assert((s[i].0, s[i].1) != (s[j].0, s[j].1));
            } else if j < i {
                assert((s[j].0, s[j].1) != (s[i].0, s[i].1));
            }
        }
    }
    vstd::set_lib::lemma_map_size(s.to_set(), sub_pairs(s.to_set()), f);
}

/// Subscribing adds its client/filter pair to the pairs held.
pub proof fn lemma_subscribe_pairs(s: Set<SubscriptionView>, client: Seq<char>, filter: Seq<char>, qos: QoS)
    ensures
        sub_pairs(without_key(s, client, filter).insert((client, filter, qos))) == sub_pairs(s).insert((client, filter)),
{
    let a = sub_pairs(without_key(s, client, filter).insert((client, filter, qos)));
    let b = sub_pairs(s).insert((client, filter));
    assert forall|k: (Seq<char>, Seq<char>)| a.contains(k) <==> b.contains(k) by {
        if b.contains(k) && k != (client, filter) {
            let x = choose|x: SubscriptionView| s.contains(x) && (x.0, x.1) == k;
            assert(without_key(s, client, filter).insert((client, filter, qos)).contains(x));
        }
        if k == (client, filter) {
            assert(without_key(s, client, filter).insert((client, filter, qos)).contains((client, filter, qos)));
        }
    }
    assert(a =~= b);
}

/// Unsubscribing takes its client/filter pair out of the pairs held.
pub proof fn lemma_unsubscribe_pairs(s: Set<SubscriptionView>, client: Seq<char>, filter: Seq<char>)
    ensures
        sub_pairs(without_key(s, client, filter)) == sub_pairs(s).remove((client, filter)),
{
    let a = sub_pairs(without_key(s, client, filter));
    let b = sub_pairs(s).remove((client, filter));
    assert forall|k: (Seq<char>, Seq<char>)| a.contains(k) <==> b.contains(k) by {
        if b.contains(k) {
            let x = choose|x: SubscriptionView| s.contains(x) && (x.0, x.1) == k;
            assert(without_key(s, client, filter).contains(x));
        }
    }
    assert(a =~= b);
}

/// The count after a subscribe: one more when the client had no
/// subscription to the filter, the same when it had one, which is replaced.
pub proof fn lemma_subscribe_count(before: Seq<SubscriptionView>, after: Seq<SubscriptionView>, client: Seq<char>, filter: Seq<char>, qos: QoS)
    requires
        view_keys_distinct(before),
        view_keys_distinct(after),
        after.to_set() == without_key(before.to_set(), client, filter).insert((client, filter, qos)),
    ensures
        after.len() == (if sub_pairs(before.to_set()).contains((client, filter)) {
            before.len() as int
        } else {
            before.len() + 1int
        }),
        after.contains((client, filter, qos)),
        forall|x: SubscriptionView| #[trigger] after.contains(x) && x.0 == client && x.1 == filter ==> x.2 == qos,
{
    lemma_count_is_pairs(before);
    lemma_count_is_pairs(after);
    lemma_subscribe_pairs(before.to_set(), client, filter, qos);
    assert(after.to_set().contains((client, filter, qos)));
    assert forall|x: SubscriptionView| #[trigger] after.contains(x) && x.0 == client && x.1 == filter implies x.2 == qos by {
        assert(after.to_set().contains(x));
    }
}

/// The count after an unsubscribe: one fewer when the client had a
/// subscription to the filter, the same (and nothing changed) when not.
pub proof fn lemma_unsubscribe_count(before: Seq<SubscriptionView>, after: Seq<SubscriptionView>, client: Seq<char>, filter: Seq<char>)
    requires
        view_keys_distinct(before),
        view_keys_distinct(after),
        after.to_set() == without_key(before.to_set(), client, filter),
    ensures
        after.len() == (if sub_pairs(before.to_set()).contains((client, filter)) {
            before.len() - 1int
        } else {
            before.len() as int
        }),
        !sub_pairs(before.to_set()).contains((client, filter)) ==> after.to_set() == before.to_set(),
{
    lemma_count_is_pairs(before);
    lemma_count_is_pairs(after);
    lemma_unsubscribe_pairs(before.to_set(), client, filter);
    if !sub_pairs(before.to_set()).contains((client, filter)) {
        assert forall|x: SubscriptionView| before.to_set().contains(x) implies !(x.0 == client && x.1 == filter) by {
            assert(sub_pairs(before.to_set()).contains((x.0, x.1)));
        }
        assert(without_key(before.to_set(), client, filter) =~= before.to_set());
    }
}

/// A call on the subscription tree.
pub enum TreeCall {
    Subscribe(Seq<char>, Seq<char>, QoS),
    Unsubscribe(Seq<char>, Seq<char>),
    UnsubscribeAll(Seq<char>),
}

/// The subscriptions after one call, as `subscribe`, `unsubscribe` and
/// `unsubscribe_all` state it.
pub open spec fn spec_after_call(s: Set<SubscriptionView>, c: TreeCall) -> Set<SubscriptionView> {
    match c {
        TreeCall::Subscribe(client, filter, qos) => without_key(s, client, filter).insert((client, filter, qos)),
        TreeCall::Unsubscribe(client, filter) => without_key(s, client, filter),
        TreeCall::UnsubscribeAll(client) => s.filter(|x: SubscriptionView| x.0 != client),
    }
}

/// The subscriptions after the calls `h`, in order, starting from `s`.
pub open spec fn spec_after_calls(s: Set<SubscriptionView>, h: Seq<TreeCall>) -> Set<SubscriptionView>
    decreases h.len(),
{
    if h.len() == 0 {
        s
    } else {
        spec_after_call(spec_after_calls(s, h.drop_last()), h.last())
    }
}

/// What a history of calls leaves subscribed: each client/filter pair whose
/// last subscribe is followed by no unsubscribe of it and no
/// unsubscribe-all of its client, with the QoS of that last subscribe.
pub open spec fn spec_history(h: Seq<TreeCall>) -> Map<(Seq<char>, Seq<char>), QoS>
    decreases h.len(),
{
    if h.len() == 0 {
        Map::empty()
    } else {
        let m = spec_history(h.drop_last());
        match h.last() {
            TreeCall::Subscribe(client, filter, qos) => m.insert((client, filter), qos),
            TreeCall::Unsubscribe(client, filter) => m.remove((client, filter)),
            TreeCall::UnsubscribeAll(client) => Map::new(
                |k: (Seq<char>, Seq<char>)| m.dom().contains(k) && k.0 != client,
                |k: (Seq<char>, Seq<char>)| m[k],
            ),
        }
    }
}

/// From an empty tree, a history of calls leaves exactly the subscriptions
/// its history says: one per client/filter pair still subscribed, with the
/// QoS of its latest subscribe; the pairs held are the history's pairs.
pub proof fn lemma_history(h: Seq<TreeCall>)
    ensures
        forall|x: SubscriptionView| #[trigger] spec_after_calls(Set::empty(), h).contains(x) <==> (spec_history(
            h,
        ).dom().contains((x.0, x.1)) && spec_history(h)[(x.0, x.1)] == x.2),
        sub_pairs(spec_after_calls(Set::empty(), h)) == spec_history(h).dom(),
    decreases h.len(),
{
    if h.len() > 0 {
        lemma_history(h.drop_last());
    }
    let s = spec_after_calls(Set::empty(), h);
    let m = spec_history(h);
    assert forall|k: (Seq<char>, Seq<char>)| sub_pairs(s).contains(k) <==> m.dom().contains(k) by {
        if m.dom().contains(k) {
            assert(s.contains((k.0, k.1, m[k])));
        }
    }
    assert(sub_pairs(s) =~= m.dom());
}

/// The views of a sequence of subscriptions.
pub open spec fn subs_view(v: Seq<Subscription>) -> Seq<SubscriptionView> {
    v.map_values(|s: Subscription| s.view())
}

proof fn lemma_subs_view(v: Seq<Subscription>)
    ensures
        forall|x: SubscriptionView| #[trigger] subs_view(v).contains(x) <==> exists|y: Subscription|
            #[trigger] v.contains(y) && y.view() == x,
        keys_distinct(v) ==> view_keys_distinct(subs_view(v)),
{
    assert forall|x: SubscriptionView| #[trigger] subs_view(v).contains(x) implies exists|y: Subscription|
        #[trigger] v.contains(y) && y.view() == x by {
        let i = choose|i: int| 0 <= i < subs_view(v).len() && subs_view(v)[i] == x;
        assert(v.contains(v[i]));
    }
    assert forall|x: SubscriptionView| (exists|y: Subscription| #[trigger] v.contains(y) && y.view() == x)
        implies #[trigger] subs_view(v).contains(x) by {
        let y = choose|y: Subscription| #[trigger] v.contains(y) && y.view() == x;
        let i = choose|i: int| 0 <= i < v.len() && v[i] == y;
        assert(subs_view(v)[i] == x);
    }
}

impl SubscriptionTree {
    #[verifier::type_invariant]
    spec fn inv(self) -> bool {
        node_wf(self.root, Seq::empty())
    }

    proof fn lemma_view_distinct(self, root: TopicNode)
        requires
            root == self.root,
            node_wf(self.root, Seq::empty()),
        ensures
            view_keys_distinct(self@),
            forall|x: SubscriptionView| #[trigger] self@.contains(x) <==> exists|y: Subscription|
                #[trigger] node_subs(self.root).contains(y) && y.view() == x,
    {
        broadcast use vstd::seq_lib::group_seq_properties;

        lemma_node_facts(self.root, Seq::empty());
        let s = node_subs(self.root);
        assert forall|x: SubscriptionView| #[trigger] self@.contains(x) implies exists|y: Subscription|
            #[trigger] node_subs(self.root).contains(y) && y.view() == x by {
            let i = choose|i: int| 0 <= i < self@.len() && self@[i] == x;
            assert(s.contains(s[i]));
        }
        assert forall|x: SubscriptionView| (exists|y: Subscription|
            #[trigger] node_subs(self.root).contains(y) && y.view() == x) implies #[trigger] self@.contains(x) by {
            let y = choose|y: Subscription| #[trigger] node_subs(self.root).contains(y) && y.view() == x;
            let i = choose|i: int| 0 <= i < s.len() && s[i] == y;
            assert(self@[i] == x);
        }
    }

    /// An empty tree.
    pub fn new() -> (t: Self)
        ensures
            t@ == Seq::<SubscriptionView>::empty(),
    {
        let root = TopicNode::new();
        proof {
            lemma_empty_node(root, Seq::empty());
        }
        let t = SubscriptionTree { root };
        assert(t@ =~= Seq::<SubscriptionView>::empty());
        t
    }

    /// Add (or, for the same client and filter, replace) a subscription.
    pub fn subscribe(&mut self, client_id: &str, filter: &str, qos: QoS)
        ensures
            view_keys_distinct(final(self)@),
            final(self)@.to_set() == without_key(old(self)@.to_set(), client_id@, filter@).insert(
                (client_id@, filter@, qos),
            ),
            (exists|i: int| 0 <= i < old(self)@.len() && #[trigger] old(self)@[i].0 == client_id@ && old(self)@[i].1 == filter@)
                ==> exists|i: int|
                0 <= i < old(self)@.len() && #[trigger] old(self)@[i].0 == client_id@ && old(self)@[i].1 == filter@
                    && final(self)@ == old(self)@.update(i, (client_id@, filter@, qos)),
            !(exists|i: int| 0 <= i < old(self)@.len() && #[trigger] old(self)@[i].0 == client_id@ && old(self)@[i].1 == filter@)
                ==> exists|i: int| 0 <= i <= old(self)@.len() && final(self)@ == #[trigger] old(self)@.insert(i, (client_id@, filter@, qos)),
    {
        proof {
            use_type_invariant(&*self);
        }
        let ghost old_tree = *self;
        let chars = chars_of(filter);
        let segments = split_chars_exec(chars.as_slice(), '/');
        let sub = Subscription { client_id: client_id.to_owned(), filter: filter.to_owned(), qos };
        let mut root = TopicNode::new();
        proof {
            lemma_empty_node(root, Seq::empty());
        }
        std::mem::swap(&mut root, &mut self.root);
        assert(char_vecs_view(segments@).take(0) =~= Seq::<Seq<char>>::empty());
        root.insert_node(&segments, 0, sub, Ghost(Seq::empty()));
        self.root = root;
        proof {
            old_tree.lemma_view_distinct(old_tree.root);
            self.lemma_view_distinct(self.root);
            assert forall|x: SubscriptionView| #[trigger] self@.to_set().contains(x) <==> without_key(
                old_tree@.to_set(), client_id@, filter@).insert((client_id@, filter@, qos)).contains(x) by {
                if self@.contains(x) {
                    let y = choose|y: Subscription| #[trigger] node_subs(self.root).contains(y) && y.view() == x;
                    if y != sub {
                        assert(node_subs(old_tree.root).contains(y));
                    }
                }
                if old_tree@.contains(x) && !(x.0 == client_id@ && x.1 == filter@) {
                    let y = choose|y: Subscription| #[trigger] node_subs(old_tree.root).contains(y) && y.view() == x;
                    assert(node_subs(self.root).contains(y));
                }
                if x == (client_id@, filter@, qos) {
                    assert(node_subs(self.root).contains(sub));
                }
            }
            assert(self@.to_set() =~= without_key(old_tree@.to_set(), client_id@, filter@).insert((client_id@, filter@, qos)));
            let ns = node_subs(old_tree.root);
            assert(old_tree@ == subs_view(ns));
            assert(self@ == subs_view(node_subs(self.root)));
            assert(sub.view() == (client_id@, filter@, qos));
            if has_key(ns, key_of(sub)) {
                let k = choose|k: int| 0 <= k < ns.len() && key_of(#[trigger] ns[k]) == key_of(sub)
                    && node_subs(self.root) == ns.update(k, sub);
                assert(subs_view(ns.update(k, sub)) =~= subs_view(ns).update(k, sub.view()));
                assert(old_tree@[k].0 == client_id@ && old_tree@[k].1 == filter@);
            } else {
                assert(!(exists|i: int| 0 <= i < old_tree@.len() && #[trigger] old_tree@[i].0 == client_id@ && old_tree@[i].1 == filter@)) by {
                    if exists|i: int| 0 <= i < old_tree@.len() && #[trigger] old_tree@[i].0 == client_id@ && old_tree@[i].1 == filter@ {
                        let i = choose|i: int| 0 <= i < old_tree@.len() && #[trigger] old_tree@[i].0 == client_id@ && old_tree@[i].1 == filter@;
                        assert(key_of(ns[i]) == key_of(sub));
                    }
                }
                let k = choose|k: int| 0 <= k <= ns.len() && node_subs(self.root) == #[trigger] ns.insert(k, sub);
                assert(subs_view(ns.insert(k, sub)) =~= subs_view(ns).insert(k, sub.view()));
            }
        }
    }

    /// Remove the subscription of `client_id` on `filter`, if there is one.
    pub fn unsubscribe(&mut self, client_id: &str, filter: &str)
        ensures
            view_keys_distinct(final(self)@),
            final(self)@.to_set() == without_key(old(self)@.to_set(), client_id@, filter@),
            final(self)@ == old(self)@.filter(|x: SubscriptionView| !(x.0 == client_id@ && x.1 == filter@)),
    {
        proof {
            use_type_invariant(&*self);
        }
        let ghost old_tree = *self;
        let chars = chars_of(filter);
        let segments = split_chars_exec(chars.as_slice(), '/');
        let client = client_id.to_owned();
        let mut root = TopicNode::new();
        proof {
            lemma_empty_node(root, Seq::empty());
        }
        std::mem::swap(&mut root, &mut self.root);
        assert(char_vecs_view(segments@).take(0) =~= Seq::<Seq<char>>::empty());
        root.remove_subscription(&segments, 0, &client, Ghost(Seq::empty()));
        self.root = root;
        proof {
            old_tree.lemma_view_distinct(old_tree.root);
            self.lemma_view_distinct(self.root);
            assert forall|x: SubscriptionView| #[trigger] self@.to_set().contains(x) <==> without_key(
                old_tree@.to_set(), client_id@, filter@).contains(x) by {
                if self@.contains(x) {
                    let y = choose|y: Subscription| #[trigger] node_subs(self.root).contains(y) && y.view() == x;
                    assert(node_subs(old_tree.root).contains(y));
                }
                if old_tree@.contains(x) && !(x.0 == client_id@ && x.1 == filter@) {
                    let y = choose|y: Subscription| #[trigger] node_subs(old_tree.root).contains(y) && y.view() == x;
                    if y.client_id@ == client@ && sub_levels(y) == char_vecs_view(segments@) {
                        crate::text::lemma_split_injective(y.filter@, filter@, '/');
                    }
                    assert(node_subs(self.root).contains(y));
                }
            }
            assert(self@.to_set() =~= without_key(old_tree@.to_set(), client_id@, filter@));
            let q = |x: SubscriptionView| !(x.0 == client_id@ && x.1 == filter@);
            let pr = not_removed(client@, char_vecs_view(segments@));
            let ns = node_subs(old_tree.root);
            assert forall|i: int| 0 <= i < ns.len() implies pr(#[trigger] ns[i]) == q(ns[i].view()) by {
                if sub_levels(ns[i]) == char_vecs_view(segments@) {
                    crate::text::lemma_split_injective(ns[i].filter@, filter@, '/');
                }
            }
            lemma_view_filter(ns, pr, q);
            assert(old_tree@ == subs_view(node_subs(old_tree.root)));
            assert(self@ == subs_view(node_subs(self.root)));
        }
    }

    /// Remove every subscription of `client_id`.
    pub fn unsubscribe_all(&mut self, client_id: &str)
        ensures
            view_keys_distinct(final(self)@),
            final(self)@.to_set() == old(self)@.to_set().filter(|x: SubscriptionView| x.0 != client_id@),
            final(self)@ == old(self)@.filter(|x: SubscriptionView| x.0 != client_id@),
    {
        proof {
            use_type_invariant(&*self);
        }
        let ghost old_tree = *self;
        let client = client_id.to_owned();
        let mut root = TopicNode::new();
        proof {
            lemma_empty_node(root, Seq::empty());
        }
        std::mem::swap(&mut root, &mut self.root);
        root.remove_client(&client, Ghost(Seq::empty()));
        self.root = root;
        proof {
            old_tree.lemma_view_distinct(old_tree.root);
            self.lemma_view_distinct(self.root);
            assert forall|x: SubscriptionView| #[trigger] self@.to_set().contains(x) <==>
                old_tree@.to_set().filter(|x: SubscriptionView| x.0 != client_id@).contains(x) by {
                if self@.contains(x) {
                    let y = choose|y: Subscription| #[trigger] node_subs(self.root).contains(y) && y.view() == x;
                    assert(node_subs(old_tree.root).contains(y));
                }
                if old_tree@.contains(x) && x.0 != client_id@ {
                    let y = choose|y: Subscription| #[trigger] node_subs(old_tree.root).contains(y) && y.view() == x;
                    assert(node_subs(self.root).contains(y));
                }
            }
            assert(self@.to_set() =~= old_tree@.to_set().filter(|x: SubscriptionView| x.0 != client_id@));
            lemma_view_filter(node_subs(old_tree.root), other_client(client@), |x: SubscriptionView| x.0 != client_id@);
            assert(old_tree@ == subs_view(node_subs(old_tree.root)));
            assert(self@ == subs_view(node_subs(self.root)));
        }
    }

    /// The subscriptions that `topic` routes to, in the order the tree walk
    /// finds them: under each node, those of its `#` child, then (at the end
    /// of the topic) its own, else those under the child named by the next
    /// level, then those under its `+` child; each client/filter pair once.
    pub closed spec fn spec_lookup(&self, topic: Seq<char>) -> Seq<SubscriptionView> {
        subs_view(spec_collect(self.root, topic_levels(topic), 0, Seq::empty()))
    }

    /// The subscriptions that `topic` routes to, one per client and filter.
    pub fn lookup(&self, topic: &str) -> (r: Vec<Subscription>)
        ensures
            subs_view(r@) == self.spec_lookup(topic@),
            view_keys_distinct(subs_view(r@)),
            forall|x: SubscriptionView| #[trigger] subs_view(r@).contains(x) <==> self@.contains(x)
                && trie_match(topic_levels(x.1), topic_levels(topic@)),
    {
        proof {
            use_type_invariant(self);
        }
        let chars = chars_of(topic);
        let segments = split_chars_exec(chars.as_slice(), '/');
        let mut results: Vec<Subscription> = Vec::new();
        assert(char_vecs_view(segments@).skip(0) =~= char_vecs_view(segments@));
        self.root.collect_matching(&segments, 0, &mut results, Ghost(Seq::empty()));
        proof {
            self.lemma_view_distinct(self.root);
            lemma_subs_view(results@);
            assert forall|x: SubscriptionView| #[trigger] subs_view(results@).contains(x) <==> self@.contains(x)
                && trie_match(topic_levels(x.1), topic_levels(topic@)) by {
                if subs_view(results@).contains(x) {
                    let y = choose|y: Subscription| #[trigger] results@.contains(y) && y.view() == x;
                    assert(sub_levels(y).skip(0) =~= sub_levels(y));
                    assert(node_subs(self.root).contains(y));
                }
                if self@.contains(x) && trie_match(topic_levels(x.1), topic_levels(topic@)) {
                    let y = choose|y: Subscription| #[trigger] node_subs(self.root).contains(y) && y.view() == x;
                    assert(sub_levels(y).skip(0) =~= sub_levels(y));
                    assert(results@.contains(y));
                }
            }
        }
        results
    }

    /// The number of subscriptions (capped at `usize::MAX`).
    pub fn count(&self) -> (r: usize)
        ensures
            r == if self@.len() <= usize::MAX { self@.len() } else { usize::MAX as nat },
    {
        proof {
            use_type_invariant(self);
        }
        self.root.count_node()
    }

    /// All subscriptions, in tree order.
    pub fn all_subscriptions(&self) -> (r: Vec<Subscription>)
        ensures
            subs_view(r@) == self@,
            view_keys_distinct(subs_view(r@)),
    {
        proof {
            use_type_invariant(self);
        }
        let mut results: Vec<Subscription> = Vec::new();
        self.root.collect_all(&mut results, Ghost(Seq::empty()));
        proof {
            self.lemma_view_distinct(self.root);
            assert(results@ =~= node_subs(self.root));
        }
        results
    }
}

} // verus!

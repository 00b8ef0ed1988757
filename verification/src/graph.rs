//! Reachability in a graph of names, and what a depth-first walk knows
//! while it runs.

use vstd::prelude::*;
use crate::crypto;

verus! {

/// Whether each name of `path` but the first is a child of the one before.
pub open spec fn is_path(
    children: spec_fn(crypto::Hash) -> Set<crypto::Hash>,
    path: Seq<crypto::Hash>,
) -> bool {
    forall|i: int| 0 <= i < path.len() - 1 ==> children(#[trigger] path[i]).contains(path[i + 1])
}

/// Whether `path` leads from `from` to `to` along `children`.
pub open spec fn leads(
    children: spec_fn(crypto::Hash) -> Set<crypto::Hash>,
    from: crypto::Hash,
    to: crypto::Hash,
    path: Seq<crypto::Hash>,
) -> bool {
    &&& path.len() > 0
    &&& path[0] == from
    &&& path.last() == to
    &&& is_path(children, path)
}

/// Whether `to` is reached from `from` along `children`, in any number of
/// steps.
pub open spec fn reachable(
    children: spec_fn(crypto::Hash) -> Set<crypto::Hash>,
    from: crypto::Hash,
    to: crypto::Hash,
) -> bool {
    exists|path: Seq<crypto::Hash>| leads(children, from, to, path)
}

/// Whether `v` has no child.
pub open spec fn is_sink(
    children: spec_fn(crypto::Hash) -> Set<crypto::Hash>,
    v: crypto::Hash,
) -> bool {
    children(v) == Set::<crypto::Hash>::empty()
}

/// The childless names that are reached from `from`.
pub open spec fn reachable_sinks(
    children: spec_fn(crypto::Hash) -> Set<crypto::Hash>,
    from: crypto::Hash,
) -> Set<crypto::Hash> {
    Set::new(|v: crypto::Hash| reachable(children, from, v) && is_sink(children, v))
}

/// Every name reaches itself.
pub proof fn lemma_reach_self(
    children: spec_fn(crypto::Hash) -> Set<crypto::Hash>,
    from: crypto::Hash,
)
    ensures
        reachable(children, from, from),
{
    assert(leads(children, from, from, seq![from]));
}

/// A child of a reached name is reached.
pub proof fn lemma_reach_step(
    children: spec_fn(crypto::Hash) -> Set<crypto::Hash>,
    from: crypto::Hash,
    via: crypto::Hash,
    to: crypto::Hash,
)
    requires
        reachable(children, from, via),
        children(via).contains(to),
    ensures
        reachable(children, from, to),
{
    let path = choose|path: Seq<crypto::Hash>| leads(children, from, via, path);
    let longer = path.push(to);
    assert forall|i: int| 0 <= i < longer.len() - 1 implies children(
        #[trigger] longer[i],
    ).contains(longer[i + 1]) by {
        if i < path.len() - 1 {
            assert(longer[i] == path[i]);
            assert(longer[i + 1] == path[i + 1]);
        }
    }
    assert(leads(children, from, to, longer));
}

/// A set that holds `from` and the children of each of its members holds
/// every name on a path that starts at `from`.
pub proof fn lemma_closed_holds_path(
    children: spec_fn(crypto::Hash) -> Set<crypto::Hash>,
    closed: Set<crypto::Hash>,
    path: Seq<crypto::Hash>,
    upto: int,
)
    requires
        0 <= upto < path.len(),
        closed.contains(path[0]),
        forall|u: crypto::Hash, c: crypto::Hash|
            closed.contains(u) && #[trigger] children(u).contains(c) ==> closed.contains(c),
        is_path(children, path),
    ensures
        closed.contains(path[upto]),
    decreases upto,
{
    if upto > 0 {
        lemma_closed_holds_path(children, closed, path, upto - 1);
        assert(children(path[upto - 1]).contains(path[upto - 1 + 1]));
    }
}

/// What holds while a depth-first walk from `from` runs: what it has
/// visited or still holds on its stack is reached from `from`, the children
/// of a visited name are visited or on the stack, and `found` holds the
/// visited names without children.
pub open spec fn walk_inv(
    children: spec_fn(crypto::Hash) -> Set<crypto::Hash>,
    from: crypto::Hash,
    visited: Set<crypto::Hash>,
    stack: Seq<crypto::Hash>,
    found: Set<crypto::Hash>,
) -> bool {
    &&& forall|v: crypto::Hash| visited.contains(v) ==> reachable(children, from, v)
    &&& forall|i: int| 0 <= i < stack.len() ==> reachable(children, from, #[trigger] stack[i])
    &&& visited.contains(from) || stack.contains(from)
    &&& forall|u: crypto::Hash, c: crypto::Hash|
        visited.contains(u) && #[trigger] children(u).contains(c) ==> visited.contains(c)
            || stack.contains(c)
    &&& forall|v: crypto::Hash|
        found.contains(v) <==> visited.contains(v) && is_sink(children, v)
}

/// A walk starts with nothing visited and `from` on its stack.
pub proof fn lemma_walk_start(
    children: spec_fn(crypto::Hash) -> Set<crypto::Hash>,
    from: crypto::Hash,
)
    ensures
        walk_inv(children, from, Set::empty(), seq![from], Set::empty()),
{
    lemma_reach_self(children, from);
    assert(seq![from][0] == from);
}

/// A walk whose stack has run empty has found the childless names reached
/// from `from`, all of them and no others.
pub proof fn lemma_walk_done(
    children: spec_fn(crypto::Hash) -> Set<crypto::Hash>,
    from: crypto::Hash,
    visited: Set<crypto::Hash>,
    found: Set<crypto::Hash>,
)
    requires
        walk_inv(children, from, visited, Seq::empty(), found),
    ensures
        found == reachable_sinks(children, from),
{
    assert forall|v: crypto::Hash| reachable(children, from, v) implies visited.contains(v) by {
        let path = choose|path: Seq<crypto::Hash>| leads(children, from, v, path);
        lemma_closed_holds_path(children, visited, path, path.len() - 1);
    }
    assert(found =~= reachable_sinks(children, from));
}

/// Popping a name that was visited before leaves the walk as it was.
pub proof fn lemma_walk_skip(
    children: spec_fn(crypto::Hash) -> Set<crypto::Hash>,
    from: crypto::Hash,
    visited: Set<crypto::Hash>,
    stack: Seq<crypto::Hash>,
    found: Set<crypto::Hash>,
)
    requires
        stack.len() > 0,
        walk_inv(children, from, visited, stack, found),
        visited.contains(stack.last()),
    ensures
        walk_inv(children, from, visited, stack.drop_last(), found),
{
    let rest = stack.drop_last();
    assert forall|c: crypto::Hash| stack.contains(c) implies visited.contains(c) || rest.contains(
        c,
    ) by {
        let i = choose|i: int| 0 <= i < stack.len() && stack[i] == c;
        if i < rest.len() {
            assert(rest[i] == c);
        }
    }
    assert forall|i: int| 0 <= i < rest.len() implies reachable(
        children,
        from,
        #[trigger] rest[i],
    ) by {
        assert(rest[i] == stack[i]);
    }
}

/// Popping a new name `curr`, marking it visited and pushing its children
/// `pushed` carries the walk on.
pub proof fn lemma_walk_visit(
    children: spec_fn(crypto::Hash) -> Set<crypto::Hash>,
    from: crypto::Hash,
    visited: Set<crypto::Hash>,
    stack: Seq<crypto::Hash>,
    found: Set<crypto::Hash>,
    pushed: Seq<crypto::Hash>,
)
    requires
        stack.len() > 0,
        walk_inv(children, from, visited, stack, found),
        !visited.contains(stack.last()),
        forall|c: crypto::Hash| children(stack.last()).contains(c) <==> pushed.contains(c),
    ensures
        walk_inv(
            children,
            from,
            visited.insert(stack.last()),
            stack.drop_last() + pushed,
            if pushed.len() == 0 {
                found.insert(stack.last())
            } else {
                found
            },
        ),
{
    let curr = stack.last();
    let rest = stack.drop_last();
    let next = rest + pushed;
    let seen = visited.insert(curr);
    assert(reachable(children, from, curr)) by {
        assert(stack[stack.len() - 1] == curr);
    }
    assert forall|c: crypto::Hash| stack.contains(c) implies seen.contains(c) || next.contains(
        c,
    ) by {
        let i = choose|i: int| 0 <= i < stack.len() && stack[i] == c;
        if i < rest.len() {
            assert(next[i] == c);
        }
    }
    assert forall|c: crypto::Hash| pushed.contains(c) implies next.contains(c) by {
        let i = choose|i: int| 0 <= i < pushed.len() && pushed[i] == c;
        assert(next[rest.len() + i] == c);
    }
    assert forall|i: int| 0 <= i < next.len() implies reachable(
        children,
        from,
        #[trigger] next[i],
    ) by {
        if i < rest.len() {
            assert(next[i] == stack[i]);
        } else {
            let c = pushed[i - rest.len()];
            assert(pushed.contains(c));
            lemma_reach_step(children, from, curr, c);
        }
    }
    if pushed.len() == 0 {
        assert forall|c: crypto::Hash| !(#[trigger] children(curr).contains(c)) by {
            if children(curr).contains(c) {
                assert(pushed.contains(c));
            }
        }
        assert(children(curr) =~= Set::<crypto::Hash>::empty());
    } else {
        assert(pushed.contains(pushed[0]));
        assert(children(curr).contains(pushed[0]));
    }
}

} // verus!

use vstd::prelude::*;
use crate::menu::Node;
use crate::resolver::{
    consumes, extends, first_consumer, first_consumer_from, matching, resolution, Resolution,
    Resolved,
};
use crate::text::is_prefix;

verus! {

/// No shortcut of a level begins another shortcut of the same level, so that
/// at most one sibling can take any given input.
pub open spec fn prefix_free(nodes: Seq<Node>) -> bool {
    forall|i: int, j: int|
        0 <= i < nodes.len() && 0 <= j < nodes.len() && i != j ==> !is_prefix(
            nodes[i].shortcut@,
            nodes[j].shortcut@,
        )
}

/// `xs` is `ys` with some elements left out and the rest in their order.
pub open spec fn is_subsequence(xs: Seq<Node>, ys: Seq<Node>) -> bool {
    exists|idx: Seq<int>|
        {
            &&& idx.len() == xs.len()
            &&& forall|a: int, b: int| 0 <= a < b < idx.len() ==> idx[a] < idx[b]
            &&& forall|a: int|
                0 <= a < idx.len() ==> 0 <= #[trigger] idx[a] < ys.len() && xs[a] == ys[idx[a]]
        }
}

/// Two prefixes of one sequence: the shorter begins the longer.
proof fn lemma_prefixes_nest(a: Seq<char>, b: Seq<char>, s: Seq<char>)
    requires
        is_prefix(a, s),
        is_prefix(b, s),
        a.len() <= b.len(),
    ensures
        is_prefix(a, b),
{
    assert(b.subrange(0, a.len() as int) =~= s.subrange(0, a.len() as int));
}

proof fn lemma_first_consumer_from(nodes: Seq<Node>, input: Seq<char>, i: int, j: int)
    requires
        0 <= j <= i < nodes.len(),
        consumes(nodes[i], input),
        forall|k: int| j <= k < i ==> !consumes(#[trigger] nodes[k], input),
    ensures
        first_consumer_from(nodes, input, j) == i,
    decreases i - j,
{
    if j < i {
        lemma_first_consumer_from(nodes, input, i, j + 1);
    }
}

/// On a prefix-free level, a candidate whose shortcut begins the input is
/// the one that takes it.
proof fn lemma_sole_consumer(nodes: Seq<Node>, input: Seq<char>, i: int)
    requires
        prefix_free(nodes),
        0 <= i < nodes.len(),
        consumes(nodes[i], input),
    ensures
        first_consumer(nodes, input) == i,
{
    assert forall|k: int| 0 <= k < i implies !consumes(#[trigger] nodes[k], input) by {
        if consumes(nodes[k], input) {
            if nodes[k].shortcut@.len() <= nodes[i].shortcut@.len() {
                lemma_prefixes_nest(nodes[k].shortcut@, nodes[i].shortcut@, input);
            } else {
                lemma_prefixes_nest(nodes[i].shortcut@, nodes[k].shortcut@, input);
            }
        }
    }
    lemma_first_consumer_from(nodes, input, i, 0);
}

/// Empty input offers every candidate of the level, in order.
pub proof fn lemma_empty_input_offers_all(nodes: Seq<Node>)
    ensures
        resolution(nodes, Seq::empty()) == Resolution::Partial(nodes),
{
}

/// On a prefix-free level, input equal to a terminal entry's shortcut
/// selects that entry.
pub proof fn lemma_exact_terminal(nodes: Seq<Node>, i: int)
    requires
        prefix_free(nodes),
        0 <= i < nodes.len(),
        nodes[i].shortcut@.len() > 0,
        nodes[i].children is None,
    ensures
        resolution(nodes, nodes[i].shortcut@) == Resolution::Complete(nodes[i]),
{
    let input = nodes[i].shortcut@;
    assert(input.subrange(0, input.len() as int) =~= input);
    lemma_sole_consumer(nodes, input, i);
    assert(input.skip(input.len() as int).len() == 0);
}

/// On a prefix-free level, input equal to a group's shortcut offers the
/// group's children, in order, and selects nothing.
pub proof fn lemma_exact_group(nodes: Seq<Node>, i: int)
    requires
        prefix_free(nodes),
        0 <= i < nodes.len(),
        nodes[i].shortcut@.len() > 0,
        nodes[i].children is Some,
    ensures
        resolution(nodes, nodes[i].shortcut@) == Resolution::Partial(nodes[i].children->0@),
{
    let input = nodes[i].shortcut@;
    assert(input.subrange(0, input.len() as int) =~= input);
    lemma_sole_consumer(nodes, input, i);
    assert(input.skip(input.len() as int) =~= Seq::<char>::empty());
    lemma_empty_input_offers_all(nodes[i].children->0@);
}

/// Input made of a group's shortcut followed by the shortcut of a terminal
/// child selects that child, where both levels are prefix-free.
pub proof fn lemma_group_then_terminal(nodes: Seq<Node>, i: int, j: int)
    requires
        prefix_free(nodes),
        0 <= i < nodes.len(),
        nodes[i].shortcut@.len() > 0,
        nodes[i].children is Some,
        prefix_free(nodes[i].children->0@),
        0 <= j < nodes[i].children->0@.len(),
        nodes[i].children->0@[j].shortcut@.len() > 0,
        nodes[i].children->0@[j].children is None,
    ensures
        resolution(nodes, nodes[i].shortcut@ + nodes[i].children->0@[j].shortcut@)
            == Resolution::Complete(nodes[i].children->0@[j]),
{
    let g = nodes[i].shortcut@;
    let c = nodes[i].children->0@;
    let t = c[j].shortcut@;
    let input = g + t;
    assert(input.subrange(0, g.len() as int) =~= g);
    lemma_sole_consumer(nodes, input, i);
    assert(input.skip(g.len() as int) =~= t);
    lemma_exact_terminal(c, j);
}

proof fn lemma_no_consumer_from(nodes: Seq<Node>, input: Seq<char>, j: int)
    requires
        0 <= j <= nodes.len(),
        forall|k: int| 0 <= k < nodes.len() ==> !consumes(#[trigger] nodes[k], input),
    ensures
        first_consumer_from(nodes, input, j) == nodes.len(),
    decreases nodes.len() - j,
{
    if j < nodes.len() {
        lemma_no_consumer_from(nodes, input, j + 1);
    }
}

/// The matches of a level are the candidates that the input begins, each
/// of them kept.
proof fn lemma_matching_members(nodes: Seq<Node>, input: Seq<char>)
    ensures
        forall|a: int|
            0 <= a < matching(nodes, input).len() ==> extends(
                #[trigger] matching(nodes, input)[a],
                input,
            ),
        forall|k: int|
            0 <= k < nodes.len() && extends(#[trigger] nodes[k], input) ==> matching(
                nodes,
                input,
            ).contains(nodes[k]),
    decreases nodes.len(),
{
    if nodes.len() > 0 {
        let prev = nodes.drop_last();
        lemma_matching_members(prev, input);
        assert forall|k: int|
            0 <= k < nodes.len() && extends(#[trigger] nodes[k], input) implies matching(
            nodes,
            input,
        ).contains(nodes[k]) by {
            if k < nodes.len() - 1 {
                assert(prev[k] == nodes[k]);
                let a = choose|a: int| 0 <= a < matching(prev, input).len() && matching(prev, input)[a] == prev[k];
                if extends(nodes.last(), input) {
                    assert(matching(nodes, input)[a] == nodes[k]);
                }
            } else {
                assert(matching(nodes, input).last() == nodes[k]);
            }
        }
    }
}

/// Where no candidate's shortcut begins the input, the input keeps exactly
/// the candidates whose shortcut it begins.
pub proof fn lemma_prefix_keeps_matches(nodes: Seq<Node>, input: Seq<char>)
    requires
        input.len() > 0,
        forall|k: int| 0 <= k < nodes.len() ==> !consumes(#[trigger] nodes[k], input),
    ensures
        resolution(nodes, input) == Resolution::Partial(matching(nodes, input)),
        forall|a: int|
            0 <= a < matching(nodes, input).len() ==> extends(
                #[trigger] matching(nodes, input)[a],
                input,
            ),
        forall|k: int|
            0 <= k < nodes.len() && extends(#[trigger] nodes[k], input) ==> matching(
                nodes,
                input,
            ).contains(nodes[k]),
{
    lemma_no_consumer_from(nodes, input, 0);
    lemma_matching_members(nodes, input);
}

proof fn lemma_matching_none(nodes: Seq<Node>, input: Seq<char>)
    requires
        forall|k: int| 0 <= k < nodes.len() ==> !extends(#[trigger] nodes[k], input),
    ensures
        matching(nodes, input) == Seq::<Node>::empty(),
    decreases nodes.len(),
{
    if nodes.len() > 0 {
        let prev = nodes.drop_last();
        assert forall|k: int| 0 <= k < prev.len() implies !extends(#[trigger] prev[k], input) by {
            assert(prev[k] == nodes[k]);
        }
        lemma_matching_none(prev, input);
    }
}

/// Input that neither begins with nor begins any shortcut of the level
/// matches nothing.
pub proof fn lemma_no_match_is_empty(nodes: Seq<Node>, input: Seq<char>)
    requires
        input.len() > 0,
        forall|k: int|
            0 <= k < nodes.len() ==> !consumes(#[trigger] nodes[k], input) && !extends(
                nodes[k],
                input,
            ),
    ensures
        resolution(nodes, input) == Resolution::Partial(Seq::<Node>::empty()),
{
    lemma_no_consumer_from(nodes, input, 0);
    lemma_matching_none(nodes, input);
}

/// Resolving depends on the candidates and the input alone: two results
/// for the same arguments are the same.
pub proof fn lemma_resolve_deterministic(
    nodes: Seq<Node>,
    input: Seq<char>,
    a: Resolved,
    b: Resolved,
)
    requires
        a@ == resolution(nodes, input),
        b@ == resolution(nodes, input),
    ensures
        a@ == b@,
{
}

/// The level at which resolving `input` against `nodes` comes to rest: the
/// candidates that a `Partial` result is drawn from.
pub open spec fn settled_level(nodes: Seq<Node>, input: Seq<char>) -> Seq<Node>
    decreases nodes,
{
    if input.len() == 0 {
        nodes
    } else {
        let k = first_consumer(nodes, input);
        if 0 <= k < nodes.len() {
            match nodes[k].children {
                Some(c) => settled_level(c@, input.skip(nodes[k].shortcut@.len() as int)),
                None => nodes,
            }
        } else {
            nodes
        }
    }
}

proof fn lemma_subsequence_by(xs: Seq<Node>, ys: Seq<Node>, idx: Seq<int>)
    requires
        idx.len() == xs.len(),
        forall|a: int, b: int| 0 <= a < b < idx.len() ==> idx[a] < idx[b],
        forall|a: int| 0 <= a < idx.len() ==> 0 <= #[trigger] idx[a] < ys.len() && xs[a] == ys[idx[a]],
    ensures
        is_subsequence(xs, ys),
{
}

proof fn lemma_subsequence_self(xs: Seq<Node>)
    ensures
        is_subsequence(xs, xs),
{
    let idx = Seq::new(xs.len(), |a: int| a);
    assert(idx.len() == xs.len());
}

proof fn lemma_subsequence_empty(ys: Seq<Node>)
    ensures
        is_subsequence(Seq::<Node>::empty(), ys),
{
    let idx = Seq::<int>::empty();
    assert(idx.len() == 0);
}

proof fn lemma_matching_subsequence(nodes: Seq<Node>, input: Seq<char>)
    ensures
        is_subsequence(matching(nodes, input), nodes),
    decreases nodes.len(),
{
    if nodes.len() == 0 {
        lemma_subsequence_empty(nodes);
    } else {
        let prev = nodes.drop_last();
        let ms = matching(prev, input);
        lemma_matching_subsequence(prev, input);
        let idx = choose|idx: Seq<int>|
            {
                &&& idx.len() == ms.len()
                &&& forall|a: int, b: int| 0 <= a < b < idx.len() ==> idx[a] < idx[b]
                &&& forall|a: int|
                    0 <= a < idx.len() ==> 0 <= #[trigger] idx[a] < prev.len() && ms[a]
                        == prev[idx[a]]
            };
        if extends(nodes.last(), input) {
            let idx2 = idx.push(nodes.len() - 1);
            assert(forall|a: int| 0 <= a < idx.len() ==> #[trigger] idx2[a] == idx[a]);
            assert(forall|a: int, b: int| 0 <= a < b < idx2.len() ==> idx2[a] < idx2[b]);
            assert(forall|a: int|
                0 <= a < idx2.len() ==> 0 <= #[trigger] idx2[a] < nodes.len() && matching(
                    nodes,
                    input,
                )[a] == nodes[idx2[a]]);
            lemma_subsequence_by(matching(nodes, input), nodes, idx2);
        } else {
            assert(forall|a: int|
                0 <= a < idx.len() ==> 0 <= #[trigger] idx[a] < nodes.len() && ms[a]
                    == nodes[idx[a]]);
            lemma_subsequence_by(matching(nodes, input), nodes, idx);
        }
    }
}

/// The entries of a `Partial` result stand in the order that they have at
/// the level where resolving came to rest.
pub proof fn lemma_partial_keeps_order(nodes: Seq<Node>, input: Seq<char>)
    ensures
        resolution(nodes, input) matches Resolution::Partial(ms) ==> is_subsequence(
            ms,
            settled_level(nodes, input),
        ),
    decreases nodes,
{
    if input.len() == 0 {
        lemma_subsequence_self(nodes);
    } else {
        let k = first_consumer(nodes, input);
        if 0 <= k < nodes.len() {
            match nodes[k].children {
                Some(c) => {
                    lemma_partial_keeps_order(c@, input.skip(nodes[k].shortcut@.len() as int));
                },
                None => {
                    lemma_subsequence_empty(nodes);
                },
            }
        } else {
            lemma_matching_subsequence(nodes, input);
        }
    }
}

} // verus!

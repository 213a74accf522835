use vstd::prelude::*;
use crate::menu::{borrow_nodes, targets, Node};
use crate::text::{is_prefix, starts_with};

verus! {

/// What typed text resolves to: the candidates still in play, or one
/// terminal entry that the text selects.
#[derive(PartialEq, Eq, Debug)]
pub enum Resolved<'a> {
    Partial(Vec<&'a Node>),
    Complete(&'a Node),
}

/// The mathematical value of a resolution.
pub enum Resolution {
    Partial(Seq<Node>),
    Complete(Node),
}

impl<'a> View for Resolved<'a> {
    type V = Resolution;

    open spec fn view(&self) -> Resolution {
        match self {
            Resolved::Partial(v) => Resolution::Partial(targets(v@)),
            Resolved::Complete(n) => Resolution::Complete(**n),
        }
    }
}

/// The input is taken in whole or in part by the node's shortcut.
pub open spec fn consumes(n: Node, input: Seq<char>) -> bool {
    is_prefix(n.shortcut@, input)
}

/// The node's shortcut still extends the input.
pub open spec fn extends(n: Node, input: Seq<char>) -> bool {
    is_prefix(input, n.shortcut@)
}

/// The index of the first node at or after `i` whose shortcut the input
/// begins with, or the length of `nodes` when there is none.
pub open spec fn first_consumer_from(nodes: Seq<Node>, input: Seq<char>, i: int) -> int
    decreases nodes.len() - i,
{
    if i >= nodes.len() {
        nodes.len() as int
    } else if consumes(nodes[i], input) {
        i
    } else {
        first_consumer_from(nodes, input, i + 1)
    }
}

/// The index of the first node whose shortcut the input begins with, or the
/// length of `nodes` when there is none.
pub open spec fn first_consumer(nodes: Seq<Node>, input: Seq<char>) -> int {
    first_consumer_from(nodes, input, 0)
}

/// The nodes whose shortcut the input is a prefix of, in their order.
pub open spec fn matching(nodes: Seq<Node>, input: Seq<char>) -> Seq<Node>
    decreases nodes.len(),
{
    if nodes.len() == 0 {
        Seq::empty()
    } else {
        let prev = matching(nodes.drop_last(), input);
        if extends(nodes.last(), input) {
            prev.push(nodes.last())
        } else {
            prev
        }
    }
}

/// What `input` resolves to against the candidates `nodes`.
///
/// Empty input offers every candidate. Otherwise the first candidate whose
/// shortcut begins the input takes it: a terminal is selected when nothing
/// is left over and rules everything out when something is; a group hands
/// what is left to its children. When no candidate takes the input, the
/// candidates whose shortcut the input begins remain.
pub open spec fn resolution(nodes: Seq<Node>, input: Seq<char>) -> Resolution
    decreases nodes,
{
    if input.len() == 0 {
        Resolution::Partial(nodes)
    } else {
        let k = first_consumer(nodes, input);
        if 0 <= k < nodes.len() {
            let n = nodes[k];
            let rest = input.skip(n.shortcut@.len() as int);
            match n.children {
                Some(c) => resolution(c@, rest),
                None => if rest.len() == 0 {
                    Resolution::Complete(n)
                } else {
                    Resolution::Partial(Seq::empty())
                },
            }
        } else {
            Resolution::Partial(matching(nodes, input))
        }
    }
}

/// Resolves the typed text `command` against the candidates `nodes`.
pub fn resolve<'a>(nodes: Vec<&'a Node>, command: String) -> (r: Resolved<'a>)
    ensures
        r@ == resolution(targets(nodes@), command@),
    decreases targets(nodes@),
{
    let ghost level = targets(nodes@);
    let ghost input = command@;
    let len = command.as_str().unicode_len();
    if len == 0 {
        return Resolved::Partial(nodes);
    }
    let mut partial: Vec<&'a Node> = Vec::new();
    let mut i: usize = 0;
    while i < nodes.len()
        invariant
            level == targets(nodes@),
            input == command@,
            len == input.len(),
            len > 0,
            i <= nodes.len(),
            targets(partial@) == matching(level.take(i as int), input),
            first_consumer(level, input) == first_consumer_from(level, input, i as int),
        decreases nodes.len() - i,
    {
        let n: &'a Node = nodes[i];
        assert(*n == level[i as int]);
        if starts_with(n.shortcut.as_str(), command.as_str()) {
            let ghost prev = partial@;
            partial.push(n);
            assert(targets(partial@) =~= targets(prev).push(*n));
        }
        assert(level.take(i + 1).drop_last() =~= level.take(i as int));
        if starts_with(command.as_str(), n.shortcut.as_str()) {
            let skip = n.shortcut.as_str().unicode_len();
            let rest_str = command.as_str().substring_char(skip, len);
            assert(rest_str@ =~= input.skip(skip as int));
            let rest = String::from_str(rest_str);
            match &n.children {
                Some(c) => {
                    let children = borrow_nodes(c);
                    return resolve(children, rest);
                },
                None => {
                    if skip == len {
                        return Resolved::Complete(n);
                    } else {
                        let none: Vec<&'a Node> = Vec::new();
                        assert(targets(none@) =~= Seq::<Node>::empty());
                        return Resolved::Partial(none);
                    }
                },
            }
        }
        i = i + 1;
    }
    assert(level.take(i as int) =~= level);
    Resolved::Partial(partial)
}

} // verus!

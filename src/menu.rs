use vstd::prelude::*;

verus! {

/// One entry of the menu: a group when it has children, a terminal when it
/// carries a command instead.
#[derive(PartialEq, Eq, Debug)]
pub struct Node {
    /// The text the user types to select or enter this entry.
    pub shortcut: String,
    /// A label for display only.
    pub description: String,
    /// The command to launch; present on terminal entries.
    pub command: Option<String>,
    /// The entries inside a group.
    pub children: Option<Vec<Node>>,
}

/// The launcher's settings: the prefix that switches to raw shell commands,
/// and the root level of the menu.
pub struct Config {
    pub shell_prefix: String,
    pub menu: Vec<Node>,
}

/// The nodes that a sequence of references points to.
pub open spec fn targets(s: Seq<&Node>) -> Seq<Node> {
    s.map_values(|r: &Node| *r)
}

/// References to each node of a level, in order.
pub fn borrow_nodes<'a>(nodes: &'a Vec<Node>) -> (r: Vec<&'a Node>)
    ensures
        targets(r@) == nodes@,
{
    let mut ret: Vec<&'a Node> = Vec::new();
    let mut i: usize = 0;
    while i < nodes.len()
        invariant
            i <= nodes.len(),
            targets(ret@) == nodes@.take(i as int),
        decreases nodes.len() - i,
    {
        let ghost prev = ret@;
        ret.push(&nodes[i]);
        assert(targets(ret@) =~= targets(prev).push(nodes@[i as int]));
        assert(nodes@.take(i + 1) =~= nodes@.take(i as int).push(nodes@[i as int]));
        i = i + 1;
    }
    assert(nodes@.take(i as int) =~= nodes@);
    ret
}

} // verus!

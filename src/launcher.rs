use vstd::prelude::*;
use crate::menu::{borrow_nodes, targets, Config, Node};
use crate::resolver::{resolve, resolution, Resolution, Resolved};
use crate::text::{is_prefix, starts_with};

verus! {

/// What the launcher does once the typed text has changed.
pub enum Reaction<'a> {
    /// The text is a raw shell command in the making: show a hint.
    ShellHint,
    /// Show these entries.
    Show(Vec<&'a Node>),
    /// Launch this terminal entry.
    Launch(&'a Node),
}

/// The reaction owed to `value`: a hint while it starts with the shell
/// prefix, and otherwise what it resolves to in the menu.
pub open spec fn reaction_to(config: Config, value: Seq<char>, r: Reaction) -> bool {
    if is_prefix(config.shell_prefix@, value) {
        r is ShellHint
    } else {
        match resolution(config.menu@, value) {
            Resolution::Partial(ms) => r is Show && targets(r->Show_0@) == ms,
            Resolution::Complete(n) => r is Launch && *r->Launch_0 == n,
        }
    }
}

/// Decides what to do with the text typed so far.
pub fn on_text_changed<'a>(config: &'a Config, value: String) -> (r: Reaction<'a>)
    ensures
        reaction_to(*config, value@, r),
{
    if starts_with(value.as_str(), config.shell_prefix.as_str()) {
        return Reaction::ShellHint;
    }
    match resolve(borrow_nodes(&config.menu), value) {
        Resolved::Partial(nodes) => Reaction::Show(nodes),
        Resolved::Complete(n) => Reaction::Launch(n),
    }
}

/// The shell command in `value` once Enter is pressed: what follows the
/// shell prefix, or nothing when `value` does not start with it.
pub fn shell_command(prefix: &str, value: &str) -> (r: Option<String>)
    ensures
        r is Some <==> is_prefix(prefix@, value@),
        r matches Some(s) ==> s@ == value@.skip(prefix@.len() as int),
{
    if !starts_with(value, prefix) {
        return None;
    }
    let from = prefix.unicode_len();
    let to = value.unicode_len();
    let rest = value.substring_char(from, to);
    assert(rest@ =~= value@.skip(from as int));
    Some(String::from_str(rest))
}

} // verus!

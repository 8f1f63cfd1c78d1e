//! The many-writer side: who sends a command, and what the host's command
//! router is asked to register for each plugin command.

use vstd::prelude::*;

use crate::registry::Plugin;
use crate::text::{copy_string, joined, join_with, strs};

verus! {

/// Who issued a command or a completion query.
#[derive(Debug, Clone, PartialEq, Eq)]
pub enum SimpleCommandSender {
    Console,
    /// A player, by the text form of their UUID.
    Player(String),
}

/// What the host's command router is asked to register for one command.
pub struct CommandRegistration {
    pub name: String,
    pub description: String,
    /// The permission that guards the command; it is granted by default.
    pub permission: String,
}

/// The permission that guards a plugin command.
pub open spec fn permission_of(name: Seq<char>) -> Seq<char> {
    "patchbukkit:"@ + name
}

/// The permission that guards the command `name`.
pub fn command_permission(name: &str) -> (r: String)
    ensures
        r@ == permission_of(name@),
{
    let mut r = String::from_str("patchbukkit:");
    r.append(name);
    r
}

/// What registering each of the plugin's commands asks of the router, in
/// the plugin's order; a command without a description gets an empty one.
pub fn command_registrations(plugin: &Plugin) -> (r: Vec<CommandRegistration>)
    ensures
        r.len() == plugin.commands.len(),
        forall|i: int|
            0 <= i < r.len() ==> {
                &&& (#[trigger] r@[i]).name@ == plugin.commands@[i].0@
                &&& r@[i].permission@ == permission_of(plugin.commands@[i].0@)
                &&& r@[i].description@ == match plugin.commands@[i].1.description {
                    Some(d) => d@,
                    None => Seq::<char>::empty(),
                }
            },
{
    let mut r: Vec<CommandRegistration> = Vec::new();
    let mut i: usize = 0;
    while i < plugin.commands.len()
        invariant
            i <= plugin.commands.len(),
            r.len() == i,
            forall|j: int|
                0 <= j < i ==> {
                    &&& (#[trigger] r@[j]).name@ == plugin.commands@[j].0@
                    &&& r@[j].permission@ == permission_of(plugin.commands@[j].0@)
                    &&& r@[j].description@ == match plugin.commands@[j].1.description {
                        Some(d) => d@,
                        None => Seq::<char>::empty(),
                    }
                },
        decreases plugin.commands.len() - i,
    {
        let (name, spec) = (&plugin.commands[i].0, &plugin.commands[i].1);
        let description = match &spec.description {
            Some(d) => copy_string(d),
            None => String::new(),
        };
        r.push(
            CommandRegistration {
                name: copy_string(name),
                description,
                permission: command_permission(name.as_str()),
            },
        );
        i = i + 1;
    }
    r
}

/// The argument text of a command: its words joined by single spaces, or
/// nothing when there is no word.
pub fn consume_words(words: &Vec<String>) -> (r: Option<String>)
    ensures
        words.len() == 0 ==> r is None,
        words.len() > 0 ==> r is Some && r->0@ == joined(strs(words@), " "@),
{
    if words.len() == 0 {
        None
    } else {
        Some(join_with(words, " "))
    }
}

} // verus!

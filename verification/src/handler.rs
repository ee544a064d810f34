//! The message handler: routes one inbound message to the command
//! interpreter, the configuration store, the story trigger or the moderator,
//! and names the single outward action the transport must perform.
use vstd::prelude::*;

use crate::command::{parse, spec_parse, ParseError};
use crate::config::{spec_apply, ConfigStore};
use crate::moderation::{evaluate, spec_verdict, Verdict};
use crate::text::is_dot;

verus! {

/// The one outward action a message calls for. The transport performs it;
/// the decision is made here.
#[derive(Debug, PartialEq, Eq, Structural, Clone, Copy)]
pub enum Action {
    /// Nothing to do.
    Ignore,
    /// A non-admin tried a privileged command: reply with the rejection.
    PermissionDenied,
    /// A malformed command: reply with its error text.
    CommandRejected(ParseError),
    /// The command was applied: acknowledge and persist the configuration.
    SettingsUpdated,
    /// The message broke the story rules: delete it silently.
    DeleteMessage,
    /// The story trigger: aggregate the channel history and post it.
    GenerateStory,
}

/// The action owed for a message, given the published configuration pair.
pub open spec fn spec_action(
    cfg_channel: u64,
    banned: Set<Seq<char>>,
    text: Seq<char>,
    author_is_bot: bool,
    author_is_admin: bool,
    channel_id: u64,
) -> Action {
    if author_is_bot {
        Action::Ignore
    } else {
        match spec_parse(text) {
            Some(cmd) => match cmd {
                Ok(_) => if author_is_admin {
                    Action::SettingsUpdated
                } else {
                    Action::PermissionDenied
                },
                Err(e) => Action::CommandRejected(e),
            },
            None => {
                if channel_id != cfg_channel {
                    Action::Ignore
                } else if text == "."@ {
                    Action::GenerateStory
                } else if spec_verdict(text, banned) is Reject {
                    Action::DeleteMessage
                } else {
                    Action::Ignore
                }
            },
        }
    }
}

/// Handles one inbound message: commands are interpreted wherever they are
/// posted and, from an admin, mutate the store; everything else in the
/// target channel is the story trigger or goes to the moderator. The store
/// changes exactly when the action is `SettingsUpdated`, and then by the
/// parsed command.
pub fn handle_message(
    store: &mut ConfigStore,
    text: &str,
    author_is_bot: bool,
    author_is_admin: bool,
    channel_id: u64,
) -> (a: Action)
    requires
        old(store).wf(),
    ensures
        final(store).wf(),
        a == spec_action(
            old(store).spec_config().channel_id,
            old(store).spec_config().banned_set(),
            text@,
            author_is_bot,
            author_is_admin,
            channel_id,
        ),
        a is SettingsUpdated ==> (spec_parse(text@) matches Some(Ok(c)) && final(store).observed()
            == spec_apply(
            old(store).spec_config().channel_id,
            old(store).spec_config().banned_set(),
            c,
        )),
        !(a is SettingsUpdated) ==> *final(store) == *old(store),
{
    if author_is_bot {
        return Action::Ignore;
    }
    match parse(text) {
        Some(parsed) => match parsed {
            Ok(cmd) => {
                if !author_is_admin {
                    return Action::PermissionDenied;
                }
                store.apply(&cmd);
                Action::SettingsUpdated
            },
            Err(e) => Action::CommandRejected(e),
        },
        None => {
            if channel_id != store.channel_id() {
                return Action::Ignore;
            }
            if is_dot(text) {
                return Action::GenerateStory;
            }
            let v = evaluate(text, store.rules());
            match v {
                Verdict::Reject => Action::DeleteMessage,
                Verdict::Allow => Action::Ignore,
            }
        },
    }
}

/// The acknowledgement replied after a successful settings change.
pub fn settings_updated_text() -> (r: &'static str)
    ensures
        r@ == "Settings updated"@,
{
    "Settings updated"
}

/// The rejection replied to a non-admin attempting a privileged command.
pub fn permission_denied_text() -> (r: &'static str)
    ensures
        r@ == "Only admins are allowed to update settings."@,
{
    "Only admins are allowed to update settings."
}

} // verus!

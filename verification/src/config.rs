//! The parts of the application configuration that the library's logic reads.

use vstd::prelude::*;
use crate::text::{chars_of, str_eq, string_of};

verus! {

/// Who may run a platform command.
#[derive(Clone, Copy, Debug, PartialEq, Eq, Structural)]
pub enum PlatformCommandPermission {
    Everyone,
    AdminOnly,
}

/// A per-command permission override.
pub struct PlatformCommandConfig {
    pub id: String,
    pub permission: PlatformCommandPermission,
}

/// Messaging-platform settings shared by every platform.
pub struct PlatformsConfig {
    /// Prefix that marks a platform command, `/` by default.
    pub command_prefix: String,
    /// Permission overrides, at most one per command id.
    pub commands: Vec<PlatformCommandConfig>,
}

/// The override recorded for `id` in `entries`, if any.
pub open spec fn permission_override(entries: Seq<PlatformCommandConfig>, id: Seq<char>) -> Option<
    PlatformCommandPermission,
>
    decreases entries.len(),
{
    if entries.len() == 0 {
        None
    } else if entries[0].id@ == id {
        Some(entries[0].permission)
    } else {
        permission_override(entries.drop_first(), id)
    }
}

impl PlatformsConfig {
    /// The default configuration: prefix `/`, no overrides.
    pub fn default() -> (c: Self)
        ensures
            c.command_prefix@ == seq!['/'],
            c.commands@.len() == 0,
    {
        let mut prefix = Vec::new();
        prefix.push('/');
        let command_prefix = string_of(&prefix);
        PlatformsConfig { command_prefix, commands: Vec::new() }
    }

    /// The effective permission of command `id`: its override, else `default`.
    pub fn command_permission(&self, id: &str, default: PlatformCommandPermission) -> (p:
        PlatformCommandPermission)
        ensures
            p == match permission_override(self.commands@, id@) {
                Some(o) => o,
                None => default,
            },
    {
        let mut i: usize = 0;
        assert(self.commands@.skip(0) =~= self.commands@);
        while i < self.commands.len()
            invariant
                i <= self.commands@.len(),
                permission_override(self.commands@, id@) == permission_override(
                    self.commands@.skip(i as int),
                    id@,
                ),
            decreases self.commands.len() - i,
        {
            let ghost rest = self.commands@.skip(i as int);
            assert(rest.drop_first() =~= self.commands@.skip(i + 1));
            if str_eq(self.commands[i].id.as_str(), id) {
                return self.commands[i].permission;
            }
            i = i + 1;
        }
        default
    }

    /// Records `permission` as the override for `id` (replacing an earlier one).
    pub fn set_command_permission(&mut self, id: &str, permission: PlatformCommandPermission)
        ensures
            permission_override(final(self).commands@, id@) == Some(permission),
            final(self).command_prefix == old(self).command_prefix,
            forall|other: Seq<char>|
                other != id@ ==> permission_override(final(self).commands@, other)
                    == permission_override(old(self).commands@, other),
    {
        let ghost old_entries = self.commands@;
        let entry = PlatformCommandConfig { id: string_of(&chars_of(id)), permission };
        self.commands.insert(0, entry);
        assert(self.commands@.drop_first() =~= old_entries);
    }
}

/// Who may talk to the bot in private chats.
pub struct OneBotPrivateChats {
    pub whitelist: Vec<i64>,
    /// Whether users outside the whitelist are answered at all.
    pub allow_non_whitelist: bool,
    /// Messages per minute a user outside the whitelist may send.
    pub non_whitelist_rate_per_minute: u32,
}

/// Which groups the bot answers in, and what wakes it there.
pub struct OneBotGroupChats {
    pub whitelist: Vec<i64>,
    pub allow_non_whitelist: bool,
    pub whitelist_rate_per_minute: u32,
    pub non_whitelist_rate_per_minute: u32,
    /// Prefixes that wake the bot without an @-mention.
    pub trigger_keywords: Vec<String>,
}

/// Settings of the OneBot (QQ) bridge.
pub struct OneBotConfig {
    /// Users who bypass every whitelist and rate limit.
    pub admin_users: Vec<i64>,
    pub private_chats: OneBotPrivateChats,
    pub group_chats: OneBotGroupChats,
    /// Token NapCat must present; empty admits loopback peers only.
    pub access_token: String,
    /// Public base URL of served assets; empty derives it from the request.
    pub asset_base_url: String,
}

impl OneBotConfig {
    /// Open to everyone, with per-minute limits of 3 (private guests),
    /// 30 (whitelisted groups) and 10 (other groups); no keywords, no admins.
    pub fn default() -> (c: Self)
        ensures
            c.admin_users@.len() == 0,
            c.private_chats.whitelist@.len() == 0,
            c.private_chats.allow_non_whitelist,
            c.private_chats.non_whitelist_rate_per_minute == 3,
            c.group_chats.whitelist@.len() == 0,
            c.group_chats.allow_non_whitelist,
            c.group_chats.whitelist_rate_per_minute == 30,
            c.group_chats.non_whitelist_rate_per_minute == 10,
            c.group_chats.trigger_keywords@.len() == 0,
            c.access_token@.len() == 0,
            c.asset_base_url@.len() == 0,
    {
        OneBotConfig {
            admin_users: Vec::new(),
            private_chats: OneBotPrivateChats {
                whitelist: Vec::new(),
                allow_non_whitelist: true,
                non_whitelist_rate_per_minute: 3,
            },
            group_chats: OneBotGroupChats {
                whitelist: Vec::new(),
                allow_non_whitelist: true,
                whitelist_rate_per_minute: 30,
                non_whitelist_rate_per_minute: 10,
                trigger_keywords: Vec::new(),
            },
            access_token: String::new(),
            asset_base_url: String::new(),
        }
    }
}

/// Settings of the image generation plugin that the request logic reads.
pub struct ImageGenerationPluginConfig {
    pub enabled: bool,
    /// `rightcode`, or an OpenAI-compatible backend.
    pub provider_type: String,
    pub model: String,
    /// Keys tried in order; blank ones are skipped.
    pub api_keys: Vec<String>,
    pub base_url: String,
    pub default_aspect_ratio: String,
    pub default_resolution: String,
}

} // verus!

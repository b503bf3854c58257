//! From an accepted OneBot message to the agent's input: the conversation
//! it belongs to, who sent it, its images and files, and the text the
//! turn starts from.
//!
//! Downloads and the plugins' turn hooks are the host's.

use vstd::prelude::*;
use crate::i18n::{text, tr, Language};
use crate::platforms::onebot::{MediaRef, Target, MAX_INBOUND_IMAGES};
use crate::platforms::turn::ImageAttachment;
use crate::platforms::{sniff_image_mime, sniff_spec, ConversationKind, PlatformConversation};
use crate::text::{
    chars_of, i64_decimal, push_all, push_range, push_str, signed_decimal, string_of, trim,
    trim_bounds,
};

verus! {

fn owned(s: &str) -> (r: String)
    ensures
        r@ == s@,
{
    string_of(&chars_of(s))
}

fn decimal_string(n: i64) -> (r: String)
    ensures
        r@ == signed_decimal(n as int),
{
    string_of(&i64_decimal(n))
}

/// The conversation a message to bot account `self_id` belongs to.
pub fn conversation_for(target: Target, self_id: i64) -> (r: PlatformConversation)
    ensures
        r.platform@ == "onebot"@,
        r.account_id@ == signed_decimal(self_id as int),
        match target {
            Target::Private { user_id } => r.kind == ConversationKind::Private && r.conversation_id@
                == signed_decimal(user_id as int),
            Target::Group { group_id } => r.kind == ConversationKind::Group && r.conversation_id@
                == signed_decimal(group_id as int),
        },
{
    match target {
        Target::Private { user_id } => PlatformConversation {
            platform: owned("onebot"),
            account_id: decimal_string(self_id),
            kind: ConversationKind::Private,
            conversation_id: decimal_string(user_id),
        },
        Target::Group { group_id } => PlatformConversation {
            platform: owned("onebot"),
            account_id: decimal_string(self_id),
            kind: ConversationKind::Group,
            conversation_id: decimal_string(group_id),
        },
    }
}

/// The name a sender is shown under: the group card unless it is blank,
/// else the nickname, else `?`.
pub open spec fn sender_name_spec(card: Option<Seq<char>>, nickname: Option<Seq<char>>) -> Seq<char> {
    match card {
        Some(c) if trim(c).len() > 0 => c,
        _ => match nickname {
            Some(n) => n,
            None => "?"@,
        },
    }
}

pub fn sender_display_name(card: Option<&str>, nickname: Option<&str>) -> (r: String)
    ensures
        r@ == sender_name_spec(match card {
            Some(c) => Some(c@),
            None => None,
        }, match nickname {
            Some(n) => Some(n@),
            None => None,
        }),
{
    match card {
        Some(c) => {
            let v = chars_of(c);
            let (lo, hi) = trim_bounds(&v, 0, v.len());
            assert(v@.subrange(0, v@.len() as int) =~= v@);
            if lo < hi {
                return owned(c);
            }
        },
        None => {},
    }
    match nickname {
        Some(n) => owned(n),
        None => owned("?"),
    }
}

/// Whether `user_id` is one of the configured admins.
pub fn is_admin(admin_users: &Vec<i64>, user_id: i64) -> (r: bool)
    ensures
        r == admin_users@.contains(user_id),
{
    let n = admin_users.len();
    let mut i: usize = 0;
    while i < n
        invariant
            n == admin_users@.len(),
            i <= n,
            forall|k: int| 0 <= k < i ==> admin_users@[k] != user_id,
        decreases n - i,
    {
        if admin_users[i] == user_id {
            assert(admin_users@[i as int] == user_id);
            return true;
        }
        i = i + 1;
    }
    false
}

/// The images of a message that are fetched: at most `MAX_INBOUND_IMAGES`,
/// the first ones.
pub fn images_to_fetch(images: Vec<MediaRef>) -> (r: Vec<MediaRef>)
    ensures
        r@ == if images@.len() > MAX_INBOUND_IMAGES {
            images@.take(MAX_INBOUND_IMAGES as int)
        } else {
            images@
        },
{
    let mut images = images;
    if images.len() > MAX_INBOUND_IMAGES {
        images.truncate(MAX_INBOUND_IMAGES);
    }
    images
}

/// An image's bytes as an attachment, typed by their magic number.
pub fn image_attachment(bytes: Vec<u8>) -> (r: ImageAttachment)
    ensures
        r matches ImageAttachment::Binary { mime, data } && mime@ == sniff_spec(bytes@) && data@
            == bytes@,
{
    let mime = owned(sniff_image_mime(bytes.as_slice()));
    ImageAttachment::Binary { mime, data: bytes }
}

/// The note a saved file adds to the message text.
pub open spec fn file_note_spec(name: Seq<char>, path: Seq<char>, lang: Language) -> Seq<char> {
    "["@ + tr(lang, "the user sent a file"@, "用户发来文件"@) + " "@ + name + " "@ + tr(
        lang,
        "saved at"@,
        "已保存于"@,
    ) + " "@ + path + "]"@
}

/// Adds the note of a saved file on a line of its own.
pub fn append_file_note(content: &mut String, name: &str, path: &str, lang: Language)
    ensures
        final(content)@ == (if old(content)@.len() == 0 {
            Seq::empty()
        } else {
            old(content)@ + seq!['\n']
        }) + file_note_spec(name@, path@, lang),
{
    let mut v = chars_of(content.as_str());
    if v.len() > 0 {
        v.push('\n');
    }
    push_str(&mut v, "[");
    push_str(&mut v, text(lang, "the user sent a file", "用户发来文件"));
    push_str(&mut v, " ");
    push_str(&mut v, name);
    push_str(&mut v, " ");
    push_str(&mut v, text(lang, "saved at", "已保存于"));
    push_str(&mut v, " ");
    push_str(&mut v, path);
    push_str(&mut v, "]");
    *content = string_of(&v);
}

/// The notice for a file that could not be fetched.
pub fn file_failure_notice(name: &str, lang: Language) -> (r: String)
    ensures
        r@ == tr(lang, "Couldn't fetch the file: "@, "文件接收失败："@) + name@,
{
    let mut v: Vec<char> = Vec::new();
    push_str(&mut v, text(lang, "Couldn't fetch the file: ", "文件接收失败："));
    push_str(&mut v, name);
    string_of(&v)
}

/// The text a turn starts from, or `None` when the message needs no
/// reply: nothing but an @-mention gets a stand-in text, nothing at all
/// gets no turn; in a group the sender is named first.
pub open spec fn turn_text_spec(
    content: Seq<char>,
    has_images: bool,
    at_self: bool,
    group_sender: Option<(Seq<char>, i64)>,
    lang: Language,
) -> Option<Seq<char>> {
    let base = if content.len() == 0 && !has_images && at_self {
        tr(lang, "(they @-mentioned you without any text)"@, "（对方@了你，但没有其他内容）"@)
    } else {
        content
    };
    if content.len() == 0 && !has_images && !at_self {
        None
    } else {
        match group_sender {
            Some((name, id)) => Some(
                "["@ + tr(lang, "group member"@, "群成员"@) + " "@ + name + "("@ + signed_decimal(
                    id as int,
                ) + ")] "@ + base,
            ),
            None => Some(base),
        }
    }
}

pub fn turn_text(
    content: String,
    has_images: bool,
    at_self: bool,
    group_sender: Option<(&str, i64)>,
    lang: Language,
) -> (r: Option<String>)
    ensures
        match r {
            Some(t) => turn_text_spec(content@, has_images, at_self, match group_sender {
                Some((n, id)) => Some((n@, id)),
                None => None,
            }, lang) == Some(t@),
            None => turn_text_spec(content@, has_images, at_self, match group_sender {
                Some((n, id)) => Some((n@, id)),
                None => None,
            }, lang) is None,
        },
{
    let empty = content.as_str().is_empty();
    if empty && !has_images && !at_self {
        return None;
    }
    let base = if empty && !has_images && at_self {
        owned(text(lang, "(they @-mentioned you without any text)", "（对方@了你，但没有其他内容）"))
    } else {
        content
    };
    match group_sender {
        Some((name, id)) => {
            let mut v: Vec<char> = Vec::new();
            push_str(&mut v, "[");
            push_str(&mut v, text(lang, "group member", "群成员"));
            push_str(&mut v, " ");
            push_str(&mut v, name);
            push_str(&mut v, "(");
            let d = i64_decimal(id);
            push_all(&mut v, &d);
            push_str(&mut v, ")] ");
            push_str(&mut v, base.as_str());
            Some(string_of(&v))
        },
        None => Some(base),
    }
}

/// The per-conversation instructions of a model route, as system context,
/// when the route has a non-blank extra prompt.
pub open spec fn conversation_instructions_spec(extra_prompt: Option<Seq<char>>) -> Option<Seq<char>> {
    match extra_prompt {
        Some(p) if trim(p).len() > 0 => Some(
            "<qq-conversation-instructions>\n"@ + trim(p) + "\n</qq-conversation-instructions>"@,
        ),
        _ => None,
    }
}

pub fn conversation_instructions(extra_prompt: Option<&str>) -> (r: Option<String>)
    ensures
        match r {
            Some(t) => conversation_instructions_spec(match extra_prompt {
                Some(p) => Some(p@),
                None => None,
            }) == Some(t@),
            None => conversation_instructions_spec(match extra_prompt {
                Some(p) => Some(p@),
                None => None,
            }) is None,
        },
{
    match extra_prompt {
        Some(p) => {
            let v = chars_of(p);
            let (lo, hi) = trim_bounds(&v, 0, v.len());
            assert(v@.subrange(0, v@.len() as int) =~= v@);
            if lo < hi {
                let mut out: Vec<char> = Vec::new();
                push_str(&mut out, "<qq-conversation-instructions>\n");
                push_range(&mut out, &v, lo, hi);
                push_str(&mut out, "\n</qq-conversation-instructions>");
                Some(string_of(&out))
            } else {
                None
            }
        },
        None => None,
    }
}

} // verus!

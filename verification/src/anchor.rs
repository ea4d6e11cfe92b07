//! Message anchors.
//!
//! An [`Anchor`] pins a chat message by its numeric identifiers — an optional
//! guild, a channel, and the message itself — and renders the canonical link
//! to it.  The traits let other types say whether they can produce an anchor.

use crate::digits::plain_decimal;
use vstd::prelude::*;

verus! {

/// Why no anchor could be produced.
#[derive(Clone, Copy, Debug, PartialEq, Eq, Structural)]
pub enum AnchorError {
    /// The value is not attached to any message.
    Floating,
}

/// A value that may be able to name the message it is anchored to.
pub trait TryAsAnchor {
    /// The anchor of the message this value is attached to, if any.
    fn try_as_anchor(&self) -> Result<Anchor, AnchorError>;

    /// Whether the value is attached to a message.
    fn is_anchored(&self) -> bool {
        self.try_as_anchor().is_ok()
    }

    /// Whether the value is attached to no message.
    fn is_floating(&self) -> bool {
        self.try_as_anchor().is_err()
    }
}

/// A value that always names the message it is anchored to.
pub trait AsAnchor {
    /// The anchor of the message this value is attached to.
    fn as_anchor(&self) -> Anchor;
}

impl<T: AsAnchor> TryAsAnchor for T {
    fn try_as_anchor(&self) -> Result<Anchor, AnchorError> {
        Ok(self.as_anchor())
    }
}

/// The web origin all message links start from.
pub open spec fn link_base() -> Seq<char> {
    seq![
        'h',
        't',
        't',
        'p',
        's',
        ':',
        '/',
        '/',
        'd',
        'i',
        's',
        'c',
        'o',
        'r',
        'd',
        '.',
        'c',
        'o',
        'm',
        '/',
        'c',
        'h',
        'a',
        'n',
        'n',
        'e',
        'l',
        's',
    ]
}

/// The identifiers of one message: its guild when sent in one, its channel,
/// and the message itself.
#[derive(Clone, Copy, Debug, PartialEq, Eq, Structural)]
pub struct Anchor {
    pub guild_id: Option<u64>,
    pub channel_id: u64,
    pub message_id: u64,
}

impl Anchor {
    /// An anchor from its three identifiers.
    pub fn new(guild_id: Option<u64>, channel_id: u64, message_id: u64) -> (r: Self)
        ensures
            r == (Anchor { guild_id, channel_id, message_id }),
    {
        Anchor { guild_id, channel_id, message_id }
    }

    /// An anchor to a message outside any guild.
    pub fn new_private(channel_id: u64, message_id: u64) -> (r: Self)
        ensures
            r == (Anchor { guild_id: None, channel_id, message_id }),
    {
        Self::new(None, channel_id, message_id)
    }

    /// An anchor to a message in a guild.
    pub fn new_guild(guild_id: u64, channel_id: u64, message_id: u64) -> (r: Self)
        ensures
            r == (Anchor { guild_id: Some(guild_id), channel_id, message_id }),
    {
        Self::new(Some(guild_id), channel_id, message_id)
    }

    /// The link of the anchored message: the origin, the guild when there is
    /// one, then channel and message, each a decimal path segment.
    pub open spec fn spec_link(self) -> Seq<char> {
        link_base() + (match self.guild_id {
            Some(g) => seq!['/'] + plain_decimal(g as nat),
            None => Seq::<char>::empty(),
        }) + seq!['/'] + plain_decimal(self.channel_id as nat) + seq!['/'] + plain_decimal(
            self.message_id as nat,
        )
    }

    /// Renders the link of the anchored message.
    pub fn link(self) -> (r: String)
        ensures
            r@ == self.spec_link(),
    {
        proof {
            reveal_strlit("https://discord.com/channels");
            reveal_strlit("/");
            assert("https://discord.com/channels"@ =~= link_base());
        }
        let mut url = String::from_str("https://discord.com/channels");
        match self.guild_id {
            Some(g) => {
                url.append("/");
                crate::digits::push_plain_decimal(&mut url, g);
            },
            None => {},
        }
        url.append("/");
        crate::digits::push_plain_decimal(&mut url, self.channel_id);
        url.append("/");
        crate::digits::push_plain_decimal(&mut url, self.message_id);
        proof {
            assert(url@ =~= self.spec_link());
        }
        url
    }
}

} // verus!

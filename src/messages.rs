//! Plain data carried by messages between client and server.
use vstd::prelude::*;
use vstd::string::*;
use crate::spawn::{decimal, decimal_string};

verus! {

/// A size in pixels.
#[derive(Clone, Copy, Debug, PartialEq, Eq, Structural)]
pub struct SizeInPixels {
    pub height: usize,
    pub width: usize,
}

/// What a client knows of its terminal's pixel geometry; each part may be
/// unknown.
#[derive(Clone, Copy, Debug, PartialEq, Eq, Structural)]
pub struct PixelDimensions {
    pub text_area_size: Option<SizeInPixels>,
    pub character_cell_size: Option<SizeInPixels>,
}

impl PixelDimensions {
    /// Takes each part that `other` knows; keeps the rest.
    pub fn merge(&mut self, other: PixelDimensions)
        ensures
            final(self).text_area_size == (if other.text_area_size is Some {
                other.text_area_size
            } else {
                old(self).text_area_size
            }),
            final(self).character_cell_size == (if other.character_cell_size is Some {
                other.character_cell_size
            } else {
                old(self).character_cell_size
            }),
    {
        if let Some(text_area_size) = other.text_area_size {
            self.text_area_size = Some(text_area_size);
        }
        if let Some(character_cell_size) = other.character_cell_size {
            self.character_cell_size = Some(character_cell_size);
        }
    }
}

/// A running session: its id, the name of its IPC endpoint, and the alias
/// its user gave it.
#[derive(Clone, Debug, PartialEq, Eq, Hash)]
pub struct Session {
    pub id: u64,
    pub conn_name: String,
    pub alias: String,
}

/// How a client attaches to a session.
#[derive(Clone, Copy, Debug, PartialEq, Eq, Structural)]
pub enum ClientType {
    Reader,
    Writer,
}

/// A pane, by id, and whether it is a plugin pane.
#[derive(Clone, Copy, Debug, PartialEq, Eq, Structural)]
pub struct PaneReference {
    pub pane_id: u32,
    pub is_plugin: bool,
}

/// One entry of a terminal's color palette.
#[derive(Clone, Debug, PartialEq, Eq)]
pub struct ColorRegister {
    pub index: usize,
    pub color: String,
}

/// Why a client is told to exit.
#[derive(Clone, Debug, PartialEq, Eq)]
pub enum ExitReason {
    Normal,
    NormalDetached,
    ForceDetached,
    CannotAttach,
    Disconnect,
    WebClientsForbidden,
    KickedByHost,
    CustomExitStatus(i32),
    Error(String),
}

/// `n` in decimal, with a leading `-` when negative.
pub open spec fn signed_decimal(n: int) -> Seq<char> {
    if n < 0 {
        seq!['-'] + decimal((-n) as nat)
    } else {
        decimal(n as nat)
    }
}

/// How a client that lost its server is told to get back: attach to the
/// named session, or, with no name, list the sessions first.
pub open spec fn session_tip(session_name: Option<Seq<char>>) -> Seq<char> {
    match session_name {
        Some(name) => "`zellij attach "@ + name + "`"@,
        None => "see `zellij ls` and `zellij attach`"@,
    }
}

/// The message shown to a client that exits for `reason`.
pub open spec fn exit_message(reason: ExitReason, session_name: Option<Seq<char>>) -> Seq<char> {
    match reason {
        ExitReason::Normal => "Bye from Zellij!"@,
        ExitReason::NormalDetached => "Session detached"@,
        ExitReason::ForceDetached => "Session was detached from this client (possibly because another client connected)"@,
        ExitReason::CannotAttach => "Session attached to another client. Use --force flag to force connect."@,
        ExitReason::WebClientsForbidden => "Web clients are not allowed in this session - cannot attach"@,
        ExitReason::Disconnect => "\nYour zellij client lost connection to the zellij server.\n\nAs a safety measure, you have been disconnected from the current zellij session.\nHowever, the session should still exist and none of your data should be lost.\n\nThis usually means that your terminal didn't process server messages quick\nenough. Maybe your system is currently under high load, or your terminal\nisn't performant enough.\n\nThere are a few things you can try now:\n    - Reattach to your previous session and see if it works out better this\n      time: "@ + session_tip(session_name) + "\n    - Try using a faster (maybe GPU-accelerated) terminal emulator\n    "@,
        ExitReason::KickedByHost => "Disconnected by host"@,
        ExitReason::CustomExitStatus(status) => "Exit "@ + signed_decimal(status as int),
        ExitReason::Error(e) => "Error occurred in server:\n"@ + e@,
    }
}

fn signed_decimal_string(n: i32) -> (r: String)
    ensures
        r@ == signed_decimal(n as int),
{
    if n < 0 {
        let magnitude: u32 = if n == i32::MIN {
            2147483648u32
        } else {
            (-n) as u32
        };
        let mut s = String::from_str("-");
        proof {
            reveal_strlit("-");
        }
        s.append(decimal_string(magnitude).as_str());
        assert(s@ =~= signed_decimal(n as int));
        s
    } else {
        decimal_string(n as u32)
    }
}

impl ExitReason {
    /// The message shown to the client; `session_name` is the session to
    /// suggest reattaching to after a lost connection.
    pub fn message(&self, session_name: Option<&str>) -> (r: String)
        ensures
            r@ == exit_message(
                *self,
                match session_name {
                    Some(s) => Some(s@),
                    None => None,
                },
            ),
    {
        match self {
            ExitReason::Normal => String::from_str("Bye from Zellij!"),
            ExitReason::NormalDetached => String::from_str("Session detached"),
            ExitReason::ForceDetached => String::from_str(
                "Session was detached from this client (possibly because another client connected)",
            ),
            ExitReason::CannotAttach => String::from_str(
                "Session attached to another client. Use --force flag to force connect.",
            ),
            ExitReason::WebClientsForbidden => String::from_str(
                "Web clients are not allowed in this session - cannot attach",
            ),
            ExitReason::Disconnect => {
                let mut s = String::from_str("\nYour zellij client lost connection to the zellij server.\n\nAs a safety measure, you have been disconnected from the current zellij session.\nHowever, the session should still exist and none of your data should be lost.\n\nThis usually means that your terminal didn't process server messages quick\nenough. Maybe your system is currently under high load, or your terminal\nisn't performant enough.\n\nThere are a few things you can try now:\n    - Reattach to your previous session and see if it works out better this\n      time: ");
                match session_name {
                    Some(name) => {
                        s.append("`zellij attach ");
                        s.append(name);
                        s.append("`");
                    },
                    None => {
                        s.append("see `zellij ls` and `zellij attach`");
                    },
                }
                s.append("\n    - Try using a faster (maybe GPU-accelerated) terminal emulator\n    ");
                s
            },
            ExitReason::KickedByHost => String::from_str("Disconnected by host"),
            ExitReason::CustomExitStatus(status) => {
                let mut s = String::from_str("Exit ");
                s.append(signed_decimal_string(*status).as_str());
                s
            },
            ExitReason::Error(e) => {
                let mut s = String::from_str("Error occurred in server:\n");
                s.append(e.as_str());
                s
            },
        }
    }
}

} // verus!

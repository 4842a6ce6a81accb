//! Getting a code or a link to somebody.
//!
//! These are the only two messages the pages send. Neither can fail: a
//! sign-in page answers identically whether or not an address exists and
//! whether or not delivery succeeded.

use vstd::prelude::*;

verus! {

/// Which of the two messages a notice stands for.
#[derive(Clone, Copy, Debug, PartialEq, Eq, Structural)]
pub enum Message {
    MagicLink,
    LoginCode,
}

/// What is written to the log in place of a message: to whom it was, what
/// it carried in full, and the warning beside it.
#[derive(Clone, Debug, PartialEq, Eq)]
pub struct Notice {
    pub message: Message,
    pub to: String,
    pub carried: String,
    pub warning: &'static str,
}

/// A sender of the two messages. One that delivered a message says nothing;
/// one that could not hands back what is to be logged.
pub trait LoginMailer {
    /// A one-click sign-in link.
    fn send_magic_link(&self, to: &str, url: &str) -> (res: Option<Notice>);

    /// A short code to type back in.
    fn send_login_code(&self, to: &str, code: &str) -> (res: Option<Notice>);
}

/// The default: the message goes to the log instead of being sent, in full,
/// because a sign-in link nobody can read is no use at all.
#[derive(Clone, Copy, Debug, PartialEq, Eq)]
pub struct LogOnlyMailer;

impl LoginMailer for LogOnlyMailer {
    fn send_magic_link(&self, to: &str, url: &str) -> (res: Option<Notice>)
        ensures
            res matches Some(notice) && notice.message == Message::MagicLink && notice.to@ == to@
                && notice.carried@ == url@ && notice.warning@
                == "no mailer is configured — the sign-in link is only in this log"@,
    {
        Some(
            Notice {
                message: Message::MagicLink,
                to: to.to_owned(),
                carried: url.to_owned(),
                warning: "no mailer is configured — the sign-in link is only in this log",
            },
        )
    }

    fn send_login_code(&self, to: &str, code: &str) -> (res: Option<Notice>)
        ensures
            res matches Some(notice) && notice.message == Message::LoginCode && notice.to@ == to@
                && notice.carried@ == code@ && notice.warning@
                == "no mailer is configured — the sign-in code is only in this log"@,
    {
        Some(
            Notice {
                message: Message::LoginCode,
                to: to.to_owned(),
                carried: code.to_owned(),
                warning: "no mailer is configured — the sign-in code is only in this log",
            },
        )
    }
}

/// The default sender, for pages that were not given one.
pub fn log_only() -> (res: LogOnlyMailer)
    ensures
        res == LogOnlyMailer,
{
    LogOnlyMailer
}

} // verus!

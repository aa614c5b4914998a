use vstd::prelude::*;

verus! {

/// A notification for the operator: something to act on, a plain message,
/// or an error report.
#[derive(Debug, Clone, PartialEq, Eq)]
pub enum Signal {
    Action(String),
    Msg(String),
    Failure(String),
}

/// The message-relay channel configuration: API token and chat id.
#[derive(Debug, Clone, PartialEq, Eq)]
pub struct TgConfig {
    pub token: String,
    pub chat_id: String,
}

/// The rendered text of a signal.
pub open spec fn signal_text(s: Signal) -> Seq<char> {
    match s {
        Signal::Action(m) => "Action required: "@ + m@,
        Signal::Msg(m) => m@,
        Signal::Failure(m) => "Error occured: "@ + m@,
    }
}

impl Signal {
    /// Render the signal for display or relay.
    pub fn render(&self) -> (r: String)
        ensures
            r@ == signal_text(*self),
    {
        match self {
            Signal::Msg(m) => m.clone(),
            Signal::Action(m) => {
                let mut out: Vec<char> = Vec::new();
                crate::strutil::push_str_chars(&mut out, "Action required: ");
                crate::strutil::push_str_chars(&mut out, m.as_str());
                crate::strutil::chars_to_string(&out)
            },
            Signal::Failure(m) => {
                let mut out: Vec<char> = Vec::new();
                crate::strutil::push_str_chars(&mut out, "Error occured: ");
                crate::strutil::push_str_chars(&mut out, m.as_str());
                crate::strutil::chars_to_string(&out)
            },
        }
    }
}

}

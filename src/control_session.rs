//! The control-plane session rules: the messages exchanged as JSON text, the
//! handshake that learns the entry endpoint and the keep-alive interval, and
//! the answer owed to each inbound message once the session is active.
use vstd::prelude::*;
use vstd::string::StringExecFns;

verus! {

/// An inbound control message, told apart by its `type`.
pub enum Inbound {
    MessageServer { view_uri: String },
    Seat { keep_interval_sec: i64 },
    Ping,
    Reconnect { audience_token: String, wait_time_sec: i64 },
    ServerTime,
    Stream,
    Schedule,
    Statistics,
    /// A kind this client does not know.
    Other,
}

/// An outbound control message.
pub enum Outbound {
    StartWatching,
    KeepSeat,
    Pong,
    PostComment { text: String },
}

/// What `serde_json` writes for a string: the JSON string literal, quoted and
/// escaped.
pub uninterp spec fn json_string_of(s: Seq<char>) -> Seq<char>;

/// Relies on `serde_json::Value`'s `Display` for a `Value::String`: the JSON
/// string literal of the text, which depends on the text alone.
#[verifier::external_body]
fn json_string(s: &str) -> (r: String)
    ensures
        r@ == json_string_of(s@),
{
    serde_json::Value::String(s.to_string()).to_string()
}

pub open spec fn start_watching_text() -> Seq<char> {
    "{\"type\":\"startWatching\",\"data\":{\"reconnect\":false}}"@
}

pub open spec fn keep_seat_text() -> Seq<char> {
    "{\"type\":\"keepSeat\"}"@
}

pub open spec fn pong_text() -> Seq<char> {
    "{\"type\":\"pong\"}"@
}

pub open spec fn post_comment_head() -> Seq<char> {
    "{\"type\":\"postComment\",\"data\":{\"text\":"@
}

pub open spec fn post_comment_tail() -> Seq<char> {
    "}}"@
}

/// The wire text of an outbound message.
pub open spec fn outbound_text(m: Outbound) -> Seq<char> {
    match m {
        Outbound::StartWatching => start_watching_text(),
        Outbound::KeepSeat => keep_seat_text(),
        Outbound::Pong => pong_text(),
        Outbound::PostComment { text } => post_comment_head() + json_string_of(text@)
            + post_comment_tail(),
    }
}

/// The wire text of a comment post whose text is already the JSON string
/// literal `quoted`.
pub fn post_comment_text(quoted: &str) -> (r: String)
    ensures
        r@ == post_comment_head() + quoted@ + post_comment_tail(),
{
    let mut s = String::from_str("{\"type\":\"postComment\",\"data\":{\"text\":");
    s.append(quoted);
    s.append("}}");
    s
}

impl Outbound {
    /// The JSON text sent for this message.
    pub fn text(&self) -> (r: String)
        ensures
            r@ == outbound_text(*self),
    {
        match self {
            Outbound::StartWatching => String::from_str(
                "{\"type\":\"startWatching\",\"data\":{\"reconnect\":false}}",
            ),
            Outbound::KeepSeat => String::from_str("{\"type\":\"keepSeat\"}"),
            Outbound::Pong => String::from_str("{\"type\":\"pong\"}"),
            Outbound::PostComment { text } => {
                let quoted = json_string(text.as_str());
                post_comment_text(quoted.as_str())
            },
        }
    }
}

/// What the handshake has learned so far.
pub struct Handshake {
    pub view_uri: Option<String>,
    pub keep_interval_sec: Option<i64>,
}

/// The settings of an active session, learned by the handshake.
pub struct SessionConfig {
    pub view_uri: String,
    pub keep_interval_sec: i64,
}

/// The view of an optional string.
pub open spec fn opt_text(o: Option<String>) -> Option<Seq<char>> {
    match o {
        Some(s) => Some(s@),
        None => None,
    }
}

/// The handshake state after message `m`: a message-server assignment sets
/// the entry endpoint, a seat assignment sets the keep-alive interval, and
/// everything else leaves it as it was.
pub open spec fn handshake_next(
    uri: Option<Seq<char>>,
    interval: Option<i64>,
    m: Inbound,
) -> (Option<Seq<char>>, Option<i64>) {
    match m {
        Inbound::MessageServer { view_uri } => (Some(view_uri@), interval),
        Inbound::Seat { keep_interval_sec } => (uri, Some(keep_interval_sec)),
        _ => (uri, interval),
    }
}

impl Handshake {
    pub open spec fn state(&self) -> (Option<Seq<char>>, Option<i64>) {
        (opt_text(self.view_uri), self.keep_interval_sec)
    }

    /// Nothing learned yet.
    pub fn new() -> (r: Self)
        ensures
            r.state() == (None::<Seq<char>>, None::<i64>),
    {
        Handshake { view_uri: None, keep_interval_sec: None }
    }

    /// Takes in one inbound message received during the handshake.
    pub fn on_message(&mut self, m: Inbound)
        ensures
            final(self).state() == handshake_next(old(self).state().0, old(self).state().1, m),
    {
        match m {
            Inbound::MessageServer { view_uri } => {
                self.view_uri = Some(view_uri);
            },
            Inbound::Seat { keep_interval_sec } => {
                self.keep_interval_sec = Some(keep_interval_sec);
            },
            _ => {},
        }
    }

    /// Both the entry endpoint and the keep-alive interval are known.
    pub fn is_complete(&self) -> (r: bool)
        ensures
            r == (self.state().0 is Some && self.state().1 is Some),
    {
        self.view_uri.is_some() && self.keep_interval_sec.is_some()
    }

    /// The session's settings, once both are known.
    pub fn finish(self) -> (r: Option<SessionConfig>)
        ensures
            r is Some <==> (self.state().0 is Some && self.state().1 is Some),
            r matches Some(c) ==> Some(c.view_uri@) == self.state().0 && Some(c.keep_interval_sec)
                == self.state().1,
    {
        match (self.view_uri, self.keep_interval_sec) {
            (Some(view_uri), Some(keep_interval_sec)) => Some(
                SessionConfig { view_uri, keep_interval_sec },
            ),
            _ => None,
        }
    }
}

impl SessionConfig {
    /// The entry endpoint to poll.
    pub fn view_uri(&self) -> (r: &String)
        ensures
            r@ == self.view_uri@,
    {
        &self.view_uri
    }

    /// The period of the keep-alive ticker, in seconds, as an unsigned count
    /// (the two's-complement reading of the learned value).
    pub fn keep_alive_secs(&self) -> (r: u64)
        ensures
            r == self.keep_interval_sec as u64,
    {
        self.keep_interval_sec as u64
    }
}

/// The answer owed to an inbound message of an active session.
pub enum Reaction {
    Ignore,
    /// Send this message.
    Reply(Outbound),
    /// The server asks for a new handshake with this token after this delay.
    /// No reconnection policy acts on it yet: it is handed to the caller.
    Reconnect { audience_token: String, wait_time_sec: i64 },
}

/// A ping is answered with one pong, a reconnect instruction is handed to
/// the caller, and every other message is ignored.
pub fn dispatch(m: Inbound) -> (r: Reaction)
    ensures
        match m {
            Inbound::Ping => r == Reaction::Reply(Outbound::Pong),
            Inbound::Reconnect { audience_token, wait_time_sec } => r matches Reaction::Reconnect {
                audience_token: t,
                wait_time_sec: w,
            } && t@ == audience_token@ && w == wait_time_sec,
            _ => r is Ignore,
        },
{
    match m {
        Inbound::Ping => Reaction::Reply(Outbound::Pong),
        Inbound::Reconnect { audience_token, wait_time_sec } => Reaction::Reconnect {
            audience_token,
            wait_time_sec,
        },
        _ => Reaction::Ignore,
    }
}

/// Whichever order the two assignments of the handshake come in, it ends
/// complete, with the entry endpoint and the interval that they carried.
pub proof fn lemma_handshake_order(view_uri: String, keep_interval_sec: i64)
    ensures
        ({
            let ms = Inbound::MessageServer { view_uri };
            let seat = Inbound::Seat { keep_interval_sec };
            let a = handshake_next(None, None, ms);
            let a2 = handshake_next(a.0, a.1, seat);
            let b = handshake_next(None, None, seat);
            let b2 = handshake_next(b.0, b.1, ms);
            &&& a2 == b2
            &&& a2 == (Some(view_uri@), Some(keep_interval_sec))
        }),
{
}

} // verus!

//! Notifications to a Gotify server: the client's address and token, and
//! the texts of a task-completion notice. Sending them is left to the
//! caller, which owns the network.

use vstd::prelude::*;

verus! {

/// The priority of every notification.
pub const NOTIFICATION_PRIORITY: u8 = 5;

/// A client of a Gotify server.
pub struct GotifyClient {
    url: String,
    token: String,
}

impl GotifyClient {
    /// The server's base address.
    pub closed spec fn url_of(&self) -> Seq<char> {
        self.url@
    }

    /// The application token.
    pub closed spec fn token_of(&self) -> Seq<char> {
        self.token@
    }

    /// A client of the server at `url` with application token `token`.
    pub fn new(url: String, token: String) -> (c: Self)
        ensures
            c.url_of() == url@,
            c.token_of() == token@,
    {
        GotifyClient { url, token }
    }

    /// The application token, sent in the `X-Gotify-Key` header.
    pub fn token(&self) -> (r: &str)
        ensures
            r@ == self.token_of(),
    {
        self.token.as_str()
    }

    /// The address messages are posted to: the base address followed by
    /// `/message`.
    pub fn message_endpoint(&self) -> (r: String)
        ensures
            r@ == self.url_of() + "/message"@,
    {
        let mut r = self.url.clone();
        r.append("/message");
        r
    }
}

/// The title of the notice that a task is complete.
pub fn task_complete_title(task_name: &str) -> (r: String)
    ensures
        r@ == "[RustMUD] 任务完成: "@ + task_name@,
{
    let mut r = String::from_str("[RustMUD] 任务完成: ");
    r.append(task_name);
    r
}

/// The body of the notice that a task is complete: its details, a blank
/// line and the time it was sent.
pub fn task_complete_message(details: &str, time: &str) -> (r: String)
    ensures
        r@ == details@ + "\n\n时间: "@ + time@,
{
    let mut r = String::from_str(details);
    r.append("\n\n时间: ");
    r.append(time);
    r
}

} // verus!

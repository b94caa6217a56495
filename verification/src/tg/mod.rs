//! The client side of the messaging platform's bot interface: how requests
//! are addressed, how answers are unwrapped, and the cursor that pages
//! through the updates.

pub mod stream;
pub mod types;

pub use self::stream::update_stream;
pub use self::stream::ConfigError;
pub use self::stream::Cursor;
pub use self::stream::Step;
pub use self::stream::UpdateStream;
pub use self::types::Chat;
pub use self::types::GetUpdates;
pub use self::types::Message;
pub use self::types::Response;
pub use self::types::SendMessage;
pub use self::types::Update;
pub use self::types::User;

use vstd::prelude::*;
use vstd::string::StringExecFns;

verus! {

/// The address of the method `method` for the bot that `token` names.
pub open spec fn method_url(token: Seq<char>, method: Seq<char>) -> Seq<char> {
    "https://api.telegram.org/"@ + "bot"@ + token + "/"@ + method
}

/// A call of one of the platform's methods: the method's name, and the
/// arguments that go with it, if the method takes any.
#[derive(Clone, Debug, PartialEq, Eq)]
pub struct Request<T> {
    pub method: &'static str,
    pub body: Option<T>,
}

/// A client for the platform's bot interface. Its methods correspond to the
/// methods of that interface.
pub struct Client<S> {
    token: String,
    send: S,
}

/// Unwraps an answer: the result where the platform reports success, an
/// error where it does not. An answer that reports success carries a result.
pub fn to_result<T>(r: Response<T>) -> (res: Result<T, ()>)
    requires
        r.ok ==> r.result is Some,
    ensures
        r.ok ==> res == Ok::<T, ()>(r.result->0),
        !r.ok ==> res == Err::<T, ()>(()),
{
    if r.ok {
        Ok(r.result.unwrap())
    } else {
        Err(())
    }
}

impl<S> Client<S> {
    /// The token that names the bot.
    pub closed spec fn token(&self) -> Seq<char> {
        self.token@
    }

    /// The function that carries a request to the platform.
    pub closed spec fn sender(&self) -> S {
        self.send
    }

    /// Creates a client. `token` is the token that the platform gave the
    /// bot; `send` is what will carry an address and a request body to the
    /// platform and bring back the body of the answer.
    pub fn new(token: String, send: S) -> (client: Client<S>)
        ensures
            client.token() == token@,
            client.sender() == send,
    {
        Client { token: token, send: send }
    }

    /// The address of the method `method` (such as "getUpdates").
    pub fn request_url(&self, method: &str) -> (url: String)
        ensures
            url@ == method_url(self.token(), method@),
    {
        let mut url = String::from_str("https://api.telegram.org/");
        url.append("bot");
        url.append(self.token.as_str());
        url.append("/");
        url.append(method);
        url
    }

    /// Fires off a request: hands the address of the method `method` (such
    /// as "getUpdates") and the encoded arguments to the function that
    /// carries requests, and hands back what that function returns.
    pub fn request<F>(&self, method: &str, body: Option<String>) -> (sent: F) where
        S: Fn(String, Option<String>) -> F,

        requires
            forall|url: String|
                url@ == method_url(self.token(), method@) ==> #[trigger] self.sender().requires(
                    (url, body),
                ),
        ensures
            exists|url: String|
                url@ == method_url(self.token(), method@) && #[trigger] self.sender().ensures(
                    (url, body),
                    sent,
                ),
    {
        let url = self.request_url(method);
        assert(self.sender().requires((url, body)));
        let sent = (self.send)(url, body);
        assert(self.sender().ensures((url, body), sent));
        sent
    }

    /// The call that asks who the bot is.
    pub fn get_me(&self) -> (call: Request<()>)
        ensures
            call.method@ == "getMe"@,
            call.body is None,
    {
        Request { method: "getMe", body: None }
    }

    /// The call that asks for the updates that `args` describes.
    pub fn get_updates(&self, args: GetUpdates) -> (call: Request<GetUpdates>)
        ensures
            call.method@ == "getUpdates"@,
            call.body == Some(args),
    {
        Request { method: "getUpdates", body: Some(args) }
    }

    /// The call that sends the message `arg`.
    pub fn send_message(&self, arg: SendMessage) -> (call: Request<SendMessage>)
        ensures
            call.method@ == "sendMessage"@,
            call.body == Some(arg),
    {
        Request { method: "sendMessage", body: Some(arg) }
    }
}

} // verus!

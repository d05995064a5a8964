//! Messages to Telegram chats.
use vstd::prelude::*;

verus! {

/// A message on its way to a chat.
#[derive(Clone, Debug)]
pub struct TelegramMessage {
    /// The bot's token, in place of the sink's.
    pub token: Option<String>,
    /// The chat, in place of the sink's.
    pub chat_id: Option<i64>,
    pub text: String,
    /// How the text is marked up.
    pub parse_mode: Option<String>,
    pub disable_web_page_preview: bool,
    pub disable_notification: bool,
}

impl Default for TelegramMessage {
    fn default() -> (r: TelegramMessage)
        ensures
            r.token is None && r.chat_id is None && r.parse_mode is None,
            r.text@.len() == 0,
            !r.disable_web_page_preview && !r.disable_notification,
    {
        TelegramMessage {
            token: None,
            chat_id: None,
            text: String::new(),
            parse_mode: None,
            disable_web_page_preview: false,
            disable_notification: false,
        }
    }
}

impl TelegramMessage {
    /// A message with nothing set but its text.
    pub fn new(text: &str) -> (r: TelegramMessage)
        ensures
            r.text@ == text@,
            r.token is None && r.chat_id is None && r.parse_mode is None,
            !r.disable_web_page_preview && !r.disable_notification,
    {
        TelegramMessage {
            token: None,
            chat_id: None,
            text: text.to_owned(),
            parse_mode: None,
            disable_web_page_preview: false,
            disable_notification: false,
        }
    }

    /// The message, sent by the bot of this token.
    pub fn with_token(self, token: String) -> (r: TelegramMessage)
        ensures
            r == (TelegramMessage { token: Some(token), ..self }),
    {
        TelegramMessage { token: Some(token), ..self }
    }

    /// The message, sent to this chat.
    pub fn with_chat_id(self, chat_id: i64) -> (r: TelegramMessage)
        ensures
            r == (TelegramMessage { chat_id: Some(chat_id), ..self }),
    {
        TelegramMessage { chat_id: Some(chat_id), ..self }
    }

    /// The message, marked up in this way.
    pub fn with_parse_mode(self, parse_mode: &str) -> (r: TelegramMessage)
        ensures
            r.parse_mode matches Some(p) && p@ == parse_mode@,
            r == (TelegramMessage { parse_mode: r.parse_mode, ..self }),
    {
        TelegramMessage { parse_mode: Some(parse_mode.to_owned()), ..self }
    }
}

/// A sink of messages.
pub struct TelegramSink {
    pub id: String,
    pub inputs: Vec<String>,
    /// The bot's token for messages that have none.
    pub token: Option<String>,
    /// The chat for messages that have none.
    pub chat_id: Option<i64>,
    pub timeout_secs: u64,
}

/// The seconds that a request may take where nothing is configured.
pub fn default_timeout() -> (r: u64)
    ensures
        r == 30,
{
    30
}

/// Why a message cannot be sent.
#[derive(Clone, Copy, Debug, PartialEq, Eq, Structural)]
pub enum TelegramError {
    MissingToken,
    MissingChatId,
}

impl TelegramError {
    /// What the error says.
    pub open spec fn text(self) -> Seq<char> {
        match self {
            TelegramError::MissingToken =>
                "Telegram bot token not configured (neither in message nor in sink config)"@,
            TelegramError::MissingChatId =>
                "Telegram chat_id not configured (neither in message nor in sink config)"@,
        }
    }

    /// What the error says.
    pub fn message(&self) -> (s: &'static str)
        ensures
            s@ == self.text(),
    {
        match self {
            TelegramError::MissingToken =>
                "Telegram bot token not configured (neither in message nor in sink config)",
            TelegramError::MissingChatId =>
                "Telegram chat_id not configured (neither in message nor in sink config)",
        }
    }
}

/// A request to send a message: where to, and the members of its body.
#[derive(Debug)]
pub struct SendRequest {
    pub url: String,
    pub chat_id: i64,
    pub text: String,
    pub parse_mode: Option<String>,
    /// Set where the body has this member.
    pub disable_web_page_preview: bool,
    /// Set where the body has this member.
    pub disable_notification: bool,
}

/// The first of two choices that is there.
pub open spec fn either<T>(a: Option<T>, b: Option<T>) -> Option<T> {
    match a {
        Some(x) => Some(x),
        None => b,
    }
}

fn copied(s: &Option<String>) -> (r: Option<String>)
    ensures
        r is Some <==> s is Some,
        r matches Some(t) ==> s is Some && t@ == s->0@,
{
    match s {
        Some(t) => Some(t.as_str().to_owned()),
        None => None,
    }
}

impl TelegramSink {
    /// The request that sends a message. What the message sets goes before what
    /// the sink sets; without a token, or without a chat, it cannot be sent.
    pub fn request(&self, msg: &TelegramMessage) -> (r: Result<SendRequest, TelegramError>)
        ensures
            either(msg.token, self.token) is None ==> r == Err::<SendRequest, TelegramError>(TelegramError::MissingToken),
            either(msg.token, self.token) is Some && either(msg.chat_id, self.chat_id) is None ==> r == Err::<
                SendRequest,
                TelegramError,
            >(TelegramError::MissingChatId),
            either(msg.token, self.token) is Some && either(msg.chat_id, self.chat_id) is Some ==> {
                &&& r is Ok
                &&& r->Ok_0.url@ == "https://api.telegram.org/bot"@ + either(msg.token, self.token)->0@
                    + "/sendMessage"@
                &&& Some(r->Ok_0.chat_id) == either(msg.chat_id, self.chat_id)
                &&& r->Ok_0.text@ == msg.text@
                &&& r->Ok_0.parse_mode is Some <==> msg.parse_mode is Some
                &&& msg.parse_mode is Some ==> r->Ok_0.parse_mode->0@ == msg.parse_mode->0@
                &&& r->Ok_0.disable_web_page_preview == msg.disable_web_page_preview
                &&& r->Ok_0.disable_notification == msg.disable_notification
            },
    {
        let token: &String = match &msg.token {
            Some(t) => t,
            None => match &self.token {
                Some(t) => t,
                None => {
                    return Err(TelegramError::MissingToken);
                },
            },
        };
        let chat_id: i64 = match msg.chat_id {
            Some(c) => c,
            None => match self.chat_id {
                Some(c) => c,
                None => {
                    return Err(TelegramError::MissingChatId);
                },
            },
        };
        let mut url = "https://api.telegram.org/bot".to_owned();
        url.append(token);
        url.append("/sendMessage");
        Ok(
            SendRequest {
                url,
                chat_id,
                text: msg.text.as_str().to_owned(),
                parse_mode: copied(&msg.parse_mode),
                disable_web_page_preview: msg.disable_web_page_preview,
                disable_notification: msg.disable_notification,
            },
        )
    }
}

} // verus!

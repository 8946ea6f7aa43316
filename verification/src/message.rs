//! What travels over a socket, and what a client can ask for.

use vstd::prelude::*;

verus! {

/// A websocket frame, as far as the endpoints tell frames apart.
#[derive(Debug, PartialEq, Eq)]
pub enum Message {
    Text(String),
    Binary(Vec<u8>),
    Close,
    /// A ping, a pong or a raw frame.
    Other,
}

/// The model of a [`Message`].
pub enum MessageModel {
    Text(Seq<char>),
    Binary(Seq<u8>),
    Close,
    Other,
}

impl View for Message {
    type V = MessageModel;

    open spec fn view(&self) -> MessageModel {
        match self {
            Message::Text(text) => MessageModel::Text(text@),
            Message::Binary(bytes) => MessageModel::Binary(bytes@),
            Message::Close => MessageModel::Close,
            Message::Other => MessageModel::Other,
        }
    }
}

/// The model of what a read from a socket yields: nothing once it has ended or
/// failed.
pub open spec fn message_of(message: Option<Message>) -> Option<MessageModel> {
    match message {
        Some(message) => Some(message@),
        None => None,
    }
}

/// A request on the main socket. `C` is what a command to the open page holds;
/// it is passed on unread.
#[derive(Debug, PartialEq, Eq)]
pub enum RequestTypes<C> {
    Page(String),
    Token(String),
    Cmd(C),
}

/// The model of a [`RequestTypes`].
pub enum RequestModel<C> {
    Page(Seq<char>),
    Token(Seq<char>),
    Cmd(C),
}

impl<C> View for RequestTypes<C> {
    type V = RequestModel<C>;

    open spec fn view(&self) -> RequestModel<C> {
        match self {
            RequestTypes::Page(page) => RequestModel::Page(page@),
            RequestTypes::Token(token) => RequestModel::Token(token@),
            RequestTypes::Cmd(command) => RequestModel::Cmd(*command),
        }
    }
}

/// The model of an optional request: a parse that may have failed, or an item of
/// the queue between reader and pages, where nothing stands for "leave the page".
pub open spec fn request_of<C>(request: Option<RequestTypes<C>>) -> Option<RequestModel<C>> {
    match request {
        Some(request) => Some(request@),
        None => None,
    }
}

/// A frame is modelled by its kind and all that it holds.
pub proof fn law_frame_is_modelled_whole(text: String, bytes: Vec<u8>)
    ensures
        message_of(Some(Message::Text(text))) == Some(MessageModel::Text(text@)),
        message_of(Some(Message::Binary(bytes))) == Some(MessageModel::Binary(bytes@)),
        message_of(Some(Message::Close)) == Some(MessageModel::Close),
        message_of(Some(Message::Other)) == Some(MessageModel::Other),
        message_of(None) is None,
{
}

/// A request is modelled by its kind and all that it holds.
pub proof fn law_request_is_modelled_whole<C>(text: String, command: C)
    ensures
        request_of(Some(RequestTypes::<C>::Page(text))) == Some(RequestModel::<C>::Page(text@)),
        request_of(Some(RequestTypes::<C>::Token(text))) == Some(RequestModel::<C>::Token(text@)),
        request_of(Some(RequestTypes::Cmd(command))) == Some(RequestModel::Cmd(command)),
        request_of(None::<RequestTypes<C>>) is None,
{
}

} // verus!

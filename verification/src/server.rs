//! What the server decides about its clients.
use crate::constant::MAX_NUM_USERS;
use crate::dispatch::{Dispatch, DispatchView};
use crate::error::MsgFromPaketError;
use crate::message::{paket_bytes, status_text, Message, MessageView, UserStatus};
use crate::text::{decimal, decimal_text};
use crate::username::Username;
use vstd::prelude::*;

verus! {

/// The manager of the connections, which gives each client its identifier.
#[derive(Debug)]
pub struct ServerManager {
    next_user_id: usize,
}

/// The identifier of the client that is served as the `n`th, counted from 0.
pub open spec fn userid_of(n: int) -> int {
    n + 1
}

impl View for ServerManager {
    type V = int;

    /// How many identifiers have been given away.
    closed spec fn view(&self) -> int {
        self.next_user_id - 1
    }
}

/// What came of waiting for a connection.
#[derive(Clone, Copy, Debug, PartialEq, Eq, Structural)]
pub enum AcceptEvent {
    /// No connection came about.
    Failed,
    /// A connection was accepted, while so many clients are connected.
    Accepted { connected: usize },
}

/// What to do about it.
#[derive(Clone, Copy, Debug, PartialEq, Eq, Structural)]
pub enum AcceptAction {
    /// Report the error, and wait for the next connection.
    Report,
    /// Report that no more clients can be served, and stop.
    Stop,
    /// Serve the client under this identifier, and wait for the next connection.
    Serve { userid: usize },
}

/// Whether a client is served after `given` others: a connection was accepted, there is room for
/// the client, and an identifier is left.
pub open spec fn is_served(given: int, event: AcceptEvent) -> bool {
    &&& event matches AcceptEvent::Accepted { connected }
    &&& connected < MAX_NUM_USERS
    &&& userid_of(given) < usize::MAX
}

/// How many identifiers have been given away after the event.
pub open spec fn after_accept(given: int, event: AcceptEvent) -> int {
    if is_served(given, event) {
        given + 1
    } else {
        given
    }
}

/// The step of the manager for an event, where `before` and `after` count the identifiers that
/// have been given away.
pub open spec fn is_accept_step(
    before: int,
    event: AcceptEvent,
    after: int,
    action: AcceptAction,
) -> bool {
    &&& after == after_accept(before, event)
    &&& match action {
        AcceptAction::Report => event is Failed,
        AcceptAction::Stop => event is Accepted && !is_served(before, event),
        AcceptAction::Serve { userid } => is_served(before, event) && userid == userid_of(before),
    }
}

impl ServerManager {
    /// A manager that has served nobody yet.
    pub fn new() -> (r: ServerManager)
        ensures
            r@ == 0,
    {
        ServerManager { next_user_id: 1 }
    }

    /// Whether one more client is accepted while so many are connected.
    pub fn accepts_another(&self, connected: usize) -> (r: bool)
        ensures
            r == (connected < MAX_NUM_USERS),
    {
        connected < MAX_NUM_USERS
    }

    /// The identifier that the next client gets.
    pub fn next_userid(&self) -> (r: usize)
        ensures
            r == userid_of(self@),
    {
        self.next_user_id
    }

    /// Gives away an identifier.
    pub fn assign_userid(&mut self) -> (r: usize)
        requires
            userid_of(old(self)@) < usize::MAX,
        ensures
            r == userid_of(old(self)@),
            final(self)@ == old(self)@ + 1,
    {
        let userid: usize = self.next_user_id;
        self.next_user_id = self.next_user_id + 1;
        userid
    }

    /// Decides what to do about what came of waiting for a connection.
    pub fn step(&mut self, event: AcceptEvent) -> (r: AcceptAction)
        ensures
            is_accept_step(old(self)@, event, final(self)@, r),
    {
        match event {
            AcceptEvent::Failed => AcceptAction::Report,
            AcceptEvent::Accepted { connected } => {
                if self.accepts_another(connected) && self.next_userid() < usize::MAX {
                    AcceptAction::Serve { userid: self.assign_userid() }
                } else {
                    AcceptAction::Stop
                }
            },
        }
    }
}

/// Why the handling of a client ended with an error: a task of the handler returned the error, or
/// it could not be joined.
#[derive(Debug, PartialEq)]
pub enum ClientHandlerErrorCause<E, J> {
    Task(E),
    Join(J),
}

/// The error with which the handling of a client ended, with the identifier and the address of
/// the client.
#[derive(Debug, PartialEq)]
pub struct ClientHandlerError<A, E, J> {
    pub id: usize,
    pub address: A,
    pub cause: ClientHandlerErrorCause<E, J>,
}

impl<A, E, J> ClientHandlerError<A, E, J> {
    /// The text in which the error is shown, given how its address and its cause are shown.
    pub open spec fn shown(&self, address: Seq<char>, cause: Seq<char>) -> Seq<char> {
        "The client_handler with id "@ + decimal(self.id as nat) + " handling the address "@
            + address + " failed. The cause was: "@ + cause
    }

    /// The text in which the error is shown, given how its address and its cause are shown.
    pub fn text(&self, address: &str, cause: &str) -> (r: String)
        ensures
            r@ == self.shown(address@, cause@),
    {
        "The client_handler with id ".to_owned().concat(decimal_text(self.id).as_str()).concat(
            " handling the address ",
        ).concat(address).concat(" failed. The cause was: ").concat(cause)
    }
}

/// How the handling of a client ends, given the output of the first of its tasks to finish.
pub open spec fn handler_outcome<A, E, J>(
    userid: usize,
    address: A,
    first_finished: Result<Result<(), E>, J>,
) -> Result<(), ClientHandlerError<A, E, J>> {
    match first_finished {
        Ok(Ok(())) => Ok::<(), ClientHandlerError<A, E, J>>(()),
        Ok(Err(err)) => Err(
            ClientHandlerError {
                id: userid,
                address,
                cause: ClientHandlerErrorCause::Task(err),
            },
        ),
        Err(err) => Err(
            ClientHandlerError {
                id: userid,
                address,
                cause: ClientHandlerErrorCause::Join(err),
            },
        ),
    }
}

/// How the handling of a client ends, given the output of the first of its tasks to finish.
pub fn client_handler_outcome<A, E, J>(
    userid: usize,
    address: A,
    first_finished: Result<Result<(), E>, J>,
) -> (r: Result<(), ClientHandlerError<A, E, J>>)
    ensures
        r == handler_outcome(userid, address, first_finished),
{
    match first_finished {
        Ok(join_output) => match join_output {
            Ok(_) => Ok(()),
            Err(err) => Err(
                ClientHandlerError {
                    id: userid,
                    address,
                    cause: ClientHandlerErrorCause::Task(err),
                },
            ),
        },
        Err(join_error) => Err(
            ClientHandlerError {
                id: userid,
                address,
                cause: ClientHandlerErrorCause::Join(join_error),
            },
        ),
    }
}

/// The client did not greet the server.
#[derive(Debug, PartialEq)]
pub struct NoHelo {
    pub cause: String,
}

impl NoHelo {
    /// The text in which the error is shown.
    pub open spec fn shown(&self) -> Seq<char> {
        "Could not receive the 'helo' message from the client. The cause was: [["@ + self.cause@
            + "]]"@
    }

    /// The text in which the error is shown.
    pub fn text(&self) -> (r: String)
        ensures
            r@ == self.shown(),
    {
        "Could not receive the 'helo' message from the client. The cause was: [[".to_owned().concat(
            self.cause.as_str(),
        ).concat("]]")
    }
}

/// The first that comes from a client: nothing, if the pakets end before; else the message of the
/// first paket, or why it carries none.
pub type FirstPaket = Option<Result<Message, MsgFromPaketError>>;

/// Whether the client greets with its first paket.
pub open spec fn is_greeting(first: FirstPaket) -> bool {
    first matches Some(Ok(message)) && message@.content == "helo"@
}

/// The cause that is named where a client does not greet.
pub open spec fn no_helo_cause(first: FirstPaket) -> Seq<char> {
    match first {
        None => "The channel receiving the extracted pakets is closed."@,
        Some(Err(_)) => "The first paket received could not be converted to a message."@,
        Some(Ok(_)) => {
            "The content of the first message was not 'helo' as it was supposed to be."@
        },
    }
}

/// The dispatch with which the chat is told that a user joined or left it.
pub open spec fn status_dispatch(
    userid: usize,
    username: Seq<char>,
    new_status: UserStatus,
) -> DispatchView {
    DispatchView {
        userid,
        bytes: paket_bytes(
            MessageView { username: "SERVER"@, content: status_text(username, new_status) },
        ),
    }
}

/// What comes from a client that has greeted.
#[derive(Debug, PartialEq)]
pub enum ClientEvent {
    /// A paket, or nothing where the pakets are at their end.
    Paket(Option<Vec<u8>>),
    /// The client was cancelled.
    Cancelled,
}

/// What to do next for a client.
#[derive(Debug)]
pub enum ClientAction {
    /// Send the dispatch to the other clients, and wait for the next event.
    Send(Dispatch),
    /// Wait for the next event.
    Wait,
    /// Send the dispatch to the other clients, and stop.
    SendAndStop(Dispatch),
}

/// A client that has greeted the server.
#[derive(Debug)]
pub struct ClientReader {
    userid: usize,
    username: Username,
}

/// The identifier and the username of such a client.
#[verifier::ext_equal]
pub struct ClientReaderView {
    pub userid: usize,
    pub username: Seq<char>,
}

impl View for ClientReader {
    type V = ClientReaderView;

    closed spec fn view(&self) -> ClientReaderView {
        ClientReaderView { userid: self.userid, username: self.username@ }
    }
}

/// The dispatch that an event of a client that has greeted leads to.
pub open spec fn client_dispatch(
    client: ClientReaderView,
    event: ClientEvent,
) -> Option<DispatchView> {
    match event {
        ClientEvent::Paket(Some(bytes)) => Some(
            DispatchView { userid: client.userid, bytes: bytes@ },
        ),
        ClientEvent::Paket(None) => None,
        ClientEvent::Cancelled => Some(
            status_dispatch(client.userid, client.username, UserStatus::Absent),
        ),
    }
}

/// How a client is taken up by its first paket, or refused.
pub open spec fn is_greet_outcome(
    userid: usize,
    first: FirstPaket,
    r: Result<(ClientReader, Dispatch), NoHelo>,
) -> bool {
    match r {
        Ok((client, welcome)) => {
            &&& is_greeting(first)
            &&& first matches Some(Ok(message))
            &&& client@ == ClientReaderView { userid, username: message@.username }
            &&& welcome@ == status_dispatch(userid, message@.username, UserStatus::Present)
        },
        Err(no_helo) => !is_greeting(first) && no_helo.cause@ == no_helo_cause(first),
    }
}

/// What is done about an event of a client that has greeted.
pub open spec fn is_client_step(
    client: ClientReaderView,
    event: ClientEvent,
    action: ClientAction,
) -> bool {
    match action {
        ClientAction::Send(dispatch) => {
            &&& event is Paket
            &&& client_dispatch(client, event) == Some(dispatch@)
        },
        ClientAction::Wait => client_dispatch(client, event) is None,
        ClientAction::SendAndStop(dispatch) => {
            &&& event is Cancelled
            &&& client_dispatch(client, event) == Some(dispatch@)
        },
    }
}

impl ClientReader {
    /// Takes up a client by its first paket. The dispatch that comes with it tells the others of
    /// the new user.
    pub fn greet(userid: usize, first: FirstPaket) -> (r: Result<(ClientReader, Dispatch), NoHelo>)
        ensures
            is_greet_outcome(userid, first, r),
    {
        let message = match first {
            None => {
                return Err(
                    NoHelo {
                        cause: "The channel receiving the extracted pakets is closed.".to_owned(),
                    },
                );
            },
            Some(Err(_)) => {
                return Err(
                    NoHelo {
                        cause:
                            "The first paket received could not be converted to a message.".to_owned(),
                    },
                );
            },
            Some(Ok(message)) => message,
        };
        if message.get_content() != "helo".to_owned() {
            return Err(
                NoHelo {
                    cause:
                        "The content of the first message was not 'helo' as it was supposed to be.".to_owned(),
                },
            );
        }
        let username = message.get_username();
        let welcome = Message::craft_msg_change_status(&username, UserStatus::Present);
        Ok((ClientReader { userid, username }, Dispatch::new(userid, welcome.paket())))
    }

    /// Decides what to do about what comes from the client.
    pub fn step(&self, event: ClientEvent) -> (r: ClientAction)
        ensures
            is_client_step(self@, event, r),
    {
        match event {
            ClientEvent::Paket(Some(bytes)) => ClientAction::Send(
                Dispatch::new(self.userid, bytes),
            ),
            ClientEvent::Paket(None) => ClientAction::Wait,
            ClientEvent::Cancelled => {
                let goodbye = Message::craft_msg_change_status(&self.username, UserStatus::Absent);
                ClientAction::SendAndStop(Dispatch::new(self.userid, goodbye.paket()))
            },
        }
    }
}

} // verus!

use vstd::prelude::*;
use crate::budget_chat::username::{Username, spec_check_name, spec_error_text, trim};
use crate::budget_chat::message::{OutgoingMessage, MessageView};

verus! {

/// Where a connection to the chat stands.
#[derive(PartialEq, Eq, Structural, Debug, Clone, Copy)]
pub enum ChatSession {
    /// Greeted, and waiting for the line that names the participant.
    AwaitingName,
    /// In the room.
    Chatting,
    /// Done; nothing more happens.
    Closed,
}

/// Something that happened on a connection's input.
#[derive(Debug)]
pub enum ChatEvent {
    /// A line arrived.
    Line(String),
    /// The input ended.
    InputEnded,
    /// Reading the input failed.
    InputFailed,
}

/// Why a connection ends in failure.
#[derive(PartialEq, Eq, Structural, Debug, Clone, Copy)]
pub enum SessionError {
    /// The input ended before a name arrived.
    NoUsername,
    /// Reading the input failed before a name arrived.
    InputFailed,
}

/// What the connection's driver is to do next.
#[derive(Debug)]
pub enum ChatAction {
    /// Write this message to the connection.
    Send(OutgoingMessage),
    /// Enter the room under this name.
    Join(Username),
    /// Say this line in the room.
    Say(String),
    /// Leave the room.
    Leave,
    /// End the connection normally.
    Finish,
    /// End the connection with this error.
    Fail(SessionError),
}

/// An input event, with its line as characters.
pub enum EventView {
    Line(Seq<char>),
    InputEnded,
    InputFailed,
}

/// An action, with its names and texts as characters.
pub enum ActionView {
    Send(MessageView),
    Join(Seq<char>),
    Say(Seq<char>),
    Leave,
    Finish,
    Fail(SessionError),
}

impl View for ChatEvent {
    type V = EventView;

    open spec fn view(&self) -> EventView {
        match self {
            ChatEvent::Line(line) => EventView::Line(line@),
            ChatEvent::InputEnded => EventView::InputEnded,
            ChatEvent::InputFailed => EventView::InputFailed,
        }
    }
}

impl View for ChatAction {
    type V = ActionView;

    open spec fn view(&self) -> ActionView {
        match self {
            ChatAction::Send(m) => ActionView::Send(m@),
            ChatAction::Join(u) => ActionView::Join(u@),
            ChatAction::Say(line) => ActionView::Say(line@),
            ChatAction::Leave => ActionView::Leave,
            ChatAction::Finish => ActionView::Finish,
            ChatAction::Fail(e) => ActionView::Fail(*e),
        }
    }
}

/// The views of `actions`, in order.
pub open spec fn actions_view(actions: Seq<ChatAction>) -> Seq<ActionView> {
    actions.map_values(|a: ChatAction| a@)
}

/// The state a connection moves to from `s` on `e`.
pub open spec fn spec_next(s: ChatSession, e: EventView) -> ChatSession {
    match s {
        ChatSession::AwaitingName => match e {
            EventView::Line(line) => if spec_check_name(line) is Ok {
                ChatSession::Chatting
            } else {
                ChatSession::Closed
            },
            _ => ChatSession::Closed,
        },
        ChatSession::Chatting => match e {
            EventView::Line(_) => ChatSession::Chatting,
            _ => ChatSession::Closed,
        },
        ChatSession::Closed => ChatSession::Closed,
    }
}

/// What a connection does in state `s` on `e`.
pub open spec fn spec_actions(s: ChatSession, e: EventView) -> Seq<ActionView> {
    match s {
        ChatSession::AwaitingName => match e {
            EventView::Line(line) => match spec_check_name(line) {
                Ok(()) => seq![ActionView::Join(line)],
                Err(err) => seq![
                    ActionView::Send(MessageView::InvalidUsername(spec_error_text(err))),
                    ActionView::Finish,
                ],
            },
            EventView::InputEnded => seq![ActionView::Fail(SessionError::NoUsername)],
            EventView::InputFailed => seq![ActionView::Fail(SessionError::InputFailed)],
        },
        ChatSession::Chatting => match e {
            EventView::Line(line) => seq![ActionView::Say(line)],
            _ => seq![ActionView::Leave, ActionView::Finish],
        },
        ChatSession::Closed => Seq::empty(),
    }
}

/// A refused name ends the connection: the client is told why the name was
/// refused, and then the connection is finished.
pub proof fn law_refused_name_closes(line: Seq<char>)
    requires
        spec_check_name(line) is Err,
    ensures
        spec_next(ChatSession::AwaitingName, EventView::Line(line)) == ChatSession::Closed,
        spec_actions(ChatSession::AwaitingName, EventView::Line(line)) == seq![
            ActionView::Send(MessageView::InvalidUsername(spec_error_text(spec_check_name(line)->Err_0))),
            ActionView::Finish,
        ],
{
}

/// A name line that is empty once whitespace is cut is refused with the
/// reason that a name needs at least one character, and the connection ends.
pub proof fn law_empty_name_closes(line: Seq<char>)
    requires
        trim(line).len() == 0,
    ensures
        spec_next(ChatSession::AwaitingName, EventView::Line(line)) == ChatSession::Closed,
        spec_actions(ChatSession::AwaitingName, EventView::Line(line)) == seq![
            ActionView::Send(MessageView::InvalidUsername("Name should be at least 1 character"@)),
            ActionView::Finish,
        ],
{
}

/// A name line that is accepted enters the room under that line, and the
/// connection stays open.
pub proof fn law_accepted_name_joins(line: Seq<char>)
    requires
        spec_check_name(line) is Ok,
    ensures
        spec_next(ChatSession::AwaitingName, EventView::Line(line)) == ChatSession::Chatting,
        spec_actions(ChatSession::AwaitingName, EventView::Line(line)) == seq![ActionView::Join(line)],
{
}

impl ChatSession {
    /// A new connection: it is greeted and asked for a name.
    pub fn start() -> (res: (ChatSession, ChatAction))
        ensures
            res.0 == ChatSession::AwaitingName,
            res.1@ == ActionView::Send(MessageView::Welcome),
    {
        (ChatSession::AwaitingName, ChatAction::Send(OutgoingMessage::Welcome))
    }

    /// Moves on from this state on `event`, and says what to do.
    pub fn step(&self, event: ChatEvent) -> (res: (ChatSession, Vec<ChatAction>))
        ensures
            res.0 == spec_next(*self, event@),
            actions_view(res.1@) == spec_actions(*self, event@),
    {
        let mut actions: Vec<ChatAction> = Vec::new();
        let next = match self {
            ChatSession::AwaitingName => match event {
                ChatEvent::Line(line) => {
                    match Username::parse(line) {
                        Ok(username) => {
                            actions.push(ChatAction::Join(username));
                            ChatSession::Chatting
                        },
                        Err(e) => {
                            let reason = e.message();
                            actions.push(ChatAction::Send(OutgoingMessage::InvalidUsername(reason)));
                            actions.push(ChatAction::Finish);
                            ChatSession::Closed
                        },
                    }
                },
                ChatEvent::InputEnded => {
                    actions.push(ChatAction::Fail(SessionError::NoUsername));
                    ChatSession::Closed
                },
                ChatEvent::InputFailed => {
                    actions.push(ChatAction::Fail(SessionError::InputFailed));
                    ChatSession::Closed
                },
            },
            ChatSession::Chatting => match event {
                ChatEvent::Line(line) => {
                    actions.push(ChatAction::Say(line));
                    ChatSession::Chatting
                },
                _ => {
                    actions.push(ChatAction::Leave);
                    actions.push(ChatAction::Finish);
                    ChatSession::Closed
                },
            },
            ChatSession::Closed => ChatSession::Closed,
        };
        proof {
            assert(actions_view(actions@) =~= spec_actions(*self, event@));
        }
        (next, actions)
    }
}

} // verus!

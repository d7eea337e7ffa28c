use vstd::prelude::*;
use crate::budget_chat::username::Username;

verus! {

/// What a message to a participant says, with names and text as characters.
#[verifier::ext_equal]
pub enum MessageView {
    Welcome,
    Join(Seq<char>),
    Leave(Seq<char>),
    Chat { from: Seq<char>, msg: Seq<char> },
    InvalidUsername(Seq<char>),
    Participants(Seq<Seq<char>>),
}

/// A message that the room sends to one participant.
#[derive(Debug)]
pub enum OutgoingMessage {
    /// The greeting that asks a new connection for its name.
    Welcome,
    /// Someone entered the room.
    Join(Username),
    /// Someone left the room.
    Leave(Username),
    /// A line `msg` said by `from`.
    Chat { from: Username, msg: String },
    /// The proposed name was refused, for the reason given.
    InvalidUsername(String),
    /// Who was in the room when the receiver entered it.
    Participants(Vec<Username>),
}

/// The names of `users`, in order.
pub open spec fn names_of(users: Seq<Username>) -> Seq<Seq<char>> {
    users.map_values(|u: Username| u@)
}

impl View for OutgoingMessage {
    type V = MessageView;

    open spec fn view(&self) -> MessageView {
        match self {
            OutgoingMessage::Welcome => MessageView::Welcome,
            OutgoingMessage::Join(u) => MessageView::Join(u@),
            OutgoingMessage::Leave(u) => MessageView::Leave(u@),
            OutgoingMessage::Chat { from, msg } => MessageView::Chat { from: from@, msg: msg@ },
            OutgoingMessage::InvalidUsername(reason) => MessageView::InvalidUsername(reason@),
            OutgoingMessage::Participants(users) => MessageView::Participants(names_of(users@)),
        }
    }
}

/// The names in `names`, separated by a comma and a space.
pub open spec fn join_names(names: Seq<Seq<char>>) -> Seq<char>
    decreases names.len(),
{
    if names.len() == 0 {
        Seq::empty()
    } else if names.len() == 1 {
        names[0]
    } else {
        join_names(names.drop_last()) + ", "@ + names.last()
    }
}

/// The line of text that carries a message.
pub open spec fn spec_text(m: MessageView) -> Seq<char> {
    match m {
        MessageView::Welcome => "Welcome to budgetchat! What shall I call you?"@,
        MessageView::Join(name) => "* "@ + name + " has entered the room"@,
        MessageView::Leave(name) => "* "@ + name + " has left the room"@,
        MessageView::Chat { from, msg } => "["@ + from + "] "@ + msg,
        MessageView::InvalidUsername(reason) => "Invalid username "@ + reason,
        MessageView::Participants(names) => "* The room contains: "@ + join_names(names),
    }
}

/// A copy of `users`.
fn copy_users(users: &Vec<Username>) -> (res: Vec<Username>)
    ensures
        names_of(res@) == names_of(users@),
{
    let mut res: Vec<Username> = Vec::new();
    let mut i: usize = 0;
    while i < users.len()
        invariant
            i <= users.len(),
            res@.len() == i,
            forall|j: int| 0 <= j < i ==> #[trigger] res@[j]@ == users@[j]@,
        decreases users.len() - i,
    {
        res.push(users[i].clone());
        i = i + 1;
    }
    proof {
        assert(names_of(res@) =~= names_of(users@));
    }
    res
}

impl OutgoingMessage {
    /// The names of `participants`, separated by a comma and a space.
    pub fn participants(&self, participants: &Vec<Username>) -> (res: String)
        ensures
            res@ == join_names(names_of(participants@)),
    {
        let ghost names = names_of(participants@);
        let mut res = String::new();
        let mut i: usize = 0;
        while i < participants.len()
            invariant
                i <= participants.len(),
                names == names_of(participants@),
                res@ == join_names(names.take(i as int)),
            decreases participants.len() - i,
        {
            proof {
                assert(names.take(i + 1).drop_last() =~= names.take(i as int));
                assert(names.take(i + 1).last() == participants@[i as int]@);
            }
            if i == 0 {
                res.append(participants[i].as_str());
                proof {
                    assert(res@ =~= join_names(names.take(1)));
                }
            } else {
                res.append(", ");
                res.append(participants[i].as_str());
            }
            i = i + 1;
        }
        proof {
            assert(names.take(i as int) =~= names);
        }
        res
    }

    /// The line of text that carries this message.
    pub fn to_string(&self) -> (res: String)
        ensures
            res@ == spec_text(self@),
    {
        match self {
            OutgoingMessage::Welcome => String::from_str("Welcome to budgetchat! What shall I call you?"),
            OutgoingMessage::Join(name) => {
                let mut res = String::from_str("* ");
                res.append(name.as_str());
                res.append(" has entered the room");
                res
            },
            OutgoingMessage::Leave(name) => {
                let mut res = String::from_str("* ");
                res.append(name.as_str());
                res.append(" has left the room");
                res
            },
            OutgoingMessage::Chat { from, msg } => {
                let mut res = String::from_str("[");
                res.append(from.as_str());
                res.append("] ");
                res.append(msg.as_str());
                res
            },
            OutgoingMessage::InvalidUsername(reason) => {
                let mut res = String::from_str("Invalid username ");
                res.append(reason.as_str());
                res
            },
            OutgoingMessage::Participants(users) => {
                let mut res = String::from_str("* The room contains: ");
                let names = self.participants(users);
                res.append(names.as_str());
                res
            },
        }
    }

    /// Whether this message says the same as `other`.
    pub fn same_as(&self, other: &OutgoingMessage) -> (res: bool)
        ensures
            res == (self@ == other@),
    {
        let res = match self {
            OutgoingMessage::Welcome => match other {
                OutgoingMessage::Welcome => true,
                _ => false,
            },
            OutgoingMessage::Join(a) => match other {
                OutgoingMessage::Join(b) => a.same_as(b),
                _ => false,
            },
            OutgoingMessage::Leave(a) => match other {
                OutgoingMessage::Leave(b) => a.same_as(b),
                _ => false,
            },
            OutgoingMessage::Chat { from: a, msg: x } => match other {
                OutgoingMessage::Chat { from: b, msg: y } => a.same_as(b) && *x == *y,
                _ => false,
            },
            OutgoingMessage::InvalidUsername(x) => match other {
                OutgoingMessage::InvalidUsername(y) => *x == *y,
                _ => false,
            },
            OutgoingMessage::Participants(xs) => match other {
                OutgoingMessage::Participants(ys) => same_names(xs, ys),
                _ => false,
            },
        };
        res
    }
}

/// Whether `xs` and `ys` hold the same names in the same order.
fn same_names(xs: &Vec<Username>, ys: &Vec<Username>) -> (res: bool)
    ensures
        res == (names_of(xs@) == names_of(ys@)),
{
    if xs.len() != ys.len() {
        proof {
            assert(names_of(xs@).len() != names_of(ys@).len());
        }
        return false;
    }
    let mut i: usize = 0;
    while i < xs.len()
        invariant
            i <= xs.len() == ys.len(),
            forall|j: int| 0 <= j < i ==> #[trigger] xs@[j]@ == ys@[j]@,
        decreases xs.len() - i,
    {
        if !xs[i].same_as(&ys[i]) {
            proof {
                assert(names_of(xs@)[i as int] != names_of(ys@)[i as int]);
            }
            return false;
        }
        i = i + 1;
    }
    proof {
        assert(names_of(xs@) =~= names_of(ys@));
    }
    true
}

impl Clone for OutgoingMessage {
    fn clone(&self) -> (res: Self)
        ensures
            res@ == self@,
    {
        match self {
            OutgoingMessage::Welcome => OutgoingMessage::Welcome,
            OutgoingMessage::Join(u) => OutgoingMessage::Join(u.clone()),
            OutgoingMessage::Leave(u) => OutgoingMessage::Leave(u.clone()),
            OutgoingMessage::Chat { from, msg } => OutgoingMessage::Chat {
                from: from.clone(),
                msg: msg.clone(),
            },
            OutgoingMessage::InvalidUsername(reason) => OutgoingMessage::InvalidUsername(reason.clone()),
            OutgoingMessage::Participants(users) => OutgoingMessage::Participants(copy_users(users)),
        }
    }
}

} // verus!

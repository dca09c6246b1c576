use vstd::prelude::*;

verus! {

/// One entry of a peer's message log. Ids are unique within one log; a
/// message carries no timestamp, and `public` only ever goes from false to true.
pub struct Message {
    pub id: usize,
    pub name: String,
    pub sender: String,
    pub content: String,
    pub public: bool,
}

/// The mathematical value of a `Message`.
pub ghost struct MessageView {
    pub id: nat,
    pub name: Seq<char>,
    pub sender: Seq<char>,
    pub content: Seq<char>,
    pub public: bool,
}

impl View for Message {
    type V = MessageView;

    open spec fn view(&self) -> MessageView {
        MessageView {
            id: self.id as nat,
            name: self.name@,
            sender: self.sender@,
            content: self.content@,
            public: self.public,
        }
    }
}

/// Which peers a listing request addresses.
pub enum ListMode {
    All,
    One(String),
}

pub ghost enum ListModeView {
    All,
    One(Seq<char>),
}

impl View for ListMode {
    type V = ListModeView;

    open spec fn view(&self) -> ListModeView {
        match self {
            ListMode::All => ListModeView::All,
            ListMode::One(p) => ListModeView::One(p@),
        }
    }
}

/// A request for the public messages of every peer, or of one peer.
pub struct ListRequest {
    pub mode: ListMode,
}

pub ghost struct ListRequestView {
    pub mode: ListModeView,
}

impl View for ListRequest {
    type V = ListRequestView;

    open spec fn view(&self) -> ListRequestView {
        ListRequestView { mode: self.mode@ }
    }
}

/// The answer to a `ListRequest`, addressed to the peer that asked.
pub struct ListResponse {
    pub mode: ListMode,
    pub data: Vec<Message>,
    pub receiver: String,
}

pub ghost struct ListResponseView {
    pub mode: ListModeView,
    pub data: Seq<MessageView>,
    pub receiver: Seq<char>,
}

impl View for ListResponse {
    type V = ListResponseView;

    open spec fn view(&self) -> ListResponseView {
        ListResponseView {
            mode: self.mode@,
            data: self.data@.map_values(|m: Message| m@),
            receiver: self.receiver@,
        }
    }
}

impl Message {
    pub fn duplicate(&self) -> (r: Message)
        ensures
            r@ == self@,
    {
        Message {
            id: self.id,
            name: self.name.clone(),
            sender: self.sender.clone(),
            content: self.content.clone(),
            public: self.public,
        }
    }
}

impl ListMode {
    pub fn duplicate(&self) -> (r: ListMode)
        ensures
            r@ == self@,
    {
        match self {
            ListMode::All => ListMode::All,
            ListMode::One(p) => ListMode::One(p.clone()),
        }
    }
}

} // verus!

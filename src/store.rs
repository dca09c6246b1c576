use vstd::prelude::*;
use vstd::string::*;

use crate::message::{ListMode, ListResponse, Message, MessageView};

verus! {

/// The views of a vector of messages, in order.
pub open spec fn views(v: Seq<Message>) -> Seq<MessageView> {
    v.map_values(|m: Message| m@)
}

/// The largest id in the log, or -1 for an empty log.
pub open spec fn max_id(s: Seq<MessageView>) -> int
    decreases s.len(),
{
    if s.len() == 0 {
        -1
    } else {
        let rest = max_id(s.drop_last());
        if s.last().id > rest {
            s.last().id as int
        } else {
            rest
        }
    }
}

/// The id that the next appended message receives: one past the largest, or 0.
pub open spec fn next_id_of(s: Seq<MessageView>) -> nat {
    (max_id(s) + 1) as nat
}

pub open spec fn fresh_message(
    id: nat,
    name: Seq<char>,
    sender: Seq<char>,
    content: Seq<char>,
) -> MessageView {
    MessageView { id, name, sender, content, public: false }
}

/// The log after one append.
pub open spec fn appended(
    s: Seq<MessageView>,
    name: Seq<char>,
    sender: Seq<char>,
    content: Seq<char>,
) -> Seq<MessageView> {
    s.push(fresh_message(next_id_of(s), name, sender, content))
}

/// The log after appending each (name, sender, content) triple in turn.
pub open spec fn appended_all(
    s: Seq<MessageView>,
    inputs: Seq<(Seq<char>, Seq<char>, Seq<char>)>,
) -> Seq<MessageView>
    decreases inputs.len(),
{
    if inputs.len() == 0 {
        s
    } else {
        let before = appended_all(s, inputs.drop_last());
        let (n, snd, c) = inputs.last();
        appended(before, n, snd, c)
    }
}

pub open spec fn made_public(m: MessageView, id: nat) -> MessageView {
    if m.id == id {
        MessageView { public: true, ..m }
    } else {
        m
    }
}

/// The log after every message with the given id is marked public.
pub open spec fn marked_public(s: Seq<MessageView>, id: nat) -> Seq<MessageView> {
    s.map_values(|m: MessageView| made_public(m, id))
}

/// The public messages of the log, in order.
pub open spec fn public_only(s: Seq<MessageView>) -> Seq<MessageView>
    decreases s.len(),
{
    if s.len() == 0 {
        Seq::empty()
    } else {
        let rest = public_only(s.drop_last());
        if s.last().public {
            rest.push(s.last())
        } else {
            rest
        }
    }
}

/// The id that `append` would give the next message; `None` when it
/// would not fit in a `usize`.
pub fn next_id(messages: &Vec<Message>) -> (r: Option<usize>)
    ensures
        match r {
            Some(id) => id as nat == next_id_of(views(messages@)),
            None => next_id_of(views(messages@)) > usize::MAX,
        },
{
    let mut best: Option<usize> = None;
    let mut i: usize = 0;
    while i < messages.len()
        invariant
            i <= messages.len(),
            match best {
                None => max_id(views(messages@).subrange(0, i as int)) == -1,
                Some(b) => max_id(views(messages@).subrange(0, i as int)) == b as int,
            },
        decreases messages.len() - i,
    {
        let ghost s = views(messages@);
        assert(s.subrange(0, i + 1).drop_last() =~= s.subrange(0, i as int));
        let id = messages[i].id;
        match best {
            None => {
                best = Some(id);
            },
            Some(b) => {
                if id > b {
                    best = Some(id);
                }
            },
        }
        i = i + 1;
    }
    assert(views(messages@).subrange(0, messages@.len() as int) =~= views(messages@));
    match best {
        None => Some(0),
        Some(b) => {
            if b == usize::MAX {
                None
            } else {
                Some(b + 1)
            }
        },
    }
}

/// Appends a new, non-public message with the next id and returns a copy of
/// it. Returns `None`, leaving the log as it was, when that id would not fit.
pub fn append(messages: &mut Vec<Message>, name: &str, sender: &str, content: &str) -> (r:
    Option<Message>)
    ensures
        match r {
            Some(m) => {
                &&& m@ == fresh_message(next_id_of(views(old(messages)@)), name@, sender@, content@)
                &&& views(final(messages)@) == appended(views(old(messages)@), name@, sender@, content@)
            },
            None => {
                &&& next_id_of(views(old(messages)@)) > usize::MAX
                &&& final(messages)@ == old(messages)@
            },
        },
{
    match next_id(messages) {
        None => None,
        Some(id) => {
            let m = Message {
                id,
                name: String::from_str(name),
                sender: String::from_str(sender),
                content: String::from_str(content),
                public: false,
            };
            let copy = m.duplicate();
            let ghost before = messages@;
            messages.push(m);
            assert(views(messages@) =~= views(before).push(copy@));
            Some(copy)
        },
    }
}

/// Marks public every message whose id is `id`; the others stay as they are.
pub fn mark_public(messages: &mut Vec<Message>, id: usize)
    ensures
        views(final(messages)@) == marked_public(views(old(messages)@), id as nat),
{
    let mut out: Vec<Message> = Vec::new();
    let mut i: usize = 0;
    while i < messages.len()
        invariant
            i <= messages.len(),
            views(out@) == marked_public(views(messages@).subrange(0, i as int), id as nat),
        decreases messages.len() - i,
    {
        let m = &messages[i];
        let n = Message {
            id: m.id,
            name: m.name.clone(),
            sender: m.sender.clone(),
            content: m.content.clone(),
            public: m.public || m.id == id,
        };
        let ghost s = views(messages@);
        let ghost prev = out@;
        out.push(n);
        assert(n@ == made_public(s[i as int], id as nat));
        assert(views(out@) =~= views(prev).push(n@));
        assert(marked_public(s.subrange(0, i + 1), id as nat) =~= marked_public(
            s.subrange(0, i as int),
            id as nat,
        ).push(made_public(s[i as int], id as nat)));
        i = i + 1;
    }
    assert(views(messages@).subrange(0, messages@.len() as int) =~= views(messages@));
    *messages = out;
}

/// Copies of the public messages of the log, in order.
pub fn public_messages(messages: &Vec<Message>) -> (r: Vec<Message>)
    ensures
        views(r@) == public_only(views(messages@)),
{
    let mut out: Vec<Message> = Vec::new();
    let mut i: usize = 0;
    while i < messages.len()
        invariant
            i <= messages.len(),
            views(out@) == public_only(views(messages@).subrange(0, i as int)),
        decreases messages.len() - i,
    {
        let ghost s = views(messages@);
        assert(s.subrange(0, i + 1).drop_last() =~= s.subrange(0, i as int));
        if messages[i].public {
            let ghost prev = out@;
            let c = messages[i].duplicate();
            out.push(c);
            assert(views(out@) =~= views(prev).push(c@));
        }
        i = i + 1;
    }
    assert(views(messages@).subrange(0, messages@.len() as int) =~= views(messages@));
    out
}

/// The response to a listing request from `receiver`: every public message
/// of the log, with mode `All`.
pub fn respond_with_public_messages(messages: &Vec<Message>, receiver: &str) -> (r: ListResponse)
    ensures
        r.mode is All,
        r.receiver@ == receiver@,
        r@.data == public_only(views(messages@)),
{
    let data = public_messages(messages);
    ListResponse { mode: ListMode::All, data, receiver: String::from_str(receiver) }
}

proof fn lemma_max_id_of_sequential(s: Seq<MessageView>)
    requires
        forall|i: int| 0 <= i < s.len() ==> #[trigger] s[i].id == i,
    ensures
        max_id(s) == s.len() - 1,
    decreases s.len(),
{
    if s.len() > 0 {
        lemma_max_id_of_sequential(s.drop_last());
    }
}

/// Appending to an empty log numbers the messages 0, 1, 2, ... in the order
/// of the appends, each one not public.
pub proof fn lemma_append_ids_in_order(inputs: Seq<(Seq<char>, Seq<char>, Seq<char>)>)
    ensures
        appended_all(Seq::empty(), inputs).len() == inputs.len(),
        forall|i: int|
            0 <= i < inputs.len() ==> {
                &&& #[trigger] appended_all(Seq::empty(), inputs)[i].id == i
                &&& !appended_all(Seq::empty(), inputs)[i].public
            },
    decreases inputs.len(),
{
    if inputs.len() > 0 {
        let before = appended_all(Seq::empty(), inputs.drop_last());
        lemma_append_ids_in_order(inputs.drop_last());
        assert forall|i: int| 0 <= i < before.len() implies #[trigger] before[i].id == i by {
            assert(before[i].id == i);
        }
        lemma_max_id_of_sequential(before);
    }
}

/// Marking public an id that no message has leaves the log unchanged.
pub proof fn lemma_mark_public_absent(s: Seq<MessageView>, id: nat)
    requires
        forall|i: int| 0 <= i < s.len() ==> #[trigger] s[i].id != id,
    ensures
        marked_public(s, id) == s,
{
    assert(marked_public(s, id) =~= s);
}

/// Marking the same id public twice gives the log that marking it once gives.
pub proof fn lemma_mark_public_idempotent(s: Seq<MessageView>, id: nat)
    ensures
        marked_public(marked_public(s, id), id) == marked_public(s, id),
{
    assert(marked_public(marked_public(s, id), id) =~= marked_public(s, id));
}

/// Every message of a response built from a log is public, and every public
/// message of the log is in it.
pub proof fn lemma_public_only_is_public(s: Seq<MessageView>)
    ensures
        forall|i: int| 0 <= i < public_only(s).len() ==> #[trigger] public_only(s)[i].public,
        forall|i: int| 0 <= i < s.len() && s[i].public ==> public_only(s).contains(#[trigger] s[i]),
    decreases s.len(),
{
    if s.len() > 0 {
        let rest = s.drop_last();
        lemma_public_only_is_public(rest);
        assert forall|i: int| 0 <= i < s.len() && s[i].public implies public_only(s).contains(
            #[trigger] s[i],
        ) by {
            if i < s.len() - 1 {
                assert(rest[i] == s[i]);
                let j = choose|j: int| 0 <= j < public_only(rest).len() && public_only(rest)[j] == rest[i];
                assert(public_only(s)[j] == s[i]);
            } else {
                assert(public_only(s)[public_only(s).len() - 1] == s[i]);
            }
        }
    }
}

} // verus!

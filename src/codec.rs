use vstd::prelude::*;

use crate::json::{
    ahead, chars_of, push_all, read_bool, read_lit, read_nat, read_string, write_bool, write_nat,
    write_string, after_lit, decimal, json_bool, json_string, lemma_after_lit, lemma_bool_round_trip,
    lemma_nat_round_trip, lemma_string_round_trip, parse_bool, parse_nat, parse_string,
};
use crate::message::{
    ListMode, ListModeView, ListRequest, ListRequestView, ListResponse, ListResponseView, Message,
    MessageView,
};
use crate::protocol::Inbound;
use crate::store::views;

verus! {

// ----- the text of each shape -----

pub open spec fn key_id() -> Seq<char> {
    seq!['{', '"', 'i', 'd', '"', ':']
}

pub open spec fn key_name() -> Seq<char> {
    seq![',', '"', 'n', 'a', 'm', 'e', '"', ':']
}

pub open spec fn key_sender() -> Seq<char> {
    seq![',', '"', 's', 'e', 'n', 'd', 'e', 'r', '"', ':']
}

pub open spec fn key_content() -> Seq<char> {
    seq![',', '"', 'c', 'o', 'n', 't', 'e', 'n', 't', '"', ':']
}

pub open spec fn key_public() -> Seq<char> {
    seq![',', '"', 'p', 'u', 'b', 'l', 'i', 'c', '"', ':']
}

pub open spec fn key_mode() -> Seq<char> {
    seq!['{', '"', 'm', 'o', 'd', 'e', '"', ':']
}

pub open spec fn key_data() -> Seq<char> {
    seq![',', '"', 'd', 'a', 't', 'a', '"', ':']
}

pub open spec fn key_receiver() -> Seq<char> {
    seq![',', '"', 'r', 'e', 'c', 'e', 'i', 'v', 'e', 'r', '"', ':']
}

pub open spec fn key_one() -> Seq<char> {
    seq!['{', '"', 'O', 'n', 'e', '"', ':']
}

pub open spec fn word_all() -> Seq<char> {
    seq!['"', 'A', 'l', 'l', '"']
}

pub open spec fn json_message(m: MessageView) -> Seq<char> {
    key_id() + (decimal(m.id) + (key_name() + (json_string(m.name) + (key_sender() + (json_string(
        m.sender,
    ) + (key_content() + (json_string(m.content) + (key_public() + (json_bool(m.public)
        + seq!['}'])))))))))
}

pub open spec fn json_mode(mode: ListModeView) -> Seq<char> {
    match mode {
        ListModeView::All => word_all(),
        ListModeView::One(p) => key_one() + (json_string(p) + seq!['}']),
    }
}

pub open spec fn json_request(q: ListRequestView) -> Seq<char> {
    key_mode() + (json_mode(q.mode) + seq!['}'])
}

/// The messages after the first, each with a comma before it.
pub open spec fn json_more(s: Seq<MessageView>) -> Seq<char>
    decreases s.len(),
{
    if s.len() == 0 {
        Seq::empty()
    } else {
        seq![','] + (json_message(s[0]) + json_more(s.drop_first()))
    }
}

pub open spec fn json_list(s: Seq<MessageView>) -> Seq<char> {
    if s.len() == 0 {
        seq!['[', ']']
    } else {
        seq!['['] + (json_message(s[0]) + (json_more(s.drop_first()) + seq![']']))
    }
}

pub open spec fn json_response(r: ListResponseView) -> Seq<char> {
    key_mode() + (json_mode(r.mode) + (key_data() + (json_list(r.data) + (key_receiver() + (
    json_string(r.receiver) + seq!['}'])))))
}

// ----- reading -----

pub open spec fn parse_message(t: Seq<char>) -> Option<(MessageView, Seq<char>)> {
    match after_lit(t, key_id()) {
        None => None,
        Some(t1) => match parse_nat(t1) {
            None => None,
            Some((id, t2)) => if id > usize::MAX {
                None
            } else {
                match after_lit(t2, key_name()) {
                    None => None,
                    Some(t3) => match parse_string(t3) {
                        None => None,
                        Some((name, t4)) => match after_lit(t4, key_sender()) {
                            None => None,
                            Some(t5) => match parse_string(t5) {
                                None => None,
                                Some((sender, t6)) => match after_lit(t6, key_content()) {
                                    None => None,
                                    Some(t7) => match parse_string(t7) {
                                        None => None,
                                        Some((content, t8)) => match after_lit(t8, key_public()) {
                                            None => None,
                                            Some(t9) => match parse_bool(t9) {
                                                None => None,
                                                Some((public, t10)) => match after_lit(
                                                    t10,
                                                    seq!['}'],
                                                ) {
                                                    None => None,
                                                    Some(t11) => Some(
                                                        (
                                                            MessageView {
                                                                id,
                                                                name,
                                                                sender,
                                                                content,
                                                                public,
                                                            },
                                                            t11,
                                                        ),
                                                    ),
                                                },
                                            },
                                        },
                                    },
                                },
                            },
                        },
                    },
                }
            },
        },
    }
}

pub open spec fn parse_mode(t: Seq<char>) -> Option<(ListModeView, Seq<char>)> {
    match after_lit(t, word_all()) {
        Some(r) => Some((ListModeView::All, r)),
        None => match after_lit(t, key_one()) {
            None => None,
            Some(t1) => match parse_string(t1) {
                None => None,
                Some((p, t2)) => match after_lit(t2, seq!['}']) {
                    None => None,
                    Some(t3) => Some((ListModeView::One(p), t3)),
                },
            },
        },
    }
}

pub open spec fn parse_request(t: Seq<char>) -> Option<(ListRequestView, Seq<char>)> {
    match after_lit(t, key_mode()) {
        None => None,
        Some(t1) => match parse_mode(t1) {
            None => None,
            Some((mode, t2)) => match after_lit(t2, seq!['}']) {
                None => None,
                Some(t3) => Some((ListRequestView { mode }, t3)),
            },
        },
    }
}

/// The messages after the first of a list, up to and past its closing bracket.
pub open spec fn parse_more(t: Seq<char>) -> Option<(Seq<MessageView>, Seq<char>)>
    decreases t.len(),
{
    match after_lit(t, seq![']']) {
        Some(r) => Some((Seq::empty(), r)),
        None => match after_lit(t, seq![',']) {
            None => None,
            Some(t1) => match parse_message(t1) {
                None => None,
                Some((m, t2)) => if t2.len() < t.len() {
                    match parse_more(t2) {
                        None => None,
                        Some((ms, t3)) => Some((seq![m] + ms, t3)),
                    }
                } else {
                    None
                },
            },
        },
    }
}

pub open spec fn parse_list(t: Seq<char>) -> Option<(Seq<MessageView>, Seq<char>)> {
    match after_lit(t, seq!['[']) {
        None => None,
        Some(t1) => match after_lit(t1, seq![']']) {
            Some(r) => Some((Seq::empty(), r)),
            None => match parse_message(t1) {
                None => None,
                Some((m, t2)) => match parse_more(t2) {
                    None => None,
                    Some((ms, t3)) => Some((seq![m] + ms, t3)),
                },
            },
        },
    }
}

pub open spec fn parse_response(t: Seq<char>) -> Option<(ListResponseView, Seq<char>)> {
    match after_lit(t, key_mode()) {
        None => None,
        Some(t1) => match parse_mode(t1) {
            None => None,
            Some((mode, t2)) => match after_lit(t2, key_data()) {
                None => None,
                Some(t3) => match parse_list(t3) {
                    None => None,
                    Some((data, t4)) => match after_lit(t4, key_receiver()) {
                        None => None,
                        Some(t5) => match parse_string(t5) {
                            None => None,
                            Some((receiver, t6)) => match after_lit(t6, seq!['}']) {
                                None => None,
                                Some(t7) => Some((ListResponseView { mode, data, receiver }, t7)),
                            },
                        },
                    },
                },
            },
        },
    }
}

/// A whole text that holds exactly one value, read by `parse`.
pub open spec fn whole<A>(r: Option<(A, Seq<char>)>) -> Option<A> {
    match r {
        Some((v, rest)) => if rest.len() == 0 {
            Some(v)
        } else {
            None
        },
        None => None,
    }
}

// ----- executable writing -----

fn key_id_chars() -> (r: Vec<char>)
    ensures
        r@ == key_id(),
{
    let r = vec!['{', '"', 'i', 'd', '"', ':'];
    assert(r@ =~= key_id());
    r
}

fn key_name_chars() -> (r: Vec<char>)
    ensures
        r@ == key_name(),
{
    let r = vec![',', '"', 'n', 'a', 'm', 'e', '"', ':'];
    assert(r@ =~= key_name());
    r
}

fn key_sender_chars() -> (r: Vec<char>)
    ensures
        r@ == key_sender(),
{
    let r = vec![',', '"', 's', 'e', 'n', 'd', 'e', 'r', '"', ':'];
    assert(r@ =~= key_sender());
    r
}

fn key_content_chars() -> (r: Vec<char>)
    ensures
        r@ == key_content(),
{
    let r = vec![',', '"', 'c', 'o', 'n', 't', 'e', 'n', 't', '"', ':'];
    assert(r@ =~= key_content());
    r
}

fn key_public_chars() -> (r: Vec<char>)
    ensures
        r@ == key_public(),
{
    let r = vec![',', '"', 'p', 'u', 'b', 'l', 'i', 'c', '"', ':'];
    assert(r@ =~= key_public());
    r
}

fn key_mode_chars() -> (r: Vec<char>)
    ensures
        r@ == key_mode(),
{
    let r = vec!['{', '"', 'm', 'o', 'd', 'e', '"', ':'];
    assert(r@ =~= key_mode());
    r
}

fn key_data_chars() -> (r: Vec<char>)
    ensures
        r@ == key_data(),
{
    let r = vec![',', '"', 'd', 'a', 't', 'a', '"', ':'];
    assert(r@ =~= key_data());
    r
}

fn key_receiver_chars() -> (r: Vec<char>)
    ensures
        r@ == key_receiver(),
{
    let r = vec![',', '"', 'r', 'e', 'c', 'e', 'i', 'v', 'e', 'r', '"', ':'];
    assert(r@ =~= key_receiver());
    r
}

fn key_one_chars() -> (r: Vec<char>)
    ensures
        r@ == key_one(),
{
    let r = vec!['{', '"', 'O', 'n', 'e', '"', ':'];
    assert(r@ =~= key_one());
    r
}

fn word_all_chars() -> (r: Vec<char>)
    ensures
        r@ == word_all(),
{
    let r = vec!['"', 'A', 'l', 'l', '"'];
    assert(r@ =~= word_all());
    r
}

fn one_char(c: char) -> (r: Vec<char>)
    ensures
        r@ == seq![c],
{
    let r = vec![c];
    assert(r@ =~= seq![c]);
    r
}

fn write_message(out: &mut String, m: &Message)
    ensures
        final(out)@ == old(out)@ + json_message(m@),
{
    push_all(out, &key_id_chars());
    write_nat(out, m.id);
    push_all(out, &key_name_chars());
    write_string(out, m.name.as_str());
    push_all(out, &key_sender_chars());
    write_string(out, m.sender.as_str());
    push_all(out, &key_content_chars());
    write_string(out, m.content.as_str());
    push_all(out, &key_public_chars());
    write_bool(out, m.public);
    push_all(out, &one_char('}'));
    assert(final(out)@ =~= old(out)@ + json_message(m@));
}

fn write_mode(out: &mut String, mode: &ListMode)
    ensures
        final(out)@ == old(out)@ + json_mode(mode@),
{
    match mode {
        ListMode::All => {
            push_all(out, &word_all_chars());
        },
        ListMode::One(p) => {
            push_all(out, &key_one_chars());
            write_string(out, p.as_str());
            push_all(out, &one_char('}'));
            assert(final(out)@ =~= old(out)@ + json_mode(mode@));
        },
    }
}

fn write_list(out: &mut String, ms: &Vec<Message>)
    ensures
        final(out)@ == old(out)@ + json_list(views(ms@)),
{
    let ghost s = views(ms@);
    push_all(out, &one_char('['));
    if ms.len() > 0 {
        write_message(out, &ms[0]);
        let mut i: usize = 1;
        while i < ms.len()
            invariant
                1 <= i <= ms@.len(),
                s == views(ms@),
                out@ + json_more(s.subrange(i as int, s.len() as int)) == old(out)@ + seq!['['] + (
                json_message(s[0]) + json_more(s.drop_first())),
            decreases ms@.len() - i,
        {
            let ghost before = out@;
            let ghost rest = s.subrange(i as int, s.len() as int);
            assert(rest.drop_first() =~= s.subrange(i + 1, s.len() as int));
            push_all(out, &one_char(','));
            write_message(out, &ms[i]);
            assert(out@ + json_more(rest.drop_first()) =~= before + json_more(rest));
            i = i + 1;
        }
        assert(s.subrange(1, s.len() as int) =~= s.drop_first());
        assert(json_more(s.subrange(ms@.len() as int, s.len() as int)) =~= Seq::<char>::empty());
    }
    push_all(out, &one_char(']'));
    assert(final(out)@ =~= old(out)@ + json_list(views(ms@)));
}

/// The text of a message.
pub fn encode_message(m: &Message) -> (r: String)
    ensures
        r@ == json_message(m@),
{
    let mut out = String::new();
    write_message(&mut out, m);
    assert(out@ =~= json_message(m@));
    out
}

/// The text of a list of messages, as the store keeps it.
pub fn encode_message_list(ms: &Vec<Message>) -> (r: String)
    ensures
        r@ == json_list(views(ms@)),
{
    let mut out = String::new();
    write_list(&mut out, ms);
    assert(out@ =~= json_list(views(ms@)));
    out
}

/// The text of a request.
pub fn encode_request(q: &ListRequest) -> (r: String)
    ensures
        r@ == json_request(q@),
{
    let mut out = String::new();
    push_all(&mut out, &key_mode_chars());
    write_mode(&mut out, &q.mode);
    push_all(&mut out, &one_char('}'));
    assert(out@ =~= json_request(q@));
    out
}

/// The text of a response.
pub fn encode_response(resp: &ListResponse) -> (r: String)
    ensures
        r@ == json_response(resp@),
{
    let mut out = String::new();
    push_all(&mut out, &key_mode_chars());
    write_mode(&mut out, &resp.mode);
    push_all(&mut out, &key_data_chars());
    write_list(&mut out, &resp.data);
    push_all(&mut out, &key_receiver_chars());
    write_string(&mut out, resp.receiver.as_str());
    push_all(&mut out, &one_char('}'));
    assert(out@ =~= json_response(resp@));
    out
}

// ----- executable reading -----

fn read_message(t: &Vec<char>, pos: usize) -> (r: Option<(Message, usize)>)
    requires
        pos <= t@.len(),
    ensures
        match parse_message(ahead(t@, pos as int)) {
            Some((m, rest)) => r matches Some((v, p)) && v@ == m && pos <= p <= t@.len() && ahead(
                t@,
                p as int,
            ) == rest,
            None => r is None,
        },
{
    let at1 = match read_lit(t, pos, &key_id_chars()) {
        Some(p) => p,
        None => {
            return None;
        },
    };
    let (id, at2) = match read_nat(t, at1) {
        Some(x) => x,
        None => {
            return None;
        },
    };
    let at3 = match read_lit(t, at2, &key_name_chars()) {
        Some(p) => p,
        None => {
            return None;
        },
    };
    let (name, at4) = match read_string(t, at3) {
        Some(x) => x,
        None => {
            return None;
        },
    };
    let at5 = match read_lit(t, at4, &key_sender_chars()) {
        Some(p) => p,
        None => {
            return None;
        },
    };
    let (sender, at6) = match read_string(t, at5) {
        Some(x) => x,
        None => {
            return None;
        },
    };
    let at7 = match read_lit(t, at6, &key_content_chars()) {
        Some(p) => p,
        None => {
            return None;
        },
    };
    let (content, at8) = match read_string(t, at7) {
        Some(x) => x,
        None => {
            return None;
        },
    };
    let at9 = match read_lit(t, at8, &key_public_chars()) {
        Some(p) => p,
        None => {
            return None;
        },
    };
    let (public, at10) = match read_bool(t, at9) {
        Some(x) => x,
        None => {
            return None;
        },
    };
    let at11 = match read_lit(t, at10, &one_char('}')) {
        Some(p) => p,
        None => {
            return None;
        },
    };
    Some((Message { id, name, sender, content, public }, at11))
}

fn read_mode(t: &Vec<char>, pos: usize) -> (r: Option<(ListMode, usize)>)
    requires
        pos <= t@.len(),
    ensures
        match parse_mode(ahead(t@, pos as int)) {
            Some((m, rest)) => r matches Some((v, p)) && v@ == m && pos <= p <= t@.len() && ahead(
                t@,
                p as int,
            ) == rest,
            None => r is None,
        },
{
    if let Some(p) = read_lit(t, pos, &word_all_chars()) {
        return Some((ListMode::All, p));
    }
    let at1 = match read_lit(t, pos, &key_one_chars()) {
        Some(p) => p,
        None => {
            return None;
        },
    };
    let (peer, at2) = match read_string(t, at1) {
        Some(x) => x,
        None => {
            return None;
        },
    };
    let at3 = match read_lit(t, at2, &one_char('}')) {
        Some(p) => p,
        None => {
            return None;
        },
    };
    Some((ListMode::One(peer), at3))
}

fn read_request(t: &Vec<char>, pos: usize) -> (r: Option<(ListRequest, usize)>)
    requires
        pos <= t@.len(),
    ensures
        match parse_request(ahead(t@, pos as int)) {
            Some((q, rest)) => r matches Some((v, p)) && v@ == q && pos <= p <= t@.len() && ahead(
                t@,
                p as int,
            ) == rest,
            None => r is None,
        },
{
    let at1 = match read_lit(t, pos, &key_mode_chars()) {
        Some(p) => p,
        None => {
            return None;
        },
    };
    let (mode, at2) = match read_mode(t, at1) {
        Some(x) => x,
        None => {
            return None;
        },
    };
    let at3 = match read_lit(t, at2, &one_char('}')) {
        Some(p) => p,
        None => {
            return None;
        },
    };
    Some((ListRequest { mode }, at3))
}

fn read_more(t: &Vec<char>, pos: usize, first: Message) -> (r: Option<(Vec<Message>, usize)>)
    requires
        pos <= t@.len(),
    ensures
        match parse_more(ahead(t@, pos as int)) {
            Some((ms, rest)) => r matches Some((v, p)) && views(v@) == seq![first@] + ms && pos <= p
                <= t@.len() && ahead(t@, p as int) == rest,
            None => r is None,
        },
{
    let mut acc: Vec<Message> = Vec::new();
    acc.push(first);
    let mut i: usize = pos;
    assert(views(acc@) =~= seq![first@]);
    loop
        invariant
            pos <= i <= t@.len(),
            views(acc@).len() >= 1,
            views(acc@)[0] == first@,
            match parse_more(ahead(t@, pos as int)) {
                Some((ms, rest)) => match parse_more(ahead(t@, i as int)) {
                    Some((ms2, rest2)) => seq![first@] + ms == views(acc@) + ms2 && rest == rest2,
                    None => false,
                },
                None => parse_more(ahead(t@, i as int)) is None,
            },
        decreases t@.len() - i,
    {
        let ghost a = ahead(t@, i as int);
        if let Some(p) = read_lit(t, i, &one_char(']')) {
            assert(views(acc@) + Seq::<MessageView>::empty() =~= views(acc@));
            return Some((acc, p));
        }
        let at1 = match read_lit(t, i, &one_char(',')) {
            Some(p) => p,
            None => {
                return None;
            },
        };
        let (m, at2) = match read_message(t, at1) {
            Some(x) => x,
            None => {
                return None;
            },
        };
        if at2 <= i {
            return None;
        }
        let ghost before = views(acc@);
        let ghost mv = m@;
        acc.push(m);
        proof {
            assert(views(acc@) =~= before.push(mv));
            assert forall|ms2: Seq<MessageView>| #[trigger] (before + (seq![mv] + ms2)) == views(acc@) + ms2 by {
                assert(before + (seq![mv] + ms2) =~= views(acc@) + ms2);
            }
        }
        i = at2;
    }
}

fn read_list(t: &Vec<char>, pos: usize) -> (r: Option<(Vec<Message>, usize)>)
    requires
        pos <= t@.len(),
    ensures
        match parse_list(ahead(t@, pos as int)) {
            Some((ms, rest)) => r matches Some((v, p)) && views(v@) == ms && pos <= p <= t@.len()
                && ahead(t@, p as int) == rest,
            None => r is None,
        },
{
    let at1 = match read_lit(t, pos, &one_char('[')) {
        Some(p) => p,
        None => {
            return None;
        },
    };
    if let Some(p) = read_lit(t, at1, &one_char(']')) {
        let v: Vec<Message> = Vec::new();
        assert(views(v@) =~= Seq::<MessageView>::empty());
        return Some((v, p));
    }
    let (m, at2) = match read_message(t, at1) {
        Some(x) => x,
        None => {
            return None;
        },
    };
    read_more(t, at2, m)
}

fn read_response(t: &Vec<char>, pos: usize) -> (r: Option<(ListResponse, usize)>)
    requires
        pos <= t@.len(),
    ensures
        match parse_response(ahead(t@, pos as int)) {
            Some((q, rest)) => r matches Some((v, p)) && v@ == q && pos <= p <= t@.len() && ahead(
                t@,
                p as int,
            ) == rest,
            None => r is None,
        },
{
    let at1 = match read_lit(t, pos, &key_mode_chars()) {
        Some(p) => p,
        None => {
            return None;
        },
    };
    let (mode, at2) = match read_mode(t, at1) {
        Some(x) => x,
        None => {
            return None;
        },
    };
    let at3 = match read_lit(t, at2, &key_data_chars()) {
        Some(p) => p,
        None => {
            return None;
        },
    };
    let (data, at4) = match read_list(t, at3) {
        Some(x) => x,
        None => {
            return None;
        },
    };
    let at5 = match read_lit(t, at4, &key_receiver_chars()) {
        Some(p) => p,
        None => {
            return None;
        },
    };
    let (receiver, at6) = match read_string(t, at5) {
        Some(x) => x,
        None => {
            return None;
        },
    };
    let at7 = match read_lit(t, at6, &one_char('}')) {
        Some(p) => p,
        None => {
            return None;
        },
    };
    Some((ListResponse { mode, data, receiver }, at7))
}

proof fn lemma_ahead_all(t: Seq<char>)
    ensures
        ahead(t, 0) == t,
{
    assert(ahead(t, 0) =~= t);
}

/// Reads a message from its whole text.
pub fn decode_message(text: &str) -> (r: Option<Message>)
    ensures
        match whole(parse_message(text@)) {
            Some(m) => r matches Some(v) && v@ == m,
            None => r is None,
        },
{
    let t = chars_of(text);
    proof {
        lemma_ahead_all(t@);
    }
    match read_message(&t, 0) {
        Some((m, p)) => if p == t.len() {
            Some(m)
        } else {
            None
        },
        None => None,
    }
}

/// Reads a list of messages, as the store keeps it, from its whole text.
pub fn decode_message_list(text: &str) -> (r: Option<Vec<Message>>)
    ensures
        match whole(parse_list(text@)) {
            Some(ms) => r matches Some(v) && views(v@) == ms,
            None => r is None,
        },
{
    let t = chars_of(text);
    proof {
        lemma_ahead_all(t@);
    }
    match read_list(&t, 0) {
        Some((ms, p)) => if p == t.len() {
            Some(ms)
        } else {
            None
        },
        None => None,
    }
}

/// Reads a request from its whole text.
pub fn decode_request(text: &str) -> (r: Option<ListRequest>)
    ensures
        match whole(parse_request(text@)) {
            Some(q) => r matches Some(v) && v@ == q,
            None => r is None,
        },
{
    let t = chars_of(text);
    proof {
        lemma_ahead_all(t@);
    }
    match read_request(&t, 0) {
        Some((q, p)) => if p == t.len() {
            Some(q)
        } else {
            None
        },
        None => None,
    }
}

/// Reads a response from its whole text.
pub fn decode_response(text: &str) -> (r: Option<ListResponse>)
    ensures
        match whole(parse_response(text@)) {
            Some(q) => r matches Some(v) && v@ == q,
            None => r is None,
        },
{
    let t = chars_of(text);
    proof {
        lemma_ahead_all(t@);
    }
    match read_response(&t, 0) {
        Some((q, p)) => if p == t.len() {
            Some(q)
        } else {
            None
        },
        None => None,
    }
}

/// Tells what a payload of the shared topic is: a response if it reads as
/// one, else a request if it reads as one, else unrecognized.
pub fn decode_inbound(text: &str) -> (r: Inbound)
    ensures
        match whole(parse_response(text@)) {
            Some(v) => r matches Inbound::Response(x) && x@ == v,
            None => match whole(parse_request(text@)) {
                Some(q) => r matches Inbound::Request(x) && x@ == q,
                None => r is Unrecognized,
            },
        },
{
    match decode_response(text) {
        Some(resp) => Inbound::Response(resp),
        None => match decode_request(text) {
            Some(q) => Inbound::Request(q),
            None => Inbound::Unrecognized,
        },
    }
}

// ----- reading back what was written -----

proof fn lemma_message_read(m: MessageView, rest: Seq<char>)
    requires
        m.id <= usize::MAX,
    ensures
        parse_message(json_message(m) + rest) == Some((m, rest)),
        (json_message(m) + rest).len() > rest.len(),
{
    let r10 = seq!['}'] + rest;
    let r9 = json_bool(m.public) + r10;
    let r8 = key_public() + r9;
    let r7 = json_string(m.content) + r8;
    let r6 = key_content() + r7;
    let r5 = json_string(m.sender) + r6;
    let r4 = key_sender() + r5;
    let r3 = json_string(m.name) + r4;
    let r2 = key_name() + r3;
    let r1 = decimal(m.id) + r2;
    let r0 = key_id() + r1;
    assert(json_message(m) + rest =~= r0);
    lemma_after_lit(key_id(), r1);
    lemma_nat_round_trip(m.id, r2);
    lemma_after_lit(key_name(), r3);
    lemma_string_round_trip(m.name, r4);
    lemma_after_lit(key_sender(), r5);
    lemma_string_round_trip(m.sender, r6);
    lemma_after_lit(key_content(), r7);
    lemma_string_round_trip(m.content, r8);
    lemma_after_lit(key_public(), r9);
    lemma_bool_round_trip(m.public, r10);
    lemma_after_lit(seq!['}'], rest);
}

proof fn lemma_mode_read(mode: ListModeView, rest: Seq<char>)
    ensures
        parse_mode(json_mode(mode) + rest) == Some((mode, rest)),
{
    match mode {
        ListModeView::All => {
            lemma_after_lit(word_all(), rest);
        },
        ListModeView::One(p) => {
            let t = json_mode(mode) + rest;
            assert(t =~= key_one() + (json_string(p) + (seq!['}'] + rest)));
            assert(t[0] == '{');
            lemma_after_lit(key_one(), json_string(p) + (seq!['}'] + rest));
            lemma_string_round_trip(p, seq!['}'] + rest);
            lemma_after_lit(seq!['}'], rest);
        },
    }
}

proof fn lemma_more_read(s: Seq<MessageView>, rest: Seq<char>)
    requires
        forall|i: int| 0 <= i < s.len() ==> (#[trigger] s[i]).id <= usize::MAX,
    ensures
        parse_more(json_more(s) + (seq![']'] + rest)) == Some((s, rest)),
    decreases s.len(),
{
    let q = seq![']'] + rest;
    if s.len() == 0 {
        assert(json_more(s) + q =~= q);
        lemma_after_lit(seq![']'], rest);
    } else {
        let tail = s.drop_first();
        let t2 = json_more(tail) + q;
        let t1 = json_message(s[0]) + t2;
        let t = json_more(s) + q;
        assert(t =~= seq![','] + t1);
        assert(t[0] == ',');
        lemma_after_lit(seq![','], t1);
        lemma_message_read(s[0], t2);
        lemma_more_read(tail, rest);
        assert(seq![s[0]] + tail =~= s);
    }
}

#[verifier::rlimit(50)]
proof fn lemma_list_read(s: Seq<MessageView>, rest: Seq<char>)
    requires
        forall|i: int| 0 <= i < s.len() ==> (#[trigger] s[i]).id <= usize::MAX,
    ensures
        parse_list(json_list(s) + rest) == Some((s, rest)),
{
    let t = json_list(s) + rest;
    if s.len() == 0 {
        assert(t =~= seq!['['] + (seq![']'] + rest));
        lemma_after_lit(seq!['['], seq![']'] + rest);
        lemma_after_lit(seq![']'], rest);
    } else {
        let tail = s.drop_first();
        let t2 = json_more(tail) + (seq![']'] + rest);
        let t1 = json_message(s[0]) + t2;
        assert(t =~= seq!['['] + t1);
        lemma_after_lit(seq!['['], t1);
        assert(t1[0] == '{');
        lemma_message_read(s[0], t2);
        lemma_more_read(tail, rest);
        assert(seq![s[0]] + tail =~= s);
    }
}

/// Every message read back from its text is the message that was written.
pub proof fn lemma_message_round_trip(m: MessageView)
    requires
        m.id <= usize::MAX,
    ensures
        whole(parse_message(json_message(m))) == Some(m),
{
    lemma_message_read(m, Seq::empty());
    assert(json_message(m) + Seq::<char>::empty() =~= json_message(m));
}

/// Every request read back from its text is the request that was written.
pub proof fn lemma_request_round_trip(q: ListRequestView)
    ensures
        whole(parse_request(json_request(q))) == Some(q),
{
    let t = json_request(q);
    lemma_after_lit(key_mode(), json_mode(q.mode) + seq!['}']);
    lemma_mode_read(q.mode, seq!['}']);
    lemma_after_lit(seq!['}'], Seq::empty());
    assert(seq!['}'] + Seq::<char>::empty() =~= seq!['}']);
}

/// Every list of messages read back from its text is the list that was written.
pub proof fn lemma_list_round_trip(s: Seq<MessageView>)
    requires
        forall|i: int| 0 <= i < s.len() ==> (#[trigger] s[i]).id <= usize::MAX,
    ensures
        whole(parse_list(json_list(s))) == Some(s),
{
    lemma_list_read(s, Seq::empty());
    assert(json_list(s) + Seq::<char>::empty() =~= json_list(s));
}

/// Every response read back from its text is the response that was written.
pub proof fn lemma_response_round_trip(r: ListResponseView)
    requires
        forall|i: int| 0 <= i < r.data.len() ==> (#[trigger] r.data[i]).id <= usize::MAX,
    ensures
        whole(parse_response(json_response(r))) == Some(r),
{
    let r6 = seq!['}'];
    let r5 = json_string(r.receiver) + r6;
    let r4 = key_receiver() + r5;
    let r3 = json_list(r.data) + r4;
    let r2 = key_data() + r3;
    let r1 = json_mode(r.mode) + r2;
    assert(json_response(r) =~= key_mode() + r1);
    lemma_after_lit(key_mode(), r1);
    lemma_mode_read(r.mode, r2);
    lemma_after_lit(key_data(), r3);
    lemma_list_read(r.data, r4);
    lemma_after_lit(key_receiver(), r5);
    lemma_string_round_trip(r.receiver, r6);
    lemma_after_lit(seq!['}'], Seq::empty());
    assert(seq!['}'] + Seq::<char>::empty() =~= seq!['}']);
}

} // verus!

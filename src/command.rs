use vstd::prelude::*;

use crate::event_loop::{Command, ListTarget};
use crate::json::{after_lit, ahead, chars_of, find_char, index_of, parse_nat, read_lit, read_nat, string_of};

verus! {

/// Whose messages a listing command asks for, as a value.
pub ghost enum TargetView {
    All,
    One(Seq<char>),
    LocalOnly,
}

/// A command, as a value.
pub ghost enum CommandView {
    ListPeers,
    ListMessages(TargetView),
    CreateMessage(Seq<char>, Seq<char>, Seq<char>),
    PublishMessage(nat),
    Unrecognized,
}

impl View for Command {
    type V = CommandView;

    open spec fn view(&self) -> CommandView {
        match self {
            Command::ListPeers => CommandView::ListPeers,
            Command::ListMessages(ListTarget::All) => CommandView::ListMessages(TargetView::All),
            Command::ListMessages(ListTarget::One(p)) => CommandView::ListMessages(TargetView::One(p@)),
            Command::ListMessages(ListTarget::LocalOnly) => CommandView::ListMessages(
                TargetView::LocalOnly,
            ),
            Command::CreateMessage { name, sender, content } => CommandView::CreateMessage(
                name@,
                sender@,
                content@,
            ),
            Command::PublishMessage(id) => CommandView::PublishMessage(*id as nat),
            Command::Unrecognized => CommandView::Unrecognized,
        }
    }
}

pub open spec fn word_ls_p() -> Seq<char> {
    seq!['l', 's', ' ', 'p']
}

pub open spec fn word_ls_m() -> Seq<char> {
    seq!['l', 's', ' ', 'm']
}

pub open spec fn word_all() -> Seq<char> {
    seq![' ', 'a', 'l', 'l']
}

pub open spec fn word_create() -> Seq<char> {
    seq!['c', 'r', 'e', 'a', 't', 'e', ' ', 'm', ' ']
}

pub open spec fn word_publish() -> Seq<char> {
    seq!['p', 'u', 'b', 'l', 'i', 's', 'h', ' ', 'm', ' ']
}

/// The first three `|`-separated fields of `t`; anything after a third `|`
/// is dropped.
pub open spec fn three_fields(t: Seq<char>) -> Option<(Seq<char>, Seq<char>, Seq<char>)> {
    match index_of(t, '|') {
        None => None,
        Some(i) => {
            let t1 = t.subrange(i + 1 as int, t.len() as int);
            match index_of(t1, '|') {
                None => None,
                Some(j) => {
                    let t2 = t1.subrange(j + 1 as int, t1.len() as int);
                    let k = match index_of(t2, '|') {
                        Some(k) => k,
                        None => t2.len(),
                    };
                    Some((t.subrange(0, i as int), t1.subrange(0, j as int), t2.subrange(0, k as int)))
                },
            }
        },
    }
}

/// The command that a line of input stands for:
/// `ls p`; `ls m` (this peer's messages); `ls m all`; `ls m <peer>`;
/// `create m <name>|<sender>|<content>`; `publish m <id>`.
pub open spec fn command_of(line: Seq<char>) -> CommandView {
    if line == word_ls_p() {
        CommandView::ListPeers
    } else if after_lit(line, word_ls_m()) is Some {
        let rest = after_lit(line, word_ls_m())->0;
        if rest.len() == 0 {
            CommandView::ListMessages(TargetView::LocalOnly)
        } else if rest == word_all() {
            CommandView::ListMessages(TargetView::All)
        } else if rest.len() > 1 && rest[0] == ' ' {
            CommandView::ListMessages(TargetView::One(rest.drop_first()))
        } else {
            CommandView::Unrecognized
        }
    } else if after_lit(line, word_create()) is Some {
        match three_fields(after_lit(line, word_create())->0) {
            Some((n, s, c)) => CommandView::CreateMessage(n, s, c),
            None => CommandView::Unrecognized,
        }
    } else if after_lit(line, word_publish()) is Some {
        match parse_nat(after_lit(line, word_publish())->0) {
            Some((id, rest)) => if rest.len() == 0 && id <= usize::MAX {
                CommandView::PublishMessage(id)
            } else {
                CommandView::Unrecognized
            },
            None => CommandView::Unrecognized,
        }
    } else {
        CommandView::Unrecognized
    }
}

fn is_exactly(t: &Vec<char>, from: usize, w: &Vec<char>) -> (r: bool)
    requires
        from <= t@.len(),
    ensures
        r == (ahead(t@, from as int) == w@),
{
    match read_lit(t, from, w) {
        Some(p) => {
            if p == t.len() {
                assert(ahead(t@, from as int) =~= w@);
                true
            } else {
                assert(ahead(t@, from as int).len() != w@.len());
                false
            }
        },
        None => {
            proof {
                if ahead(t@, from as int) == w@ {
                    assert(ahead(t@, from as int).subrange(0, w@.len() as int) =~= w@);
                }
            }
            false
        },
    }
}

proof fn lemma_ahead_of_ahead(t: Seq<char>, a: int, k: int)
    requires
        0 <= a,
        0 <= k,
        a + k <= t.len(),
    ensures
        ahead(t, a).subrange(k, ahead(t, a).len() as int) == ahead(t, a + k),
{
    assert(ahead(t, a).subrange(k, ahead(t, a).len() as int) =~= ahead(t, a + k));
}

fn three_fields_at(t: &Vec<char>, from: usize) -> (r: Option<(String, String, String)>)
    requires
        from <= t@.len(),
    ensures
        match three_fields(ahead(t@, from as int)) {
            Some((n, s, c)) => r matches Some((a, b, d)) && a@ == n && b@ == s && d@ == c,
            None => r is None,
        },
{
    let ghost u = ahead(t@, from as int);
    let len = t.len();
    let i = match find_char(t, from, '|') {
        Some(i) => i,
        None => {
            return None;
        },
    };
    let ghost t1 = u.subrange((i - from + 1) as int, u.len() as int);
    proof {
        lemma_ahead_of_ahead(t@, from as int, (i - from + 1) as int);
        assert(index_of(u, '|') == Some((i - from) as nat));
        assert(t1 == ahead(t@, i + 1));
    }
    let j = match find_char(t, i + 1, '|') {
        Some(j) => j,
        None => {
            assert(index_of(t1, '|') is None);
            return None;
        },
    };
    proof {
        lemma_ahead_of_ahead(t@, (i + 1) as int, (j - i) as int);
    }
    let k = match find_char(t, j + 1, '|') {
        Some(k) => k,
        None => len,
    };
    let a = string_of(t, from, i);
    let b = string_of(t, i + 1, j);
    let d = string_of(t, j + 1, k);
    proof {
        let t2 = t1.subrange((j - i) as int, t1.len() as int);
        assert(u.subrange(0, (i - from) as int) =~= t@.subrange(from as int, i as int));
        assert(t1.subrange(0, (j - i - 1) as int) =~= t@.subrange(i + 1, j as int));
        assert(t2 == ahead(t@, j + 1));
        assert(t2.subrange(0, (k - j - 1) as int) =~= t@.subrange(j + 1, k as int));
    }
    Some((a, b, d))
}

/// Resolves a line of input into a command.
pub fn parse_command(line: &str) -> (r: Command)
    ensures
        r@ == command_of(line@),
{
    let t = chars_of(line);
    assert(ahead(t@, 0) =~= t@);
    let ls_p = vec!['l', 's', ' ', 'p'];
    let ls_m = vec!['l', 's', ' ', 'm'];
    let all = vec![' ', 'a', 'l', 'l'];
    let create = vec!['c', 'r', 'e', 'a', 't', 'e', ' ', 'm', ' '];
    let publish = vec!['p', 'u', 'b', 'l', 'i', 's', 'h', ' ', 'm', ' '];
    assert(ls_p@ =~= word_ls_p());
    assert(ls_m@ =~= word_ls_m());
    assert(all@ =~= word_all());
    assert(create@ =~= word_create());
    assert(publish@ =~= word_publish());
    if is_exactly(&t, 0, &ls_p) {
        return Command::ListPeers;
    }
    if let Some(p) = read_lit(&t, 0, &ls_m) {
        if p == t.len() {
            return Command::ListMessages(ListTarget::LocalOnly);
        }
        if is_exactly(&t, p, &all) {
            return Command::ListMessages(ListTarget::All);
        }
        if t.len() - p > 1 && t[p] == ' ' {
            proof {
                lemma_ahead_of_ahead(t@, p as int, 1);
                assert(ahead(t@, p as int).drop_first() =~= ahead(t@, p + 1));
            }
            return Command::ListMessages(ListTarget::One(string_of(&t, p + 1, t.len())));
        }
        return Command::Unrecognized;
    }
    if let Some(p) = read_lit(&t, 0, &create) {
        return match three_fields_at(&t, p) {
            Some((name, sender, content)) => Command::CreateMessage { name, sender, content },
            None => Command::Unrecognized,
        };
    }
    if let Some(p) = read_lit(&t, 0, &publish) {
        return match read_nat(&t, p) {
            Some((id, q)) => if q == t.len() {
                Command::PublishMessage(id)
            } else {
                Command::Unrecognized
            },
            None => Command::Unrecognized,
        };
    }
    Command::Unrecognized
}

} // verus!

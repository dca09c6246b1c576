use vstd::prelude::*;
use vstd::std_specs::iter::IteratorSpec;

verus! {

// ----- text -----

pub open spec fn is_digit(c: char) -> bool {
    48 <= (c as u32) <= 57
}

pub open spec fn digit_value(c: char) -> nat {
    ((c as u32) - 48) as nat
}

pub open spec fn digit_char(n: nat) -> char {
    ((n + 48) as u8) as char
}

/// The lowercase hexadecimal digit of `n` (below 16).
pub open spec fn hex_char(n: nat) -> char {
    if n < 10 {
        ((n + 48) as u8) as char
    } else {
        ((n + 87) as u8) as char
    }
}

pub open spec fn hex_value(c: char) -> Option<nat> {
    let v = c as u32;
    if 48 <= v <= 57 {
        Some((v - 48) as nat)
    } else if 97 <= v <= 102 {
        Some((v - 87) as nat)
    } else if 65 <= v <= 70 {
        Some((v - 55) as nat)
    } else {
        None
    }
}

/// The decimal digits of `n`, without leading zeros.
pub open spec fn decimal(n: nat) -> Seq<char>
    decreases n,
{
    if n < 10 {
        seq![digit_char(n)]
    } else {
        decimal(n / 10).push(digit_char(n % 10))
    }
}

/// How a character is written inside a JSON string.
pub open spec fn escape_of(c: char) -> Seq<char> {
    if c == '"' {
        seq!['\\', '"']
    } else if c == '\\' {
        seq!['\\', '\\']
    } else if c == '\n' {
        seq!['\\', 'n']
    } else if c == '\r' {
        seq!['\\', 'r']
    } else if c == '\t' {
        seq!['\\', 't']
    } else if c == '\x08' {
        seq!['\\', 'b']
    } else if c == '\x0c' {
        seq!['\\', 'f']
    } else if (c as u32) < 32 {
        seq!['\\', 'u', '0', '0', hex_char((c as u32) as nat / 16), hex_char((c as u32) as nat % 16)]
    } else {
        seq![c]
    }
}

pub open spec fn escaped(s: Seq<char>) -> Seq<char>
    decreases s.len(),
{
    if s.len() == 0 {
        Seq::empty()
    } else {
        escape_of(s[0]) + escaped(s.drop_first())
    }
}

/// A JSON string literal holding `s`.
pub open spec fn json_string(s: Seq<char>) -> Seq<char> {
    seq!['"'] + (escaped(s) + seq!['"'])
}

pub open spec fn json_bool(b: bool) -> Seq<char> {
    if b {
        seq!['t', 'r', 'u', 'e']
    } else {
        seq!['f', 'a', 'l', 's', 'e']
    }
}

// ----- reading: each parser takes the text ahead and returns the value
// read with the text that follows it -----

/// `t` with `lit` taken off its front, if it starts with `lit`.
pub open spec fn after_lit(t: Seq<char>, lit: Seq<char>) -> Option<Seq<char>> {
    if lit.len() <= t.len() && t.subrange(0, lit.len() as int) == lit {
        Some(t.subrange(lit.len() as int, t.len() as int))
    } else {
        None
    }
}

/// The character that an escape at the front of `t` stands for, and the
/// length of the escape.
pub open spec fn unescape(t: Seq<char>) -> Option<(char, nat)> {
    if t.len() < 2 || t[0] != '\\' {
        None
    } else if t[1] == '"' {
        Some(('"', 2))
    } else if t[1] == '\\' {
        Some(('\\', 2))
    } else if t[1] == '/' {
        Some(('/', 2))
    } else if t[1] == 'n' {
        Some(('\n', 2))
    } else if t[1] == 'r' {
        Some(('\r', 2))
    } else if t[1] == 't' {
        Some(('\t', 2))
    } else if t[1] == 'b' {
        Some(('\x08', 2))
    } else if t[1] == 'f' {
        Some(('\x0c', 2))
    } else if t[1] == 'u' && t.len() >= 6 && t[2] == '0' && t[3] == '0' && hex_value(t[4]) is Some
        && hex_value(t[5]) is Some {
        Some((((hex_value(t[4])->0 * 16 + hex_value(t[5])->0) as u8) as char, 6))
    } else {
        None
    }
}

/// The characters of a string literal whose opening quote is already read,
/// and the text after its closing quote.
pub open spec fn parse_str_body(t: Seq<char>) -> Option<(Seq<char>, Seq<char>)>
    decreases t.len(),
{
    if t.len() == 0 {
        None
    } else if t[0] == '"' {
        Some((Seq::empty(), t.drop_first()))
    } else if t[0] == '\\' {
        match unescape(t) {
            Some((c, k)) => if 1 <= k <= t.len() {
                match parse_str_body(t.subrange(k as int, t.len() as int)) {
                    Some((s, rest)) => Some((seq![c] + s, rest)),
                    None => None,
                }
            } else {
                None
            },
            None => None,
        }
    } else if (t[0] as u32) < 32 {
        None
    } else {
        match parse_str_body(t.drop_first()) {
            Some((s, rest)) => Some((seq![t[0]] + s, rest)),
            None => None,
        }
    }
}

pub open spec fn parse_string(t: Seq<char>) -> Option<(Seq<char>, Seq<char>)> {
    match after_lit(t, seq!['"']) {
        Some(r) => parse_str_body(r),
        None => None,
    }
}

/// The number of digits at the front of `t`.
pub open spec fn digit_run(t: Seq<char>) -> nat
    decreases t.len(),
{
    if t.len() > 0 && is_digit(t[0]) {
        1 + digit_run(t.drop_first())
    } else {
        0
    }
}

/// The number that a sequence of digits writes.
pub open spec fn value_of(d: Seq<char>) -> nat
    decreases d.len(),
{
    if d.len() == 0 {
        0
    } else {
        value_of(d.drop_last()) * 10 + digit_value(d.last())
    }
}

pub open spec fn parse_nat(t: Seq<char>) -> Option<(nat, Seq<char>)> {
    let k = digit_run(t);
    if k == 0 {
        None
    } else {
        Some((value_of(t.subrange(0, k as int)), t.subrange(k as int, t.len() as int)))
    }
}

pub open spec fn parse_bool(t: Seq<char>) -> Option<(bool, Seq<char>)> {
    match after_lit(t, json_bool(true)) {
        Some(r) => Some((true, r)),
        None => match after_lit(t, json_bool(false)) {
            Some(r) => Some((false, r)),
            None => None,
        },
    }
}

// ----- reading back what was written -----

pub proof fn lemma_after_lit(lit: Seq<char>, rest: Seq<char>)
    ensures
        after_lit(lit + rest, lit) == Some(rest),
{
    assert((lit + rest).subrange(0, lit.len() as int) =~= lit);
    assert((lit + rest).subrange(lit.len() as int, (lit + rest).len() as int) =~= rest);
}

proof fn lemma_hex_round_trip(n: nat)
    requires
        n < 16,
    ensures
        hex_value(hex_char(n)) == Some(n),
{
}

proof fn lemma_unescape_of(c: char, rest: Seq<char>)
    requires
        escape_of(c).len() > 1,
    ensures
        unescape(escape_of(c) + rest) == Some((c, escape_of(c).len())),
{
    let t = escape_of(c) + rest;
    if c != '"' && c != '\\' && c != '\n' && c != '\r' && c != '\t' && c != '\x08' && c
        != '\x0c' {
        let v = (c as u32) as nat;
        lemma_hex_round_trip(v / 16);
        lemma_hex_round_trip(v % 16);
        assert(t[4] == hex_char(v / 16));
        assert(t[5] == hex_char(v % 16));
        assert(v / 16 * 16 + v % 16 == v);
        let d = ((v / 16 * 16 + v % 16) as u8) as char;
        assert((d as u32) == (c as u32));
    }
}

/// Reading the body of a written string gives back its characters and the
/// text after the closing quote.
pub proof fn lemma_str_body_round_trip(s: Seq<char>, rest: Seq<char>)
    ensures
        parse_str_body(escaped(s) + (seq!['"'] + rest)) == Some((s, rest)),
    decreases s.len(),
{
    let q = seq!['"'] + rest;
    if s.len() == 0 {
        assert(escaped(s) + q =~= q);
        assert(q.drop_first() =~= rest);
    } else {
        let c = s[0];
        let e = escape_of(c);
        let tail = s.drop_first();
        let t = escaped(s) + q;
        lemma_str_body_round_trip(tail, rest);
        assert(t =~= e + (escaped(tail) + q));
        assert(seq![c] + tail =~= s);
        if e.len() == 1 {
            assert(t.drop_first() =~= escaped(tail) + q);
        } else {
            lemma_unescape_of(c, escaped(tail) + q);
            assert(t.subrange(e.len() as int, t.len() as int) =~= escaped(tail) + q);
        }
    }
}

pub proof fn lemma_string_round_trip(s: Seq<char>, rest: Seq<char>)
    ensures
        parse_string(json_string(s) + rest) == Some((s, rest)),
{
    let t = json_string(s) + rest;
    assert(t =~= seq!['"'] + (escaped(s) + (seq!['"'] + rest)));
    lemma_after_lit(seq!['"'], escaped(s) + (seq!['"'] + rest));
    lemma_str_body_round_trip(s, rest);
}

proof fn lemma_decimal(n: nat)
    ensures
        forall|i: int| 0 <= i < decimal(n).len() ==> is_digit(#[trigger] decimal(n)[i]),
        value_of(decimal(n)) == n,
        decimal(n).len() > 0,
    decreases n,
{
    if n >= 10 {
        lemma_decimal(n / 10);
        assert(decimal(n).drop_last() =~= decimal(n / 10));
        assert(digit_value(digit_char(n % 10)) == n % 10);
        assert((n / 10) * 10 + n % 10 == n);
        let d = decimal(n);
        assert(d.last() == digit_char(n % 10));
        assert(value_of(d) == value_of(d.drop_last()) * 10 + digit_value(d.last()));
        assert(value_of(d) == (n / 10) * 10 + n % 10);
    } else {
        assert(decimal(n).drop_last() =~= Seq::<char>::empty());
        assert(digit_value(digit_char(n)) == n);
        assert(value_of(decimal(n).drop_last()) == 0);
        assert(decimal(n).last() == digit_char(n));
    }
}

proof fn lemma_digit_run_append(d: Seq<char>, rest: Seq<char>)
    requires
        forall|i: int| 0 <= i < d.len() ==> is_digit(#[trigger] d[i]),
    ensures
        digit_run(d + rest) == d.len() + digit_run(rest),
    decreases d.len(),
{
    if d.len() > 0 {
        lemma_digit_run_append(d.drop_first(), rest);
        assert((d + rest).drop_first() =~= d.drop_first() + rest);
    } else {
        assert(d + rest =~= rest);
    }
}

/// Reading a written number gives it back, when no digit follows it.
pub proof fn lemma_nat_round_trip(n: nat, rest: Seq<char>)
    requires
        rest.len() == 0 || !is_digit(rest[0]),
    ensures
        parse_nat(decimal(n) + rest) == Some((n, rest)),
{
    let d = decimal(n);
    lemma_decimal(n);
    lemma_digit_run_append(d, rest);
    assert((d + rest).subrange(0, d.len() as int) =~= d);
    assert((d + rest).subrange(d.len() as int, (d + rest).len() as int) =~= rest);
}

pub proof fn lemma_bool_round_trip(b: bool, rest: Seq<char>)
    ensures
        parse_bool(json_bool(b) + rest) == Some((b, rest)),
{
    lemma_after_lit(json_bool(b), rest);
    if !b {
        let t = json_bool(b) + rest;
        assert(t[0] == 'f');
    }
}

// ----- executable writing -----

/// Relies on String::push: the string gains `c` at its end.
#[verifier::external_body]
fn push_char(s: &mut String, c: char)
    ensures
        final(s)@ == old(s)@.push(c),
{
    s.push(c);
}

/// The characters of `s`, in order.
pub fn chars_of(s: &str) -> (r: Vec<char>)
    ensures
        r@ == s@,
{
    broadcast use vstd::string::group_string_axioms;

    let mut it = s.chars();
    let mut out: Vec<char> = Vec::new();
    loop
        invariant
            out@ + it.remaining() == s@,
            it.decrease() is Some,
        ensures
            out@ == s@,
        decreases it.decrease()->0,
    {
        let ghost before = it.remaining();
        match it.next() {
            Some(c) => {
                out.push(c);
            },
            None => {
                assert(out@ =~= out@ + before);
                break;
            },
        }
    }
    out
}

pub fn push_all(out: &mut String, cs: &Vec<char>)
    ensures
        final(out)@ == old(out)@ + cs@,
{
    let mut i: usize = 0;
    while i < cs.len()
        invariant
            i <= cs@.len(),
            out@ == old(out)@ + cs@.subrange(0, i as int),
        decreases cs@.len() - i,
    {
        push_char(out, cs[i]);
        assert(cs@.subrange(0, i + 1) =~= cs@.subrange(0, i as int).push(cs@[i as int]));
        i = i + 1;
    }
    assert(cs@.subrange(0, cs@.len() as int) =~= cs@);
}

fn hex_char_exec(n: u32) -> (c: char)
    requires
        n < 16,
    ensures
        c == hex_char(n as nat),
{
    if n < 10 {
        ((n + 48) as u8) as char
    } else {
        ((n + 87) as u8) as char
    }
}

proof fn lemma_escaped_push(s: Seq<char>, c: char)
    ensures
        escaped(s.push(c)) == escaped(s) + escape_of(c),
    decreases s.len(),
{
    if s.len() == 0 {
        assert(s.push(c).drop_first() =~= Seq::<char>::empty());
        assert(escaped(Seq::<char>::empty()) == Seq::<char>::empty());
        assert(s.push(c)[0] == c);
        assert(escaped(s) == Seq::<char>::empty());
        assert(escaped(s.push(c)) =~= escape_of(c));
    } else {
        lemma_escaped_push(s.drop_first(), c);
        assert(s.push(c).drop_first() =~= s.drop_first().push(c));
        assert(escaped(s.push(c)) =~= escaped(s) + escape_of(c));
    }
}

fn write_escaped_char(out: &mut String, c: char)
    ensures
        final(out)@ == old(out)@ + escape_of(c),
{
    let e: Vec<char> = if c == '"' {
        vec!['\\', '"']
    } else if c == '\\' {
        vec!['\\', '\\']
    } else if c == '\n' {
        vec!['\\', 'n']
    } else if c == '\r' {
        vec!['\\', 'r']
    } else if c == '\t' {
        vec!['\\', 't']
    } else if c == '\x08' {
        vec!['\\', 'b']
    } else if c == '\x0c' {
        vec!['\\', 'f']
    } else if (c as u32) < 32 {
        let v = c as u32;
        vec!['\\', 'u', '0', '0', hex_char_exec(v / 16), hex_char_exec(v % 16)]
    } else {
        vec![c]
    };
    assert(e@ =~= escape_of(c));
    push_all(out, &e);
}

/// Writes `s` as a JSON string literal.
pub fn write_string(out: &mut String, s: &str)
    ensures
        final(out)@ == old(out)@ + json_string(s@),
{
    let cs = chars_of(s);
    push_char(out, '"');
    let mut i: usize = 0;
    while i < cs.len()
        invariant
            i <= cs@.len(),
            cs@ == s@,
            out@ == old(out)@ + seq!['"'] + escaped(cs@.subrange(0, i as int)),
        decreases cs@.len() - i,
    {
        let ghost before = out@;
        write_escaped_char(out, cs[i]);
        proof {
            assert(cs@.subrange(0, i + 1) =~= cs@.subrange(0, i as int).push(cs@[i as int]));
            lemma_escaped_push(cs@.subrange(0, i as int), cs@[i as int]);
        }
        i = i + 1;
    }
    push_char(out, '"');
    assert(cs@.subrange(0, cs@.len() as int) =~= cs@);
    assert(out@ =~= old(out)@ + json_string(s@));
}

/// Writes `n` in decimal.
pub fn write_nat(out: &mut String, n: usize)
    ensures
        final(out)@ == old(out)@ + decimal(n as nat),
    decreases n,
{
    if n >= 10 {
        write_nat(out, n / 10);
    }
    let d = ((n % 10) as u8 + 48) as char;
    push_char(out, d);
    assert(out@ =~= old(out)@ + decimal(n as nat));
}

pub fn write_bool(out: &mut String, b: bool)
    ensures
        final(out)@ == old(out)@ + json_bool(b),
{
    let lit: Vec<char> = if b {
        vec!['t', 'r', 'u', 'e']
    } else {
        vec!['f', 'a', 'l', 's', 'e']
    };
    assert(lit@ =~= json_bool(b));
    push_all(out, &lit);
}

/// The characters of `t` from `from` up to `to`, as a string.
pub fn string_of(t: &Vec<char>, from: usize, to: usize) -> (r: String)
    requires
        from <= to <= t@.len(),
    ensures
        r@ == t@.subrange(from as int, to as int),
{
    let mut out = String::new();
    let mut i: usize = from;
    while i < to
        invariant
            from <= i <= to <= t@.len(),
            out@ == t@.subrange(from as int, i as int),
        decreases to - i,
    {
        push_char(&mut out, t[i]);
        assert(t@.subrange(from as int, i + 1) =~= t@.subrange(from as int, i as int).push(t@[i as int]));
        i = i + 1;
    }
    out
}

/// The position of the first `c` in `t`, if any.
pub open spec fn index_of(t: Seq<char>, c: char) -> Option<nat>
    decreases t.len(),
{
    if t.len() == 0 {
        None
    } else if t[0] == c {
        Some(0)
    } else {
        match index_of(t.drop_first(), c) {
            Some(i) => Some(i + 1),
            None => None,
        }
    }
}

/// The position of the first `c` at or after `from`.
pub fn find_char(t: &Vec<char>, from: usize, c: char) -> (r: Option<usize>)
    requires
        from <= t@.len(),
    ensures
        match index_of(ahead(t@, from as int), c) {
            Some(k) => r matches Some(i) && i == from + k,
            None => r is None,
        },
        r matches Some(i) ==> from <= i < t@.len() && t@[i as int] == c,
{
    let mut i: usize = from;
    while i < t.len()
        invariant
            from <= i <= t@.len(),
            index_of(ahead(t@, from as int), c) == match index_of(ahead(t@, i as int), c) {
                Some(k) => Some(((i - from) + k) as nat),
                None => None,
            },
        decreases t@.len() - i,
    {
        proof {
            lemma_ahead_step(t@, i as int, 0);
            lemma_ahead_step(t@, i as int, 1);
        }
        if t[i] == c {
            return Some(i);
        }
        i = i + 1;
    }
    None
}

// ----- executable reading -----

/// The text of `t` from `pos` on.
pub open spec fn ahead(t: Seq<char>, pos: int) -> Seq<char> {
    t.subrange(pos, t.len() as int)
}

proof fn lemma_ahead_step(t: Seq<char>, pos: int, k: int)
    requires
        0 <= pos,
        0 <= k,
        pos + k <= t.len(),
    ensures
        ahead(t, pos).subrange(k, ahead(t, pos).len() as int) == ahead(t, pos + k),
        k < ahead(t, pos).len() ==> ahead(t, pos)[k] == t[pos + k],
        k == 1 ==> ahead(t, pos).drop_first() == ahead(t, pos + 1),
{
    assert(ahead(t, pos).subrange(k, ahead(t, pos).len() as int) =~= ahead(t, pos + k));
    if k == 1 {
        assert(ahead(t, pos).drop_first() =~= ahead(t, pos + 1));
    }
}

/// Reads `lit` at `pos`; on success the position after it.
pub fn read_lit(t: &Vec<char>, pos: usize, lit: &Vec<char>) -> (r: Option<usize>)
    requires
        pos <= t@.len(),
    ensures
        match after_lit(ahead(t@, pos as int), lit@) {
            Some(rest) => r matches Some(p) && pos <= p <= t@.len() && ahead(t@, p as int) == rest,
            None => r is None,
        },
        r matches Some(p) ==> p == pos + lit@.len(),
{
    if lit.len() > t.len() - pos {
        return None;
    }
    let n = t.len();
    let mut i: usize = 0;
    while i < lit.len()
        invariant
            n == t@.len(),
            pos + lit@.len() <= n,
            i <= lit@.len(),
            forall|k: int| 0 <= k < i ==> t@[pos + k] == lit@[k],
        decreases lit@.len() - i,
    {
        if t[pos + i] != lit[i] {
            assert(ahead(t@, pos as int).subrange(0, lit@.len() as int)[i as int] != lit@[i as int]);
            return None;
        }
        i = i + 1;
    }
    assert(ahead(t@, pos as int).subrange(0, lit@.len() as int) =~= lit@);
    proof {
        lemma_ahead_step(t@, pos as int, lit@.len() as int);
    }
    Some(pos + lit.len())
}

fn hex_value_exec(c: char) -> (r: Option<u32>)
    ensures
        match hex_value(c) {
            Some(v) => r == Some(v as u32),
            None => r is None,
        },
{
    let v = c as u32;
    if 48 <= v && v <= 57 {
        Some(v - 48)
    } else if 97 <= v && v <= 102 {
        Some(v - 87)
    } else if 65 <= v && v <= 70 {
        Some(v - 55)
    } else {
        None
    }
}

/// Reads the escape at `pos`: the character it stands for and its length.
fn read_escape(t: &Vec<char>, pos: usize) -> (r: Option<(char, usize)>)
    requires
        pos <= t@.len(),
    ensures
        match unescape(ahead(t@, pos as int)) {
            Some((c, k)) => r == Some((c, k as usize)),
            None => r is None,
        },
{
    let ghost a = ahead(t@, pos as int);
    if t.len() - pos < 2 || t[pos] != '\\' {
        return None;
    }
    assert(a[0] == t@[pos as int] && a[1] == t@[pos + 1]);
    let e = t[pos + 1];
    if e == '"' {
        Some(('"', 2))
    } else if e == '\\' {
        Some(('\\', 2))
    } else if e == '/' {
        Some(('/', 2))
    } else if e == 'n' {
        Some(('\n', 2))
    } else if e == 'r' {
        Some(('\r', 2))
    } else if e == 't' {
        Some(('\t', 2))
    } else if e == 'b' {
        Some(('\x08', 2))
    } else if e == 'f' {
        Some(('\x0c', 2))
    } else if e == 'u' && t.len() - pos >= 6 {
        assert(a[2] == t@[pos + 2] && a[3] == t@[pos + 3] && a[4] == t@[pos + 4] && a[5]
            == t@[pos + 5]);
        if t[pos + 2] != '0' || t[pos + 3] != '0' {
            return None;
        }
        match (hex_value_exec(t[pos + 4]), hex_value_exec(t[pos + 5])) {
            (Some(h), Some(l)) => Some((((h * 16 + l) as u8) as char, 6)),
            _ => None,
        }
    } else {
        None
    }
}

/// Reads a string literal at `pos`; on success its characters and the
/// position after its closing quote.
pub fn read_string(t: &Vec<char>, pos: usize) -> (r: Option<(String, usize)>)
    requires
        pos <= t@.len(),
    ensures
        match parse_string(ahead(t@, pos as int)) {
            Some((s, rest)) => r matches Some((v, p)) && v@ == s && pos <= p <= t@.len() && ahead(
                t@,
                p as int,
            ) == rest,
            None => r is None,
        },
{
    let quote = vec!['"'];
    assert(quote@ =~= seq!['"']);
    let start = match read_lit(t, pos, &quote) {
        Some(p) => p,
        None => {
            return None;
        },
    };
    let mut out = String::new();
    let mut i: usize = start;
    assert forall|s: Seq<char>| #[trigger] (Seq::<char>::empty() + s) == s by {
        assert(Seq::<char>::empty() + s =~= s);
    }
    loop
        invariant
            pos <= start <= i <= t@.len(),
            parse_string(ahead(t@, pos as int)) == match parse_str_body(ahead(t@, i as int)) {
                Some((s, rest)) => Some((out@ + s, rest)),
                None => None,
            },
        decreases t@.len() - i,
    {
        let ghost a = ahead(t@, i as int);
        if i >= t.len() {
            return None;
        }
        proof {
            lemma_ahead_step(t@, i as int, 0);
        }
        let c = t[i];
        if c == '"' {
            proof {
                lemma_ahead_step(t@, i as int, 1);
                assert(out@ + Seq::<char>::empty() =~= out@);
            }
            return Some((out, i + 1));
        } else if c == '\\' {
            match read_escape(t, i) {
                Some((ch, k)) => {
                    proof {
                        lemma_ahead_step(t@, i as int, k as int);
                        assert forall|s: Seq<char>| #[trigger] (out@.push(ch) + s) == out@ + (seq![ch] + s) by {
                            assert(out@.push(ch) + s =~= out@ + (seq![ch] + s));
                        }
                    }
                    push_char(&mut out, ch);
                    i = i + k;
                },
                None => {
                    return None;
                },
            }
        } else if (c as u32) < 32 {
            return None;
        } else {
            proof {
                lemma_ahead_step(t@, i as int, 1);
                assert forall|s: Seq<char>| #[trigger] (out@.push(c) + s) == out@ + (seq![c] + s) by {
                    assert(out@.push(c) + s =~= out@ + (seq![c] + s));
                }
            }
            push_char(&mut out, c);
            i = i + 1;
        }
    }
}

proof fn lemma_digit_run_bound(t: Seq<char>)
    ensures
        digit_run(t) <= t.len(),
    decreases t.len(),
{
    if t.len() > 0 {
        lemma_digit_run_bound(t.drop_first());
    }
}

proof fn lemma_value_of_prefix(d: Seq<char>, k: int)
    requires
        0 <= k <= d.len(),
    ensures
        value_of(d.subrange(0, k)) <= value_of(d),
    decreases d.len(),
{
    if k < d.len() {
        lemma_value_of_prefix(d.drop_last(), k);
        assert(d.drop_last().subrange(0, k) =~= d.subrange(0, k));
    } else {
        assert(d.subrange(0, k) =~= d);
    }
}

/// Reads a number at `pos`; `None` also when it does not fit in a `usize`.
pub fn read_nat(t: &Vec<char>, pos: usize) -> (r: Option<(usize, usize)>)
    requires
        pos <= t@.len(),
    ensures
        match parse_nat(ahead(t@, pos as int)) {
            Some((n, rest)) => if n <= usize::MAX {
                r matches Some((v, p)) && v == n && pos <= p <= t@.len() && ahead(t@, p as int) == rest
            } else {
                r is None
            },
            None => r is None,
        },
{
    let mut i: usize = pos;
    let mut acc: usize = 0;
    while i < t.len() && 48 <= (t[i] as u32) && (t[i] as u32) <= 57
        invariant
            pos <= i <= t@.len(),
            acc as nat == value_of(t@.subrange(pos as int, i as int)),
            digit_run(ahead(t@, pos as int)) == (i - pos) + digit_run(ahead(t@, i as int)),
        decreases t@.len() - i,
    {
        let ghost a = ahead(t@, i as int);
        proof {
            lemma_ahead_step(t@, i as int, 0);
            lemma_ahead_step(t@, i as int, 1);
            assert(digit_run(a) == 1 + digit_run(ahead(t@, i + 1)));
        }
        let d = (t[i] as u32 - 48) as usize;
        assert(t@.subrange(pos as int, i + 1).drop_last() =~= t@.subrange(pos as int, i as int));
        if acc > (usize::MAX - d) / 10 {
            proof {
                assert(acc * 10 + d > usize::MAX) by (nonlinear_arith)
                    requires
                        acc > (usize::MAX - d) / 10,
                        d <= 9,
                ;
                lemma_digit_run_bound(ahead(t@, pos as int));
                let run = ahead(t@, pos as int).subrange(0, digit_run(ahead(t@, pos as int)) as int);
                assert(run.subrange(0, i + 1 - pos) =~= t@.subrange(pos as int, i + 1));
                lemma_value_of_prefix(run, i + 1 - pos);
            }
            return None;
        }
        acc = acc * 10 + d;
        i = i + 1;
    }
    proof {
        if i < t@.len() {
            lemma_ahead_step(t@, i as int, 0);
        }
        assert(ahead(t@, pos as int).subrange(0, (i - pos) as int) =~= t@.subrange(pos as int, i as int));
        lemma_ahead_step(t@, pos as int, (i - pos) as int);
    }
    if i == pos {
        None
    } else {
        Some((acc, i))
    }
}

pub fn read_bool(t: &Vec<char>, pos: usize) -> (r: Option<(bool, usize)>)
    requires
        pos <= t@.len(),
    ensures
        match parse_bool(ahead(t@, pos as int)) {
            Some((b, rest)) => r matches Some((v, p)) && v == b && pos <= p <= t@.len() && ahead(t@, p as int) == rest,
            None => r is None,
        },
{
    let yes = vec!['t', 'r', 'u', 'e'];
    assert(yes@ =~= json_bool(true));
    match read_lit(t, pos, &yes) {
        Some(p) => Some((true, p)),
        None => {
            let no = vec!['f', 'a', 'l', 's', 'e'];
            assert(no@ =~= json_bool(false));
            match read_lit(t, pos, &no) {
                Some(p) => Some((false, p)),
                None => None,
            }
        },
    }
}

} // verus!

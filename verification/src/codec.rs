//! Wire-message codec: the outbound JSON envelope for delivered messages and
//! the inbound JSON schema accepted from clients.

use vstd::prelude::*;

verus! {

/// Decimal digit character for a value below ten.
pub open spec fn digit_char(d: nat) -> char {
    if d == 0 { '0' }
    else if d == 1 { '1' }
    else if d == 2 { '2' }
    else if d == 3 { '3' }
    else if d == 4 { '4' }
    else if d == 5 { '5' }
    else if d == 6 { '6' }
    else if d == 7 { '7' }
    else if d == 8 { '8' }
    else { '9' }
}

/// Decimal rendering of a natural number, most significant digit first.
pub open spec fn dec_rep(n: nat) -> Seq<char>
    decreases n,
{
    if n < 10 {
        seq![digit_char(n)]
    } else {
        dec_rep(n / 10) + seq![digit_char(n % 10)]
    }
}

/// Appends the decimal rendering of `n` to `out`.
pub(crate) fn push_dec(out: &mut Vec<char>, n: u64)
    ensures
        final(out)@ == old(out)@ + dec_rep(n as nat),
    decreases n,
{
    if n >= 10 {
        push_dec(out, n / 10);
    }
    let d = n % 10;
    let c = if d == 0 { '0' }
        else if d == 1 { '1' }
        else if d == 2 { '2' }
        else if d == 3 { '3' }
        else if d == 4 { '4' }
        else if d == 5 { '5' }
        else if d == 6 { '6' }
        else if d == 7 { '7' }
        else if d == 8 { '8' }
        else { '9' };
    out.push(c);
    proof {
        assert(c == digit_char((n % 10) as nat));
        if n < 10 {
            assert(dec_rep(n as nat) =~= seq![digit_char(n as nat)]);
            assert(out@ =~= old(out)@ + dec_rep(n as nat));
        } else {
            assert(out@ =~= old(out)@ + dec_rep(n as nat));
        }
    }
}

/// Inbound wire message from a client: `{"username": ..., "message": ...}`.
#[derive(Debug, Clone, PartialEq, Eq)]
pub struct WsMessage {
    /// Client display name (the `username` member).
    pub name: String,
    /// Message text (the `message` member).
    pub msg: String,
}

/// Mathematical value of a `WsMessage`.
pub ghost struct WsMessageView {
    pub name: Seq<char>,
    pub msg: Seq<char>,
}

impl View for WsMessage {
    type V = WsMessageView;

    open spec fn view(&self) -> WsMessageView {
        WsMessageView { name: self.name@, msg: self.msg@ }
    }
}

/// A message broadcast through the hub: sender id, optional display name,
/// and the message text. Sender id 0 is the reserved sentinel for
/// server-synthesized notices, which carry no display name.
#[derive(Debug, Clone, PartialEq, Eq)]
pub struct ClientMessage {
    /// Id of the sending session (0 for server notices).
    pub id: u64,
    /// Display name of the sender, omitted from the envelope when absent.
    pub name: Option<String>,
    /// The message text.
    pub msg: String,
}

/// Mathematical value of a `ClientMessage`.
pub ghost struct ClientMessageView {
    pub id: u64,
    pub name: Option<Seq<char>>,
    pub msg: Seq<char>,
}

impl View for ClientMessage {
    type V = ClientMessageView;

    open spec fn view(&self) -> ClientMessageView {
        ClientMessageView {
            id: self.id,
            name: match self.name {
                Some(n) => Some(n@),
                None => None,
            },
            msg: self.msg@,
        }
    }
}

/// Lower-case hexadecimal digit character for a value below sixteen.
pub open spec fn hex_char(d: nat) -> char {
    if d < 10 {
        digit_char(d)
    } else if d == 10 { 'a' }
    else if d == 11 { 'b' }
    else if d == 12 { 'c' }
    else if d == 13 { 'd' }
    else if d == 14 { 'e' }
    else { 'f' }
}

/// JSON escaping of one character: quote and backslash get a backslash
/// escape, the common control characters get their short escapes, the other
/// control characters a `\u00xx` escape, and everything else stands as is.
pub open spec fn escape_char(c: char) -> Seq<char> {
    if c == '"' { seq!['\\', '"'] }
    else if c == '\\' { seq!['\\', '\\'] }
    else if c == '\n' { seq!['\\', 'n'] }
    else if c == '\r' { seq!['\\', 'r'] }
    else if c == '\t' { seq!['\\', 't'] }
    else if c == '\u{8}' { seq!['\\', 'b'] }
    else if c == '\u{c}' { seq!['\\', 'f'] }
    else if (c as u32) < 32 {
        seq!['\\', 'u', '0', '0', hex_char((c as u32 / 16) as nat), hex_char((c as u32 % 16) as nat)]
    } else {
        seq![c]
    }
}

/// JSON escaping of a whole string.
pub open spec fn escape_seq(s: Seq<char>) -> Seq<char>
    decreases s.len(),
{
    if s.len() == 0 {
        Seq::empty()
    } else {
        escape_char(s[0]) + escape_seq(s.drop_first())
    }
}

proof fn lemma_escape_push(s: Seq<char>, c: char)
    ensures
        escape_seq(s.push(c)) == escape_seq(s) + escape_char(c),
    decreases s.len(),
{
    if s.len() == 0 {
        assert(s.push(c).drop_first() =~= Seq::<char>::empty());
        assert(s.push(c)[0] == c);
        assert(escape_seq(Seq::<char>::empty()) == Seq::<char>::empty());
        assert(escape_seq(s.push(c)) == escape_char(c) + Seq::<char>::empty());
        assert(escape_seq(s.push(c)) =~= escape_seq(s) + escape_char(c));
    } else {
        lemma_escape_push(s.drop_first(), c);
        assert(s.push(c).drop_first() =~= s.drop_first().push(c));
        assert(s.push(c)[0] == s[0]);
        assert(escape_seq(s.push(c)) == escape_char(s[0]) + escape_seq(s.drop_first().push(c)));
        assert(escape_char(s[0]) + (escape_seq(s.drop_first()) + escape_char(c)) =~= (escape_char(
            s[0],
        ) + escape_seq(s.drop_first())) + escape_char(c));
        assert(escape_seq(s) == escape_char(s[0]) + escape_seq(s.drop_first()));
    }
}

/// Exec hexadecimal digit, for values below sixteen.
fn hex_char_x(d: u32) -> (c: char)
    requires
        d < 16,
    ensures
        c == hex_char(d as nat),
{
    if d == 0 { '0' }
    else if d == 1 { '1' }
    else if d == 2 { '2' }
    else if d == 3 { '3' }
    else if d == 4 { '4' }
    else if d == 5 { '5' }
    else if d == 6 { '6' }
    else if d == 7 { '7' }
    else if d == 8 { '8' }
    else if d == 9 { '9' }
    else if d == 10 { 'a' }
    else if d == 11 { 'b' }
    else if d == 12 { 'c' }
    else if d == 13 { 'd' }
    else if d == 14 { 'e' }
    else { 'f' }
}

/// Appends the JSON escaping of one character to `out`.
fn push_escaped_char(out: &mut Vec<char>, c: char)
    ensures
        final(out)@ == old(out)@ + escape_char(c),
{
    if c == '"' {
        out.push('\\');
        out.push('"');
    } else if c == '\\' {
        out.push('\\');
        out.push('\\');
    } else if c == '\n' {
        out.push('\\');
        out.push('n');
    } else if c == '\r' {
        out.push('\\');
        out.push('r');
    } else if c == '\t' {
        out.push('\\');
        out.push('t');
    } else if c == '\u{8}' {
        out.push('\\');
        out.push('b');
    } else if c == '\u{c}' {
        out.push('\\');
        out.push('f');
    } else if (c as u32) < 32 {
        out.push('\\');
        out.push('u');
        out.push('0');
        out.push('0');
        out.push(hex_char_x((c as u32) / 16));
        out.push(hex_char_x((c as u32) % 16));
    } else {
        out.push(c);
    }
    proof {
        assert(final(out)@ =~= old(out)@ + escape_char(c));
    }
}

/// Appends the JSON escaping of `s` to `out`.
fn push_escaped(out: &mut Vec<char>, s: &str)
    ensures
        final(out)@ == old(out)@ + escape_seq(s@),
{
    let n = s.unicode_len();
    let mut i: usize = 0;
    while i < n
        invariant
            n == s@.len(),
            i <= n,
            out@ == old(out)@ + escape_seq(s@.subrange(0, i as int)),
        decreases n - i,
    {
        let c = s.get_char(i);
        push_escaped_char(out, c);
        proof {
            lemma_escape_push(s@.subrange(0, i as int), c);
            assert(s@.subrange(0, i + 1 as int) =~= s@.subrange(0, i as int).push(s@[i as int]));
        }
        i = i + 1;
    }
    proof {
        assert(s@.subrange(0, n as int) =~= s@);
    }
}

/// Appends the characters of `s` to `out`.
pub(crate) fn push_str_chars(out: &mut Vec<char>, s: &str)
    ensures
        final(out)@ == old(out)@ + s@,
{
    let n = s.unicode_len();
    let mut i: usize = 0;
    while i < n
        invariant
            n == s@.len(),
            i <= n,
            out@ == old(out)@ + s@.subrange(0, i as int),
        decreases n - i,
    {
        let c = s.get_char(i);
        out.push(c);
        proof {
            assert(out@ =~= old(out)@ + s@.subrange(0, i + 1 as int));
        }
        i = i + 1;
    }
    proof {
        assert(s@.subrange(0, n as int) =~= s@);
    }
}

/// Relies on std's `String: FromIterator<char>`: collecting an iterator of
/// characters yields the string of exactly those characters in order.
#[verifier::external_body]
pub(crate) fn chars_to_string(v: Vec<char>) -> (r: String)
    ensures
        r@ == v@,
{
    v.into_iter().collect()
}

/// The outbound JSON envelope of a message: `{"id": ..}` with the sender id
/// in decimal, the escaped display name under `username` when one is
/// present (the key is omitted entirely when absent), and the escaped text
/// under `message`.
pub open spec fn encode_spec(m: ClientMessageView) -> Seq<char> {
    "{\"id\":"@ + dec_rep(m.id as nat) + (match m.name {
        Some(n) => ",\"username\":\""@ + escape_seq(n) + "\""@,
        None => Seq::<char>::empty(),
    }) + ",\"message\":\""@ + escape_seq(m.msg) + "\"}"@
}

/// Renders a `ClientMessage` as the outbound JSON envelope.
pub fn encode_client_message(m: &ClientMessage) -> (r: String)
    ensures
        r@ == encode_spec(m@),
{
    let mut out: Vec<char> = Vec::new();
    push_str_chars(&mut out, "{\"id\":");
    push_dec(&mut out, m.id);
    match &m.name {
        Some(n) => {
            push_str_chars(&mut out, ",\"username\":\"");
            push_escaped(&mut out, n.as_str());
            push_str_chars(&mut out, "\"");
        },
        None => {},
    }
    push_str_chars(&mut out, ",\"message\":\"");
    push_escaped(&mut out, m.msg.as_str());
    push_str_chars(&mut out, "\"}");
    let r = chars_to_string(out);
    proof {
        assert(r@ =~= encode_spec(m@));
    }
    r
}

/// JSON insignificant whitespace.
pub open spec fn is_json_ws(c: char) -> bool {
    c == ' ' || c == '\t' || c == '\n' || c == '\r'
}

/// First position at or after `i` holding no insignificant whitespace.
pub open spec fn spec_skip_ws(s: Seq<char>, i: int) -> int
    decreases s.len() - i
        when 0 <= i <= s.len()
{
    if i < s.len() && is_json_ws(s[i]) {
        spec_skip_ws(s, i + 1)
    } else {
        i
    }
}

/// The character named by a JSON short escape, `None` where the escape is
/// not recognised (`\uXXXX` escapes are not accepted; such a frame is
/// discarded as a whole).
pub open spec fn unescape_char(c: char) -> Option<char> {
    if c == '"' { Some('"') }
    else if c == '\\' { Some('\\') }
    else if c == '/' { Some('/') }
    else if c == 'n' { Some('\n') }
    else if c == 'r' { Some('\r') }
    else if c == 't' { Some('\t') }
    else if c == 'b' { Some('\u{8}') }
    else if c == 'f' { Some('\u{c}') }
    else { None }
}

/// Parses the body of a JSON string starting just after the opening quote:
/// the decoded contents and the position just after the closing quote.
/// Unescaped control characters and unknown escapes are rejected.
pub open spec fn spec_parse_string_body(s: Seq<char>, i: int) -> Option<(Seq<char>, int)>
    decreases s.len() - i
        when 0 <= i <= s.len()
{
    if i >= s.len() {
        None
    } else if s[i] == '"' {
        Some((Seq::empty(), i + 1))
    } else if s[i] == '\\' {
        if i + 1 >= s.len() {
            None
        } else {
            match unescape_char(s[i + 1]) {
                None => None,
                Some(c) => match spec_parse_string_body(s, i + 2) {
                    None => None,
                    Some(r) => Some((seq![c] + r.0, r.1)),
                },
            }
        }
    } else if (s[i] as u32) < 32 {
        None
    } else {
        match spec_parse_string_body(s, i + 1) {
            None => None,
            Some(r) => Some((seq![s[i]] + r.0, r.1)),
        }
    }
}

/// Parses a complete JSON string (opening quote included) at position `i`.
pub open spec fn spec_parse_jstring(s: Seq<char>, i: int) -> Option<(Seq<char>, int)> {
    if 0 <= i < s.len() && s[i] == '"' {
        spec_parse_string_body(s, i + 1)
    } else {
        None
    }
}

/// Parses one object member whose value is a string: key, value, and the
/// position just after the value.
pub open spec fn spec_parse_member(s: Seq<char>, i: int) -> Option<((Seq<char>, Seq<char>), int)> {
    match spec_parse_jstring(s, i) {
        None => None,
        Some(k) => {
            let j = spec_skip_ws(s, k.1);
            if j < s.len() && s[j] == ':' {
                let j2 = spec_skip_ws(s, j + 1);
                match spec_parse_jstring(s, j2) {
                    None => None,
                    Some(v) => Some(((k.0, v.0), v.1)),
                }
            } else {
                None
            }
        },
    }
}

/// Assembles the two members of the inbound object into a message: one must
/// be keyed `username` and the other `message`, in either order.
pub open spec fn members_to_msg(m1: (Seq<char>, Seq<char>), m2: (Seq<char>, Seq<char>)) -> Option<
    WsMessageView,
> {
    if m1.0 == "username"@ && m2.0 == "message"@ {
        Some(WsMessageView { name: m1.1, msg: m2.1 })
    } else if m1.0 == "message"@ && m2.0 == "username"@ {
        Some(WsMessageView { name: m2.1, msg: m1.1 })
    } else {
        None
    }
}

/// The inbound wire schema: a JSON object with exactly the members
/// `username` and `message`, both strings, in either order, with JSON
/// whitespace allowed between tokens. Anything else decodes to `None`.
pub open spec fn spec_decode(s: Seq<char>) -> Option<WsMessageView> {
    let i0 = spec_skip_ws(s, 0);
    if i0 < s.len() && s[i0] == '{' {
        let i1 = spec_skip_ws(s, i0 + 1);
        match spec_parse_member(s, i1) {
            None => None,
            Some(m1) => {
                let i2 = spec_skip_ws(s, m1.1);
                if i2 < s.len() && s[i2] == ',' {
                    let i3 = spec_skip_ws(s, i2 + 1);
                    match spec_parse_member(s, i3) {
                        None => None,
                        Some(m2) => {
                            let i4 = spec_skip_ws(s, m2.1);
                            if i4 < s.len() && s[i4] == '}' && spec_skip_ws(s, i4 + 1) == s.len() {
                                members_to_msg(m1.0, m2.0)
                            } else {
                                None
                            }
                        },
                    }
                } else {
                    None
                }
            },
        }
    } else {
        None
    }
}

/// Exec mirror of `spec_skip_ws`.
fn skip_ws(v: &Vec<char>, i: usize) -> (j: usize)
    requires
        i <= v.len(),
    ensures
        j as int == spec_skip_ws(v@, i as int),
        i <= j <= v.len(),
    decreases v.len() - i,
{
    if i < v.len() {
        let c = v[i];
        if c == ' ' || c == '\t' || c == '\n' || c == '\r' {
            return skip_ws(v, i + 1);
        }
    }
    i
}

/// Exec mirror of `unescape_char`.
fn unescape_char_x(c: char) -> (r: Option<char>)
    ensures
        r == unescape_char(c),
{
    if c == '"' { Some('"') }
    else if c == '\\' { Some('\\') }
    else if c == '/' { Some('/') }
    else if c == 'n' { Some('\n') }
    else if c == 'r' { Some('\r') }
    else if c == 't' { Some('\t') }
    else if c == 'b' { Some('\u{8}') }
    else if c == 'f' { Some('\u{c}') }
    else { None }
}

/// Exec mirror of `spec_parse_string_body`.
fn parse_string_body(v: &Vec<char>, i: usize) -> (r: Option<(Vec<char>, usize)>)
    requires
        i <= v.len(),
    ensures
        match (r, spec_parse_string_body(v@, i as int)) {
            (None, None) => true,
            (Some(a), Some(b)) => a.0@ == b.0 && a.1 as int == b.1 && i < a.1 <= v.len(),
            _ => false,
        },
    decreases v.len() - i,
{
    if i >= v.len() {
        return None;
    }
    let c = v[i];
    if c == '"' {
        Some((Vec::new(), i + 1))
    } else if c == '\\' {
        if i + 1 >= v.len() {
            return None;
        }
        match unescape_char_x(v[i + 1]) {
            None => None,
            Some(u) => match parse_string_body(v, i + 2) {
                None => None,
                Some(rest) => {
                    let (mut w, j) = rest;
                    w.insert(0, u);
                    proof {
                        assert(w@ =~= seq![u]
                            + spec_parse_string_body(v@, (i + 2) as int).unwrap().0);
                    }
                    Some((w, j))
                },
            },
        }
    } else if (c as u32) < 32 {
        None
    } else {
        match parse_string_body(v, i + 1) {
            None => None,
            Some(rest) => {
                let (mut w, j) = rest;
                w.insert(0, c);
                proof {
                    assert(w@ =~= seq![c] + spec_parse_string_body(v@, (i + 1) as int).unwrap().0);
                }
                Some((w, j))
            },
        }
    }
}

/// Exec mirror of `spec_parse_jstring`.
fn parse_jstring(v: &Vec<char>, i: usize) -> (r: Option<(Vec<char>, usize)>)
    requires
        i <= v.len(),
    ensures
        match (r, spec_parse_jstring(v@, i as int)) {
            (None, None) => true,
            (Some(a), Some(b)) => a.0@ == b.0 && a.1 as int == b.1 && i < a.1 <= v.len(),
            _ => false,
        },
{
    if i < v.len() && v[i] == '"' {
        parse_string_body(v, i + 1)
    } else {
        None
    }
}

/// Exec mirror of `spec_parse_member`.
fn parse_member(v: &Vec<char>, i: usize) -> (r: Option<(Vec<char>, Vec<char>, usize)>)
    requires
        i <= v.len(),
    ensures
        match (r, spec_parse_member(v@, i as int)) {
            (None, None) => true,
            (Some(a), Some(b)) => a.0@ == b.0.0 && a.1@ == b.0.1 && a.2 as int == b.1 && i < a.2
                <= v.len(),
            _ => false,
        },
{
    match parse_jstring(v, i) {
        None => None,
        Some(k) => {
            let j = skip_ws(v, k.1);
            if j < v.len() && v[j] == ':' {
                let j2 = skip_ws(v, j + 1);
                match parse_jstring(v, j2) {
                    None => None,
                    Some(val) => Some((k.0, val.0, val.1)),
                }
            } else {
                None
            }
        },
    }
}

/// The characters of `s`, in order.
fn str_to_chars(s: &str) -> (v: Vec<char>)
    ensures
        v@ == s@,
{
    let n = s.unicode_len();
    let mut v: Vec<char> = Vec::new();
    let mut i: usize = 0;
    while i < n
        invariant
            i <= n,
            n == s@.len(),
            v@ == s@.subrange(0, i as int),
        decreases n - i,
    {
        let c = s.get_char(i);
        v.push(c);
        proof {
            assert(v@ =~= s@.subrange(0, (i + 1) as int));
        }
        i = i + 1;
    }
    proof {
        assert(s@.subrange(0, n as int) =~= s@);
    }
    v
}

/// Whether the characters of `v` are exactly those of `s`.
fn chars_eq_str(v: &Vec<char>, s: &str) -> (b: bool)
    ensures
        b == (v@ == s@),
{
    let n = s.unicode_len();
    if v.len() != n {
        return false;
    }
    let mut i: usize = 0;
    while i < n
        invariant
            i <= n,
            n == s@.len(),
            v@.len() == n,
            forall|j: int| 0 <= j < i ==> v@[j] == s@[j],
        decreases n - i,
    {
        if v[i] != s.get_char(i) {
            return false;
        }
        i = i + 1;
    }
    proof {
        assert(v@ =~= s@);
    }
    true
}

/// Decodes one inbound text frame against the inbound wire schema
/// (`spec_decode`); any other shape, or invalid JSON, yields `None`.
pub fn decode_ws_message(s: &str) -> (r: Option<WsMessage>)
    ensures
        match (r, spec_decode(s@)) {
            (None, None) => true,
            (Some(m), Some(w)) => m@ == w,
            _ => false,
        },
{
    let v = str_to_chars(s);
    let i0 = skip_ws(&v, 0);
    if !(i0 < v.len()) {
        return None;
    }
    if v[i0] != '{' {
        return None;
    }
    let i1 = skip_ws(&v, i0 + 1);
    let m1 = match parse_member(&v, i1) {
        None => { return None; },
        Some(m) => m,
    };
    let i2 = skip_ws(&v, m1.2);
    if !(i2 < v.len()) {
        return None;
    }
    if v[i2] != ',' {
        return None;
    }
    let i3 = skip_ws(&v, i2 + 1);
    let m2 = match parse_member(&v, i3) {
        None => { return None; },
        Some(m) => m,
    };
    let i4 = skip_ws(&v, m2.2);
    if !(i4 < v.len()) {
        return None;
    }
    if v[i4] != '}' {
        return None;
    }
    if skip_ws(&v, i4 + 1) != v.len() {
        return None;
    }
    let (k1, v1, _) = m1;
    let (k2, v2, _) = m2;
    if chars_eq_str(&k1, "username") && chars_eq_str(&k2, "message") {
        Some(WsMessage { name: chars_to_string(v1), msg: chars_to_string(v2) })
    } else if chars_eq_str(&k1, "message") && chars_eq_str(&k2, "username") {
        Some(WsMessage { name: chars_to_string(v2), msg: chars_to_string(v1) })
    } else {
        None
    }
}

} // verus!

//! The handshake: who a peer says it is, and whether it is let in.
use crate::config::RelayConfig;
use crate::line::LineError;
use crate::stats::RelayStats;
use crate::text;
use crate::text::{same_text, split_words};
use vstd::prelude::*;
use vstd::utf8::*;

verus! {

/// The longest rendezvous code, in bytes.
pub const MAX_CODE: usize = 128;

/// What the relay says to a peer.
#[derive(Debug, Clone, Copy, PartialEq, Eq, Structural)]
pub enum Reply {
    /// To a host: wait for a client.
    Wait,
    /// To both: you are joined.
    Joined,
    /// No handshake line came.
    BadHandshake,
    /// The code is missing or too long.
    BadCode,
    /// The secret is wrong.
    Unauthorized,
    /// The role is neither of the two.
    UnknownRole,
    /// To a client: no host waits under that code.
    NoHost,
}

impl Reply {
    /// The line on the wire.
    pub open spec fn line(self) -> Seq<char> {
        match self {
            Reply::Wait => "WAIT\n"@,
            Reply::Joined => "OK\n"@,
            Reply::BadHandshake => "ERR bad handshake\n"@,
            Reply::BadCode => "ERR missing or oversized code\n"@,
            Reply::Unauthorized => "ERR unauthorized\n"@,
            Reply::UnknownRole => "ERR unknown role\n"@,
            Reply::NoHost => "ERR no host online for that code\n"@,
        }
    }

    /// The line on the wire.
    pub fn text(&self) -> (s: &'static str)
        ensures
            s@ == self.line(),
    {
        match self {
            Reply::Wait => "WAIT\n",
            Reply::Joined => "OK\n",
            Reply::BadHandshake => "ERR bad handshake\n",
            Reply::BadCode => "ERR missing or oversized code\n",
            Reply::Unauthorized => "ERR unauthorized\n",
            Reply::UnknownRole => "ERR unknown role\n",
            Reply::NoHost => "ERR no host online for that code\n",
        }
    }
}

/// What a peer is let in as.
#[derive(Debug)]
pub enum Request {
    /// A host that registers under a code.
    Host(String),
    /// A client that asks for the host under a code.
    Rc(String),
    /// Neither: the peer gets this reply and is cut off.
    Refuse(Reply),
}

pub enum RequestView {
    Host(Seq<char>),
    Rc(Seq<char>),
    Refuse(Reply),
}

impl View for Request {
    type V = RequestView;

    open spec fn view(&self) -> RequestView {
        match self {
            Request::Host(code) => RequestView::Host(code@),
            Request::Rc(code) => RequestView::Rc(code@),
            Request::Refuse(reply) => RequestView::Refuse(*reply),
        }
    }
}

/// The word at position `i` of a line, empty where there is none.
pub open spec fn word_of(line: Seq<char>, i: int) -> Seq<char> {
    if 0 <= i < text::words(line).len() {
        text::words(line)[i]
    } else {
        Seq::empty()
    }
}

/// Whether a code is there and not too long.
pub open spec fn is_code(code: Seq<char>) -> bool {
    0 < code.len() && encode_utf8(code).len() <= MAX_CODE
}

/// What a handshake line amounts to. Its words are the role, the code and the
/// secret. `shared_secret` is what the relay asks for, empty for nothing.
pub open spec fn admitted(line: Seq<char>, shared_secret: Seq<char>) -> RequestView {
    let role = word_of(line, 0);
    let code = word_of(line, 1);
    let secret = word_of(line, 2);
    if !is_code(code) {
        RequestView::Refuse(Reply::BadCode)
    } else if shared_secret.len() > 0 && secret != shared_secret {
        RequestView::Refuse(Reply::Unauthorized)
    } else if role == "HOST"@ {
        RequestView::Host(code)
    } else if role == "RC"@ {
        RequestView::Rc(code)
    } else {
        RequestView::Refuse(Reply::UnknownRole)
    }
}

/// The word at position `i`, empty where there is none.
fn word_at(words: &Vec<String>, i: usize) -> (w: String)
    ensures
        w@ == (if i < words@.len() {
            words@[i as int]@
        } else {
            Seq::empty()
        }),
{
    if i < words.len() {
        words[i].clone()
    } else {
        String::new()
    }
}

/// What a handshake line amounts to.
pub fn read_request(line: &str, shared_secret: &str) -> (r: Request)
    ensures
        r@ == admitted(line@, shared_secret@),
{
    let words = split_words(line);
    proof {
        let f = |w: String| w@;
        assert(words@.map_values(f).len() == words@.len());
        assert(forall|i: int| 0 <= i < words@.len() ==> words@[i]@ == text::words(line@)[i]);
    }
    let role = word_at(&words, 0);
    let code = word_at(&words, 1);
    let secret = word_at(&words, 2);
    if code.as_str().is_empty() || code.as_str().as_bytes().len() > MAX_CODE {
        return Request::Refuse(Reply::BadCode);
    }
    if !shared_secret.is_empty() && !same_text(secret.as_str(), shared_secret) {
        return Request::Refuse(Reply::Unauthorized);
    }
    if same_text(role.as_str(), "HOST") {
        Request::Host(code)
    } else if same_text(role.as_str(), "RC") {
        Request::Rc(code)
    } else {
        Request::Refuse(Reply::UnknownRole)
    }
}

/// Decides on a new connection from the outcome of reading its handshake line.
/// Every refused line counts as a rejection; a line that never came does not.
pub fn handle_conn(
    line: Result<String, LineError>,
    cfg: &RelayConfig,
    stats: &mut RelayStats,
) -> (r: Request)
    requires
        old(stats).wf(),
    ensures
        final(stats).wf(),
        line is Err ==> {
            &&& r@ == RequestView::Refuse(Reply::BadHandshake)
            &&& final(stats)@ == old(stats)@
        },
        line matches Ok(l) ==> {
            &&& r@ == admitted(l@, cfg@.shared_secret)
            &&& final(stats)@ == (if r@ is Refuse {
                old(stats)@.bump_rejections()
            } else {
                old(stats)@
            })
        },
{
    match line {
        Ok(l) => {
            let r = read_request(l.as_str(), cfg.shared_secret.as_str());
            match &r {
                Request::Refuse(_) => {
                    stats.bump_rejections();
                },
                _ => {},
            }
            r
        },
        Err(_) => Request::Refuse(Reply::BadHandshake),
    }
}

// ---------------------------------------------------------------------------
// Laws
// ---------------------------------------------------------------------------

/// Whether `w` can be sent as one word.
pub open spec fn is_word(w: Seq<char>) -> bool {
    w.len() > 0 && forall|i: int| 0 <= i < w.len() ==> !text::is_space(#[trigger] w[i])
}

/// Where the relay asks for a secret, only a peer whose third word is that
/// secret is let in.
pub proof fn law_secret_is_asked_for(line: Seq<char>, shared_secret: Seq<char>)
    requires
        shared_secret.len() > 0,
        !(admitted(line, shared_secret) is Refuse),
    ensures
        word_of(line, 2) == shared_secret,
{
}

/// Where the relay asks for no secret, what comes behind the code does not
/// matter.
pub proof fn law_no_secret_is_asked_for(line: Seq<char>, other: Seq<char>)
    requires
        word_of(line, 0) == word_of(other, 0),
        word_of(line, 1) == word_of(other, 1),
    ensures
        admitted(line, Seq::empty()) == admitted(other, Seq::empty()),
{
}

/// A right secret lets in whoever is let in where no secret is asked for.
pub proof fn law_right_secret_lets_in(line: Seq<char>, shared_secret: Seq<char>)
    requires
        word_of(line, 2) == shared_secret,
    ensures
        admitted(line, shared_secret) == admitted(line, Seq::empty()),
{
}

/// A line of a role, a code and a secret with single spaces between them is
/// read as those three words.
pub proof fn law_line_of_three_words(role: Seq<char>, code: Seq<char>, secret: Seq<char>)
    requires
        is_word(role),
        is_word(code),
        is_word(secret),
    ensures
        ({
            let line = role + seq![' '] + code + seq![' '] + secret;
            &&& word_of(line, 0) == role
            &&& word_of(line, 1) == code
            &&& word_of(line, 2) == secret
        }),
{
    let line = role + seq![' '] + code + seq![' '] + secret;
    let tail2 = seq![' '] + secret;
    let tail1 = seq![' '] + (code + tail2);
    assert(line == role + tail1);
    text::lemma_first_word(role, tail1);
    text::lemma_leading_space(' ', code + tail2);
    text::lemma_first_word(code, tail2);
    text::lemma_leading_space(' ', secret);
    text::lemma_first_word(secret, Seq::empty());
    assert(secret + Seq::<char>::empty() == secret);
    assert(text::words(line) == seq![role] + (seq![code] + (seq![secret] + text::words(
        Seq::empty(),
    ))));
}

/// A line of a role and a code is read as those two words, with no secret.
pub proof fn law_line_of_two_words(role: Seq<char>, code: Seq<char>)
    requires
        is_word(role),
        is_word(code),
    ensures
        ({
            let line = role + seq![' '] + code;
            &&& word_of(line, 0) == role
            &&& word_of(line, 1) == code
            &&& word_of(line, 2) == Seq::<char>::empty()
        }),
{
    let line = role + seq![' '] + code;
    let tail = seq![' '] + code;
    assert(line == role + tail);
    text::lemma_first_word(role, tail);
    text::lemma_leading_space(' ', code);
    text::lemma_first_word(code, Seq::empty());
    assert(code + Seq::<char>::empty() == code);
    assert(text::words(line) == seq![role] + (seq![code] + text::words(Seq::empty())));
}

/// The two roles can be sent as words.
proof fn lemma_roles()
    ensures
        is_word("HOST"@),
        is_word("RC"@),
        "HOST"@ != "RC"@,
{
    reveal_strlit("HOST");
    reveal_strlit("RC");
    assert("HOST"@.len() != "RC"@.len());
}

/// A host or client that sends its role, its code and the secret that the
/// relay asks for is let in under that code.
pub proof fn law_right_line_is_let_in(code: Seq<char>, secret: Seq<char>)
    requires
        0 < code.len(),
        encode_utf8(code).len() <= 128,
        forall|i: int| 0 <= i < code.len() ==> !text::is_space(#[trigger] code[i]),
        0 < secret.len(),
        forall|i: int| 0 <= i < secret.len() ==> !text::is_space(#[trigger] secret[i]),
    ensures
        admitted("HOST"@ + seq![' '] + code + seq![' '] + secret, secret) == RequestView::Host(
            code,
        ),
        admitted("RC"@ + seq![' '] + code + seq![' '] + secret, secret) == RequestView::Rc(code),
{
    lemma_roles();
    law_line_of_three_words("HOST"@, code, secret);
    law_line_of_three_words("RC"@, code, secret);
}

/// A host or client that sends its role and its code is let in under that code
/// where the relay asks for no secret, and refused where it asks for one.
pub proof fn law_line_without_secret(code: Seq<char>, shared_secret: Seq<char>)
    requires
        0 < code.len(),
        encode_utf8(code).len() <= 128,
        forall|i: int| 0 <= i < code.len() ==> !text::is_space(#[trigger] code[i]),
    ensures
        ({
            let host = "HOST"@ + seq![' '] + code;
            let client = "RC"@ + seq![' '] + code;
            if shared_secret.len() == 0 {
                &&& admitted(host, shared_secret) == RequestView::Host(code)
                &&& admitted(client, shared_secret) == RequestView::Rc(code)
            } else {
                &&& admitted(host, shared_secret) == RequestView::Refuse(Reply::Unauthorized)
                &&& admitted(client, shared_secret) == RequestView::Refuse(Reply::Unauthorized)
            }
        }),
{
    lemma_roles();
    law_line_of_two_words("HOST"@, code);
    law_line_of_two_words("RC"@, code);
}

/// Every reply is one line: a line feed ends it, and there is none before.
pub proof fn law_reply_is_one_line(reply: Reply)
    ensures
        reply.line().len() > 0,
        reply.line().last() == '\n',
        forall|i: int| 0 <= i < reply.line().len() - 1 ==> #[trigger] reply.line()[i] != '\n',
{
    lemma_replies();
}

/// A peer that is let in or joined hears no `ERR`, and every other one does.
pub proof fn law_refusals_say_err(reply: Reply)
    ensures
        "ERR "@.is_prefix_of(reply.line()) <==> reply != Reply::Wait && reply != Reply::Joined,
{
    lemma_replies();
    reveal_strlit("ERR ");
    if reply == Reply::Wait || reply == Reply::Joined {
        assert(reply.line()[0] != "ERR "@[0]);
    } else {
        assert("ERR "@ == reply.line().take(4));
    }
}

/// A line that is not let in is answered with one of the refusals.
pub proof fn law_refused_line_hears_err(line: Seq<char>, shared_secret: Seq<char>)
    ensures
        admitted(line, shared_secret) matches RequestView::Refuse(reply) ==> "ERR "@.is_prefix_of(
            reply.line(),
        ),
{
    if admitted(line, shared_secret) is Refuse {
        law_refusals_say_err(admitted(line, shared_secret)->Refuse_0);
    }
}

/// What the replies are made of.
proof fn lemma_replies()
    ensures
        "WAIT\n"@ == seq!['W', 'A', 'I', 'T', '\n'],
        "OK\n"@ == seq!['O', 'K', '\n'],
        forall|reply: Reply|
            reply != Reply::Wait && reply != Reply::Joined ==> {
                let line = #[trigger] reply.line();
                &&& line.len() > 4
                &&& line.take(4) == seq!['E', 'R', 'R', ' ']
            },
        forall|reply: Reply|
            {
                let line = #[trigger] reply.line();
                &&& line.len() > 0
                &&& line.last() == '\n'
                &&& forall|i: int| 0 <= i < line.len() - 1 ==> #[trigger] line[i] != '\n'
            },
{
    reveal_strlit("WAIT\n");
    reveal_strlit("OK\n");
    reveal_strlit("ERR bad handshake\n");
    reveal_strlit("ERR missing or oversized code\n");
    reveal_strlit("ERR unauthorized\n");
    reveal_strlit("ERR unknown role\n");
    reveal_strlit("ERR no host online for that code\n");
    let err = seq!['E', 'R', 'R', ' '];
    assert(Reply::BadHandshake.line().take(4) == err);
    assert(Reply::BadCode.line().take(4) == err);
    assert(Reply::Unauthorized.line().take(4) == err);
    assert(Reply::UnknownRole.line().take(4) == err);
    assert(Reply::NoHost.line().take(4) == err);
}

/// Who is let in, and what everyone else hears, by the words of the line. A
/// peer is let in exactly where its first word is its role, its second a code
/// of at most 128 bytes, and its third the secret, if there is one to send. A
/// code that is missing or too long is named first, then a wrong secret, then
/// a wrong role.
pub proof fn law_who_is_let_in(line: Seq<char>, shared_secret: Seq<char>, code: Seq<char>)
    ensures
        ({
            let ws = text::words(line);
            let coded = ws.len() >= 2 && encode_utf8(ws[1]).len() <= 128;
            let trusted = shared_secret.len() == 0 || (ws.len() >= 3 && ws[2] == shared_secret);
            let said = admitted(line, shared_secret);
            &&& said == RequestView::Host(code) <==> coded && trusted && ws[1] == code && ws[0]
                == "HOST"@
            &&& said == RequestView::Rc(code) <==> coded && trusted && ws[1] == code && ws[0]
                == "RC"@
            &&& said == RequestView::Refuse(Reply::BadCode) <==> !coded
            &&& said == RequestView::Refuse(Reply::Unauthorized) <==> coded && !trusted
            &&& said == RequestView::Refuse(Reply::UnknownRole) <==> coded && trusted && ws[0]
                != "HOST"@ && ws[0] != "RC"@
        }),
{
    lemma_roles();
    text::law_words_are_solid(line);
    let ws = text::words(line);
    if ws.len() >= 3 {
        assert(ws[2].len() > 0);
    }
    if ws.len() >= 2 {
        assert(ws[1].len() > 0);
    }
    if shared_secret.len() == 0 {
        assert(shared_secret == Seq::<char>::empty());
    }
}

/// However much white space is round the words and whatever comes behind the
/// third, a line is read by its first three words.
pub proof fn law_spacing_does_not_matter(
    g0: Seq<char>,
    role: Seq<char>,
    g1: Seq<char>,
    code: Seq<char>,
    g2: Seq<char>,
    secret: Seq<char>,
    rest: Seq<char>,
)
    requires
        forall|i: int| 0 <= i < g0.len() ==> text::is_space(#[trigger] g0[i]),
        forall|i: int| 0 <= i < g1.len() ==> text::is_space(#[trigger] g1[i]),
        forall|i: int| 0 <= i < g2.len() ==> text::is_space(#[trigger] g2[i]),
        forall|i: int| 0 <= i < role.len() ==> !text::is_space(#[trigger] role[i]),
        forall|i: int| 0 <= i < code.len() ==> !text::is_space(#[trigger] code[i]),
        forall|i: int| 0 <= i < secret.len() ==> !text::is_space(#[trigger] secret[i]),
        0 < g1.len(),
        0 < g2.len(),
        0 < role.len(),
        0 < code.len(),
        0 < secret.len(),
        rest.len() > 0 ==> text::is_space(rest[0]),
    ensures
        forall|asked: Seq<char>|
            #[trigger] admitted(g0 + role + (g1 + code + (g2 + secret + rest)), asked) == admitted(
                role + seq![' '] + code + seq![' '] + secret,
                asked,
            ),
{
    let tail = g2 + secret + rest;
    assert(tail[0] == g2[0]);
    let more = g1 + code + tail;
    assert(more[0] == g1[0]);
    text::law_first_word(g0, role, more);
    text::law_first_word(g1, code, tail);
    text::law_first_word(g2, secret, rest);
    let line = g0 + role + more;
    assert(text::words(line) == seq![role] + (seq![code] + (seq![secret] + text::words(rest))));
    assert(text::words(line)[0] == role);
    assert(text::words(line)[1] == code);
    assert(text::words(line)[2] == secret);
    law_line_of_three_words(role, code, secret);
}

/// The lines on the wire.
pub proof fn law_replies_on_the_wire()
    ensures
        Reply::Wait.line() == "WAIT\n"@,
        Reply::Joined.line() == "OK\n"@,
        Reply::BadHandshake.line() == "ERR bad handshake\n"@,
        Reply::BadCode.line() == "ERR missing or oversized code\n"@,
        Reply::Unauthorized.line() == "ERR unauthorized\n"@,
        Reply::UnknownRole.line() == "ERR unknown role\n"@,
        Reply::NoHost.line() == "ERR no host online for that code\n"@,
{
}

/// A request is what its variant says, with the characters of its code.
pub proof fn law_request_view(code: String, reply: Reply)
    ensures
        Request::Host(code)@ == RequestView::Host(code@),
        Request::Rc(code)@ == RequestView::Rc(code@),
        Request::Refuse(reply)@ == RequestView::Refuse(reply),
{
}

} // verus!

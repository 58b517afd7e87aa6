use vstd::prelude::*;

verus! {

/// A command decoded from one input line.
pub enum Method {
    Quit,
    Who,
    Name(Vec<u8>),
    Broadcast(Vec<u8>),
}

/// The mathematical form of a `Method`.
pub ghost enum Request {
    Quit,
    Who,
    Name(Seq<u8>),
    Broadcast(Seq<u8>),
}

impl View for Method {
    type V = Request;

    open spec fn view(&self) -> Request {
        match self {
            Method::Quit => Request::Quit,
            Method::Who => Request::Who,
            Method::Name(n) => Request::Name(n@),
            Method::Broadcast(m) => Request::Broadcast(m@),
        }
    }
}

pub const SPACE: u8 = 32;

pub const CR: u8 = 13;

pub const LF: u8 = 10;

pub open spec fn quit_keyword() -> Seq<u8> {
    seq![81u8, 85u8, 73u8, 84u8]
}

pub open spec fn who_keyword() -> Seq<u8> {
    seq![87u8, 72u8, 79u8]
}

pub open spec fn name_keyword() -> Seq<u8> {
    seq![78u8, 65u8, 77u8, 69u8]
}

pub open spec fn broadcast_keyword() -> Seq<u8> {
    seq![66u8, 82u8, 79u8, 65u8, 68u8, 67u8, 65u8, 83u8, 84u8]
}

/// The first space-delimited token of `line` is exactly `kw`.
pub open spec fn has_keyword(line: Seq<u8>, kw: Seq<u8>) -> bool {
    line == kw || (kw.len() < line.len() && line.subrange(0, kw.len() as int) == kw
        && line[kw.len() as int] == SPACE)
}

/// What follows the keyword and the one space after it.
pub open spec fn argument(line: Seq<u8>, kw: Seq<u8>) -> Seq<u8> {
    if kw.len() < line.len() {
        line.subrange(kw.len() + 1int, line.len() as int)
    } else {
        Seq::empty()
    }
}

/// The command that a line (terminator already stripped) stands for, if any.
pub open spec fn decode(line: Seq<u8>) -> Option<Request> {
    if has_keyword(line, quit_keyword()) {
        Some(Request::Quit)
    } else if has_keyword(line, who_keyword()) {
        Some(Request::Who)
    } else if has_keyword(line, name_keyword()) {
        if argument(line, name_keyword()).len() == 0 {
            None
        } else {
            Some(Request::Name(argument(line, name_keyword())))
        }
    } else if has_keyword(line, broadcast_keyword()) {
        Some(Request::Broadcast(argument(line, broadcast_keyword())))
    } else {
        None
    }
}

pub open spec fn crlf() -> Seq<u8> {
    seq![CR, LF]
}

/// The logical line in a chunk that was read: the chunk without a trailing CR LF.
pub open spec fn strip_terminator(raw: Seq<u8>) -> Seq<u8> {
    if raw.len() >= 2 && raw[raw.len() - 2] == CR && raw[raw.len() - 1] == LF {
        raw.subrange(0, raw.len() - 2)
    } else {
        raw
    }
}

fn keyword_matches(line: &[u8], kw: &[u8]) -> (r: bool)
    ensures
        r == has_keyword(line@, kw@),
{
    let n: usize = kw.len();
    if line.len() < n || (line.len() > n && line[n] != SPACE) {
        return false;
    }
    let mut i: usize = 0;
    while i < n
        invariant
            n == kw@.len(),
            n <= line@.len(),
            0 <= i <= n,
            forall|j: int| 0 <= j < i ==> line@[j] == kw@[j],
        decreases n - i,
    {
        if line[i] != kw[i] {
            assert(line@.subrange(0, n as int)[i as int] != kw@[i as int]);
            return false;
        }
        i = i + 1;
    }
    if line.len() == n {
        assert(line@ =~= kw@);
    } else {
        assert(line@.subrange(0, n as int) =~= kw@);
    }
    true
}

fn copy_range(src: &[u8], start: usize, end: usize) -> (r: Vec<u8>)
    requires
        start <= end <= src@.len(),
    ensures
        r@ == src@.subrange(start as int, end as int),
{
    let mut out: Vec<u8> = Vec::new();
    let mut i: usize = start;
    while i < end
        invariant
            start <= i <= end <= src@.len(),
            out@ == src@.subrange(start as int, i as int),
        decreases end - i,
    {
        out.push(src[i]);
        assert(out@ =~= src@.subrange(start as int, i + 1));
        i = i + 1;
    }
    out
}

fn argument_of(line: &[u8], kw_len: usize) -> (r: Vec<u8>)
    ensures
        forall|kw: Seq<u8>| kw.len() == kw_len ==> r@ == #[trigger] argument(line@, kw),
{
    if kw_len < line.len() {
        copy_range(line, kw_len + 1, line.len())
    } else {
        Vec::new()
    }
}

/// Decodes one line whose terminator has already been removed.
pub fn process_input(inp: &[u8]) -> (r: Option<Method>)
    ensures
        match r {
            Some(m) => decode(inp@) == Some(m@),
            None => decode(inp@) is None,
        },
{
    let quit: [u8; 4] = [81u8, 85u8, 73u8, 84u8];
    let who: [u8; 3] = [87u8, 72u8, 79u8];
    let name: [u8; 4] = [78u8, 65u8, 77u8, 69u8];
    let broadcast: [u8; 9] = [66u8, 82u8, 79u8, 65u8, 68u8, 67u8, 65u8, 83u8, 84u8];
    assert(quit@ =~= quit_keyword());
    assert(who@ =~= who_keyword());
    assert(name@ =~= name_keyword());
    assert(broadcast@ =~= broadcast_keyword());
    if keyword_matches(inp, quit.as_slice()) {
        Some(Method::Quit)
    } else if keyword_matches(inp, who.as_slice()) {
        Some(Method::Who)
    } else if keyword_matches(inp, name.as_slice()) {
        let n = argument_of(inp, 4);
        assert(n@ == argument(inp@, name_keyword()));
        if n.len() == 0 {
            None
        } else {
            Some(Method::Name(n))
        }
    } else if keyword_matches(inp, broadcast.as_slice()) {
        let m = argument_of(inp, 9);
        assert(m@ == argument(inp@, broadcast_keyword()));
        Some(Method::Broadcast(m))
    } else {
        None
    }
}

/// The logical line of a chunk that was read, without its trailing CR LF.
pub fn line_of(raw: &[u8]) -> (r: Vec<u8>)
    ensures
        r@ == strip_terminator(raw@),
{
    let n: usize = raw.len();
    if n >= 2 && raw[n - 2] == CR && raw[n - 1] == LF {
        copy_range(raw, 0, n - 2)
    } else {
        let r = copy_range(raw, 0, n);
        assert(raw@.subrange(0, n as int) =~= raw@);
        r
    }
}

pub open spec fn error_prefix() -> Seq<u8> {
    seq![69u8, 82u8, 82u8, 79u8, 82u8, SPACE]
}

pub open spec fn names_keyword() -> Seq<u8> {
    seq![78u8, 65u8, 77u8, 69u8, 83u8]
}

pub open spec fn from_prefix() -> Seq<u8> {
    seq![70u8, 82u8, 79u8, 77u8, SPACE]
}

pub open spec fn noname_keyword() -> Seq<u8> {
    seq![78u8, 79u8, 78u8, 65u8, 77u8, 69u8]
}

/// Each name preceded by one space, in order.
pub open spec fn name_tokens(names: Seq<Seq<u8>>) -> Seq<u8>
    decreases names.len(),
{
    if names.len() == 0 {
        Seq::empty()
    } else {
        name_tokens(names.drop_last()) + seq![SPACE] + names.last()
    }
}

/// The reply to `WHO`.
pub open spec fn names_line(names: Seq<Seq<u8>>) -> Seq<u8> {
    names_keyword() + name_tokens(names) + crlf()
}

/// The line that relays a chat message.
pub open spec fn from_line(sender: Seq<u8>, body: Seq<u8>) -> Seq<u8> {
    from_prefix() + sender + seq![SPACE] + body + crlf()
}

/// The reply to a broadcast from a client without a name.
pub open spec fn noname_line() -> Seq<u8> {
    noname_keyword() + crlf()
}

/// The echo of a line that could not be decoded: the raw bytes as received.
pub open spec fn error_line(raw: Seq<u8>) -> Seq<u8> {
    error_prefix() + raw
}

fn append_bytes(out: &mut Vec<u8>, src: &[u8])
    ensures
        final(out)@ == old(out)@ + src@,
{
    let mut i: usize = 0;
    while i < src.len()
        invariant
            0 <= i <= src@.len(),
            out@ == old(out)@ + src@.subrange(0, i as int),
        decreases src@.len() - i,
    {
        out.push(src[i]);
        assert(out@ =~= old(out)@ + src@.subrange(0, i + 1));
        i = i + 1;
    }
    assert(src@.subrange(0, src@.len() as int) =~= src@);
}

fn append_crlf(out: &mut Vec<u8>)
    ensures
        final(out)@ == old(out)@ + crlf(),
{
    out.push(CR);
    out.push(LF);
    assert(out@ =~= old(out)@ + crlf());
}

/// `ERROR ` followed by the bytes that were received.
pub fn error_reply(raw: &[u8]) -> (r: Vec<u8>)
    ensures
        r@ == error_line(raw@),
{
    let mut out: Vec<u8> = vec![69u8, 82u8, 82u8, 79u8, 82u8, SPACE];
    assert(out@ =~= error_prefix());
    append_bytes(&mut out, raw);
    out
}

/// `NAMES`, one space-separated token per name, CR LF.
pub fn names_reply(names: &Vec<Vec<u8>>) -> (r: Vec<u8>)
    ensures
        r@ == names_line(names@.map_values(|n: Vec<u8>| n@)),
{
    let ghost ns = names@.map_values(|n: Vec<u8>| n@);
    let mut out: Vec<u8> = vec![78u8, 65u8, 77u8, 69u8, 83u8];
    assert(out@ =~= names_keyword());
    let mut i: usize = 0;
    while i < names.len()
        invariant
            0 <= i <= names@.len(),
            ns == names@.map_values(|n: Vec<u8>| n@),
            out@ == names_keyword() + name_tokens(ns.subrange(0, i as int)),
        decreases names@.len() - i,
    {
        out.push(SPACE);
        append_bytes(&mut out, names[i].as_slice());
        assert(ns.subrange(0, i + 1).drop_last() =~= ns.subrange(0, i as int));
        assert(out@ =~= names_keyword() + name_tokens(ns.subrange(0, i + 1)));
        i = i + 1;
    }
    assert(ns.subrange(0, i as int) =~= ns);
    append_crlf(&mut out);
    assert(out@ =~= names_line(ns));
    out
}

/// `FROM`, the sender's name, the message body, CR LF.
pub fn from_reply(sender: &[u8], body: &[u8]) -> (r: Vec<u8>)
    ensures
        r@ == from_line(sender@, body@),
{
    let mut out: Vec<u8> = vec![70u8, 82u8, 79u8, 77u8, SPACE];
    assert(out@ =~= from_prefix());
    append_bytes(&mut out, sender);
    out.push(SPACE);
    append_bytes(&mut out, body);
    append_crlf(&mut out);
    assert(out@ =~= from_line(sender@, body@));
    out
}

/// `NONAME`, CR LF.
pub fn noname_reply() -> (r: Vec<u8>)
    ensures
        r@ == noname_line(),
{
    let mut out: Vec<u8> = vec![78u8, 79u8, 78u8, 65u8, 77u8, 69u8];
    assert(out@ =~= noname_keyword());
    append_crlf(&mut out);
    out
}

} // verus!

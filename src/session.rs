use vstd::prelude::*;
use crate::protocol::{
    Method, Request, decode, strip_terminator, error_line, names_line, noname_line, from_line,
    process_input, line_of, error_reply, names_reply, noname_reply, from_reply,
};
use crate::registry::{
    ClientId, Registry, name_of, names, renamed, without, registered, unique_ids, lemma_name_at,
    lemma_without_at,
};

verus! {

/// A chat message relayed to every registered client.
pub struct ChatMessage {
    pub sender: Vec<u8>,
    pub body: Vec<u8>,
}

/// What a session's dispatcher handles next: a command from its own reader,
/// or a message that some session's broadcast pushed into its inbox.
pub enum Event {
    Command(Method),
    Incoming(ChatMessage),
}

/// One chat message bound for the inbox of client `to`.
pub struct Delivery {
    pub to: ClientId,
    pub message: ChatMessage,
}

/// What the dispatcher does about one event: the bytes it writes to its own
/// connection, the messages it pushes into inboxes, and whether the session ends.
pub struct Outcome {
    pub reply: Vec<u8>,
    pub deliveries: Vec<Delivery>,
    pub close: bool,
}

/// What the reader does about one chunk: forward a command to the dispatcher,
/// or write the given bytes straight back.
pub enum ReaderAction {
    Forward(Method),
    Reject(Vec<u8>),
}

pub ghost enum Input {
    Command(Request),
    Incoming(Seq<u8>, Seq<u8>),
}

pub ghost struct Effect {
    pub reply: Seq<u8>,
    pub deliveries: Seq<(ClientId, Seq<u8>, Seq<u8>)>,
    pub close: bool,
}

pub ghost enum ReaderStep {
    Forward(Request),
    Reject(Seq<u8>),
}

impl View for ChatMessage {
    type V = (Seq<u8>, Seq<u8>);

    open spec fn view(&self) -> (Seq<u8>, Seq<u8>) {
        (self.sender@, self.body@)
    }
}

impl View for Event {
    type V = Input;

    open spec fn view(&self) -> Input {
        match self {
            Event::Command(m) => Input::Command(m@),
            Event::Incoming(c) => Input::Incoming(c.sender@, c.body@),
        }
    }
}

impl View for Delivery {
    type V = (ClientId, Seq<u8>, Seq<u8>);

    open spec fn view(&self) -> (ClientId, Seq<u8>, Seq<u8>) {
        (self.to, self.message.sender@, self.message.body@)
    }
}

impl View for Outcome {
    type V = Effect;

    open spec fn view(&self) -> Effect {
        Effect {
            reply: self.reply@,
            deliveries: self.deliveries@.map_values(|d: Delivery| d@),
            close: self.close,
        }
    }
}

impl View for ReaderAction {
    type V = ReaderStep;

    open spec fn view(&self) -> ReaderStep {
        match self {
            ReaderAction::Forward(m) => ReaderStep::Forward(m@),
            ReaderAction::Reject(b) => ReaderStep::Reject(b@),
        }
    }
}

/// One message from `sender` with `body` for every registered client, in registry order.
pub open spec fn fan_out(s: Seq<(ClientId, Seq<u8>)>, sender: Seq<u8>, body: Seq<u8>) -> Seq<
    (ClientId, Seq<u8>, Seq<u8>),
> {
    s.map_values(|c: (ClientId, Seq<u8>)| (c.0, sender, body))
}

pub open spec fn quiet() -> Effect {
    Effect { reply: Seq::empty(), deliveries: Seq::empty(), close: false }
}

pub open spec fn answer(bytes: Seq<u8>) -> Effect {
    Effect { reply: bytes, deliveries: Seq::empty(), close: false }
}

/// The registry and the effect after the session of `id` handles `e`.
pub open spec fn step(s: Seq<(ClientId, Seq<u8>)>, id: ClientId, e: Input) -> (
    Seq<(ClientId, Seq<u8>)>,
    Effect,
) {
    match e {
        Input::Command(Request::Quit) => (
            without(s, id),
            Effect { reply: Seq::empty(), deliveries: Seq::empty(), close: true },
        ),
        Input::Command(Request::Who) => (s, answer(names_line(names(s)))),
        Input::Command(Request::Name(n)) => (renamed(s, id, n), quiet()),
        Input::Command(Request::Broadcast(m)) => if name_of(s, id).len() == 0 {
            (s, answer(noname_line()))
        } else {
            (
                s,
                Effect {
                    reply: Seq::empty(),
                    deliveries: fan_out(s, name_of(s, id), m),
                    close: false,
                },
            )
        },
        Input::Incoming(sender, body) => (s, answer(from_line(sender, body))),
    }
}

/// What the reader does with a chunk it has read.
pub open spec fn read_step(raw: Seq<u8>) -> ReaderStep {
    match decode(strip_terminator(raw)) {
        Some(r) => ReaderStep::Forward(r),
        None => ReaderStep::Reject(error_line(raw)),
    }
}

/// Decides what the reader does with one chunk of received bytes.
pub fn read_chunk(raw: &[u8]) -> (r: ReaderAction)
    ensures
        r@ == read_step(raw@),
{
    let line = line_of(raw);
    match process_input(line.as_slice()) {
        Some(m) => ReaderAction::Forward(m),
        None => ReaderAction::Reject(error_reply(raw)),
    }
}

/// Whether the reader goes on reading after `a`: it stops once it has forwarded `QUIT`.
pub fn keeps_reading(a: &ReaderAction) -> (r: bool)
    ensures
        r == (a@ != ReaderStep::Forward(Request::Quit)),
{
    match a {
        ReaderAction::Forward(Method::Quit) => false,
        _ => true,
    }
}

fn copy_bytes(v: &Vec<u8>) -> (r: Vec<u8>)
    ensures
        r@ == v@,
{
    let r = v.clone();
    assert(r@ =~= v@);
    r
}

/// Handles one event of the session of client `id`, updating the registry.
/// A broadcast goes to every registered client, the sender's own inbox
/// included, so a sender sees its own message the way everyone else does.
pub fn dispatch(reg: &mut Registry, id: ClientId, ev: Event) -> (r: Outcome)
    requires
        old(reg).wf(),
    ensures
        final(reg).wf(),
        (final(reg)@, r@) == step(old(reg)@, id, ev@),
{
    match ev {
        Event::Command(Method::Quit) => {
            reg.remove(id);
            let r = Outcome { reply: Vec::new(), deliveries: Vec::new(), close: true };
            assert(r@.deliveries =~= Seq::empty());
            r
        },
        Event::Command(Method::Who) => {
            let ns = reg.names();
            let r = Outcome { reply: names_reply(&ns), deliveries: Vec::new(), close: false };
            assert(r@.deliveries =~= Seq::empty());
            r
        },
        Event::Command(Method::Name(n)) => {
            reg.update_name(id, n);
            let r = Outcome { reply: Vec::new(), deliveries: Vec::new(), close: false };
            assert(r@.deliveries =~= Seq::empty());
            r
        },
        Event::Command(Method::Broadcast(m)) => {
            let own = reg.name(id);
            if own.len() == 0 {
                let r = Outcome { reply: noname_reply(), deliveries: Vec::new(), close: false };
                assert(r@.deliveries =~= Seq::empty());
                r
            } else {
                let targets = reg.ids();
                let ghost s = reg@;
                let mut out: Vec<Delivery> = Vec::new();
                let mut i: usize = 0;
                while i < targets.len()
                    invariant
                        s == reg@,
                        targets@ == crate::registry::ids(s),
                        0 <= i <= targets@.len(),
                        out@.map_values(|d: Delivery| d@) == fan_out(s, own@, m@).subrange(
                            0,
                            i as int,
                        ),
                    decreases targets@.len() - i,
                {
                    let msg = ChatMessage { sender: copy_bytes(&own), body: copy_bytes(&m) };
                    let d = Delivery { to: targets[i], message: msg };
                    assert(d@ == fan_out(s, own@, m@)[i as int]);
                    let ghost prev = out@;
                    out.push(d);
                    assert(out@.map_values(|d: Delivery| d@) =~= prev.map_values(
                        |d: Delivery| d@,
                    ).push(d@));
                    assert(out@.map_values(|d: Delivery| d@) =~= fan_out(s, own@, m@).subrange(
                        0,
                        i + 1,
                    ));
                    i = i + 1;
                }
                let r = Outcome { reply: Vec::new(), deliveries: out, close: false };
                assert(r@.deliveries =~= fan_out(s, own@, m@));
                assert(r@.reply =~= Seq::empty());
                r
            }
        },
        Event::Incoming(c) => {
            let r = Outcome {
                reply: from_reply(c.sender.as_slice(), c.body.as_slice()),
                deliveries: Vec::new(),
                close: false,
            };
            assert(r@.deliveries =~= Seq::empty());
            r
        },
    }
}

/// `ds` holds exactly one message for client `c`, and it is `(sender, body)`.
pub open spec fn delivered_once(
    ds: Seq<(ClientId, Seq<u8>, Seq<u8>)>,
    c: ClientId,
    sender: Seq<u8>,
    body: Seq<u8>,
) -> bool {
    exists|j: int|
        0 <= j < ds.len() && #[trigger] ds[j] == (c, sender, body) && forall|k: int|
            0 <= k < ds.len() && k != j ==> #[trigger] ds[k].0 != c
}

/// A broadcast from a client with a non-empty name leaves one message from
/// that name, with the broadcast text, for every registered client (the
/// sender included) and for nobody else; each becomes `FROM name text` on the
/// recipient's connection.
pub proof fn lemma_broadcast_reaches_each_client_once(
    s: Seq<(ClientId, Seq<u8>)>,
    a: ClientId,
    text: Seq<u8>,
)
    requires
        unique_ids(s),
        registered(s, a),
        name_of(s, a).len() > 0,
    ensures
        ({
            let (s2, e) = step(s, a, Input::Command(Request::Broadcast(text)));
            &&& s2 == s
            &&& e.reply.len() == 0
            &&& forall|c: ClientId| registered(s, c) ==> delivered_once(e.deliveries, c, name_of(s, a), text)
            &&& forall|k: int| 0 <= k < e.deliveries.len() ==> registered(s, #[trigger] e.deliveries[k].0)
            &&& forall|c: ClientId| #[trigger] step(s2, c, Input::Incoming(name_of(s, a), text)).1.reply
                == from_line(name_of(s, a), text)
        }),
{
    let ds = fan_out(s, name_of(s, a), text);
    assert forall|c: ClientId| registered(s, c) implies delivered_once(ds, c, name_of(s, a), text) by {
        let j = choose|j: int| 0 <= j < s.len() && #[trigger] s[j].0 == c;
        assert(ds[j] == (c, name_of(s, a), text));
        assert forall|k: int| 0 <= k < ds.len() && k != j implies #[trigger] ds[k].0 != c by {
            assert(s[k].0 != s[j].0);
        }
    }
    assert forall|k: int| 0 <= k < ds.len() implies registered(s, #[trigger] ds[k].0) by {
        assert(s[k].0 == ds[k].0);
    }
}

/// A broadcast from a client whose name is unset answers `NONAME` to that
/// client alone and delivers nothing.
pub proof fn lemma_broadcast_without_name(s: Seq<(ClientId, Seq<u8>)>, a: ClientId, text: Seq<u8>)
    requires
        name_of(s, a).len() == 0,
    ensures
        ({
            let (s2, e) = step(s, a, Input::Command(Request::Broadcast(text)));
            &&& s2 == s
            &&& e.reply == noname_line()
            &&& e.deliveries.len() == 0
            &&& !e.close
        }),
{
}

/// `WHO` answers `NAMES` with one token per registered client, each client's
/// name in registry order, and changes nothing.
pub proof fn lemma_who_lists_every_client(s: Seq<(ClientId, Seq<u8>)>, a: ClientId)
    requires
        unique_ids(s),
    ensures
        ({
            let (s2, e) = step(s, a, Input::Command(Request::Who));
            &&& s2 == s
            &&& e.reply == names_line(names(s))
            &&& e.deliveries.len() == 0
            &&& names(s).len() == s.len()
            &&& forall|i: int| 0 <= i < s.len() ==> #[trigger] names(s)[i] == name_of(s, s[i].0)
        }),
{
    assert forall|i: int| 0 <= i < s.len() implies #[trigger] names(s)[i] == name_of(s, s[i].0) by {
        lemma_name_at(s, i);
    }
}

/// `QUIT` removes the client's entry and nothing else, and ends its session:
/// a later `WHO` from anyone lists one client fewer, and a later broadcast
/// from anyone delivers nothing to the client that quit.
pub proof fn lemma_quit_removes_client(
    s: Seq<(ClientId, Seq<u8>)>,
    a: ClientId,
    b: ClientId,
    text: Seq<u8>,
)
    requires
        unique_ids(s),
        registered(s, a),
    ensures
        ({
            let (s2, e) = step(s, a, Input::Command(Request::Quit));
            &&& e.close
            &&& e.reply.len() == 0
            &&& e.deliveries.len() == 0
            &&& !registered(s2, a)
            &&& s2.len() == s.len() - 1
            &&& step(s2, b, Input::Command(Request::Who)).1.reply == names_line(names(s2))
            &&& names(s2).len() == s.len() - 1
            &&& forall|k: int|
                0 <= k < step(s2, b, Input::Command(Request::Broadcast(text))).1.deliveries.len()
                    ==> #[trigger] step(s2, b, Input::Command(Request::Broadcast(text))).1.deliveries[k].0
                    != a
        }),
{
    let i = choose|i: int| 0 <= i < s.len() && #[trigger] s[i].0 == a;
    lemma_without_at(s, i);
    let s2 = without(s, a);
    assert(s2 == s.remove(i));
    assert(!registered(s2, a)) by {
        if registered(s2, a) {
            let k = choose|k: int| 0 <= k < s2.len() && #[trigger] s2[k].0 == a;
            let k2 = if k < i { k } else { k + 1 };
            assert(s[k2].0 == a);
        }
    }
    let ds = step(s2, b, Input::Command(Request::Broadcast(text))).1.deliveries;
    assert forall|k: int| 0 <= k < ds.len() implies #[trigger] ds[k].0 != a by {
        assert(ds[k].0 == s2[k].0);
    }
}

/// A line that does not decode is echoed once as `ERROR` and the raw bytes,
/// and no command reaches the dispatcher, so the registry is untouched.
pub proof fn lemma_malformed_line_is_echoed(raw: Seq<u8>)
    requires
        decode(strip_terminator(raw)) is None,
    ensures
        read_step(raw) == ReaderStep::Reject(error_line(raw)),
        !(read_step(raw) is Forward),
{
}

/// Asking `WHO` again, with nothing changed in between, gives the same answer.
pub proof fn lemma_who_is_idempotent(s: Seq<(ClientId, Seq<u8>)>, a: ClientId, b: ClientId)
    ensures
        ({
            let (s2, e1) = step(s, a, Input::Command(Request::Who));
            let (s3, e2) = step(s2, b, Input::Command(Request::Who));
            &&& s3 == s
            &&& e2 == e1
        }),
{
}

} // verus!

//! The outside world as a tape of replies.
//!
//! A job asks JSON-RPC nodes one question after the other. Every function that asks takes the
//! replies that have come in so far. Where they run out it stops and hands back the request that
//! is to be sent next; the job is then run again on a tape that is longer by the reply.

use vstd::prelude::*;
use vstd::string::*;

use crate::json::{json_text, no_members, with_member, Json, JsonModel};

verus! {

/// A JSON-RPC request to one node.
#[derive(Debug)]
pub struct Request {
    pub url: String,
    pub method: String,
    pub params: Json,
}

/// What a `Request` holds.
pub struct RequestModel {
    pub url: Seq<char>,
    pub method: Seq<char>,
    pub params: JsonModel,
}

impl View for Request {
    type V = RequestModel;

    open spec fn view(&self) -> RequestModel {
        RequestModel { url: self.url@, method: self.method@, params: self.params@ }
    }
}

/// The JSON-RPC envelope of a request.
pub open spec fn envelope(q: RequestModel) -> JsonModel {
    with_member(
        with_member(
            with_member(
                with_member(no_members(), "jsonrpc"@, JsonModel::Str("2.0"@)),
                "id"@,
                JsonModel::Unsigned(1),
            ),
            "method"@,
            JsonModel::Str(q.method),
        ),
        "params"@,
        q.params,
    )
}

impl Request {
    /// The text to send.
    pub fn body(&self) -> (r: String)
        ensures
            r@ == json_text(envelope(self@)),
    {
        let mut body = Json::object();
        body.set("jsonrpc", Json::text("2.0"));
        body.set("id", Json::number(1));
        body.set("method", Json::text(self.method.as_str()));
        body.set("params", self.params.clone());
        body.render()
    }
}

/// What became of one request.
#[derive(Debug)]
pub enum Reply {
    /// It could not be sent, or nothing came back.
    NotSent(String),
    /// The node answered. The body may have been unreadable.
    Answered { status: u16, body: Result<Vec<u8>, String> },
}

/// What a `Reply` holds.
pub enum ReplyModel {
    NotSent(Seq<char>),
    Answered { status: u16, body: Result<Seq<u8>, Seq<char>> },
}

impl View for Reply {
    type V = ReplyModel;

    open spec fn view(&self) -> ReplyModel {
        match *self {
            Reply::NotSent(e) => ReplyModel::NotSent(e@),
            Reply::Answered { status, body: Ok(b) } => ReplyModel::Answered {
                status,
                body: Ok(b@),
            },
            Reply::Answered { status, body: Err(e) } => ReplyModel::Answered {
                status,
                body: Err(e@),
            },
        }
    }
}

/// What each of the replies holds.
pub open spec fn reply_models(replies: Seq<Reply>) -> Seq<ReplyModel> {
    replies.map_values(|r: Reply| r@)
}

/// The replies that have come in, and how many of them have been read.
pub struct Tape<'a> {
    replies: &'a [Reply],
    at: usize,
}

impl<'a> Tape<'a> {
    /// The replies that are still to be read.
    pub closed spec fn view(&self) -> Seq<ReplyModel> {
        if self.at <= self.replies@.len() {
            reply_models(self.replies@).skip(self.at as int)
        } else {
            Seq::empty()
        }
    }

    /// A tape on which nothing has been read yet.
    pub fn new(replies: &'a [Reply]) -> (t: Tape<'a>)
        ensures
            t@ == reply_models(replies@),
    {
        let t = Tape { replies, at: 0 };
        assert(reply_models(replies@).skip(0) =~= reply_models(replies@));
        t
    }

    /// Reads the next reply.
    pub fn next(&mut self) -> (r: Option<&'a Reply>)
        ensures
            match r {
                Some(reply) => {
                    &&& old(self)@.len() > 0
                    &&& reply@ == old(self)@[0]
                    &&& final(self)@ == old(self)@.skip(1)
                },
                None => old(self)@.len() == 0 && final(self)@ == old(self)@,
            },
    {
        let ghost before = self@;
        if self.at < self.replies.len() {
            let reply = &self.replies[self.at];
            self.at = self.at + 1;
            assert(self@ =~= before.skip(1));
            Some(reply)
        } else {
            assert(before.len() == 0);
            None
        }
    }
}

/// Why a function did not come to its end.
#[derive(Debug)]
pub enum Halt {
    /// The tape ran out where this request is to be sent.
    Ask(Request),
    /// The job cannot be done.
    Fail(String),
}

/// The course of a function over a tape.
pub enum Run<T> {
    /// It asks this request next.
    Ask(RequestModel),
    /// It comes to its end, with these replies left unread.
    Done { value: Result<T, Seq<char>>, rest: Seq<ReplyModel> },
}

/// A run that gives `v`.
pub open spec fn gave<T>(run: Run<T>, v: T, rest: Seq<ReplyModel>) -> bool {
    run == Run::<T>::Done { value: Ok(v), rest }
}

/// A run that halts as `h` says. One that asks has read every reply.
pub open spec fn halted<T>(run: Run<T>, h: Halt, rest: Seq<ReplyModel>) -> bool {
    match h {
        Halt::Ask(q) => run == Run::<T>::Ask(q@) && rest.len() == 0,
        Halt::Fail(e) => run == Run::<T>::Done { value: Err(e@), rest },
    }
}

// ---- laws -----------------------------------------------------------------------------

/// A run ends in one way only: it asks one request, gives one value or fails with one complaint, and
/// leaves one rest of the replies.
pub proof fn law_one_end<T>(
    run: Run<T>,
    v: T,
    w: T,
    h: Halt,
    k: Halt,
    rest: Seq<ReplyModel>,
    left: Seq<ReplyModel>,
)
    ensures
        !(gave(run, v, rest) && halted(run, h, left)),
        gave(run, v, rest) && gave(run, w, left) ==> v == w && rest == left,
        halted(run, h, rest) && halted(run, k, left) ==> rest == left && match (h, k) {
            (Halt::Ask(q), Halt::Ask(p)) => q@ == p@ && rest.len() == 0,
            (Halt::Fail(e), Halt::Fail(d)) => e@ == d@,
            _ => false,
        },
{
}

/// A request and a reply stand for what they hold, and replies one by one.
pub proof fn law_tape_views(q: Request, reply: Reply, replies: Seq<Reply>)
    ensures
        q@.url == q.url@,
        q@.method == q.method@,
        q@.params == q.params@,
        match reply {
            Reply::NotSent(e) => reply@ == ReplyModel::NotSent(e@),
            Reply::Answered { status, body: Ok(b) } => reply@ == (ReplyModel::Answered {
                status,
                body: Ok(b@),
            }),
            Reply::Answered { status, body: Err(e) } => reply@ == (ReplyModel::Answered {
                status,
                body: Err(e@),
            }),
        },
        reply_models(replies).len() == replies.len(),
        forall|i: int|
            0 <= i < replies.len() ==> #[trigger] reply_models(replies)[i] == replies[i]@,
{
}

} // verus!

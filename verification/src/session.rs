//! A job, step by step, for a caller that does the input and output.

use vstd::prelude::*;
use vstd::string::*;

use crate::env::variables;
use crate::evm::with_text;
use crate::job::{run, text_run};
use crate::json::{json_text, no_members, with_member, Json, JsonModel};
use crate::tape::{reply_models, Halt, Reply, Request, Run, Tape};

verus! {

/// A job under way: its input, the environment, and the replies that have come in so far.
pub struct Session {
    pub input: String,
    pub env: Vec<(String, String)>,
    pub replies: Vec<Reply>,
}

/// What the caller has to do next.
#[derive(Debug)]
pub enum Step {
    /// Send this request, and hand its reply to `Session::answer`.
    Post(Request),
    /// Print this text: the job is over.
    Finished(String),
}

/// What is printed for a job that cannot be done.
pub open spec fn failure_of(why: Seq<char>) -> JsonModel {
    with_text(with_member(no_members(), "success"@, JsonModel::Bool(false)), "error"@, why)
}

/// What is printed at the end of a job.
pub open spec fn closing_text(value: Result<JsonModel, Seq<char>>) -> Seq<char> {
    match value {
        Ok(v) => json_text(v),
        Err(e) => json_text(failure_of(e)),
    }
}

/// What to print for a job that cannot be done.
pub fn failure(why: &str) -> (r: String)
    ensures
        r@ == closing_text(Err(why@)),
{
    let mut v = Json::object();
    v.set("success", Json::Bool(false));
    v.set("error", Json::text(why));
    v.render()
}

impl Session {
    /// A job of which nothing has been done yet.
    pub fn new(input: String, env: Vec<(String, String)>) -> (s: Session)
        ensures
            s.input == input,
            s.env == env,
            s.replies@.len() == 0,
    {
        Session { input, env, replies: Vec::new() }
    }

    /// What the caller has to do next.
    pub fn step(&self) -> (r: Step)
        ensures
            match text_run(self.input@, variables(self.env@), reply_models(self.replies@)) {
                Run::Ask(q) => r is Post && r->Post_0@ == q,
                Run::Done { value, .. } => r is Finished && r->Finished_0@ == closing_text(value),
            },
    {
        let mut tape = Tape::new(self.replies.as_slice());
        match run(&mut tape, self.input.as_str(), self.env.as_slice()) {
            Ok(v) => Step::Finished(v.render()),
            Err(Halt::Fail(e)) => Step::Finished(failure(e.as_str())),
            Err(Halt::Ask(q)) => Step::Post(q),
        }
    }

    /// Takes in the reply to the request that `step` asked for.
    pub fn answer(&mut self, reply: Reply)
        ensures
            final(self).input == old(self).input,
            final(self).env == old(self).env,
            final(self).replies@ == old(self).replies@.push(reply),
    {
        self.replies.push(reply);
    }
}

} // verus!

//! One worker: what is sent to it and what its answers amount to.

use crate::utils::http::succeeded;
#[allow(unused_imports)]
use crate::utils::http;
use crate::utils::text::{decimal, join};
#[allow(unused_imports)]
use crate::utils::text;
use crate::utils::{PhantomError, PhantomResult};
use vstd::prelude::*;

verus! {

pub const PHANTOM_VERSION: &'static str = "0.1.0";

pub const VERSION_HEADER: &'static str = "x-phantom-version";

pub const CONTENT_TYPE: &'static str = "application/octet-stream";

pub const REQUEST_TIMEOUT_SECS: u64 = 30;

/// What came of a request to a worker.
#[derive(Debug)]
pub enum WorkerReply {
    /// No answer came.
    NotSent(String),
    /// An answer came with this status, and its body or why that could not be read.
    Answered(u16, Result<Vec<u8>, String>),
}

impl WorkerReply {
    /// Whether the reply is a success, and with which body.
    pub open spec fn body(&self) -> Option<Seq<u8>> {
        match self {
            WorkerReply::Answered(code, Ok(data)) if http::is_success(*code) => Some(data@),
            _ => None,
        }
    }

    /// The text of the error that a reply without success becomes.
    pub open spec fn fault(&self) -> Seq<char> {
        match self {
            WorkerReply::NotSent(why) => "Worker request failed: "@ + why@,
            WorkerReply::Answered(code, read) => if !http::is_success(*code) {
                "Worker returned status "@ + text::decimal_of(*code as nat)
            } else {
                match read {
                    Ok(_) => Seq::empty(),
                    Err(why) => "Failed to read response body: "@ + why@,
                }
            },
        }
    }
}

#[derive(Debug)]
pub struct WorkerClient {
    pub worker_url: String,
}

impl WorkerClient {
    pub fn new(worker_url: String) -> (c: Self)
        ensures
            c.worker_url == worker_url,
    {
        WorkerClient { worker_url }
    }

    pub fn url(&self) -> (u: &str)
        ensures
            u@ == self.worker_url@,
    {
        self.worker_url.as_str()
    }

    /// What a reply comes to: the body of a success, and a relay error for all else. The
    /// body of another status is not looked at.
    pub fn send(&self, reply: WorkerReply) -> (r: PhantomResult<Vec<u8>>)
        ensures
            match reply.body() {
                Some(data) => r matches Ok(answer) && answer@ == data,
                None => r matches Err(e) && e.is_relay(reply.fault()),
            },
    {
        match reply {
            WorkerReply::NotSent(why) => Err(
                PhantomError::RelayError(join("Worker request failed: ", why.as_str())),
            ),
            WorkerReply::Answered(code, read) => {
                if !succeeded(code) {
                    let number = decimal(code as u128);
                    return Err(
                        PhantomError::RelayError(join("Worker returned status ", number.as_str())),
                    );
                }
                match read {
                    Ok(data) => Ok(data),
                    Err(why) => Err(
                        PhantomError::RelayError(
                            join("Failed to read response body: ", why.as_str()),
                        ),
                    ),
                }
            },
        }
    }
}

/// Only an answer with a status from 200 to 299 whose body could be read has a body.
pub proof fn law_only_successes_have_a_body(reply: WorkerReply)
    ensures
        reply.body() is Some <==> (reply matches WorkerReply::Answered(code, read) && code / 100 == 2
            && read is Ok),
        reply matches WorkerReply::Answered(code, Ok(data)) ==> (code / 100 == 2 ==> reply.body()
            == Some(data@)),
{
}

} // verus!

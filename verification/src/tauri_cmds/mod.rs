//! What the user interface's commands answer.

use crate::phantom_core::state::ConnectionState;
#[allow(unused_imports)]
use crate::phantom_core::state::StateView;
use crate::utils::PhantomResult;
use vstd::prelude::*;
use vstd::string::StringExecFns;

verus! {

#[derive(Debug)]
pub struct StatusResponse {
    pub state: String,
    pub speed_up: u64,
    pub speed_down: u64,
    pub worker_count: usize,
    pub error_message: Option<String>,
}

/// The name shown for a state.
pub open spec fn state_name(s: StateView) -> Seq<char> {
    match s {
        StateView::Disconnected => "disconnected"@,
        StateView::Connecting => "connecting"@,
        StateView::Connected { .. } => "connected"@,
        StateView::Error { .. } => "error"@,
    }
}

/// Whether `r` shows `s`: its name; its numbers where it is connected, zeros else; its text
/// where it is an error.
pub open spec fn shows(r: StatusResponse, s: StateView) -> bool {
    &&& r.state@ == state_name(s)
    &&& match s {
        StateView::Connected { speed_up, speed_down, worker_count } => {
            &&& r.speed_up == speed_up
            &&& r.speed_down == speed_down
            &&& r.worker_count == worker_count
            &&& r.error_message is None
        },
        StateView::Error { message } => {
            &&& r.speed_up == 0
            &&& r.speed_down == 0
            &&& r.worker_count == 0
            &&& r.error_message matches Some(text) && text@ == message
        },
        _ => {
            &&& r.speed_up == 0
            &&& r.speed_down == 0
            &&& r.worker_count == 0
            &&& r.error_message is None
        },
    }
}

/// What the connect command answers once the engine has been started.
pub fn cmd_connect(started: PhantomResult<()>) -> (r: Result<String, String>)
    ensures
        match started {
            Ok(_) => r matches Ok(text) && text@ == "Connected"@,
            Err(e) => r matches Err(text) && text@ == e.message(),
        },
{
    match started {
        Ok(_) => Ok(String::from_str("Connected")),
        Err(e) => Err(e.to_text()),
    }
}

/// What the disconnect command answers once the engine has been stopped.
pub fn cmd_disconnect(stopped: PhantomResult<()>) -> (r: Result<String, String>)
    ensures
        match stopped {
            Ok(_) => r matches Ok(text) && text@ == "Disconnected"@,
            Err(e) => r matches Err(text) && text@ == e.message(),
        },
{
    match stopped {
        Ok(_) => Ok(String::from_str("Disconnected")),
        Err(e) => Err(e.to_text()),
    }
}

/// What the status command answers.
pub fn cmd_get_status(state: ConnectionState) -> (r: Result<StatusResponse, String>)
    ensures
        r matches Ok(response) && shows(response, state@),
{
    let response = match state {
        ConnectionState::Disconnected => idle("disconnected"),
        ConnectionState::Connecting => idle("connecting"),
        ConnectionState::Connected { speed_up, speed_down, worker_count } => StatusResponse {
            state: String::from_str("connected"),
            speed_up,
            speed_down,
            worker_count,
            error_message: None,
        },
        ConnectionState::Error { message } => StatusResponse {
            state: String::from_str("error"),
            speed_up: 0,
            speed_down: 0,
            worker_count: 0,
            error_message: Some(message),
        },
    };
    Ok(response)
}

/// A response without numbers.
fn idle(name: &str) -> (r: StatusResponse)
    ensures
        r.state@ == name@,
        r.speed_up == 0,
        r.speed_down == 0,
        r.worker_count == 0,
        r.error_message is None,
{
    StatusResponse {
        state: String::from_str(name),
        speed_up: 0,
        speed_down: 0,
        worker_count: 0,
        error_message: None,
    }
}

/// The name shown tells the states apart.
pub proof fn law_names_tell_states_apart(a: StateView, b: StateView)
    requires
        state_name(a) == state_name(b),
    ensures
        a is Disconnected <==> b is Disconnected,
        a is Connecting <==> b is Connecting,
        a is Connected <==> b is Connected,
        a is Error <==> b is Error,
{
    reveal_strlit("disconnected");
    reveal_strlit("connecting");
    reveal_strlit("connected");
    reveal_strlit("error");
    assert("disconnected"@.len() == 12 && "connecting"@.len() == 10 && "connected"@.len() == 9
        && "error"@.len() == 5);
}

/// Numbers are shown of a connection only, and a message of an error only; no two states that
/// differ are shown alike.
pub proof fn law_status_shows_the_state(r: StatusResponse, s: StateView)
    requires
        shows(r, s),
    ensures
        s matches StateView::Connected { speed_up, speed_down, worker_count } ==> r.speed_up
            == speed_up && r.speed_down == speed_down && r.worker_count == worker_count,
        !(s is Connected) ==> r.speed_up == 0 && r.speed_down == 0 && r.worker_count == 0,
        r.error_message is Some <==> s is Error,
        s matches StateView::Error { message } ==> r.error_message->Some_0@ == message,
        s is Disconnected ==> r.state@ == "disconnected"@,
        s is Connecting ==> r.state@ == "connecting"@,
        s is Connected ==> r.state@ == "connected"@,
        s is Error ==> r.state@ == "error"@,
{
}

} // verus!

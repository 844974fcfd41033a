//! The session with the switch's web interface, as a state machine: the
//! caller performs each request and hands back the response body.
use vstd::prelude::*;

use crate::text::{
    chars_of, contains, contains_exec, digit_value, is_digit, is_digit_char, occurs_at,
    occurs_at_exec, run_end, run_end_exec,
};

verus! {

/// A field name that appears only on the real statistics page.
pub open spec fn statistics_marker() -> Seq<char> {
    "max_port_num"@
}

/// What opens the login result in the response to a login.
pub open spec fn logon_marker() -> Seq<char> {
    "var logonInfo = new Array(\n"@
}

/// The login result stands at `i`: the marker, any whitespace, a digit, a comma.
pub open spec fn logon_match_at(t: Seq<char>, i: int) -> bool {
    let j = run_end(t, i + logon_marker().len(), true);
    &&& occurs_at(t, i, logon_marker())
    &&& j + 1 < t.len()
    &&& is_digit(t[j])
    &&& t[j + 1] == ','
}

pub open spec fn first_logon_match(t: Seq<char>, i: int) -> Option<int>
    decreases t.len() - i,
{
    if i < 0 || i >= t.len() {
        None
    } else if logon_match_at(t, i) {
        Some(i)
    } else {
        first_logon_match(t, i + 1)
    }
}

/// The result code of a login, read from the response body.
pub open spec fn login_code(t: Seq<char>) -> Option<nat> {
    match first_logon_match(t, 0) {
        Some(i) => Some(digit_value(t[run_end(t, i + logon_marker().len(), true)])),
        None => None,
    }
}

/// Why the switch refused a login.
#[derive(PartialEq, Eq, Structural, Debug, Clone, Copy)]
pub enum LoginFailure {
    WrongCredentials,
    NotAllowed,
    UserSlotsFull,
    SessionLimit,
    SessionTimeout,
    UnexpectedCode,
}

/// The failure that a nonzero login code stands for.
pub open spec fn failure_of(code: nat) -> LoginFailure {
    if code == 1 {
        LoginFailure::WrongCredentials
    } else if code == 2 {
        LoginFailure::NotAllowed
    } else if code == 3 {
        LoginFailure::UserSlotsFull
    } else if code == 4 {
        LoginFailure::SessionLimit
    } else if code == 5 {
        LoginFailure::SessionTimeout
    } else {
        LoginFailure::UnexpectedCode
    }
}

impl LoginFailure {
    pub open spec fn text(self) -> Seq<char> {
        match self {
            LoginFailure::WrongCredentials => "The user name or the password is wrong."@,
            LoginFailure::NotAllowed => "The user is not allowed to login."@,
            LoginFailure::UserSlotsFull => "The number of the user that allowed to login has been full."@,
            LoginFailure::SessionLimit => "The number of the login user has been full,it is allowed 16 people to login at the same time."@,
            LoginFailure::SessionTimeout => "The session is timeout.<br>Please login again."@,
            LoginFailure::UnexpectedCode => "unpossible login error"@,
        }
    }

    /// The switch's own wording of the failure.
    pub fn reason(&self) -> (r: &'static str)
        ensures
            r@ == self.text(),
    {
        match self {
            LoginFailure::WrongCredentials => "The user name or the password is wrong.",
            LoginFailure::NotAllowed => "The user is not allowed to login.",
            LoginFailure::UserSlotsFull => "The number of the user that allowed to login has been full.",
            LoginFailure::SessionLimit => "The number of the login user has been full,it is allowed 16 people to login at the same time.",
            LoginFailure::SessionTimeout => "The session is timeout.<br>Please login again.",
            LoginFailure::UnexpectedCode => "unpossible login error",
        }
    }
}

/// Why fetching the statistics page failed.
#[derive(PartialEq, Eq, Structural, Debug, Clone, Copy)]
pub enum FetchError {
    /// The switch refused the login.
    AuthFailure(LoginFailure),
    /// A response did not have the expected shape.
    ProtocolMismatch,
}

/// The request to send next.
#[derive(PartialEq, Eq, Structural, Debug, Clone, Copy)]
pub enum Request {
    /// GET the statistics page.
    GetStatistics,
    /// POST the login form.
    PostLogin,
}

/// Where the session stands: each state waits for the response to its request.
#[derive(PartialEq, Eq, Structural, Debug, Clone, Copy)]
pub enum SessionState {
    /// The first GET, hoping an earlier session is still valid.
    Probe,
    /// The login POST.
    Login,
    /// The single GET after a successful login.
    Retry,
}

/// What to do after a response.
#[derive(PartialEq, Eq, Structural, Debug, Clone, Copy)]
pub enum SessionStep {
    /// Send the request of the new state.
    Next(SessionState),
    /// The body just received is the statistics page.
    Done,
    /// Stop with this error.
    Failed(FetchError),
}

impl SessionState {
    pub open spec fn request_of(self) -> Request {
        match self {
            SessionState::Login => Request::PostLogin,
            _ => Request::GetStatistics,
        }
    }

    /// The transition on a response `body` in this state.
    pub open spec fn next_step(self, body: Seq<char>) -> SessionStep {
        match self {
            SessionState::Probe => if contains(body, statistics_marker()) {
                SessionStep::Done
            } else {
                SessionStep::Next(SessionState::Login)
            },
            SessionState::Login => match login_code(body) {
                None => SessionStep::Failed(FetchError::ProtocolMismatch),
                Some(code) => if code == 0 {
                    SessionStep::Next(SessionState::Retry)
                } else {
                    SessionStep::Failed(FetchError::AuthFailure(failure_of(code)))
                },
            },
            SessionState::Retry => if contains(body, statistics_marker()) {
                SessionStep::Done
            } else {
                SessionStep::Failed(FetchError::ProtocolMismatch)
            },
        }
    }

    /// The state a session starts in.
    pub fn start() -> (r: SessionState)
        ensures
            r == SessionState::Probe,
    {
        SessionState::Probe
    }

    /// The request that this state waits on.
    pub fn request(&self) -> (r: Request)
        ensures
            r == self.request_of(),
    {
        match self {
            SessionState::Login => Request::PostLogin,
            _ => Request::GetStatistics,
        }
    }

    /// Decides what follows the response `body` to this state's request.
    pub fn on_response(&self, body: &str) -> (r: SessionStep)
        ensures
            r == self.next_step(body@),
    {
        let t = chars_of(body);
        match self {
            SessionState::Probe => {
                if is_statistics_page(&t) {
                    SessionStep::Done
                } else {
                    SessionStep::Next(SessionState::Login)
                }
            },
            SessionState::Login => match find_login_code(&t) {
                None => SessionStep::Failed(FetchError::ProtocolMismatch),
                Some(code) => {
                    if code == 0 {
                        SessionStep::Next(SessionState::Retry)
                    } else {
                        SessionStep::Failed(FetchError::AuthFailure(login_failure(code)))
                    }
                },
            },
            SessionState::Retry => {
                if is_statistics_page(&t) {
                    SessionStep::Done
                } else {
                    SessionStep::Failed(FetchError::ProtocolMismatch)
                }
            },
        }
    }
}

/// When the first GET already returns the statistics page, the session ends
/// there and no login is sent.
pub proof fn lemma_valid_session_skips_login(body: Seq<char>)
    requires
        contains(body, statistics_marker()),
    ensures
        SessionState::Probe.next_step(body) == SessionStep::Done,
{
}

/// A login answered with code three fails at once, with the full login
/// table as its reason, and nothing further is requested.
pub proof fn lemma_full_login_table(body: Seq<char>)
    requires
        login_code(body) == Some(3nat),
    ensures
        SessionState::Login.next_step(body) == SessionStep::Failed(
            FetchError::AuthFailure(LoginFailure::UserSlotsFull),
        ),
        LoginFailure::UserSlotsFull.text()
            == "The number of the user that allowed to login has been full."@,
{
}

fn is_statistics_page(t: &Vec<char>) -> (r: bool)
    ensures
        r == contains(t@, statistics_marker()),
{
    contains_exec(t, &chars_of("max_port_num"))
}

fn login_failure(code: u8) -> (r: LoginFailure)
    ensures
        r == failure_of(code as nat),
{
    match code {
        1 => LoginFailure::WrongCredentials,
        2 => LoginFailure::NotAllowed,
        3 => LoginFailure::UserSlotsFull,
        4 => LoginFailure::SessionLimit,
        5 => LoginFailure::SessionTimeout,
        _ => LoginFailure::UnexpectedCode,
    }
}

fn find_login_code(t: &Vec<char>) -> (r: Option<u8>)
    ensures
        match login_code(t@) {
            Some(c) => r == Some(c as u8),
            None => r is None,
        },
{
    let marker = chars_of("var logonInfo = new Array(\n");
    let mut i: usize = 0;
    while i < t.len()
        invariant
            marker@ == logon_marker(),
            first_logon_match(t@, 0) == first_logon_match(t@, i as int),
        decreases t.len() - i,
    {
        if occurs_at_exec(t, i, &marker) {
            let j = run_end_exec(t, i + marker.len(), true);
            if j < t.len() && t.len() - j > 1 && is_digit_char(t[j]) && t[j + 1] == ',' {
                return Some((t[j] as u32 - '0' as u32) as u8);
            }
        }
        i = i + 1;
    }
    None
}

} // verus!

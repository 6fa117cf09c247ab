//! The data of the command-line login front end: fixed answers to prompts,
//! a conversation that holds an answerer and a recorder, and the errors of
//! a PAM login.
use vstd::prelude::*;

verus! {

/// Answers prompts with fixed values: `plain` where the answer is shown,
/// `hidden` where it is not.
pub struct TrivialCommandLineConversationPrompter {
    plain: Option<String>,
    hidden: Option<String>,
}

fn copy_answer(a: &Option<String>) -> (r: Option<String>)
    ensures
        r == *a,
{
    match a {
        Some(s) => Some(s.clone()),
        None => None,
    }
}

impl TrivialCommandLineConversationPrompter {
    pub closed spec fn spec_plain(&self) -> Option<String> {
        self.plain
    }

    pub closed spec fn spec_hidden(&self) -> Option<String> {
        self.hidden
    }

    pub fn new(plain: Option<String>, hidden: Option<String>) -> (r: Self)
        ensures
            r.spec_plain() == plain,
            r.spec_hidden() == hidden,
    {
        Self { plain, hidden }
    }

    /// The answer to a prompt whose answer is shown.
    pub fn echo_on_prompt(&mut self, _prompt: &String) -> (r: Option<String>)
        ensures
            r == old(self).spec_plain(),
            *final(self) == *old(self),
    {
        copy_answer(&self.plain)
    }

    /// The answer to a prompt whose answer is hidden.
    pub fn echo_off_prompt(&mut self, _prompt: &String) -> (r: Option<String>)
        ensures
            r == old(self).spec_hidden(),
            *final(self) == *old(self),
    {
        copy_answer(&self.hidden)
    }
}

/// A login conversation: an optional answerer of prompts, and an optional
/// recorder of each prompt with its answer.
pub struct CommandLineConversation<A, R> {
    answerer: Option<A>,
    recorder: Option<R>,
}

impl<A, R> CommandLineConversation<A, R> {
    pub closed spec fn spec_answerer(&self) -> Option<A> {
        self.answerer
    }

    pub closed spec fn spec_recorder(&self) -> Option<R> {
        self.recorder
    }

    pub fn new(answerer: Option<A>, recorder: Option<R>) -> (r: Self)
        ensures
            r.spec_answerer() == answerer,
            r.spec_recorder() == recorder,
    {
        Self { answerer, recorder }
    }

    /// Sets the recorder, in place of any there was.
    pub fn attach_recorder(&mut self, recorder: R)
        ensures
            final(self).spec_recorder() == Some(recorder),
            final(self).spec_answerer() == old(self).spec_answerer(),
    {
        self.recorder = Some(recorder);
    }

    pub fn answerer_mut(&mut self) -> (r: Option<&mut A>)
        ensures
            old(self).spec_answerer() is None ==> r is None,
            old(self).spec_answerer() matches Some(a) ==> r matches Some(m) && *m == a,
    {
        match &mut self.answerer {
            Some(a) => Some(a),
            None => None,
        }
    }

    pub fn recorder_mut(&mut self) -> (r: Option<&mut R>)
        ensures
            old(self).spec_recorder() is None ==> r is None,
            old(self).spec_recorder() matches Some(a) ==> r matches Some(m) && *m == a,
    {
        match &mut self.recorder {
            Some(a) => Some(a),
            None => None,
        }
    }
}

/// The ways a PAM login fails.
#[derive(Clone, Debug, PartialEq, Eq)]
pub enum PamLoginError {
    SetPrompt(String),
    Authentication(String),
    Validation(String),
    Open(String),
    GetUser(String),
    Execution(String),
    UnknownUsername,
}

/// The message of each error.
pub open spec fn pam_error_message(e: PamLoginError) -> Seq<char> {
    match e {
        PamLoginError::SetPrompt(s) => "Error setting login prompt: "@ + s@,
        PamLoginError::Authentication(s) => "Error authenticating the user: "@ + s@,
        PamLoginError::Validation(_) => "Error validating the user: "@,
        PamLoginError::Open(s) => "Error opening session: "@ + s@,
        PamLoginError::GetUser(s) => "Error obtaining the user from PAM: "@ + s@,
        PamLoginError::Execution(_) => "Error executing command: "@,
        PamLoginError::UnknownUsername => "Unable to find the username"@,
    }
}

fn prefixed(prefix: &str, detail: &String) -> (r: String)
    ensures
        r@ == prefix@ + detail@,
{
    let mut r = String::from_str(prefix);
    r.append(detail.as_str());
    r
}

impl PamLoginError {
    /// The text that describes the error.
    pub fn message(&self) -> (r: String)
        ensures
            r@ == pam_error_message(*self),
    {
        match self {
            PamLoginError::SetPrompt(s) => prefixed("Error setting login prompt: ", s),
            PamLoginError::Authentication(s) => prefixed("Error authenticating the user: ", s),
            PamLoginError::Validation(_) => String::from_str("Error validating the user: "),
            PamLoginError::Open(s) => prefixed("Error opening session: ", s),
            PamLoginError::GetUser(s) => prefixed("Error obtaining the user from PAM: ", s),
            PamLoginError::Execution(_) => String::from_str("Error executing command: "),
            PamLoginError::UnknownUsername => String::from_str("Unable to find the username"),
        }
    }
}

} // verus!

//! What a client does about what its user types.
use crate::message::{chunked, stream_of, Message};
use crate::text::{is_utf8_failure, string_from_utf8, Utf8Failure};
use crate::username::Username;
use vstd::prelude::*;
use vstd::utf8::{decode_utf8, valid_utf8};

verus! {

/// The byte that ends a line.
pub const NEWLINE_U8: u8 = 0x0A;

/// Whether the bytes end with a newline.
pub open spec fn ends_line(chunk: Seq<u8>) -> bool {
    chunk.len() > 0 && chunk.last() == NEWLINE_U8
}

/// The bytes without the newline at their end, if there is one.
pub open spec fn without_newline(chunk: Seq<u8>) -> Seq<u8> {
    if ends_line(chunk) {
        chunk.drop_last()
    } else {
        chunk
    }
}

/// What is sent for what the user typed.
#[derive(Debug, PartialEq)]
pub enum PromptOutcome {
    /// Nothing was typed, and nothing is sent.
    Empty,
    /// It is no text, and nothing is sent.
    NotUtf8(Utf8Failure),
    /// The pakets of the messages over which the text is spread, one after the other.
    Pakets(Vec<u8>),
}

/// What is sent for the bytes that a user typed.
pub open spec fn is_prompt_outcome(
    username: Seq<char>,
    prompt: Seq<u8>,
    r: PromptOutcome,
) -> bool {
    if prompt.len() == 0 {
        r is Empty
    } else if !valid_utf8(prompt) {
        r matches PromptOutcome::NotUtf8(failure) && is_utf8_failure(failure, prompt)
    } else {
        r matches PromptOutcome::Pakets(bytes) && bytes@ == stream_of(
            chunked(username, decode_utf8(prompt)),
        )
    }
}

/// The text that asks the user for input.
pub open spec fn prompt_line(username: Seq<char>) -> Seq<char> {
    username + ":> "@
}

/// What is sent for one chunk of the input, and whether it ends a line.
pub open spec fn is_chunk_outcome(
    username: Seq<char>,
    chunk: Seq<u8>,
    r: (PromptOutcome, bool),
) -> bool {
    &&& is_prompt_outcome(username, without_newline(chunk), r.0)
    &&& r.1 == ends_line(chunk)
}

/// The text that asks the user for input.
pub fn username_prompt(username: &Username) -> (r: String)
    ensures
        r@ == prompt_line(username@),
{
    username.to_string().concat(":> ")
}

/// Takes away the newline at the end of the bytes, if there is one, and tells whether there was.
pub fn strip_newline(chunk: &mut Vec<u8>) -> (is_last_chunk: bool)
    ensures
        is_last_chunk == ends_line(old(chunk)@),
        final(chunk)@ == without_newline(old(chunk)@),
{
    let len: usize = chunk.len();
    if len > 0 && chunk[len - 1] == NEWLINE_U8 {
        chunk.pop();
        true
    } else {
        false
    }
}

/// Decides what is sent for the bytes that a user typed.
pub fn prompt_outcome(username: &Username, prompt: Vec<u8>) -> (r: PromptOutcome)
    ensures
        is_prompt_outcome(username@, prompt@, r),
{
    if prompt.len() == 0 {
        return PromptOutcome::Empty;
    }
    match string_from_utf8(prompt) {
        Ok(text) => PromptOutcome::Pakets(Message::pakets_of_text(username, text.as_str())),
        Err(failure) => PromptOutcome::NotUtf8(failure),
    }
}

/// What a client that does not gather its input sends for one chunk of it, and whether the chunk
/// ends a line.
pub fn chunk_outcome(username: &Username, chunk: Vec<u8>) -> (r: (PromptOutcome, bool))
    ensures
        is_chunk_outcome(username@, chunk@, r),
{
    let mut chunk = chunk;
    let is_last_chunk: bool = strip_newline(&mut chunk);
    (prompt_outcome(username, chunk), is_last_chunk)
}

/// Where a client stands in the round of asking, reading and sending.
#[derive(Clone, Copy, Debug, PartialEq, Eq, Structural)]
pub enum StdinPhase {
    ShowingPrompt,
    Gathering,
    Writing,
}

/// What became of the last action.
#[derive(Debug, PartialEq)]
pub enum StdinEvent {
    /// The prompt was shown.
    PromptShown,
    /// The prompt could not be shown.
    PromptNotShown,
    /// The client was cancelled while the prompt was being shown.
    Cancelled,
    /// The bytes that were read: none at the end of the input.
    Read { chunk: Vec<u8> },
    /// The read failed.
    ReadFailed,
    /// The pakets were written to the connection.
    Written,
    /// The pakets could not be written.
    WriteFailed,
}

/// What to do next.
#[derive(Debug, PartialEq)]
pub enum StdinAction {
    /// Show the prompt. Where what was typed is no text, report that first.
    ShowPrompt { report: Option<Utf8Failure> },
    /// Read from the input.
    Read,
    /// Write the pakets to the connection.
    Write { pakets: Vec<u8> },
    /// Stop successfully.
    Stop,
    /// Stop with the error of the last action.
    Fail,
}

/// A client that turns what is typed into pakets.
#[derive(Debug)]
pub struct Stdin2Tcp {
    username: Username,
    phase: StdinPhase,
    prompt: Vec<u8>,
}

/// The state of such a client: what has been typed of the current line, while it is gathered.
#[verifier::ext_equal]
pub struct StdinView {
    pub username: Seq<char>,
    pub phase: StdinPhase,
    pub prompt: Seq<u8>,
}

impl View for Stdin2Tcp {
    type V = StdinView;

    closed spec fn view(&self) -> StdinView {
        StdinView { username: self.username@, phase: self.phase, prompt: self.prompt@ }
    }
}

/// Whether the event can follow what the client asked for.
pub open spec fn fits(phase: StdinPhase, event: StdinEvent) -> bool {
    match event {
        StdinEvent::PromptShown => phase == StdinPhase::ShowingPrompt,
        StdinEvent::PromptNotShown => phase == StdinPhase::ShowingPrompt,
        StdinEvent::Cancelled => phase == StdinPhase::ShowingPrompt,
        StdinEvent::Read { .. } => phase == StdinPhase::Gathering,
        StdinEvent::ReadFailed => phase == StdinPhase::Gathering,
        StdinEvent::Written => phase == StdinPhase::Writing,
        StdinEvent::WriteFailed => phase == StdinPhase::Writing,
    }
}

/// Whether the line is complete with this chunk: it ends with a newline, or the input is at its
/// end.
pub open spec fn completes_line(chunk: Seq<u8>) -> bool {
    chunk.len() == 0 || ends_line(chunk)
}

/// The step for a chunk that was read.
pub open spec fn is_read_step(
    before: StdinView,
    chunk: Seq<u8>,
    after: StdinView,
    action: StdinAction,
) -> bool {
    let prompt = before.prompt + without_newline(chunk);
    if !completes_line(chunk) {
        &&& after == StdinView { prompt, ..before }
        &&& action == StdinAction::Read
    } else if prompt.len() == 0 {
        &&& after == StdinView { phase: StdinPhase::ShowingPrompt, prompt: Seq::empty(), ..before }
        &&& action == StdinAction::ShowPrompt { report: None }
    } else if !valid_utf8(prompt) {
        &&& after == StdinView { phase: StdinPhase::ShowingPrompt, prompt: Seq::empty(), ..before }
        &&& action matches StdinAction::ShowPrompt { report: Some(failure) }
        &&& is_utf8_failure(failure, prompt)
    } else {
        &&& after == StdinView { phase: StdinPhase::Writing, prompt: Seq::empty(), ..before }
        &&& action matches StdinAction::Write { pakets }
        &&& pakets@ == stream_of(chunked(before.username, decode_utf8(prompt)))
    }
}

/// The step for any event.
pub open spec fn is_stdin_step(
    before: StdinView,
    event: StdinEvent,
    after: StdinView,
    action: StdinAction,
) -> bool {
    match event {
        StdinEvent::PromptShown => {
            &&& after == StdinView { phase: StdinPhase::Gathering, prompt: Seq::empty(), ..before }
            &&& action == StdinAction::Read
        },
        StdinEvent::PromptNotShown => {
            &&& after == before
            &&& action == StdinAction::ShowPrompt { report: None }
        },
        StdinEvent::Cancelled => after == before && action == StdinAction::Stop,
        StdinEvent::Read { chunk } => is_read_step(before, chunk@, after, action),
        StdinEvent::ReadFailed => after == before && action == StdinAction::Fail,
        StdinEvent::Written => {
            &&& after == StdinView { phase: StdinPhase::ShowingPrompt, ..before }
            &&& action == StdinAction::ShowPrompt { report: None }
        },
        StdinEvent::WriteFailed => after == before && action == StdinAction::Fail,
    }
}

impl Stdin2Tcp {
    /// A client that is about to show its first prompt.
    pub fn new(username: &Username) -> (r: Stdin2Tcp)
        ensures
            r@ == (StdinView {
                username: username@,
                phase: StdinPhase::ShowingPrompt,
                prompt: Seq::empty(),
            }),
    {
        Stdin2Tcp {
            username: username.clone(),
            phase: StdinPhase::ShowingPrompt,
            prompt: Vec::new(),
        }
    }

    /// Decides what to do after what became of the last action.
    pub fn step(&mut self, event: StdinEvent) -> (r: StdinAction)
        requires
            fits(old(self)@.phase, event),
        ensures
            is_stdin_step(old(self)@, event, final(self)@, r),
    {
        match event {
            StdinEvent::PromptShown => {
                self.phase = StdinPhase::Gathering;
                self.prompt.clear();
                StdinAction::Read
            },
            StdinEvent::PromptNotShown => StdinAction::ShowPrompt { report: None },
            StdinEvent::Cancelled => StdinAction::Stop,
            StdinEvent::Read { chunk } => self.gather(chunk),
            StdinEvent::ReadFailed => StdinAction::Fail,
            StdinEvent::Written => {
                self.phase = StdinPhase::ShowingPrompt;
                StdinAction::ShowPrompt { report: None }
            },
            StdinEvent::WriteFailed => StdinAction::Fail,
        }
    }

    /// Appends a chunk to the line, and decides what is sent once the line is complete.
    fn gather(&mut self, chunk: Vec<u8>) -> (r: StdinAction)
        requires
            old(self)@.phase == StdinPhase::Gathering,
        ensures
            is_read_step(old(self)@, chunk@, final(self)@, r),
    {
        let mut chunk = chunk;
        let at_end: bool = chunk.len() == 0;
        let is_last_chunk: bool = strip_newline(&mut chunk);
        self.prompt.append(&mut chunk);
        if !at_end && !is_last_chunk {
            return StdinAction::Read;
        }
        let mut prompt: Vec<u8> = Vec::new();
        std::mem::swap(&mut prompt, &mut self.prompt);
        match prompt_outcome(&self.username, prompt) {
            PromptOutcome::Empty => {
                self.phase = StdinPhase::ShowingPrompt;
                StdinAction::ShowPrompt { report: None }
            },
            PromptOutcome::NotUtf8(failure) => {
                self.phase = StdinPhase::ShowingPrompt;
                StdinAction::ShowPrompt { report: Some(failure) }
            },
            PromptOutcome::Pakets(pakets) => {
                self.phase = StdinPhase::Writing;
                StdinAction::Write { pakets }
            },
        }
    }
}

} // verus!

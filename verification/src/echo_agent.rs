//! The decisions of a minimal agent that streams the user's prompt back as the assistant's
//! response.
//!
//! It exists to reproduce performance issues of a transcript view deterministically and offline:
//! a real, growing, streamed markdown transcript without a live model. Taking in lines, sending
//! replies, sleeping between chunks and seeing that a turn was cancelled is left to whoever runs
//! it.

use vstd::prelude::*;

use crate::json::{find_by_pointer, find_member, find_text_member, read_array, read_document};
use crate::number::{parse_number, push_decimal};
use crate::text::{same_text, trim};

verus! {

use crate::json::{addressed_by, document_in, elements_of, member_of, text_member};
use crate::language_model::option_text;
use crate::number::{decimal, number_in};
use crate::text::trimmed;

/// The knobs of the agent.
#[derive(Clone, Copy, Debug, PartialEq, Eq, Structural)]
pub struct EchoSettings {
    /// The pause between two chunks, in milliseconds.
    pub delay_ms: u64,
    /// Characters per chunk.
    pub chunk_chars: usize,
    /// How many times the prompt is echoed.
    pub repeat: usize,
    /// If not zero, how many blocks of a made-up document are streamed in place of the prompt.
    pub lines: usize,
    /// Whether the made-up document is one plain paragraph and not structured markdown.
    pub plain: bool,
}

/// The number that a setting holds, or `default` where it is not set or holds none.
pub open spec fn setting(value: Option<&str>, default: u64) -> u64 {
    match value {
        Some(value) => match number_in(value@) {
            Some(number) => number,
            None => default,
        },
        None => default,
    }
}

/// A number that is at least one.
pub open spec fn at_least_one(number: u64) -> u64 {
    if number == 0 {
        1
    } else {
        number
    }
}

/// The number that a setting holds, or `default` where it is not set or holds none.
pub fn setting_or(value: Option<&str>, default: u64) -> (number: u64)
    ensures
        number == setting(value, default),
{
    match value {
        Some(value) => match parse_number(value) {
            Some(number) => number,
            None => default,
        },
        None => default,
    }
}

fn one_or_more(number: u64) -> (result: u64)
    ensures
        result == at_least_one(number),
{
    if number == 0 {
        1
    } else {
        number
    }
}

impl EchoSettings {
    /// The knobs as they are set from outside; what is not set, or is no number, has its default.
    pub fn read(
        delay_ms: Option<&str>,
        chunk_chars: Option<&str>,
        repeat: Option<&str>,
        lines: Option<&str>,
        plain: Option<&str>,
    ) -> (settings: Self)
        ensures
            settings.delay_ms == setting(delay_ms, 20),
            settings.chunk_chars == at_least_one(setting(chunk_chars, 6)) as usize,
            settings.repeat == at_least_one(setting(repeat, 1)) as usize,
            settings.lines == setting(lines, 0) as usize,
            settings.plain == (setting(plain, 0) != 0),
    {
        EchoSettings {
            delay_ms: setting_or(delay_ms, 20),
            chunk_chars: one_or_more(setting_or(chunk_chars, 6)) as usize,
            repeat: one_or_more(setting_or(repeat, 1)) as usize,
            lines: setting_or(lines, 0) as usize,
            plain: setting_or(plain, 0) != 0,
        }
    }
}

/// One block of the made-up markdown document: in turn a heading, a paragraph, a list, a code
/// fence and a quote, each with its number.
pub open spec fn markdown_block(i: nat) -> Seq<char> {
    let n = decimal(i);
    if i % 5 == 0 {
        "## Heading "@ + n + "\n\n"@
    } else if i % 5 == 1 {
        "Paragraph "@ + n
            + " with some **bold**, _italic_, `inline code`, and a [link](https://example.com) plus enough filler words to wrap across the agent panel a couple of times over.\n\n"@
    } else if i % 5 == 2 {
        "- bullet "@ + n + " a\n- bullet "@ + n + " b\n- bullet "@ + n + " c\n\n"@
    } else if i % 5 == 3 {
        "```rust\nfn block_"@ + n + "() -> usize { let x = "@ + n + "; x * 2 + 1 }\n```\n\n"@
    } else {
        "> quote "@ + n + " that wraps a little when the panel is narrow enough\n\n"@
    }
}

/// The first blocks of the made-up markdown document.
pub open spec fn markdown(blocks: nat) -> Seq<char>
    decreases blocks,
{
    if blocks == 0 {
        Seq::empty()
    } else {
        markdown((blocks - 1) as nat) + markdown_block((blocks - 1) as nat)
    }
}

/// One sentence of the made-up paragraph.
pub open spec fn plain_sentence(i: nat) -> Seq<char> {
    "This is plain sentence number "@ + decimal(i)
        + " with a handful of perfectly ordinary words and no markdown structure whatsoever to speak of here."@
}

/// The first sentences of the made-up paragraph, a space between any two.
pub open spec fn paragraph(lines: nat) -> Seq<char>
    decreases lines,
{
    if lines == 0 {
        Seq::empty()
    } else {
        let earlier = paragraph((lines - 1) as nat);
        let sentence = plain_sentence((lines - 1) as nat);
        if lines == 1 {
            sentence
        } else {
            earlier.push(' ') + sentence
        }
    }
}

/// The text, `times` times, a blank line between any two.
pub open spec fn repeated(text: Seq<char>, times: nat) -> Seq<char>
    decreases times,
{
    if times == 0 {
        Seq::empty()
    } else if times == 1 {
        text
    } else {
        repeated(text, (times - 1) as nat) + "\n\n"@ + text
    }
}

/// Build a deterministic markdown document of `blocks` self-contained, blank-line
/// separated top-level blocks (headings, wrapping prose, fenced code, lists,
/// quotes). `blocks` is the real markdown block count, not a raw line count.
pub fn generate_markdown(blocks: usize) -> (out: String)
    ensures
        out@ == markdown(blocks as nat),
{
    let mut out = String::new();
    let mut i: usize = 0;
    while i < blocks
        invariant
            i <= blocks,
            out@ == markdown(i as nat),
        decreases blocks - i,
    {
        let ghost before = out@;
        let n = i as u64;
        match i % 5 {
            0 => {
                out.append("## Heading ");
                push_decimal(&mut out, n);
                out.append("\n\n");
            },
            1 => {
                out.append("Paragraph ");
                push_decimal(&mut out, n);
                out.append(
                    " with some **bold**, _italic_, `inline code`, and a [link](https://example.com) plus enough filler words to wrap across the agent panel a couple of times over.\n\n",
                );
            },
            2 => {
                out.append("- bullet ");
                push_decimal(&mut out, n);
                out.append(" a\n- bullet ");
                push_decimal(&mut out, n);
                out.append(" b\n- bullet ");
                push_decimal(&mut out, n);
                out.append(" c\n\n");
            },
            3 => {
                out.append("```rust\nfn block_");
                push_decimal(&mut out, n);
                out.append("() -> usize { let x = ");
                push_decimal(&mut out, n);
                out.append("; x * 2 + 1 }\n```\n\n");
            },
            _ => {
                out.append("> quote ");
                push_decimal(&mut out, n);
                out.append(" that wraps a little when the panel is narrow enough\n\n");
            },
        }
        assert(out@ =~= before + markdown_block(i as nat));
        i = i + 1;
    }
    out
}

/// Build a single giant plain-text paragraph (no markdown structure, no
/// newlines) of roughly the same character volume as `generate_markdown(lines)`.
/// This is the control for the "is it block count or message length?" test:
/// markdown parses this as one block.
pub fn generate_plain(lines: usize) -> (out: String)
    ensures
        out@ == paragraph(lines as nat),
{
    let mut out = String::new();
    let mut i: usize = 0;
    while i < lines
        invariant
            i <= lines,
            out@ == paragraph(i as nat),
        decreases lines - i,
    {
        let ghost before = out@;
        if i > 0 {
            out.push(' ');
        }
        out.append("This is plain sentence number ");
        push_decimal(&mut out, i as u64);
        out.append(
            " with a handful of perfectly ordinary words and no markdown structure whatsoever to speak of here.",
        );
        assert(out@ =~= (if i == 0 {
            before
        } else {
            before.push(' ')
        }) + plain_sentence(i as nat));
        assert(i == 0 ==> out@ =~= plain_sentence(0));
        i = i + 1;
    }
    out
}

/// One block of a prompt, as far as the agent reads it.
#[derive(Debug)]
pub struct PromptBlock {
    /// The kind of the block, where that is given as a text.
    pub kind: Option<String>,
    /// The text of the block, where it has one.
    pub text: Option<String>,
}

/// What a [`PromptBlock`] says.
#[verifier::ext_equal]
pub ghost struct PromptBlockView {
    pub kind: Option<Seq<char>>,
    pub text: Option<Seq<char>>,
}

impl View for PromptBlock {
    type V = PromptBlockView;

    open spec fn view(&self) -> PromptBlockView {
        PromptBlockView { kind: option_text(self.kind), text: option_text(self.text) }
    }
}

/// What a sequence of blocks says.
pub open spec fn prompt_view(blocks: Seq<PromptBlock>) -> Seq<PromptBlockView> {
    blocks.map_values(|block: PromptBlock| block@)
}

/// The text of a block of text; other blocks have none.
pub open spec fn block_text(block: PromptBlockView) -> Seq<char> {
    if block.kind == Some("text"@) && block.text is Some {
        block.text->0
    } else {
        Seq::empty()
    }
}

/// The texts of the blocks, one after the other.
pub open spec fn prompt_text(blocks: Seq<PromptBlockView>) -> Seq<char>
    decreases blocks.len(),
{
    if blocks.len() == 0 {
        Seq::empty()
    } else {
        prompt_text(blocks.drop_last()) + block_text(blocks.last())
    }
}

/// The texts of the blocks of a prompt, one after the other.
pub fn extract_prompt_text(blocks: &Vec<PromptBlock>) -> (text: String)
    ensures
        text@ == prompt_text(prompt_view(blocks@)),
{
    let ghost view = prompt_view(blocks@);
    let mut text = String::new();
    let mut i: usize = 0;
    assert(view.take(0) =~= Seq::empty());
    while i < blocks.len()
        invariant
            view == prompt_view(blocks@),
            i <= blocks@.len(),
            text@ == prompt_text(view.take(i as int)),
        decreases blocks@.len() - i,
    {
        let ghost before = text@;
        proof {
            assert(view.take(i + 1).drop_last() =~= view.take(i as int));
            assert(view[i as int] == blocks@[i as int]@);
        }
        if let Some(kind) = &blocks[i].kind {
            if same_text(kind.as_str(), "text") {
                if let Some(content) = &blocks[i].text {
                    text.append(content.as_str());
                }
            }
        }
        assert(text@ =~= before + block_text(view[i as int]));
        i = i + 1;
    }
    assert(view.take(i as int) =~= view);
    text
}

/// What is streamed in answer to a prompt: the made-up document where one is asked for, else the
/// prompt as often as it is to be echoed, and a note where that is empty.
pub open spec fn answer(settings: EchoSettings, prompt: Seq<char>) -> Seq<char> {
    if settings.lines > 0 {
        if settings.plain {
            paragraph(settings.lines as nat)
        } else {
            markdown(settings.lines as nat)
        }
    } else {
        let body = repeated(prompt, settings.repeat as nat);
        if body.len() == 0 {
            "_(echo: empty prompt)_"@
        } else {
            body
        }
    }
}

fn repeat_text(text: &str, times: usize) -> (body: String)
    ensures
        body@ == repeated(text@, times as nat),
{
    let mut body = String::new();
    let mut index: usize = 0;
    while index < times
        invariant
            index <= times,
            body@ == repeated(text@, index as nat),
        decreases times - index,
    {
        let ghost before = body@;
        if index > 0 {
            body.append("\n\n");
        }
        body.append(text);
        assert(body@ =~= repeated(text@, (index + 1) as nat));
        index = index + 1;
    }
    body
}

/// What is streamed in answer to a prompt.
pub fn answer_to(settings: &EchoSettings, prompt: &str) -> (body: String)
    ensures
        body@ == answer(*settings, prompt@),
{
    if settings.lines > 0 {
        if settings.plain {
            generate_plain(settings.lines)
        } else {
            generate_markdown(settings.lines)
        }
    } else {
        let body = repeat_text(prompt, settings.repeat);
        if body.as_str().is_empty() {
            "_(echo: empty prompt)_".to_string()
        } else {
            body
        }
    }
}

/// The version of the protocol that the agent speaks.
pub const PROTOCOL_VERSION: u64 = 1;

/// The code of the error for a method that the agent does not know.
pub const METHOD_NOT_FOUND: i64 = -32601;

/// Whether a line of input holds nothing.
pub fn is_blank(line: &str) -> (blank: bool)
    ensures
        blank == (trimmed(line@).len() == 0),
{
    trim(line).as_str().is_empty()
}

/// A message that has come in, and what the agent reads in it.
#[derive(Debug)]
pub struct Incoming {
    /// The message as it came.
    pub message: serde_json::Value,
    /// The method that is called, where it is given as a text.
    pub method: Option<String>,
    /// Whether there is an id to reply to.
    pub has_id: bool,
    /// The blocks of the prompt.
    pub prompt: Vec<PromptBlock>,
}

/// What an [`Incoming`] says.
#[verifier::ext_equal]
pub ghost struct IncomingView {
    pub message: serde_json::Value,
    pub method: Option<Seq<char>>,
    pub has_id: bool,
    pub prompt: Seq<PromptBlockView>,
}

impl View for Incoming {
    type V = IncomingView;

    open spec fn view(&self) -> IncomingView {
        IncomingView {
            message: self.message,
            method: option_text(self.method),
            has_id: self.has_id,
            prompt: prompt_view(self.prompt@),
        }
    }
}

/// What the agent reads in a block of a prompt.
pub open spec fn block_in(block: serde_json::Value) -> PromptBlockView {
    PromptBlockView { kind: text_member(block, "type"@), text: text_member(block, "text"@) }
}

/// The blocks of the prompt in a message; none where it holds no list of blocks.
pub open spec fn prompt_in(message: serde_json::Value) -> Seq<PromptBlockView> {
    match addressed_by(message, "/params/prompt"@) {
        Some(prompt) => match elements_of(prompt) {
            Some(blocks) => blocks.map_values(|block: serde_json::Value| block_in(block)),
            None => Seq::empty(),
        },
        None => Seq::empty(),
    }
}

/// What the agent reads in a message.
pub open spec fn incoming_of(message: serde_json::Value) -> IncomingView {
    IncomingView {
        message,
        method: text_member(message, "method"@),
        has_id: member_of(message, "id"@) is Some,
        prompt: prompt_in(message),
    }
}

/// The message in a line of input; none where the line is blank or holds no JSON document.
pub open spec fn incoming_in(line: Seq<char>) -> Option<IncomingView> {
    if trimmed(line).len() == 0 {
        None
    } else {
        match document_in(line) {
            Some(message) => Some(incoming_of(message)),
            None => None,
        }
    }
}

fn read_prompt(message: &serde_json::Value) -> (prompt: Vec<PromptBlock>)
    ensures
        prompt_view(prompt@) == prompt_in(*message),
{
    let mut prompt: Vec<PromptBlock> = Vec::new();
    if let Some(found) = find_by_pointer(message, "/params/prompt") {
        if let Some(blocks) = read_array(found) {
            let mut i: usize = 0;
            while i < blocks.len()
                invariant
                    i <= blocks@.len(),
                    prompt@.len() == i,
                    forall|k: int| 0 <= k < i ==> (#[trigger] prompt@[k])@ == block_in(blocks@[k]),
                decreases blocks@.len() - i,
            {
                let block = &blocks[i];
                prompt.push(
                    PromptBlock {
                        kind: find_text_member(block, "type"),
                        text: find_text_member(block, "text"),
                    },
                );
                i = i + 1;
            }
        }
    }
    assert(prompt_view(prompt@) =~= prompt_in(*message));
    prompt
}

/// What the agent reads in a message.
pub fn read_message(message: serde_json::Value) -> (incoming: Incoming)
    ensures
        incoming@ == incoming_of(message),
{
    let method = find_text_member(&message, "method");
    let has_id = find_member(&message, "id").is_some();
    let prompt = read_prompt(&message);
    Incoming { message, method, has_id, prompt }
}

/// Reads the message in a line of input. A line that is blank or holds no JSON document is passed
/// over.
pub fn read_line(line: &str) -> (read: Option<Incoming>)
    ensures
        read is Some <==> incoming_in(line@) is Some,
        read is Some ==> read->0@ == incoming_in(line@)->0,
{
    if is_blank(line) {
        return None;
    }
    match read_document(line) {
        Ok(message) => Some(read_message(message)),
        Err(_) => None,
    }
}

impl IncomingView {
    /// Whether the message calls this method.
    pub open spec fn calls(self, method: Seq<char>) -> bool {
        self.method == Some(method)
    }
}

impl Incoming {
    /// Whether the message calls this method.
    fn calls(&self, method: &str) -> (calls: bool)
        ensures
            calls == self@.calls(method@),
    {
        match &self.method {
            Some(called) => same_text(called.as_str(), method),
            None => false,
        }
    }

    /// Whether the message cancels the turn.
    pub fn is_cancel(&self) -> (cancel: bool)
        ensures
            cancel == self@.calls("session/cancel"@),
    {
        self.calls("session/cancel")
    }

    /// Whether the message begins a turn.
    pub fn is_prompt(&self) -> (prompt: bool)
        ensures
            prompt == self@.calls("session/prompt"@),
    {
        self.calls("session/prompt")
    }

    /// Whether the message opens a session.
    pub fn opens_session(&self) -> (opens: bool)
        ensures
            opens == self@.calls("session/new"@),
    {
        self.calls("session/new")
    }

    /// The id to reply to.
    pub fn id(&self) -> (id: Option<&serde_json::Value>)
        ensures
            id is Some <==> member_of(self.message, "id"@) is Some,
            id is Some ==> member_of(self.message, "id"@) == Some(*id->0),
    {
        find_member(&self.message, "id")
    }

    /// The session that the message belongs to.
    pub fn session_id(&self) -> (session_id: Option<&serde_json::Value>)
        ensures
            session_id is Some <==> addressed_by(self.message, "/params/sessionId"@) is Some,
            session_id is Some ==> addressed_by(self.message, "/params/sessionId"@) == Some(
                *session_id->0,
            ),
    {
        find_by_pointer(&self.message, "/params/sessionId")
    }
}

/// What the agent is to do about a message.
#[derive(Debug)]
pub enum EchoAction {
    /// Nothing.
    Skip,
    /// Reply with the version of the protocol.
    Initialize,
    /// Reply with an empty result.
    Authenticate,
    /// Reply with the id of a new session.
    OpenSession { session_id: String },
    /// Stream the body, and then reply with why the turn ended.
    Stream { body: String },
    /// Reply that the method is not known.
    NotFound,
}

/// What an [`EchoAction`] says.
#[verifier::ext_equal]
pub ghost enum EchoActionView {
    Skip,
    Initialize,
    Authenticate,
    OpenSession { session_id: Seq<char> },
    Stream { body: Seq<char> },
    NotFound,
}

impl View for EchoAction {
    type V = EchoActionView;

    open spec fn view(&self) -> EchoActionView {
        match self {
            EchoAction::Skip => EchoActionView::Skip,
            EchoAction::Initialize => EchoActionView::Initialize,
            EchoAction::Authenticate => EchoActionView::Authenticate,
            EchoAction::OpenSession { session_id } => EchoActionView::OpenSession {
                session_id: session_id@,
            },
            EchoAction::Stream { body } => EchoActionView::Stream { body: body@ },
            EchoAction::NotFound => EchoActionView::NotFound,
        }
    }
}

/// The agent: its knobs, and how many sessions it has opened.
#[derive(Debug)]
pub struct EchoAgent {
    pub settings: EchoSettings,
    pub session_counter: u64,
}

/// What the agent is to do about a message. One without a method is skipped, and so is one with a
/// method that is not known and no id to reply to.
pub open spec fn action_for(agent: EchoAgent, incoming: IncomingView) -> EchoActionView {
    if incoming.method is None {
        EchoActionView::Skip
    } else if incoming.calls("initialize"@) {
        EchoActionView::Initialize
    } else if incoming.calls("authenticate"@) {
        EchoActionView::Authenticate
    } else if incoming.calls("session/new"@) {
        EchoActionView::OpenSession {
            session_id: "echo-"@ + decimal((agent.session_counter + 1) as nat),
        }
    } else if incoming.calls("session/prompt"@) {
        EchoActionView::Stream { body: answer(agent.settings, prompt_text(incoming.prompt)) }
    } else if incoming.has_id {
        EchoActionView::NotFound
    } else {
        EchoActionView::Skip
    }
}

impl EchoAgent {
    /// An agent that has opened no session.
    pub fn new(settings: EchoSettings) -> (agent: Self)
        ensures
            agent.settings == settings,
            agent.session_counter == 0,
    {
        EchoAgent { settings, session_counter: 0 }
    }

    /// Says what to do about a message.
    pub fn handle(&mut self, incoming: &Incoming) -> (action: EchoAction)
        requires
            incoming@.calls("session/new"@) ==> old(self).session_counter < u64::MAX,
        ensures
            action@ == action_for(*old(self), incoming@),
            final(self).settings == old(self).settings,
            final(self).session_counter == old(self).session_counter + if action is OpenSession {
                1int
            } else {
                0
            },
    {
        if incoming.method.is_none() {
            EchoAction::Skip
        } else if incoming.calls("initialize") {
            EchoAction::Initialize
        } else if incoming.calls("authenticate") {
            EchoAction::Authenticate
        } else if incoming.opens_session() {
            self.session_counter = self.session_counter + 1;
            let mut session_id = "echo-".to_string();
            push_decimal(&mut session_id, self.session_counter);
            EchoAction::OpenSession { session_id }
        } else if incoming.is_prompt() {
            let text = extract_prompt_text(&incoming.prompt);
            EchoAction::Stream { body: answer_to(&self.settings, text.as_str()) }
        } else if incoming.has_id {
            EchoAction::NotFound
        } else {
            EchoAction::Skip
        }
    }
}

/// A body that is being streamed, a chunk at a time.
#[derive(Debug)]
pub struct BodyStream {
    chars: Vec<char>,
    start: usize,
    chunk_chars: usize,
}

/// What comes next of a body that is being streamed.
#[derive(Debug)]
pub enum StreamStep {
    /// Send this chunk, and then pause.
    Chunk(String),
    /// The turn is over, for this reason.
    Stop(&'static str),
}

/// What a [`StreamStep`] says.
#[verifier::ext_equal]
pub ghost enum StreamStepView {
    Chunk(Seq<char>),
    Stop(Seq<char>),
}

impl View for StreamStep {
    type V = StreamStepView;

    open spec fn view(&self) -> StreamStepView {
        match *self {
            StreamStep::Chunk(chunk) => StreamStepView::Chunk(chunk@),
            StreamStep::Stop(reason) => StreamStepView::Stop(reason@),
        }
    }
}

/// What comes next where `rest` has not been streamed yet.
pub open spec fn next_step(rest: Seq<char>, chunk_chars: nat, cancelled: bool) -> StreamStepView {
    if rest.len() == 0 {
        StreamStepView::Stop("end_turn"@)
    } else if cancelled {
        StreamStepView::Stop("cancelled"@)
    } else {
        StreamStepView::Chunk(rest.take(chunk_size(rest.len(), chunk_chars) as int))
    }
}

/// What has not been streamed yet after the next step.
pub open spec fn rest_after_step(rest: Seq<char>, chunk_chars: nat, cancelled: bool) -> Seq<char> {
    if cancelled {
        rest
    } else {
        rest.skip(chunk_size(rest.len(), chunk_chars) as int)
    }
}

/// Whether a step takes the stream from `before` to `after`.
pub open spec fn stepped(
    before: BodyStream,
    cancelled: bool,
    step: StreamStepView,
    after: BodyStream,
) -> bool {
    let chunk_chars = before.chunk_chars() as nat;
    &&& step == next_step(before.rest(), chunk_chars, cancelled)
    &&& after.rest() == rest_after_step(before.rest(), chunk_chars, cancelled)
    &&& after.chunk_chars() == before.chunk_chars()
}

impl BodyStream {
    /// What has been streamed is a part of the body.
    pub closed spec fn wf(&self) -> bool {
        self.start <= self.chars@.len()
    }

    /// What has not been streamed yet.
    pub closed spec fn rest(&self) -> Seq<char> {
        self.chars@.skip(self.start as int)
    }

    /// How many characters a chunk has, but for the last, which may have fewer.
    pub closed spec fn chunk_chars(&self) -> usize {
        self.chunk_chars
    }

    /// Begins to stream `body`, `chunk_chars` characters at a time.
    pub fn new(body: &str, chunk_chars: usize) -> (stream: Self)
        ensures
            stream.wf(),
            stream.rest() == body@,
            stream.chunk_chars() == chunk_chars,
    {
        let mut chars: Vec<char> = Vec::new();
        for c in it: body.chars()
            invariant
                it.seq() == body@,
                chars@ == body@.take(it.index() as int),
        {
            let ghost ix = it.index() as int;
            chars.push(c);
            assert(chars@ =~= body@.take(ix + 1));
        }
        assert(chars@ =~= body@);
        assert(body@.skip(0) =~= body@);
        BodyStream { chars, start: 0, chunk_chars }
    }

    /// The next chunk; or that the turn is over, because it was cancelled or because there is
    /// nothing left.
    pub fn step(&mut self, cancelled: bool) -> (step: StreamStep)
        requires
            old(self).wf(),
        ensures
            final(self).wf(),
            stepped(*old(self), cancelled, step@, *final(self)),
    {
        let ghost rest = self.rest();
        if self.start >= self.chars.len() {
            assert(rest.skip(0) =~= rest);
            return StreamStep::Stop("end_turn");
        }
        if cancelled {
            return StreamStep::Stop("cancelled");
        }
        let end = if self.chunk_chars < self.chars.len() - self.start {
            self.start + self.chunk_chars
        } else {
            self.chars.len()
        };
        let mut chunk = String::new();
        let mut ix: usize = self.start;
        assert(chunk@ =~= self.chars@.subrange(self.start as int, ix as int));
        while ix < end
            invariant
                self.start <= ix <= end <= self.chars@.len(),
                chunk@ == self.chars@.subrange(self.start as int, ix as int),
            decreases end - ix,
        {
            chunk.push(self.chars[ix]);
            ix = ix + 1;
            assert(chunk@ =~= self.chars@.subrange(self.start as int, ix as int));
        }
        let ghost size = end - self.start;
        assert(chunk@ =~= rest.take(size));
        self.start = end;
        assert(self.rest() =~= rest.skip(size));
        StreamStep::Chunk(chunk)
    }
}

/// The size of the next chunk where `left` characters are left.
pub open spec fn chunk_size(left: nat, chunk_chars: nat) -> nat {
    if chunk_chars < left {
        chunk_chars
    } else {
        left
    }
}

} // verus!

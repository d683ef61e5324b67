//! The conversation turn: which store and model requests are made, in which
//! order, and what is answered; the prompt that is sent to the model.
use vstd::prelude::*;
use crate::store::{recent, recent_messages, SessionRow, StoredMessage};

verus! {

/// How many earlier messages of the session go into the prompt.
pub const HISTORY_LIMIT: u64 = 20;

/// The system prompt that opens every conversation sent to the model.
pub fn system_prompt() -> (r: &'static str)
    ensures
        r@ == system_prompt_text(),
{
    "你是 Miur，一个友好的 AI 助手。"
}

/// The text of the system prompt.
pub open spec fn system_prompt_text() -> Seq<char> {
    "你是 Miur，一个友好的 AI 助手。"@
}

/// The role of the system prompt.
pub open spec fn role_system() -> Seq<char> {
    "system"@
}

/// The role of the person chatting.
pub open spec fn role_user() -> Seq<char> {
    "user"@
}

/// The role of the model's replies.
pub open spec fn role_assistant() -> Seq<char> {
    "assistant"@
}

/// One message of a conversation sent to the model.
pub struct ChatMessage {
    pub role: String,
    pub content: String,
}

impl View for ChatMessage {
    type V = (Seq<char>, Seq<char>);

    open spec fn view(&self) -> (Seq<char>, Seq<char>) {
        (self.role@, self.content@)
    }
}

/// The (role, content) of each message, in order.
pub open spec fn messages_view(v: Seq<ChatMessage>) -> Seq<(Seq<char>, Seq<char>)> {
    v.map_values(|m: ChatMessage| m@)
}

/// The (role, content) of each stored message, in order.
pub open spec fn stored_view(v: Seq<StoredMessage>) -> Seq<(Seq<char>, Seq<char>)> {
    v.map_values(|m: StoredMessage| (m.role@, m.content@))
}

/// The summary of earlier turns as a message, if the session has one.
pub open spec fn summary_messages(summary: Option<Seq<char>>) -> Seq<(Seq<char>, Seq<char>)> {
    match summary {
        Some(x) => seq![(role_system(), x)],
        None => Seq::empty(),
    }
}

/// The messages sent to the model: the system prompt, the session's summary
/// (a system message, where there is one), the history in the order it is
/// given, then the new user message.
pub open spec fn prompt(summary: Option<Seq<char>>, history: Seq<(Seq<char>, Seq<char>)>, message: Seq<char>) -> Seq<(Seq<char>, Seq<char>)> {
    seq![(role_system(), system_prompt_text())] + summary_messages(summary) + history + seq![(role_user(), message)]
}

/// The text of an optional string.
pub open spec fn opt_view(s: Option<String>) -> Option<Seq<char>> {
    match s {
        Some(x) => Some(x@),
        None => None,
    }
}

/// A message with the given role and content.
fn message_of(role: &str, content: &str) -> (m: ChatMessage)
    ensures
        m.role@ == role@,
        m.content@ == content@,
{
    ChatMessage { role: role.to_owned(), content: content.to_owned() }
}

/// Builds the messages sent to the model from the session's summary, its
/// history (oldest first) and the new user message.
pub fn build_prompt(summary: &Option<String>, history: &Vec<StoredMessage>, message: &str) -> (r: Vec<ChatMessage>)
    ensures
        messages_view(r@) == prompt(opt_view(*summary), stored_view(history@), message@),
{
    let mut r: Vec<ChatMessage> = Vec::new();
    let s = message_of("system", system_prompt());
    r.push(s);
    assert(messages_view(r@) =~= seq![s@]);
    match summary {
        Some(x) => {
            let m = message_of("system", x.as_str());
            let ghost before = r@;
            r.push(m);
            assert(messages_view(r@) =~= messages_view(before).push(m@));
        },
        None => {},
    }
    let ghost head = seq![(role_system(), system_prompt_text())] + summary_messages(opt_view(*summary));
    assert(messages_view(r@) =~= head);
    let mut i: usize = 0;
    while i < history.len()
        invariant
            i <= history.len(),
            messages_view(r@) == head + stored_view(history@).take(i as int),
        decreases history.len() - i,
    {
        let m = message_of(history[i].role.as_str(), history[i].content.as_str());
        let ghost before = r@;
        r.push(m);
        assert(messages_view(r@) =~= messages_view(before).push(m@));
        assert(stored_view(history@).take(i + 1) =~= stored_view(history@).take(i as int).push(
            (history@[i as int].role@, history@[i as int].content@),
        ));
        assert(messages_view(r@) =~= head + stored_view(history@).take(i + 1));
        i = i + 1;
    }
    let u = message_of("user", message);
    let ghost before = r@;
    r.push(u);
    assert(messages_view(r@) =~= messages_view(before).push(u@));
    assert(stored_view(history@).take(i as int) =~= stored_view(history@));
    assert(messages_view(r@) =~= prompt(opt_view(*summary), stored_view(history@), message@));
    r
}

/// The body of a streamed chat-completion request.
pub struct CompletionRequest {
    pub model: String,
    pub messages: Vec<ChatMessage>,
    pub stream: bool,
}

/// The streamed request that asks `model` to continue `messages`.
pub fn completion_request(model: &str, messages: Vec<ChatMessage>) -> (r: CompletionRequest)
    ensures
        r.model@ == model@,
        r.messages == messages,
        r.stream,
{
    CompletionRequest { model: model.to_owned(), messages, stream: true }
}

/// Where a conversation turn stands.
pub enum ChatStage {
    Start,
    AwaitUser,
    AwaitSession { user_id: i32 },
    AwaitNewSession,
    AwaitHistory { session_id: i32, summary: Option<String> },
    /// The model is replying; `reply` is what has arrived so far.
    AwaitReply { session_id: i32, reply: String },
    AwaitUserSaved { session_id: i32, reply: String },
    AwaitReplySaved { reply: String },
    Finished,
}

/// What the caller reports back after carrying out the previous action.
pub enum ChatInput {
    /// The turn begins.
    Begin,
    /// The id of the user named `default`, if there is one.
    UserFound(Option<i32>),
    /// The user's most recently updated session, if any.
    SessionFound(Option<SessionRow>),
    /// The id of the session just created (it has no summary yet).
    SessionCreated(i32),
    /// The session's latest messages, newest first.
    HistoryLoaded(Vec<StoredMessage>),
    /// The next piece of the model's reply.
    Delta(String),
    /// The model's reply is complete.
    ReplyEnded,
    /// The message was stored.
    Saved,
    /// The previous action failed with this error text.
    Failed(String),
}

/// What the caller is to do next.
pub enum ChatAction {
    /// Look up the user named `default`.
    FindDefaultUser,
    /// Look up the user's most recently updated session.
    FindLatestSession { user_id: i32 },
    /// Create a session for the user.
    CreateSession { user_id: i32 },
    /// Load the session's latest `limit` messages, newest first.
    LoadHistory { session_id: i32, limit: u64 },
    /// Send the conversation to the model and report each piece of its reply
    /// as it arrives, then its end.
    CallModel { messages: Vec<ChatMessage> },
    /// Hand this piece of the reply to the browser now, and go on reporting
    /// the model's reply.
    Forward(String),
    /// Store a message in the session.
    SaveMessage { session_id: i32, role: String, content: String },
    /// The turn is over: the whole reply, or the error text.
    Finish(Result<String, String>),
}

pub enum ChatStageView {
    Start,
    AwaitUser,
    AwaitSession { user_id: i32 },
    AwaitNewSession,
    AwaitHistory { session_id: i32, summary: Option<Seq<char>> },
    AwaitReply { session_id: i32, reply: Seq<char> },
    AwaitUserSaved { session_id: i32, reply: Seq<char> },
    AwaitReplySaved { reply: Seq<char> },
    Finished,
}

pub enum ChatInputView {
    Begin,
    UserFound(Option<i32>),
    SessionFound(Option<(i32, Option<Seq<char>>)>),
    SessionCreated(i32),
    HistoryLoaded(Seq<StoredMessage>),
    Delta(Seq<char>),
    ReplyEnded,
    Saved,
    Failed(Seq<char>),
}

pub enum ChatActionView {
    FindDefaultUser,
    FindLatestSession { user_id: i32 },
    CreateSession { user_id: i32 },
    LoadHistory { session_id: i32, limit: u64 },
    CallModel { messages: Seq<(Seq<char>, Seq<char>)> },
    Forward(Seq<char>),
    SaveMessage { session_id: i32, role: Seq<char>, content: Seq<char> },
    Finish(Result<Seq<char>, Seq<char>>),
}

impl View for ChatStage {
    type V = ChatStageView;

    open spec fn view(&self) -> ChatStageView {
        match self {
            ChatStage::Start => ChatStageView::Start,
            ChatStage::AwaitUser => ChatStageView::AwaitUser,
            ChatStage::AwaitSession { user_id } => ChatStageView::AwaitSession { user_id: *user_id },
            ChatStage::AwaitNewSession => ChatStageView::AwaitNewSession,
            ChatStage::AwaitHistory { session_id, summary } => ChatStageView::AwaitHistory {
                session_id: *session_id,
                summary: opt_view(*summary),
            },
            ChatStage::AwaitReply { session_id, reply } => ChatStageView::AwaitReply { session_id: *session_id, reply: reply@ },
            ChatStage::AwaitUserSaved { session_id, reply } => ChatStageView::AwaitUserSaved {
                session_id: *session_id,
                reply: reply@,
            },
            ChatStage::AwaitReplySaved { reply } => ChatStageView::AwaitReplySaved { reply: reply@ },
            ChatStage::Finished => ChatStageView::Finished,
        }
    }
}

impl View for ChatInput {
    type V = ChatInputView;

    open spec fn view(&self) -> ChatInputView {
        match self {
            ChatInput::Begin => ChatInputView::Begin,
            ChatInput::UserFound(u) => ChatInputView::UserFound(*u),
            ChatInput::SessionFound(s) => ChatInputView::SessionFound(
                match s {
                    Some(row) => Some((row.id, opt_view(row.summary))),
                    None => None,
                },
            ),
            ChatInput::SessionCreated(s) => ChatInputView::SessionCreated(*s),
            ChatInput::HistoryLoaded(rows) => ChatInputView::HistoryLoaded(rows@),
            ChatInput::Delta(t) => ChatInputView::Delta(t@),
            ChatInput::ReplyEnded => ChatInputView::ReplyEnded,
            ChatInput::Saved => ChatInputView::Saved,
            ChatInput::Failed(e) => ChatInputView::Failed(e@),
        }
    }
}

impl View for ChatAction {
    type V = ChatActionView;

    open spec fn view(&self) -> ChatActionView {
        match self {
            ChatAction::FindDefaultUser => ChatActionView::FindDefaultUser,
            ChatAction::FindLatestSession { user_id } => ChatActionView::FindLatestSession { user_id: *user_id },
            ChatAction::CreateSession { user_id } => ChatActionView::CreateSession { user_id: *user_id },
            ChatAction::LoadHistory { session_id, limit } => ChatActionView::LoadHistory {
                session_id: *session_id,
                limit: *limit,
            },
            ChatAction::CallModel { messages } => ChatActionView::CallModel { messages: messages_view(messages@) },
            ChatAction::Forward(t) => ChatActionView::Forward(t@),
            ChatAction::SaveMessage { session_id, role, content } => ChatActionView::SaveMessage {
                session_id: *session_id,
                role: role@,
                content: content@,
            },
            ChatAction::Finish(r) => ChatActionView::Finish(
                match r {
                    Ok(t) => Ok(t@),
                    Err(e) => Err(e@),
                },
            ),
        }
    }
}

/// Whether `input` is a report the turn can take at `stage`. The user named
/// `default` must exist: a turn cannot go on without it.
pub open spec fn chat_accepts(stage: ChatStageView, input: ChatInputView) -> bool {
    match stage {
        ChatStageView::Start => input is Begin,
        ChatStageView::Finished => false,
        _ => match input {
            ChatInputView::Failed(_) => true,
            ChatInputView::UserFound(u) => stage is AwaitUser && u is Some,
            ChatInputView::SessionFound(_) => stage is AwaitSession,
            ChatInputView::SessionCreated(_) => stage is AwaitNewSession,
            ChatInputView::HistoryLoaded(_) => stage is AwaitHistory,
            ChatInputView::Delta(_) => stage is AwaitReply,
            ChatInputView::ReplyEnded => stage is AwaitReply,
            ChatInputView::Saved => stage is AwaitUserSaved || stage is AwaitReplySaved,
            ChatInputView::Begin => false,
        },
    }
}

/// One step of a turn: from where it stands and what was reported, where it
/// goes and what is to be done. `message` is the user's new message. Both
/// messages are stored only once the model's reply is complete.
#[verifier::opaque]
pub open spec fn chat_next(stage: ChatStageView, message: Seq<char>, input: ChatInputView) -> (ChatStageView, ChatActionView) {
    match input {
        ChatInputView::Failed(e) => (ChatStageView::Finished, ChatActionView::Finish(Err(e))),
        ChatInputView::Begin => (ChatStageView::AwaitUser, ChatActionView::FindDefaultUser),
        ChatInputView::UserFound(u) => (
            ChatStageView::AwaitSession { user_id: u->0 },
            ChatActionView::FindLatestSession { user_id: u->0 },
        ),
        ChatInputView::SessionFound(Some(row)) => (
            ChatStageView::AwaitHistory { session_id: row.0, summary: row.1 },
            ChatActionView::LoadHistory { session_id: row.0, limit: HISTORY_LIMIT },
        ),
        ChatInputView::SessionFound(None) => (
            ChatStageView::AwaitNewSession,
            ChatActionView::CreateSession { user_id: stage->AwaitSession_user_id },
        ),
        ChatInputView::SessionCreated(session_id) => (
            ChatStageView::AwaitHistory { session_id, summary: None },
            ChatActionView::LoadHistory { session_id, limit: HISTORY_LIMIT },
        ),
        ChatInputView::HistoryLoaded(rows) => (
            ChatStageView::AwaitReply { session_id: stage->AwaitHistory_session_id, reply: Seq::empty() },
            ChatActionView::CallModel {
                messages: prompt(stage->AwaitHistory_summary, stored_view(recent(rows, HISTORY_LIMIT)), message),
            },
        ),
        ChatInputView::Delta(t) => (
            ChatStageView::AwaitReply {
                session_id: stage->AwaitReply_session_id,
                reply: stage->AwaitReply_reply + t,
            },
            ChatActionView::Forward(t),
        ),
        ChatInputView::ReplyEnded => (
            ChatStageView::AwaitUserSaved { session_id: stage->AwaitReply_session_id, reply: stage->AwaitReply_reply },
            ChatActionView::SaveMessage { session_id: stage->AwaitReply_session_id, role: role_user(), content: message },
        ),
        ChatInputView::Saved => match stage {
            ChatStageView::AwaitUserSaved { session_id, reply } => (
                ChatStageView::AwaitReplySaved { reply },
                ChatActionView::SaveMessage { session_id, role: role_assistant(), content: reply },
            ),
            _ => (ChatStageView::Finished, ChatActionView::Finish(Ok(stage->AwaitReplySaved_reply))),
        },
    }
}

/// One conversation turn for a new user message: the store lookups, the
/// model call with its reply passed on piece by piece, the storing of both
/// messages once the reply is complete, and the answer; driven by the caller
/// one action at a time.
pub struct ChatFlow {
    message: String,
    stage: ChatStage,
}

impl ChatFlow {
    /// The user's new message.
    pub closed spec fn message(&self) -> Seq<char> {
        self.message@
    }

    /// Where the turn stands.
    pub closed spec fn stage(&self) -> ChatStageView {
        self.stage@
    }

    /// A turn for `message`, not yet begun.
    pub fn new(message: String) -> (f: ChatFlow)
        ensures
            f.message() == message@,
            f.stage() == ChatStageView::Start,
    {
        ChatFlow { message, stage: ChatStage::Start }
    }

    /// Whether the turn is over.
    pub fn is_finished(&self) -> (r: bool)
        ensures
            r == (self.stage() is Finished),
    {
        match self.stage {
            ChatStage::Finished => true,
            _ => false,
        }
    }

    /// Takes the report on the previous action and returns the next action.
    pub fn step(&mut self, input: ChatInput) -> (a: ChatAction)
        requires
            chat_accepts(old(self).stage(), input@),
        ensures
            final(self).message() == old(self).message(),
            (final(self).stage(), a@) == chat_next(old(self).stage(), old(self).message(), input@),
    {
        proof {
            reveal(chat_next);
        }
        let mut stage = ChatStage::Finished;
        core::mem::swap(&mut stage, &mut self.stage);
        match input {
            ChatInput::Failed(e) => ChatAction::Finish(Err(e)),
            ChatInput::Begin => {
                self.stage = ChatStage::AwaitUser;
                ChatAction::FindDefaultUser
            },
            ChatInput::UserFound(u) => {
                let user_id = u.unwrap();
                self.stage = ChatStage::AwaitSession { user_id };
                ChatAction::FindLatestSession { user_id }
            },
            ChatInput::SessionFound(Some(row)) => {
                let session_id = row.id;
                self.stage = ChatStage::AwaitHistory { session_id, summary: row.summary };
                ChatAction::LoadHistory { session_id, limit: HISTORY_LIMIT }
            },
            ChatInput::SessionFound(None) => {
                let user_id = match stage {
                    ChatStage::AwaitSession { user_id } => user_id,
                    _ => vstd::pervasive::unreached(),
                };
                self.stage = ChatStage::AwaitNewSession;
                ChatAction::CreateSession { user_id }
            },
            ChatInput::SessionCreated(session_id) => {
                self.stage = ChatStage::AwaitHistory { session_id, summary: None };
                ChatAction::LoadHistory { session_id, limit: HISTORY_LIMIT }
            },
            ChatInput::HistoryLoaded(rows) => {
                let (session_id, summary) = match stage {
                    ChatStage::AwaitHistory { session_id, summary } => (session_id, summary),
                    _ => vstd::pervasive::unreached(),
                };
                let history = recent_messages(rows, HISTORY_LIMIT);
                let messages = build_prompt(&summary, &history, self.message.as_str());
                self.stage = ChatStage::AwaitReply { session_id, reply: String::new() };
                ChatAction::CallModel { messages }
            },
            ChatInput::Delta(t) => {
                let (session_id, mut reply) = match stage {
                    ChatStage::AwaitReply { session_id, reply } => (session_id, reply),
                    _ => vstd::pervasive::unreached(),
                };
                reply.append(t.as_str());
                self.stage = ChatStage::AwaitReply { session_id, reply };
                ChatAction::Forward(t)
            },
            ChatInput::ReplyEnded => {
                let (session_id, reply) = match stage {
                    ChatStage::AwaitReply { session_id, reply } => (session_id, reply),
                    _ => vstd::pervasive::unreached(),
                };
                self.stage = ChatStage::AwaitUserSaved { session_id, reply };
                ChatAction::SaveMessage { session_id, role: "user".to_owned(), content: self.message.clone() }
            },
            ChatInput::Saved => match stage {
                ChatStage::AwaitUserSaved { session_id, reply } => {
                    let content = reply.clone();
                    self.stage = ChatStage::AwaitReplySaved { reply };
                    ChatAction::SaveMessage { session_id, role: "assistant".to_owned(), content }
                },
                ChatStage::AwaitReplySaved { reply } => ChatAction::Finish(Ok(reply)),
                _ => vstd::pervasive::unreached(),
            },
        }
    }
}

/// A run of a turn for `message`: `stages[i]` and `inputs[i]` lead to
/// `stages[i + 1]` and `acts[i]`.
pub open spec fn is_chat_trace(
    message: Seq<char>,
    inputs: Seq<ChatInputView>,
    stages: Seq<ChatStageView>,
    acts: Seq<ChatActionView>,
) -> bool {
    &&& stages.len() == inputs.len() + 1
    &&& acts.len() == inputs.len()
    &&& stages[0] == ChatStageView::Start
    &&& forall|i: int|
        #![trigger inputs[i]]
        0 <= i < inputs.len() ==> chat_accepts(stages[i], inputs[i]) && chat_next(stages[i], message, inputs[i]) == (
        stages[i + 1],
        acts[i],
    )
}

/// The pieces of the reply handed on by `acts`, joined in order.
pub open spec fn forwarded(acts: Seq<ChatActionView>) -> Seq<char>
    decreases acts.len(),
{
    if acts.len() == 0 {
        Seq::empty()
    } else {
        forwarded(acts.drop_last()) + if acts.last() is Forward {
            acts.last()->Forward_0
        } else {
            Seq::empty()
        }
    }
}

/// Whether the model's reply was reported complete among `inputs`.
pub open spec fn reply_ended(inputs: Seq<ChatInputView>) -> bool {
    exists|j: int| 0 <= j < inputs.len() && inputs[j] is ReplyEnded
}

/// A prompt that opens with the system prompt and closes with the user's message.
pub open spec fn is_prompt_for(messages: Seq<(Seq<char>, Seq<char>)>, message: Seq<char>) -> bool {
    exists|summary: Option<Seq<char>>, history: Seq<(Seq<char>, Seq<char>)>| messages == prompt(summary, history, message)
}

/// Whether `a` stores the message `content` with role `role`.
pub open spec fn saves(a: ChatActionView, role: Seq<char>, content: Seq<char>) -> bool {
    a is SaveMessage && a->SaveMessage_role == role && a->SaveMessage_content == content
}

/// What holds at each stage of a run, given the reports and actions so far.
spec fn turn_inv(stage: ChatStageView, message: Seq<char>, ins: Seq<ChatInputView>, acts: Seq<ChatActionView>) -> bool {
    match stage {
        ChatStageView::Start => acts.len() == 0 && ins.len() == 0,
        ChatStageView::AwaitReply { reply, .. } => reply == forwarded(acts) && !reply_ended(ins),
        ChatStageView::AwaitUserSaved { reply, .. } => {
            &&& reply == forwarded(acts)
            &&& reply_ended(ins)
            &&& acts.len() >= 1
            &&& saves(acts.last(), role_user(), message)
        },
        ChatStageView::AwaitReplySaved { reply } => {
            &&& reply == forwarded(acts)
            &&& reply_ended(ins)
            &&& acts.len() >= 2
            &&& saves(acts.last(), role_assistant(), reply)
            &&& saves(acts[acts.len() - 2], role_user(), message)
        },
        ChatStageView::Finished => true,
        _ => forwarded(acts) == Seq::<char>::empty() && !reply_ended(ins),
    }
}

/// What the law says of the action taken at position `i` of a run.
spec fn turn_facts(message: Seq<char>, ins: Seq<ChatInputView>, acts: Seq<ChatActionView>, i: int) -> bool {
    let a = acts[i];
    &&& a is SaveMessage ==> reply_ended(ins.take(i + 1))
    &&& saves(a, role_user(), a->SaveMessage_content) ==> a->SaveMessage_content == message
    &&& saves(a, role_assistant(), a->SaveMessage_content) ==> a->SaveMessage_content == forwarded(acts.take(i))
    &&& (a is Finish && a->Finish_0 is Ok) ==> {
        &&& a->Finish_0->Ok_0 == forwarded(acts.take(i))
        &&& i >= 2
        &&& saves(acts[i - 1], role_assistant(), a->Finish_0->Ok_0)
        &&& saves(acts[i - 2], role_user(), message)
    }
    &&& a is CallModel ==> is_prompt_for(a->CallModel_messages, message)
    &&& a is Forward ==> ins[i] == ChatInputView::Delta(a->Forward_0)
}

#[verifier::spinoff_prover]
#[verifier::rlimit(40)]
proof fn lemma_turn_step(
    stage: ChatStageView,
    message: Seq<char>,
    input: ChatInputView,
    next: ChatStageView,
    a: ChatActionView,
    ins: Seq<ChatInputView>,
    acts: Seq<ChatActionView>,
)
    requires
        ins.len() == acts.len(),
        turn_inv(stage, message, ins, acts),
        chat_accepts(stage, input),
        chat_next(stage, message, input) == (next, a),
    ensures
        turn_inv(next, message, ins.push(input), acts.push(a)),
        turn_facts(message, ins.push(input), acts.push(a), acts.len() as int),
{
    reveal(chat_next);
    reveal_strlit("user");
    reveal_strlit("assistant");
    assert(role_user() != role_assistant()) by {
        assert(role_user().len() != role_assistant().len());
    }
    let ins2 = ins.push(input);
    let acts2 = acts.push(a);
    let i = acts.len() as int;
    assert(acts2.drop_last() =~= acts);
    assert(acts2.take(i) =~= acts);
    assert(acts2.last() == a);
    assert(forwarded(acts2) == forwarded(acts) + if a is Forward {
        a->Forward_0
    } else {
        Seq::empty()
    });
    if !(a is Forward) {
        assert(forwarded(acts2) =~= forwarded(acts));
    }
    assert(ins2.take(i + 1) =~= ins2);
    assert(ins2[i] == input);
    if reply_ended(ins) {
        let j = choose|j: int| 0 <= j < ins.len() && ins[j] is ReplyEnded;
        assert(ins2[j] == ins[j]);
    }
    if input is ReplyEnded {
        assert(reply_ended(ins2));
    }
    if reply_ended(ins2) && !(input is ReplyEnded) {
        let j = choose|j: int| 0 <= j < ins2.len() && ins2[j] is ReplyEnded;
        assert(j < ins.len() && ins[j] == ins2[j]);
    }
    if let ChatInputView::HistoryLoaded(rows) = input {
        let m = prompt(stage->AwaitHistory_summary, stored_view(recent(rows, HISTORY_LIMIT)), message);
        assert(a->CallModel_messages == m);
    }
    if stage is AwaitUserSaved && input is Saved {
        assert(acts2[acts2.len() - 2] == acts.last());
    }
}

proof fn lemma_turn_upto(message: Seq<char>, inputs: Seq<ChatInputView>, stages: Seq<ChatStageView>, acts: Seq<ChatActionView>, k: int)
    requires
        is_chat_trace(message, inputs, stages, acts),
        0 <= k <= inputs.len(),
    ensures
        turn_inv(stages[k], message, inputs.take(k), acts.take(k)),
        forall|i: int| 0 <= i < k ==> #[trigger] turn_facts(message, inputs.take(k), acts.take(k), i),
    decreases k,
{
    if k == 0 {
        assert(acts.take(0) =~= Seq::<ChatActionView>::empty());
        assert(inputs.take(0) =~= Seq::<ChatInputView>::empty());
    } else {
        let j = k - 1;
        lemma_turn_upto(message, inputs, stages, acts, j);
        assert(chat_accepts(stages[j], inputs[j]));
        lemma_turn_step(stages[j], message, inputs[j], stages[k], acts[j], inputs.take(j), acts.take(j));
        assert(inputs.take(k) =~= inputs.take(j).push(inputs[j]));
        assert(acts.take(k) =~= acts.take(j).push(acts[j]));
        assert forall|i: int| 0 <= i < k implies #[trigger] turn_facts(message, inputs.take(k), acts.take(k), i) by {
            if i < j {
                assert(turn_facts(message, inputs.take(j), acts.take(j), i));
                assert(acts.take(k)[i] == acts.take(j)[i]);
                assert(acts.take(k).take(i) =~= acts.take(j).take(i));
                assert(inputs.take(k).take(i + 1) =~= inputs.take(j).take(i + 1));
                assert(inputs.take(k)[i] == inputs.take(j)[i]);
                if i >= 1 {
                    assert(acts.take(k)[i - 1] == acts.take(j)[i - 1]);
                }
                if i >= 2 {
                    assert(acts.take(k)[i - 2] == acts.take(j)[i - 2]);
                }
            }
        }
    }
}

/// In every turn, whatever the store and the model report: nothing is
/// stored before the model's reply is complete (so a failed model call
/// stores nothing); the user's message and then the whole reply are stored
/// before the reply is answered; the reply answered and stored is the pieces
/// handed on, joined in order, and each piece is handed on as it is
/// reported; the model is called with a prompt that opens with the system
/// prompt and closes with the user's message; and once the turn is finished
/// nothing more is asked.
pub proof fn lemma_turn_order(message: Seq<char>, inputs: Seq<ChatInputView>, stages: Seq<ChatStageView>, acts: Seq<ChatActionView>)
    requires
        is_chat_trace(message, inputs, stages, acts),
    ensures
        forall|i: int|
            #![trigger acts[i]]
            0 <= i < acts.len() ==> {
                &&& acts[i] is SaveMessage ==> reply_ended(inputs.take(i + 1))
                &&& saves(acts[i], role_user(), acts[i]->SaveMessage_content) ==> acts[i]->SaveMessage_content == message
                &&& saves(acts[i], role_assistant(), acts[i]->SaveMessage_content) ==> acts[i]->SaveMessage_content
                    == forwarded(acts.take(i))
                &&& (acts[i] is Finish && acts[i]->Finish_0 is Ok) ==> {
                    &&& acts[i]->Finish_0->Ok_0 == forwarded(acts.take(i))
                    &&& i >= 2
                    &&& saves(acts[i - 1], role_assistant(), acts[i]->Finish_0->Ok_0)
                    &&& saves(acts[i - 2], role_user(), message)
                }
                &&& acts[i] is CallModel ==> is_prompt_for(acts[i]->CallModel_messages, message)
                &&& acts[i] is Forward ==> inputs[i] == ChatInputView::Delta(acts[i]->Forward_0)
                &&& acts[i] is Finish ==> i == acts.len() - 1
            },
        !reply_ended(inputs) ==> forall|i: int| 0 <= i < acts.len() ==> !(#[trigger] acts[i] is SaveMessage),
{
    let n = inputs.len() as int;
    lemma_turn_upto(message, inputs, stages, acts, n);
    assert(inputs.take(n) =~= inputs);
    assert(acts.take(n) =~= acts);
    assert forall|i: int| #![trigger acts[i]] 0 <= i < acts.len() implies {
        &&& acts[i] is SaveMessage ==> reply_ended(inputs.take(i + 1))
        &&& saves(acts[i], role_user(), acts[i]->SaveMessage_content) ==> acts[i]->SaveMessage_content == message
        &&& saves(acts[i], role_assistant(), acts[i]->SaveMessage_content) ==> acts[i]->SaveMessage_content
            == forwarded(acts.take(i))
        &&& (acts[i] is Finish && acts[i]->Finish_0 is Ok) ==> {
            &&& acts[i]->Finish_0->Ok_0 == forwarded(acts.take(i))
            &&& i >= 2
            &&& saves(acts[i - 1], role_assistant(), acts[i]->Finish_0->Ok_0)
            &&& saves(acts[i - 2], role_user(), message)
        }
        &&& acts[i] is CallModel ==> is_prompt_for(acts[i]->CallModel_messages, message)
        &&& acts[i] is Forward ==> inputs[i] == ChatInputView::Delta(acts[i]->Forward_0)
        &&& acts[i] is Finish ==> i == acts.len() - 1
    } by {
        assert(turn_facts(message, inputs, acts, i));
        if acts[i] is Finish && i + 1 < n {
            reveal(chat_next);
            assert(chat_next(stages[i], message, inputs[i]) == (stages[i + 1], acts[i]));
            assert(chat_accepts(stages[i + 1], inputs[i + 1]));
        }
    }
    assert forall|i: int| !reply_ended(inputs) && 0 <= i < acts.len() implies !(#[trigger] acts[i] is SaveMessage) by {
        assert(turn_facts(message, inputs, acts, i));
        if acts[i] is SaveMessage {
            let pre = inputs.take(i + 1);
            let j = choose|j: int| 0 <= j < pre.len() && #[trigger] pre[j] is ReplyEnded;
            assert(inputs[j] is ReplyEnded);
        }
    }
}

/// Whether `acts` load the history of session `session_id`.
pub open spec fn loads_history_of(acts: Seq<ChatActionView>, session_id: i32) -> bool {
    exists|j: int| 0 <= j < acts.len() && (#[trigger] acts[j]) is LoadHistory && acts[j]->LoadHistory_session_id == session_id
}

/// Which session the turn works in, at each stage.
spec fn session_inv(stage: ChatStageView, acts: Seq<ChatActionView>) -> bool {
    match stage {
        ChatStageView::AwaitHistory { session_id, .. } => loads_history_of(acts, session_id),
        ChatStageView::AwaitReply { session_id, .. } => loads_history_of(acts, session_id),
        ChatStageView::AwaitUserSaved { session_id, .. } => loads_history_of(acts, session_id),
        _ => true,
    }
}

proof fn lemma_session_step(
    stage: ChatStageView,
    message: Seq<char>,
    input: ChatInputView,
    next: ChatStageView,
    a: ChatActionView,
    acts: Seq<ChatActionView>,
)
    requires
        session_inv(stage, acts),
        chat_accepts(stage, input),
        chat_next(stage, message, input) == (next, a),
    ensures
        session_inv(next, acts.push(a)),
        a is SaveMessage ==> loads_history_of(acts, a->SaveMessage_session_id),
        a is LoadHistory ==> ((input matches ChatInputView::SessionFound(Some(row)) && row.0 == a->LoadHistory_session_id)
            || input == ChatInputView::SessionCreated(a->LoadHistory_session_id)),
{
    reveal(chat_next);
    let acts2 = acts.push(a);
    assert forall|sid: i32| loads_history_of(acts, sid) implies loads_history_of(acts2, sid) by {
        let j = choose|j: int| 0 <= j < acts.len() && (#[trigger] acts[j]) is LoadHistory && acts[j]->LoadHistory_session_id == sid;
        assert(acts2[j] == acts[j]);
    }
    if a is LoadHistory {
        assert(acts2[acts.len() as int] == a);
        assert(loads_history_of(acts2, a->LoadHistory_session_id));
    }
}

proof fn lemma_session_upto(message: Seq<char>, inputs: Seq<ChatInputView>, stages: Seq<ChatStageView>, acts: Seq<ChatActionView>, k: int)
    requires
        is_chat_trace(message, inputs, stages, acts),
        0 <= k <= inputs.len(),
    ensures
        session_inv(stages[k], acts.take(k)),
    decreases k,
{
    if k > 0 {
        let j = k - 1;
        lemma_session_upto(message, inputs, stages, acts, j);
        assert(chat_accepts(stages[j], inputs[j]));
        lemma_session_step(stages[j], message, inputs[j], stages[k], acts[j], acts.take(j));
        assert(acts.take(k) =~= acts.take(j).push(acts[j]));
    }
}

/// In every turn, both messages are stored in the session whose history was
/// loaded: each `SaveMessage` names the session of an earlier `LoadHistory`,
/// and the history loaded is that of the session found for the user, or of
/// the session just created for it.
pub proof fn lemma_turn_sessions(message: Seq<char>, inputs: Seq<ChatInputView>, stages: Seq<ChatStageView>, acts: Seq<ChatActionView>)
    requires
        is_chat_trace(message, inputs, stages, acts),
    ensures
        forall|i: int|
            0 <= i < acts.len() && (#[trigger] acts[i]) is SaveMessage ==> exists|j: int|
                0 <= j < i && acts[j] is LoadHistory && acts[j]->LoadHistory_session_id == acts[i]->SaveMessage_session_id,
        forall|i: int|
            0 <= i < acts.len() && (#[trigger] acts[i]) is LoadHistory ==> ((inputs[i] matches ChatInputView::SessionFound(Some(row))
                && row.0 == acts[i]->LoadHistory_session_id) || inputs[i] == ChatInputView::SessionCreated(acts[i]->LoadHistory_session_id)),
{
    assert forall|i: int| 0 <= i < acts.len() && (#[trigger] acts[i]) is SaveMessage implies exists|j: int|
        0 <= j < i && acts[j] is LoadHistory && acts[j]->LoadHistory_session_id == acts[i]->SaveMessage_session_id by {
        lemma_session_upto(message, inputs, stages, acts, i);
        assert(chat_accepts(stages[i], inputs[i]));
        lemma_session_step(stages[i], message, inputs[i], stages[i + 1], acts[i], acts.take(i));
        let pre = acts.take(i);
        let j = choose|j: int| 0 <= j < pre.len() && (#[trigger] pre[j]) is LoadHistory && pre[j]->LoadHistory_session_id == acts[i]->SaveMessage_session_id;
        assert(pre[j] == acts[j]);
    }
    assert forall|i: int| 0 <= i < acts.len() && (#[trigger] acts[i]) is LoadHistory implies ((inputs[i] matches ChatInputView::SessionFound(Some(row))
        && row.0 == acts[i]->LoadHistory_session_id) || inputs[i] == ChatInputView::SessionCreated(acts[i]->LoadHistory_session_id)) by {
        lemma_session_upto(message, inputs, stages, acts, i);
        assert(chat_accepts(stages[i], inputs[i]));
        lemma_session_step(stages[i], message, inputs[i], stages[i + 1], acts[i], acts.take(i));
    }
}

} // verus!

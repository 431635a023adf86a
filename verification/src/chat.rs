//! The decisions of a chat request, in the order the service takes them:
//! rate limiting, checking the request, the topic scope, the context built
//! from the knowledge base and the web, the offline answer, the messages sent
//! to the model, and what a failed model call turns into. The service runs
//! the I/O between these steps (loading files, embedding, fetching pages,
//! calling the model) and hands each result to the next decision.
use vstd::prelude::*;
use crate::config::{in_scope_of, Config, ConfigView, ScopeMode};
use crate::knowledge::{doc_views, first_doc_link, first_link, retrieve, retrieved, Document};
use crate::models::ChatMessage;
use crate::text::{
    chars_of, contains, decimal, decimal_string, join, joined, lowercase, owned, push_str,
    str_contains, to_lower, trim, trimmed,
};

verus! {

// ---------------------------------------------------------------------------
// Language and wording checks
// ---------------------------------------------------------------------------

/// A character of the CJK Unified Ideographs block or its Extension A.
pub open spec fn cjk_char(c: char) -> bool {
    (0x4E00 <= (c as u32) && (c as u32) <= 0x9FFF) || (0x3400 <= (c as u32) && (c as u32)
        <= 0x4DBF)
}

/// `s` holds at least one CJK ideograph.
pub open spec fn has_cjk(s: Seq<char>) -> bool {
    exists|i: int| 0 <= i < s.len() && cjk_char(#[trigger] s[i])
}

/// Whether the text holds Chinese characters (used to pick the language of
/// canned replies).
pub fn is_cjk(text: &str) -> (res: bool)
    ensures
        res == has_cjk(text@),
{
    let v = chars_of(text);
    let mut i: usize = 0;
    while i < v.len()
        invariant
            i <= v.len(),
            v@ == text@,
            forall|k: int| 0 <= k < i ==> !cjk_char(#[trigger] v@[k]),
        decreases v.len() - i,
    {
        let u = v[i] as u32;
        if (0x4E00 <= u && u <= 0x9FFF) || (0x3400 <= u && u <= 0x4DBF) {
            assert(cjk_char(v@[i as int]));
            return true;
        }
        i = i + 1;
    }
    false
}

/// A (lowercased) reply that only says the model does not know.
pub open spec fn unhelpful(r: Seq<char>) -> bool {
    ||| contains(r, "don't know"@)
    ||| contains(r, "do not know"@)
    ||| contains(r, "i'm not sure"@)
    ||| contains(r, "cannot help"@)
    ||| contains(r, "无法"@)
    ||| contains(r, "不知道"@)
}

/// Whether a model reply is a non-answer, which is not worth caching.
pub fn is_unhelpful(reply: &str) -> (res: bool)
    ensures
        res == unhelpful(lowercase(reply@)),
{
    let r = to_lower(reply);
    let r = r.as_str();
    str_contains(r, "don't know") || str_contains(r, "do not know") || str_contains(
        r,
        "i'm not sure",
    ) || str_contains(r, "cannot help") || str_contains(r, "无法") || str_contains(r, "不知道")
}

/// A (lowercased) error message that reports a rejected key or an exhausted
/// quota (401, 402, 403), as opposed to a passing fault such as 429.
pub open spec fn auth_or_quota(m: Seq<char>) -> bool {
    ||| contains(m, "401"@)
    ||| contains(m, "402"@)
    ||| contains(m, "403"@)
    ||| contains(m, "unauthorized"@)
    ||| contains(m, "payment required"@)
    ||| contains(m, "quota"@)
    ||| contains(m, "insufficient"@)
    ||| contains(m, "forbidden"@)
}

/// Whether a failed model call should switch the service to offline mode.
pub fn is_auth_or_quota_error(message: &str) -> (res: bool)
    ensures
        res == auth_or_quota(lowercase(message@)),
{
    let m = to_lower(message);
    let m = m.as_str();
    str_contains(m, "401") || str_contains(m, "402") || str_contains(m, "403") || str_contains(
        m,
        "unauthorized",
    ) || str_contains(m, "payment required") || str_contains(m, "quota") || str_contains(
        m,
        "insufficient",
    ) || str_contains(m, "forbidden")
}

// ---------------------------------------------------------------------------
// Replies
// ---------------------------------------------------------------------------

/// Where an answer came from.
#[derive(PartialEq, Eq, Structural, Clone, Copy, Debug)]
pub enum Source {
    RateLimit,
    ScopeGuard,
    Faq,
    Cache,
    Offline,
    Llm,
}

/// The name a source has in responses.
pub open spec fn source_name(s: Source) -> Seq<char> {
    match s {
        Source::RateLimit => "rate-limit"@,
        Source::ScopeGuard => "scope-guard"@,
        Source::Faq => "faq"@,
        Source::Cache => "cache"@,
        Source::Offline => "offline"@,
        Source::Llm => "llm"@,
    }
}

impl Source {
    /// The name of the source, as sent to the front end.
    pub fn name(&self) -> (res: String)
        ensures
            res@ == source_name(*self),
    {
        match self {
            Source::RateLimit => owned("rate-limit"),
            Source::ScopeGuard => owned("scope-guard"),
            Source::Faq => owned("faq"),
            Source::Cache => owned("cache"),
            Source::Offline => owned("offline"),
            Source::Llm => owned("llm"),
        }
    }
}

/// The link sent with a reply: no `url` field at all, an explicit `null`,
/// or a link.
pub enum Link {
    Absent,
    Null,
    To(String),
}

/// The contents of a [`Link`].
pub enum LinkView {
    Absent,
    Null,
    To(Seq<char>),
}

impl View for Link {
    type V = LinkView;

    open spec fn view(&self) -> LinkView {
        match self {
            Link::Absent => LinkView::Absent,
            Link::Null => LinkView::Null,
            Link::To(u) => LinkView::To(u@),
        }
    }
}

/// The link field for an optional document link: the link, or `null`.
pub open spec fn link_or_null(u: Option<Seq<char>>) -> LinkView {
    match u {
        Some(x) => LinkView::To(x),
        None => LinkView::Null,
    }
}

/// An answer to a chat request.
pub struct ChatReply {
    pub reply: String,
    pub source: Source,
    pub url: Link,
}

/// The contents of a [`ChatReply`].
pub struct ChatReplyView {
    pub reply: Seq<char>,
    pub source: Source,
    pub url: LinkView,
}

impl View for ChatReply {
    type V = ChatReplyView;

    open spec fn view(&self) -> ChatReplyView {
        ChatReplyView { reply: self.reply@, source: self.source, url: self.url@ }
    }
}

/// One of two texts, the Chinese one when `cjk` holds.
pub open spec fn by_language(cjk: bool, zh: Seq<char>, en: Seq<char>) -> Seq<char> {
    if cjk {
        zh
    } else {
        en
    }
}

/// The texts of a conversation, oldest first.
pub open spec fn contents(m: Seq<ChatMessage>) -> Seq<Seq<char>> {
    m.map_values(|x: ChatMessage| x.content@)
}

/// The text of the latest message (empty when there is none).
pub open spec fn last_text(m: Seq<ChatMessage>) -> Seq<char> {
    if m.len() > 0 {
        m.last().content@
    } else {
        seq![]
    }
}

/// The reply to a client over its rate limit, in the language of its latest
/// message.
pub open spec fn rate_limit_reply(c: ConfigView, m: Seq<ChatMessage>) -> ChatReplyView {
    ChatReplyView {
        reply: by_language(has_cjk(last_text(m)), c.rate_limit_reply_zh, c.rate_limit_reply_en),
        source: Source::RateLimit,
        url: LinkView::Absent,
    }
}

/// Answers a request that the rate limiter refused.
pub fn rate_limited(cfg: &Config, messages: &Vec<ChatMessage>) -> (res: ChatReply)
    ensures
        res@ == rate_limit_reply(cfg@, messages@),
{
    let cjk = if messages.len() > 0 {
        is_cjk(messages[messages.len() - 1].content.as_str())
    } else {
        false
    };
    proof {
        if messages.len() == 0 {
            assert(!has_cjk(seq![]));
        }
    }
    let reply = if cjk {
        cfg.rate_limit_reply_zh.clone()
    } else {
        cfg.rate_limit_reply_en.clone()
    };
    ChatReply { reply, source: Source::RateLimit, url: Link::Absent }
}

// ---------------------------------------------------------------------------
// Checking a request
// ---------------------------------------------------------------------------

/// Why a request is refused.
#[derive(PartialEq, Eq, Structural, Clone, Copy, Debug)]
pub enum ChatError {
    /// The conversation is empty.
    EmptyMessages,
    /// More messages than the configured maximum (carried).
    TooManyMessages(usize),
    /// A message longer than the configured maximum number of characters.
    MessageTooLong(usize),
    /// The latest message is blank.
    EmptyQuery,
    /// The knowledge base holds no document.
    EmptyKnowledge,
}

/// The message an error is reported with.
pub open spec fn error_text(e: ChatError) -> Seq<char> {
    match e {
        ChatError::EmptyMessages => "messages must not be empty"@,
        ChatError::TooManyMessages(n) => "too many messages (max "@ + decimal(n as nat) + ")"@,
        ChatError::MessageTooLong(n) => "message too long (max "@ + decimal(n as nat)
            + " chars)"@,
        ChatError::EmptyQuery => "last message content is empty"@,
        ChatError::EmptyKnowledge => "knowledge base is empty"@,
    }
}

impl ChatError {
    /// The message this error is reported with.
    pub fn message(&self) -> (res: String)
        ensures
            res@ == error_text(*self),
    {
        match self {
            ChatError::EmptyMessages => owned("messages must not be empty"),
            ChatError::TooManyMessages(n) => {
                let mut s = owned("too many messages (max ");
                let d = decimal_string(*n as u64);
                push_str(&mut s, d.as_str());
                push_str(&mut s, ")");
                s
            },
            ChatError::MessageTooLong(n) => {
                let mut s = owned("message too long (max ");
                let d = decimal_string(*n as u64);
                push_str(&mut s, d.as_str());
                push_str(&mut s, " chars)");
                s
            },
            ChatError::EmptyQuery => owned("last message content is empty"),
            ChatError::EmptyKnowledge => owned("knowledge base is empty"),
        }
    }
}

/// The first check a conversation fails, if any: it must not be empty, hold
/// at most `max_messages` messages, each of at most `max_message_chars`
/// characters, and its latest message must not be blank.
pub open spec fn request_error(c: ConfigView, texts: Seq<Seq<char>>) -> Option<ChatError> {
    if texts.len() == 0 {
        Some(ChatError::EmptyMessages)
    } else if texts.len() > c.max_messages {
        Some(ChatError::TooManyMessages(c.max_messages))
    } else if exists|k: int| 0 <= k < texts.len() && #[trigger] texts[k].len() > c.max_message_chars {
        Some(ChatError::MessageTooLong(c.max_message_chars))
    } else if trim(texts.last()).len() == 0 {
        Some(ChatError::EmptyQuery)
    } else {
        None
    }
}

/// Whether the hard scope guard turns the query away.
pub open spec fn scope_refuses(c: ConfigView, query: Seq<char>) -> bool {
    c.scope_guard_enabled && c.scope_guard_mode == ScopeMode::Hard && !in_scope_of(c, query)
}

/// The reply to an off-topic query, in the language of the query.
pub open spec fn scope_reply(c: ConfigView, query: Seq<char>) -> ChatReplyView {
    ChatReplyView {
        reply: by_language(has_cjk(query), c.scope_refuse_reply_zh, c.scope_refuse_reply_en),
        source: Source::ScopeGuard,
        url: LinkView::Absent,
    }
}

/// The outcome of checking an acceptable request.
pub enum Admission {
    /// Go on answering this query (the latest message, trimmed).
    Proceed(String),
    /// The scope guard answered already.
    Refused(ChatReply),
}

/// The contents of an [`Admission`].
pub enum AdmissionView {
    Proceed(Seq<char>),
    Refused(ChatReplyView),
}

impl View for Admission {
    type V = AdmissionView;

    open spec fn view(&self) -> AdmissionView {
        match self {
            Admission::Proceed(q) => AdmissionView::Proceed(q@),
            Admission::Refused(r) => AdmissionView::Refused(r@),
        }
    }
}

/// What checking a conversation that passes every check gives.
pub open spec fn admission(c: ConfigView, texts: Seq<Seq<char>>) -> AdmissionView {
    let q = trim(texts.last());
    if scope_refuses(c, q) {
        AdmissionView::Refused(scope_reply(c, q))
    } else {
        AdmissionView::Proceed(q)
    }
}

/// Checks a conversation and applies the hard scope guard: an error for a
/// malformed request, the refusal for an off-topic query, or the query to
/// answer.
pub fn check_request(cfg: &Config, messages: &Vec<ChatMessage>) -> (res: Result<Admission, ChatError>)
    ensures
        match request_error(cfg@, contents(messages@)) {
            Some(e) => res == Err::<Admission, ChatError>(e),
            None => res matches Ok(a) && a@ == admission(cfg@, contents(messages@)),
        },
{
    let ghost texts = contents(messages@);
    if messages.len() == 0 {
        return Err(ChatError::EmptyMessages);
    }
    if messages.len() > cfg.max_messages {
        return Err(ChatError::TooManyMessages(cfg.max_messages));
    }
    let mut i: usize = 0;
    while i < messages.len()
        invariant
            i <= messages.len(),
            0 < messages.len() <= cfg.max_messages,
            texts == contents(messages@),
            forall|k: int| 0 <= k < i ==> #[trigger] texts[k].len() <= cfg@.max_message_chars,
        decreases messages.len() - i,
    {
        let n = chars_of(messages[i].content.as_str()).len();
        if n > cfg.max_message_chars {
            assert(texts[i as int].len() > cfg@.max_message_chars);
            return Err(ChatError::MessageTooLong(cfg.max_message_chars));
        }
        i = i + 1;
    }
    let query = trimmed(messages[messages.len() - 1].content.as_str());
    assert(texts.last() == messages@.last().content@);
    if query.as_str().is_empty() {
        return Err(ChatError::EmptyQuery);
    }
    if cfg.scope_guard_enabled && cfg.scope_guard_mode == ScopeMode::Hard && !cfg.in_scope(
        query.as_str(),
    ) {
        let reply = if is_cjk(query.as_str()) {
            cfg.scope_refuse_reply_zh.clone()
        } else {
            cfg.scope_refuse_reply_en.clone()
        };
        return Ok(
            Admission::Refused(ChatReply { reply, source: Source::ScopeGuard, url: Link::Absent }),
        );
    }
    Ok(Admission::Proceed(query))
}

/// A knowledge base must hold at least one document.
pub fn check_knowledge(docs: &[Document]) -> (res: Result<(), ChatError>)
    ensures
        docs@.len() == 0 <==> res is Err,
        res matches Err(e) ==> e == ChatError::EmptyKnowledge,
{
    if docs.len() == 0 {
        Err(ChatError::EmptyKnowledge)
    } else {
        Ok(())
    }
}

// ---------------------------------------------------------------------------
// Context
// ---------------------------------------------------------------------------

/// The heading put over context fetched from the project's web pages.
pub open spec fn web_heading() -> Seq<char> {
    "Retrieved from Zero Labs official website / GitHub / Invoice Zero site:\n"@
}

/// The context once the fetched web text is added to the knowledge context,
/// and whether web text was added.
pub open spec fn with_web(ctx: Seq<char>, web: Seq<char>) -> (Seq<char>, bool) {
    if web.len() == 0 {
        (ctx, false)
    } else if ctx.len() == 0 {
        (web_heading() + web, true)
    } else {
        (ctx + "\n\n---\n"@ + web_heading() + web, true)
    }
}

/// The context a model answer is built on.
pub struct Context {
    /// The context text (empty when nothing relevant was found).
    pub text: String,
    /// Whether web text is part of it.
    pub from_web: bool,
    /// The first link among the selected documents.
    pub url: Option<String>,
}

/// The contents of a [`Context`].
pub struct ContextView {
    pub text: Seq<char>,
    pub from_web: bool,
    pub url: Option<Seq<char>>,
}

impl View for Context {
    type V = ContextView;

    open spec fn view(&self) -> ContextView {
        ContextView { text: self.text@, from_web: self.from_web, url: self.url.deep_view() }
    }
}

/// The context for the documents selected at `top` and the fetched web text.
pub open spec fn context_of(docs: Seq<Document>, top: Seq<usize>, web: Seq<char>) -> ContextView {
    let merged = with_web(joined(retrieved(doc_views(docs), top), "\n---\n"@), web);
    ContextView { text: merged.0, from_web: merged.1, url: first_link(doc_views(docs), top) }
}

/// Builds the context: the blocks of the selected documents separated by
/// `---` lines, followed by the fetched web text under its heading.
pub fn gather_context(docs: &[Document], top: &[usize], web: &str) -> (res: Context)
    ensures
        res@ == context_of(docs@, top@, web@),
{
    let blocks = retrieve(docs, top);
    let ctx = join(&blocks, "\n---\n");
    let url = first_doc_link(docs, top);
    if web.is_empty() {
        return Context { text: ctx, from_web: false, url };
    }
    let mut text = String::new();
    if !ctx.as_str().is_empty() {
        push_str(&mut text, ctx.as_str());
        push_str(&mut text, "\n\n---\n");
    }
    push_str(&mut text, "Retrieved from Zero Labs official website / GitHub / Invoice Zero site:\n");
    push_str(&mut text, web);
    Context { text, from_web: true, url }
}

// ---------------------------------------------------------------------------
// Offline answers
// ---------------------------------------------------------------------------

/// Why the model is not asked.
#[derive(PartialEq, Eq, Structural, Clone, Copy, Debug)]
pub enum OfflineCause {
    /// The service runs without a working key.
    NoKey,
    /// The key was just refused or its quota is used up.
    KeyFailed,
}

/// The reply when nothing relevant was found offline.
pub open spec fn nothing_found(cjk: bool) -> Seq<char> {
    by_language(
        cjk,
        "抱歉，我暂时没有找到相关内容。请使用中文或英文提问，我会尽力为你解答。"@,
        "Sorry, I couldn't find anything relevant. Please ask in Chinese or English and I'll do my best to help."@,
    )
}

/// The note put under raw knowledge shown offline.
pub open spec fn offline_note(cjk: bool, cause: OfflineCause) -> Seq<char> {
    match cause {
        OfflineCause::NoKey => by_language(
            cjk,
            "（离线模式：展示原始知识片段。配置 LLM_API_KEY 可启用 AI 回答。）"@,
            "(Offline mode: showing raw knowledge. Set LLM_API_KEY to enable AI answers.)"@,
        ),
        OfflineCause::KeyFailed => by_language(
            cjk,
            "（离线模式：展示原始知识片段。LLM 密钥已失效或额度用尽。）"@,
            "(Offline mode: showing raw knowledge. LLM key expired or quota exceeded.)"@,
        ),
    }
}

/// The offline answer: the raw context with a note, or a prompt to ask again
/// when there is no context; in the language of the query.
pub open spec fn offline_answer(query: Seq<char>, ctx: ContextView, cause: OfflineCause) -> ChatReplyView {
    let cjk = has_cjk(query);
    if ctx.text.len() == 0 {
        ChatReplyView { reply: nothing_found(cjk), source: Source::Offline, url: LinkView::Absent }
    } else {
        ChatReplyView {
            reply: ctx.text + "\n\n"@ + offline_note(cjk, cause),
            source: Source::Offline,
            url: link_or_null(ctx.url),
        }
    }
}

/// Answers without the model.
pub fn offline_reply(query: &str, ctx: &Context, cause: OfflineCause) -> (res: ChatReply)
    ensures
        res@ == offline_answer(query@, ctx@, cause),
{
    let cjk = is_cjk(query);
    if ctx.text.as_str().is_empty() {
        let reply = if cjk {
            owned("抱歉，我暂时没有找到相关内容。请使用中文或英文提问，我会尽力为你解答。")
        } else {
            owned(
                "Sorry, I couldn't find anything relevant. Please ask in Chinese or English and I'll do my best to help.",
            )
        };
        return ChatReply { reply, source: Source::Offline, url: Link::Absent };
    }
    let mut reply = String::new();
    push_str(&mut reply, ctx.text.as_str());
    push_str(&mut reply, "\n\n");
    match cause {
        OfflineCause::NoKey => {
            if cjk {
                push_str(&mut reply, "（离线模式：展示原始知识片段。配置 LLM_API_KEY 可启用 AI 回答。）");
            } else {
                push_str(
                    &mut reply,
                    "(Offline mode: showing raw knowledge. Set LLM_API_KEY to enable AI answers.)",
                );
            }
        },
        OfflineCause::KeyFailed => {
            if cjk {
                push_str(&mut reply, "（离线模式：展示原始知识片段。LLM 密钥已失效或额度用尽。）");
            } else {
                push_str(
                    &mut reply,
                    "(Offline mode: showing raw knowledge. LLM key expired or quota exceeded.)",
                );
            }
        },
    }
    let url = match &ctx.url {
        Some(u) => Link::To(u.clone()),
        None => Link::Null,
    };
    ChatReply { reply, source: Source::Offline, url }
}

/// What a failed model call is answered with: the offline answer when the
/// key was refused or its quota is used up (the service then goes offline),
/// nothing otherwise (the error is reported).
pub fn degraded_reply(message: &str, query: &str, ctx: &Context) -> (res: Option<ChatReply>)
    ensures
        res is Some <==> auth_or_quota(lowercase(message@)),
        res matches Some(r) ==> r@ == offline_answer(query@, ctx@, OfflineCause::KeyFailed),
{
    if is_auth_or_quota_error(message) {
        Some(offline_reply(query, ctx, OfflineCause::KeyFailed))
    } else {
        None
    }
}

} // verus!

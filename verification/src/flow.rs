//! The course of one chat request, as a state machine. The service asks the
//! machine what to do next, does it (asks the rate limiter, reads the FAQ
//! file, looks in the answer cache, loads and ranks the knowledge base,
//! fetches the web fallback, checks whether the model may be used, calls the
//! model) and reports the result back as an event; the machine decides the
//! next step, until it finishes with an answer or an error.
use vstd::prelude::*;
use crate::chat::{
    admission, auth_or_quota, check_knowledge, check_request, context_of, degraded_reply,
    error_text, gather_context, is_unhelpful, offline_answer, offline_reply, rate_limit_reply,
    rate_limited, request_error, unhelpful, Admission, AdmissionView, ChatError, ChatReply,
    ChatReplyView, Context, ContextView, Link, LinkView, OfflineCause, Source, contents,
};
use crate::config::{Config, ConfigView};
use crate::knowledge::Document;
use crate::models::ChatMessage;
use crate::prompt::{llm_messages, model_turns, turns};
use crate::rag::{first_k, passing, top_indices};
use crate::text::{lowercase, owned};

verus! {

// ---------------------------------------------------------------------------
// States, events and actions
// ---------------------------------------------------------------------------

/// Where a request stands.
pub enum FlowState {
    /// Waiting for the rate limiter's verdict.
    Start,
    /// Waiting for the FAQ lookup of the query.
    Faq { query: String },
    /// Waiting for the answer-cache lookup of the query.
    Cache { query: String },
    /// Waiting for the knowledge base.
    Knowledge { query: String },
    /// Waiting for the documents to be ranked against the query.
    Ranking { query: String, docs: Vec<Document> },
    /// Waiting for the web fallback text.
    Web { query: String, docs: Vec<Document>, top: Vec<usize> },
    /// Waiting to learn whether the model may be used.
    Mode { query: String, ctx: Context },
    /// Waiting for the model's answer.
    Model { query: String, ctx: Context },
    /// Finished.
    Done,
}

/// What the service reports back.
pub enum FlowEvent {
    /// Whether the rate limiter lets the request through.
    RateChecked(bool),
    /// The FAQ answer (reply and link) if a rule fired, or why the FAQ file
    /// could not be read.
    FaqChecked(Result<Option<(String, Option<String>)>, String>),
    /// The cached answer, if any.
    CacheChecked(Option<String>),
    /// The documents of the knowledge base, or why they could not be read.
    KnowledgeLoaded(Result<Vec<Document>, String>),
    /// Each document index with whether its score reached the minimum, best
    /// score first.
    Ranked(Vec<(usize, bool)>),
    /// The web fallback text (empty when there is none).
    WebFetched(String),
    /// Whether the model may be used.
    ModeKnown(bool),
    /// The model's answer, or the message of its failure.
    ModelAnswered(Result<String, String>),
}

/// What to store in the answer cache once the request is answered.
pub enum Store {
    /// Nothing.
    Nothing,
    /// The reply under the query, for exact hits only.
    Plain { query: String, reply: String },
    /// The reply under the query, with the query's embedding for neighbour
    /// lookups.
    WithEmbedding { query: String, reply: String },
}

/// How a request ends.
pub struct Finish {
    /// The reply, or the message of the error.
    pub outcome: Result<ChatReply, String>,
    /// What to store in the answer cache.
    pub store: Store,
    /// Whether the service must stop using the model.
    pub go_offline: bool,
}

/// What the service must do next.
pub enum FlowAction {
    /// Ask the rate limiter about the request.
    CheckRate,
    /// Look the query up in the FAQ rules.
    LookUpFaq(String),
    /// Look the query up in the answer cache.
    LookUpCache(String),
    /// Load the knowledge base.
    LoadKnowledge,
    /// Rank the loaded documents against the query.
    Rank(String),
    /// Fetch the web fallback text.
    FetchWeb,
    /// Check whether the model may be used.
    CheckMode,
    /// Ask the model with these messages.
    AskModel(Vec<ChatMessage>),
    /// Answer and stop.
    Finish(Finish),
    /// Nothing is left to do.
    Idle,
}

/// A request in progress.
pub struct ChatFlow {
    messages: Vec<ChatMessage>,
    streaming: bool,
    state: FlowState,
}

// ---------------------------------------------------------------------------
// Their contents
// ---------------------------------------------------------------------------

/// The contents of a [`FlowState`].
pub enum FlowStateView {
    Start,
    Faq(Seq<char>),
    Cache(Seq<char>),
    Knowledge(Seq<char>),
    Ranking(Seq<char>, Seq<Document>),
    Web(Seq<char>, Seq<Document>, Seq<usize>),
    Mode(Seq<char>, ContextView),
    Model(Seq<char>, ContextView),
    Done,
}

impl View for FlowState {
    type V = FlowStateView;

    open spec fn view(&self) -> FlowStateView {
        match self {
            FlowState::Start => FlowStateView::Start,
            FlowState::Faq { query } => FlowStateView::Faq(query@),
            FlowState::Cache { query } => FlowStateView::Cache(query@),
            FlowState::Knowledge { query } => FlowStateView::Knowledge(query@),
            FlowState::Ranking { query, docs } => FlowStateView::Ranking(query@, docs@),
            FlowState::Web { query, docs, top } => FlowStateView::Web(query@, docs@, top@),
            FlowState::Mode { query, ctx } => FlowStateView::Mode(query@, ctx@),
            FlowState::Model { query, ctx } => FlowStateView::Model(query@, ctx@),
            FlowState::Done => FlowStateView::Done,
        }
    }
}

impl FlowStateView {
    /// The query of the request, once it has been checked.
    pub open spec fn query(self) -> Option<Seq<char>> {
        match self {
            FlowStateView::Faq(q) => Some(q),
            FlowStateView::Cache(q) => Some(q),
            FlowStateView::Knowledge(q) => Some(q),
            FlowStateView::Ranking(q, _) => Some(q),
            FlowStateView::Web(q, _, _) => Some(q),
            FlowStateView::Mode(q, _) => Some(q),
            FlowStateView::Model(q, _) => Some(q),
            _ => None,
        }
    }
}

/// The contents of a [`FlowEvent`].
pub enum FlowEventView {
    RateChecked(bool),
    FaqChecked(Result<Option<(Seq<char>, Option<Seq<char>>)>, Seq<char>>),
    CacheChecked(Option<Seq<char>>),
    KnowledgeLoaded(Result<Seq<Document>, Seq<char>>),
    Ranked(Seq<(usize, bool)>),
    WebFetched(Seq<char>),
    ModeKnown(bool),
    ModelAnswered(Result<Seq<char>, Seq<char>>),
}

impl View for FlowEvent {
    type V = FlowEventView;

    open spec fn view(&self) -> FlowEventView {
        match self {
            FlowEvent::RateChecked(b) => FlowEventView::RateChecked(*b),
            FlowEvent::FaqChecked(r) => FlowEventView::FaqChecked(
                match r {
                    Ok(a) => Ok(a.deep_view()),
                    Err(m) => Err(m@),
                },
            ),
            FlowEvent::CacheChecked(c) => FlowEventView::CacheChecked(c.deep_view()),
            FlowEvent::KnowledgeLoaded(r) => FlowEventView::KnowledgeLoaded(
                match r {
                    Ok(d) => Ok(d@),
                    Err(m) => Err(m@),
                },
            ),
            FlowEvent::Ranked(r) => FlowEventView::Ranked(r@),
            FlowEvent::WebFetched(w) => FlowEventView::WebFetched(w@),
            FlowEvent::ModeKnown(b) => FlowEventView::ModeKnown(*b),
            FlowEvent::ModelAnswered(r) => FlowEventView::ModelAnswered(
                match r {
                    Ok(a) => Ok(a@),
                    Err(m) => Err(m@),
                },
            ),
        }
    }
}

/// The contents of a [`Store`].
pub enum StoreView {
    Nothing,
    Plain(Seq<char>, Seq<char>),
    WithEmbedding(Seq<char>, Seq<char>),
}

impl View for Store {
    type V = StoreView;

    open spec fn view(&self) -> StoreView {
        match self {
            Store::Nothing => StoreView::Nothing,
            Store::Plain { query, reply } => StoreView::Plain(query@, reply@),
            Store::WithEmbedding { query, reply } => StoreView::WithEmbedding(query@, reply@),
        }
    }
}

/// The contents of a [`Finish`].
pub struct FinishView {
    pub outcome: Result<ChatReplyView, Seq<char>>,
    pub store: StoreView,
    pub go_offline: bool,
}

impl View for Finish {
    type V = FinishView;

    open spec fn view(&self) -> FinishView {
        FinishView {
            outcome: match &self.outcome {
                Ok(r) => Ok(r@),
                Err(m) => Err(m@),
            },
            store: self.store@,
            go_offline: self.go_offline,
        }
    }
}

/// The contents of a [`FlowAction`].
pub enum FlowActionView {
    CheckRate,
    LookUpFaq(Seq<char>),
    LookUpCache(Seq<char>),
    LoadKnowledge,
    Rank(Seq<char>),
    FetchWeb,
    CheckMode,
    AskModel(Seq<(Seq<char>, Seq<char>)>),
    Finish(FinishView),
    Idle,
}

impl View for FlowAction {
    type V = FlowActionView;

    open spec fn view(&self) -> FlowActionView {
        match self {
            FlowAction::CheckRate => FlowActionView::CheckRate,
            FlowAction::LookUpFaq(q) => FlowActionView::LookUpFaq(q@),
            FlowAction::LookUpCache(q) => FlowActionView::LookUpCache(q@),
            FlowAction::LoadKnowledge => FlowActionView::LoadKnowledge,
            FlowAction::Rank(q) => FlowActionView::Rank(q@),
            FlowAction::FetchWeb => FlowActionView::FetchWeb,
            FlowAction::CheckMode => FlowActionView::CheckMode,
            FlowAction::AskModel(m) => FlowActionView::AskModel(turns(m@)),
            FlowAction::Finish(f) => FlowActionView::Finish(f@),
            FlowAction::Idle => FlowActionView::Idle,
        }
    }
}

/// The contents of a [`ChatFlow`].
pub struct ChatFlowView {
    pub messages: Seq<ChatMessage>,
    pub streaming: bool,
    pub state: FlowStateView,
}

impl View for ChatFlow {
    type V = ChatFlowView;

    closed spec fn view(&self) -> ChatFlowView {
        ChatFlowView { messages: self.messages@, streaming: self.streaming, state: self.state@ }
    }
}

// ---------------------------------------------------------------------------
// The machine
// ---------------------------------------------------------------------------

/// Finishing with a reply.
pub open spec fn answer(reply: ChatReplyView, store: StoreView, go_offline: bool) -> FlowActionView {
    FlowActionView::Finish(FinishView { outcome: Ok(reply), store, go_offline })
}

/// Finishing with an error.
pub open spec fn failure(message: Seq<char>, go_offline: bool) -> FlowActionView {
    FlowActionView::Finish(
        FinishView { outcome: Err(message), store: StoreView::Nothing, go_offline },
    )
}

/// The link sent with a FAQ answer: the rule's link, or no field at all.
pub open spec fn faq_link(u: Option<Seq<char>>) -> LinkView {
    match u {
        Some(x) => LinkView::To(x),
        None => LinkView::Absent,
    }
}

/// The link sent with a model answer: the first document link, or `null`.
pub open spec fn model_link(u: Option<Seq<char>>) -> LinkView {
    match u {
        Some(x) => LinkView::To(x),
        None => LinkView::Null,
    }
}

/// What a state waits for.
pub open spec fn pending(
    c: ConfigView,
    m: Seq<ChatMessage>,
    streaming: bool,
    s: FlowStateView,
) -> FlowActionView {
    match s {
        FlowStateView::Start => FlowActionView::CheckRate,
        FlowStateView::Faq(q) => FlowActionView::LookUpFaq(q),
        FlowStateView::Cache(q) => FlowActionView::LookUpCache(q),
        FlowStateView::Knowledge(_) => FlowActionView::LoadKnowledge,
        FlowStateView::Ranking(q, _) => FlowActionView::Rank(q),
        FlowStateView::Web(..) => FlowActionView::FetchWeb,
        FlowStateView::Mode(..) => FlowActionView::CheckMode,
        FlowStateView::Model(q, ctx) => FlowActionView::AskModel(
            model_turns(c, m, q, ctx, streaming),
        ),
        FlowStateView::Done => FlowActionView::Idle,
    }
}

/// One step of the machine: the next state and the next action, given the
/// state and the event. The request is first rate limited, then checked and
/// scope guarded; the FAQ is tried, then the answer cache; then the
/// knowledge base is loaded (it must not be empty), ranked, completed with
/// the web fallback into a context; without the model the context is shown
/// as it is, with the model its answer is given (and cached when it is not a
/// non-answer). A refused key or exhausted quota turns the service offline:
/// a plain request then gets the offline answer, a streamed one the error.
/// An event the state does not wait for changes nothing.
pub open spec fn flow_next(
    c: ConfigView,
    m: Seq<ChatMessage>,
    streaming: bool,
    s: FlowStateView,
    e: FlowEventView,
) -> (FlowStateView, FlowActionView) {
    match (s, e) {
        (FlowStateView::Start, FlowEventView::RateChecked(admitted)) => if !admitted {
            (FlowStateView::Done, answer(rate_limit_reply(c, m), StoreView::Nothing, false))
        } else {
            match request_error(c, contents(m)) {
                Some(err) => (FlowStateView::Done, failure(error_text(err), false)),
                None => match admission(c, contents(m)) {
                    AdmissionView::Refused(r) => (
                        FlowStateView::Done,
                        answer(r, StoreView::Nothing, false),
                    ),
                    AdmissionView::Proceed(q) => (
                        FlowStateView::Faq(q),
                        FlowActionView::LookUpFaq(q),
                    ),
                },
            }
        },
        (FlowStateView::Faq(q), FlowEventView::FaqChecked(r)) => match r {
            Err(msg) => (FlowStateView::Done, failure(msg, false)),
            Ok(Some((a, u))) => (
                FlowStateView::Done,
                answer(
                    ChatReplyView { reply: a, source: Source::Faq, url: faq_link(u) },
                    StoreView::Plain(q, a),
                    false,
                ),
            ),
            Ok(None) => (FlowStateView::Cache(q), FlowActionView::LookUpCache(q)),
        },
        (FlowStateView::Cache(q), FlowEventView::CacheChecked(r)) => match r {
            Some(a) => (
                FlowStateView::Done,
                answer(
                    ChatReplyView { reply: a, source: Source::Cache, url: LinkView::Absent },
                    StoreView::Nothing,
                    false,
                ),
            ),
            None => (FlowStateView::Knowledge(q), FlowActionView::LoadKnowledge),
        },
        (FlowStateView::Knowledge(q), FlowEventView::KnowledgeLoaded(r)) => match r {
            Err(msg) => (FlowStateView::Done, failure(msg, false)),
            Ok(docs) => if docs.len() == 0 {
                (FlowStateView::Done, failure(error_text(ChatError::EmptyKnowledge), false))
            } else {
                (FlowStateView::Ranking(q, docs), FlowActionView::Rank(q))
            },
        },
        (FlowStateView::Ranking(q, docs), FlowEventView::Ranked(r)) => (
            FlowStateView::Web(q, docs, first_k(passing(r), c.rag_top_k as nat)),
            FlowActionView::FetchWeb,
        ),
        (FlowStateView::Web(q, docs, top), FlowEventView::WebFetched(w)) => (
            FlowStateView::Mode(q, context_of(docs, top, w)),
            FlowActionView::CheckMode,
        ),
        (FlowStateView::Mode(q, ctx), FlowEventView::ModeKnown(online)) => if !online {
            let r = offline_answer(q, ctx, OfflineCause::NoKey);
            (FlowStateView::Done, answer(r, StoreView::Plain(q, r.reply), false))
        } else {
            (
                FlowStateView::Model(q, ctx),
                FlowActionView::AskModel(model_turns(c, m, q, ctx, streaming)),
            )
        },
        (FlowStateView::Model(q, ctx), FlowEventView::ModelAnswered(r)) => match r {
            Ok(a) => (
                FlowStateView::Done,
                answer(
                    ChatReplyView { reply: a, source: Source::Llm, url: model_link(ctx.url) },
                    if unhelpful(lowercase(a)) {
                        StoreView::Nothing
                    } else {
                        StoreView::WithEmbedding(q, a)
                    },
                    false,
                ),
            ),
            Err(msg) => if auth_or_quota(lowercase(msg)) && !streaming {
                let o = offline_answer(q, ctx, OfflineCause::KeyFailed);
                (FlowStateView::Done, answer(o, StoreView::Plain(q, o.reply), true))
            } else {
                (FlowStateView::Done, failure(msg, auth_or_quota(lowercase(msg))))
            },
        },
        _ => (s, pending(c, m, streaming, s)),
    }
}

impl ChatFlow {
    /// A request for the given conversation, not started yet.
    pub fn new(messages: Vec<ChatMessage>, streaming: bool) -> (res: Self)
        ensures
            res@ == (ChatFlowView {
                messages: messages@,
                streaming,
                state: FlowStateView::Start,
            }),
    {
        ChatFlow { messages, streaming, state: FlowState::Start }
    }

    /// What the request waits for now.
    pub fn pending(&self, cfg: &Config) -> (res: FlowAction)
        ensures
            res@ == pending(cfg@, self@.messages, self@.streaming, self@.state),
    {
        self.pending_in(cfg, &self.state)
    }

    /// What the state `s` waits for.
    fn pending_in(&self, cfg: &Config, s: &FlowState) -> (res: FlowAction)
        ensures
            res@ == pending(cfg@, self@.messages, self@.streaming, s@),
    {
        match s {
            FlowState::Start => FlowAction::CheckRate,
            FlowState::Faq { query } => FlowAction::LookUpFaq(query.clone()),
            FlowState::Cache { query } => FlowAction::LookUpCache(query.clone()),
            FlowState::Knowledge { .. } => FlowAction::LoadKnowledge,
            FlowState::Ranking { query, .. } => FlowAction::Rank(query.clone()),
            FlowState::Web { .. } => FlowAction::FetchWeb,
            FlowState::Mode { .. } => FlowAction::CheckMode,
            FlowState::Model { query, ctx } => FlowAction::AskModel(
                llm_messages(cfg, &self.messages, query.as_str(), ctx, self.streaming),
            ),
            FlowState::Done => FlowAction::Idle,
        }
    }

    /// The first document link of the context, once the context is built.
    pub fn context_link(&self) -> (res: Option<String>)
        ensures
            res.deep_view() == match self@.state {
                FlowStateView::Mode(_, ctx) => ctx.url,
                FlowStateView::Model(_, ctx) => ctx.url,
                _ => None,
            },
    {
        match &self.state {
            FlowState::Mode { ctx, .. } => ctx.url.clone(),
            FlowState::Model { ctx, .. } => ctx.url.clone(),
            _ => None,
        }
    }

    /// Takes the result of the last action and says what to do next.
    pub fn step(&mut self, cfg: &Config, event: FlowEvent) -> (res: FlowAction)
        ensures
            final(self)@.messages == old(self)@.messages,
            final(self)@.streaming == old(self)@.streaming,
            (final(self)@.state, res@) == flow_next(
                cfg@,
                old(self)@.messages,
                old(self)@.streaming,
                old(self)@.state,
                event@,
            ),
    {
        let mut state = FlowState::Done;
        std::mem::swap(&mut state, &mut self.state);
        match (state, event) {
            (FlowState::Start, FlowEvent::RateChecked(admitted)) => {
                if !admitted {
                    let r = rate_limited(cfg, &self.messages);
                    return FlowAction::Finish(
                        Finish { outcome: Ok(r), store: Store::Nothing, go_offline: false },
                    );
                }
                match check_request(cfg, &self.messages) {
                    Err(e) => FlowAction::Finish(
                        Finish { outcome: Err(e.message()), store: Store::Nothing, go_offline: false },
                    ),
                    Ok(Admission::Refused(r)) => FlowAction::Finish(
                        Finish { outcome: Ok(r), store: Store::Nothing, go_offline: false },
                    ),
                    Ok(Admission::Proceed(q)) => {
                        self.state = FlowState::Faq { query: q.clone() };
                        FlowAction::LookUpFaq(q)
                    },
                }
            },
            (FlowState::Faq { query }, FlowEvent::FaqChecked(r)) => match r {
                Err(msg) => FlowAction::Finish(
                    Finish { outcome: Err(msg), store: Store::Nothing, go_offline: false },
                ),
                Ok(Some((a, u))) => {
                    let url = match u {
                        Some(x) => Link::To(x),
                        None => Link::Absent,
                    };
                    let store = Store::Plain { query, reply: a.clone() };
                    FlowAction::Finish(
                        Finish {
                            outcome: Ok(ChatReply { reply: a, source: Source::Faq, url }),
                            store,
                            go_offline: false,
                        },
                    )
                },
                Ok(None) => {
                    self.state = FlowState::Cache { query: query.clone() };
                    FlowAction::LookUpCache(query)
                },
            },
            (FlowState::Cache { query }, FlowEvent::CacheChecked(r)) => match r {
                Some(a) => FlowAction::Finish(
                    Finish {
                        outcome: Ok(ChatReply { reply: a, source: Source::Cache, url: Link::Absent }),
                        store: Store::Nothing,
                        go_offline: false,
                    },
                ),
                None => {
                    self.state = FlowState::Knowledge { query };
                    FlowAction::LoadKnowledge
                },
            },
            (FlowState::Knowledge { query }, FlowEvent::KnowledgeLoaded(r)) => match r {
                Err(msg) => FlowAction::Finish(
                    Finish { outcome: Err(msg), store: Store::Nothing, go_offline: false },
                ),
                Ok(docs) => match check_knowledge(docs.as_slice()) {
                    Err(e) => FlowAction::Finish(
                        Finish { outcome: Err(e.message()), store: Store::Nothing, go_offline: false },
                    ),
                    Ok(()) => {
                        let q = query.clone();
                        self.state = FlowState::Ranking { query, docs };
                        FlowAction::Rank(q)
                    },
                },
            },
            (FlowState::Ranking { query, docs }, FlowEvent::Ranked(r)) => {
                let top = top_indices(&r, cfg.rag_top_k);
                self.state = FlowState::Web { query, docs, top };
                FlowAction::FetchWeb
            },
            (FlowState::Web { query, docs, top }, FlowEvent::WebFetched(w)) => {
                let ctx = gather_context(docs.as_slice(), top.as_slice(), w.as_str());
                self.state = FlowState::Mode { query, ctx };
                FlowAction::CheckMode
            },
            (FlowState::Mode { query, ctx }, FlowEvent::ModeKnown(online)) => {
                if !online {
                    let r = offline_reply(query.as_str(), &ctx, OfflineCause::NoKey);
                    let store = Store::Plain { query, reply: r.reply.clone() };
                    FlowAction::Finish(Finish { outcome: Ok(r), store, go_offline: false })
                } else {
                    let msgs = llm_messages(cfg, &self.messages, query.as_str(), &ctx, self.streaming);
                    self.state = FlowState::Model { query, ctx };
                    FlowAction::AskModel(msgs)
                }
            },
            (FlowState::Model { query, ctx }, FlowEvent::ModelAnswered(r)) => match r {
                Ok(a) => {
                    let url = match &ctx.url {
                        Some(u) => Link::To(u.clone()),
                        None => Link::Null,
                    };
                    let store = if is_unhelpful(a.as_str()) {
                        Store::Nothing
                    } else {
                        Store::WithEmbedding { query, reply: a.clone() }
                    };
                    FlowAction::Finish(
                        Finish {
                            outcome: Ok(ChatReply { reply: a, source: Source::Llm, url }),
                            store,
                            go_offline: false,
                        },
                    )
                },
                Err(msg) => {
                    if !self.streaming {
                        match degraded_reply(msg.as_str(), query.as_str(), &ctx) {
                            Some(o) => {
                                let store = Store::Plain { query, reply: o.reply.clone() };
                                return FlowAction::Finish(
                                    Finish { outcome: Ok(o), store, go_offline: true },
                                );
                            },
                            None => {},
                        }
                    }
                    let off = crate::chat::is_auth_or_quota_error(msg.as_str());
                    FlowAction::Finish(
                        Finish { outcome: Err(msg), store: Store::Nothing, go_offline: off },
                    )
                },
            },
            (s, _) => {
                let a = self.pending_in(cfg, &s);
                self.state = s;
                a
            },
        }
    }
}

// ---------------------------------------------------------------------------
// Laws
// ---------------------------------------------------------------------------

/// What is stored in the answer cache is exactly what was answered, under
/// the query that was asked.
pub proof fn law_cached_is_answered(
    c: ConfigView,
    m: Seq<ChatMessage>,
    streaming: bool,
    s: FlowStateView,
    e: FlowEventView,
)
    ensures
        flow_next(c, m, streaming, s, e).1 matches FlowActionView::Finish(f) ==> match f.store {
            StoreView::Nothing => true,
            StoreView::Plain(q, r) => f.outcome matches Ok(a) && a.reply == r && s.query() == Some(q),
            StoreView::WithEmbedding(q, r) => f.outcome matches Ok(a) && a.reply == r && s.query()
                == Some(q),
        },
{
}

/// The service goes offline only when the model call failed with a refused
/// key or an exhausted quota.
pub proof fn law_offline_only_on_key_failure(
    c: ConfigView,
    m: Seq<ChatMessage>,
    streaming: bool,
    s: FlowStateView,
    e: FlowEventView,
)
    ensures
        flow_next(c, m, streaming, s, e).1 matches FlowActionView::Finish(f) && f.go_offline
            ==> (s is Model && (e matches FlowEventView::ModelAnswered(Err(msg)) && auth_or_quota(
            lowercase(msg),
        ))),
{
}

/// The model is asked only once it is known that it may be used.
pub proof fn law_model_only_when_online(
    c: ConfigView,
    m: Seq<ChatMessage>,
    streaming: bool,
    s: FlowStateView,
    e: FlowEventView,
)
    ensures
        flow_next(c, m, streaming, s, e).1 is AskModel ==> (s is Mode && e == FlowEventView::ModeKnown(
            true,
        )) || s is Model,
{
}

/// A finished request stays finished and asks for nothing more.
pub proof fn law_done_is_final(c: ConfigView, m: Seq<ChatMessage>, streaming: bool, e: FlowEventView)
    ensures
        flow_next(c, m, streaming, FlowStateView::Done, e) == (
            FlowStateView::Done,
            FlowActionView::Idle,
        ),
{
}

/// Every index that passed the threshold comes from an entry of the ranking
/// marked as passing.
proof fn lemma_passing_from_ranking(r: Seq<(usize, bool)>)
    ensures
        forall|i: int|
            #![trigger passing(r)[i]]
            0 <= i < passing(r).len() ==> exists|j: int|
                0 <= j < r.len() && #[trigger] r[j] == (passing(r)[i], true),
    decreases r.len(),
{
    if r.len() > 0 {
        let rest = r.drop_last();
        lemma_passing_from_ranking(rest);
        assert forall|i: int| #![trigger passing(r)[i]] 0 <= i < passing(r).len() implies exists|j: int|
            0 <= j < r.len() && #[trigger] r[j] == (passing(r)[i], true) by {
            if i < passing(rest).len() {
                let j = choose|j: int| 0 <= j < rest.len() && #[trigger] rest[j] == (passing(rest)[i], true);
                assert(r[j] == rest[j]);
            } else {
                assert(r[r.len() - 1] == (passing(r)[i], true));
            }
        }
    }
}

/// Ranking selects at most `rag_top_k` documents: the next state keeps the
/// query and the documents, and its selection is the first `rag_top_k`
/// indices that passed the score threshold, in ranking order (all of them
/// when fewer passed), each the index of a ranked entry marked as passing.
pub proof fn law_ranking_keeps_top_k(
    c: ConfigView,
    m: Seq<ChatMessage>,
    streaming: bool,
    q: Seq<char>,
    docs: Seq<Document>,
    r: Seq<(usize, bool)>,
)
    ensures
        flow_next(c, m, streaming, FlowStateView::Ranking(q, docs), FlowEventView::Ranked(r)).0
            matches FlowStateView::Web(q2, d2, top) && {
            &&& q2 == q
            &&& d2 == docs
            &&& top.len() <= c.rag_top_k
            &&& top.len() == c.rag_top_k || top == passing(r)
            &&& top == passing(r).take(top.len() as int)
            &&& forall|i: int|
                #![trigger top[i]]
                0 <= i < top.len() ==> exists|j: int|
                    0 <= j < r.len() && #[trigger] r[j] == (top[i], true)
        },
{
    lemma_passing_from_ranking(r);
    let top = first_k(passing(r), c.rag_top_k as nat);
    assert forall|i: int| #![trigger top[i]] 0 <= i < top.len() implies exists|j: int|
        0 <= j < r.len() && #[trigger] r[j] == (top[i], true) by {
        assert(top[i] == passing(r)[i]);
    }
}

} // verus!

//! The messages sent to the model: a system prompt (with or without
//! knowledge context, with or without the scope policy), the earlier turns of
//! the conversation, and the user's query.
use vstd::prelude::*;
use crate::chat::{Context, ContextView};
use crate::config::{Config, ConfigView};
use crate::models::ChatMessage;
use crate::text::{owned, push_str};

verus! {

/// The scope sentence of the prompt used without context.
pub open spec fn plain_scope_policy(product: Seq<char>, org: Seq<char>) -> Seq<char> {
    " Scope policy: ONLY answer questions about the "@ + product + " / "@ + org
        + " project. For anything outside this scope, politely say you can only help with "@
        + product + " topics and suggest contacting support."@
}

/// The system prompt used when there is no context.
pub open spec fn plain_prompt(product: Seq<char>, org: Seq<char>, scoped: bool) -> Seq<char> {
    "You are "@ + product + ", assistant for the "@ + org
        + " project. Reply in the same language the user wrote in: if they write Chinese, answer in Chinese; if they write English, answer in English; for any other language, reply in English."@
        + if scoped {
        plain_scope_policy(product, org)
    } else {
        seq![]
    }
}

/// The scope paragraph of the prompt used with context; `kind` names what
/// must never be answered (`off-topic`, or `off-site` when streaming).
pub open spec fn context_scope_policy(product: Seq<char>, org: Seq<char>, kind: Seq<char>) -> Seq<char> {
    "Scope policy: ONLY answer questions related to the "@ + product + " / "@ + org
        + " project (its features, usage, API, deployment, and the provided knowledge base). For anything outside this scope, politely reply that you can only help with "@
        + product + " topics and suggest contacting support. Never answer "@ + kind
        + " questions.\n"@
}

/// The system prompt used with context.
pub open spec fn context_prompt(
    product: Seq<char>,
    org: Seq<char>,
    policy: Seq<char>,
    ctx: Seq<char>,
) -> Seq<char> {
    "You are "@ + product + ", a helpful assistant for the "@ + org
        + " project. Use the provided context to answer the user's question concisely and accurately.\nLanguage policy: reply in the SAME language as the user's question. If the question is in Chinese, answer in Chinese; if in any other non-English language, default to English.\n"@
        + policy
        + "If the context does not contain the answer, say you don't know and suggest contacting support.\n\nContext:\n"@
        + ctx
}

/// The system prompt for a query: without context it carries the scope
/// policy when the guard is on and the context did not come from the web;
/// with context it carries it when the guard is on (and, for a streamed
/// answer, the context did not come from the web).
pub open spec fn system_prompt(c: ConfigView, ctx: ContextView, streaming: bool) -> Seq<char> {
    if ctx.text.len() == 0 {
        plain_prompt(c.product_name, c.org_name, c.scope_guard_enabled && !ctx.from_web)
    } else {
        let scoped = if streaming {
            c.scope_guard_enabled && !ctx.from_web
        } else {
            c.scope_guard_enabled
        };
        let kind = if streaming {
            "off-site"@
        } else {
            "off-topic"@
        };
        let policy = if scoped {
            context_scope_policy(c.product_name, c.org_name, kind)
        } else {
            seq![]
        };
        context_prompt(c.product_name, c.org_name, policy, ctx.text)
    }
}

/// Writes the system prompt used without context.
fn plain_prompt_text(product: &str, org: &str, scoped: bool) -> (res: String)
    ensures
        res@ == plain_prompt(product@, org@, scoped),
{
    let mut s = owned("You are ");
    push_str(&mut s, product);
    push_str(&mut s, ", assistant for the ");
    push_str(&mut s, org);
    push_str(
        &mut s,
        " project. Reply in the same language the user wrote in: if they write Chinese, answer in Chinese; if they write English, answer in English; for any other language, reply in English.",
    );
    if scoped {
        push_str(&mut s, " Scope policy: ONLY answer questions about the ");
        push_str(&mut s, product);
        push_str(&mut s, " / ");
        push_str(&mut s, org);
        push_str(
            &mut s,
            " project. For anything outside this scope, politely say you can only help with ",
        );
        push_str(&mut s, product);
        push_str(&mut s, " topics and suggest contacting support.");
    }
    s
}

/// Writes the system prompt used with context.
fn context_prompt_text(product: &str, org: &str, scoped: bool, kind: &str, ctx: &str) -> (res:
    String)
    ensures
        res@ == context_prompt(
            product@,
            org@,
            if scoped {
                context_scope_policy(product@, org@, kind@)
            } else {
                seq![]
            },
            ctx@,
        ),
{
    let mut s = owned("You are ");
    push_str(&mut s, product);
    push_str(&mut s, ", a helpful assistant for the ");
    push_str(&mut s, org);
    push_str(
        &mut s,
        " project. Use the provided context to answer the user's question concisely and accurately.\nLanguage policy: reply in the SAME language as the user's question. If the question is in Chinese, answer in Chinese; if in any other non-English language, default to English.\n",
    );
    let ghost head = s@;
    if scoped {
        push_str(&mut s, "Scope policy: ONLY answer questions related to the ");
        push_str(&mut s, product);
        push_str(&mut s, " / ");
        push_str(&mut s, org);
        push_str(
            &mut s,
            " project (its features, usage, API, deployment, and the provided knowledge base). For anything outside this scope, politely reply that you can only help with ",
        );
        push_str(&mut s, product);
        push_str(&mut s, " topics and suggest contacting support. Never answer ");
        push_str(&mut s, kind);
        push_str(&mut s, " questions.\n");
        assert(s@ == head + context_scope_policy(product@, org@, kind@));
    } else {
        assert(s@ == head + Seq::<char>::empty());
    }
    push_str(
        &mut s,
        "If the context does not contain the answer, say you don't know and suggest contacting support.\n\nContext:\n",
    );
    push_str(&mut s, ctx);
    s
}

/// The role and text of each message.
pub open spec fn turns(m: Seq<ChatMessage>) -> Seq<(Seq<char>, Seq<char>)> {
    m.map_values(|x: ChatMessage| (x.role@, x.content@))
}

/// The number of earlier turns in a conversation of `n` messages (all but
/// the latest).
pub open spec fn history_len(n: nat) -> int {
    if n > 0 {
        n - 1
    } else {
        0
    }
}

/// The messages the model is asked with.
pub open spec fn model_turns(
    c: ConfigView,
    m: Seq<ChatMessage>,
    query: Seq<char>,
    ctx: ContextView,
    streaming: bool,
) -> Seq<(Seq<char>, Seq<char>)> {
    seq![("system"@, system_prompt(c, ctx, streaming))] + turns(m).take(history_len(m.len()))
        + seq![("user"@, query)]
}

/// Builds the messages for the model: the system prompt, every message of
/// the conversation but the latest, then the query as the user's turn.
pub fn llm_messages(
    cfg: &Config,
    messages: &Vec<ChatMessage>,
    query: &str,
    ctx: &Context,
    streaming: bool,
) -> (res: Vec<ChatMessage>)
    ensures
        turns(res@) == model_turns(cfg@, messages@, query@, ctx@, streaming),
{
    let product = cfg.product_name.as_str();
    let org = cfg.org_name.as_str();
    let system = if ctx.text.as_str().is_empty() {
        plain_prompt_text(product, org, cfg.scope_guard_enabled && !ctx.from_web)
    } else if streaming {
        context_prompt_text(
            product,
            org,
            cfg.scope_guard_enabled && !ctx.from_web,
            "off-site",
            ctx.text.as_str(),
        )
    } else {
        context_prompt_text(product, org, cfg.scope_guard_enabled, "off-topic", ctx.text.as_str())
    };
    let mut out: Vec<ChatMessage> = Vec::new();
    out.push(ChatMessage::new(owned("system"), system));
    let n = if messages.len() > 0 {
        messages.len() - 1
    } else {
        0
    };
    let mut i: usize = 0;
    while i < n
        invariant
            n == history_len(messages@.len()),
            n <= messages.len(),
            i <= n,
            turns(out@) == seq![("system"@, system_prompt(cfg@, ctx@, streaming))] + turns(
                messages@,
            ).take(i as int),
        decreases n - i,
    {
        let m = messages[i].clone();
        let ghost before = out@;
        out.push(m);
        assert(turns(out@) == turns(before).push((messages@[i as int].role@, messages@[i as int].content@)));
        assert(turns(messages@).take(i + 1) == turns(messages@).take(i as int).push(
            turns(messages@)[i as int],
        ));
        i = i + 1;
    }
    let ghost before = out@;
    out.push(ChatMessage::new(owned("user"), owned(query)));
    assert(turns(out@) == turns(before).push(("user"@, query@)));
    out
}

} // verus!

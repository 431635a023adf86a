pub mod text;
pub mod pattern;
pub mod faq;
pub mod strmap;
pub mod ratelimit;
pub mod rag;
pub mod models;
pub mod knowledge;
pub mod cache;
pub mod config;
pub mod response;
pub mod web;
pub mod sse;
pub mod chat;
pub mod prompt;
pub mod stream;
pub mod flow;

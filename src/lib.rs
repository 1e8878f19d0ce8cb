//! Ingestion of web archive records into a keyword index.
//!
//! A record's HTTP response is scanned and its HTML parsed (`http`,
//! `webpage`, `html`); the visible text is lemmatised (`lemma`); an archive
//! keeps the pages of whitelisted hosts (`archive`). A batch of pages is
//! written to the store in a fixed order (`batch`) from rows planned in
//! `persist`, with a deadlock retry (`retry`); `store` states what those
//! writes do to the tables and the laws they obey. `task` orders the stages
//! of one archive and `single_page` handles one page fetched on its own.

pub mod bytes;
pub mod text;
pub mod word_map;

pub mod html;
pub mod http;
pub mod lemma;
pub mod webpage;

pub mod archive;
pub mod single_page;
pub mod task;

pub mod batch;
pub mod persist;
pub mod retry;
pub mod store;

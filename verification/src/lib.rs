//! The core of a language server for Syma.
//!
//! `server` decides how each message of an editor is answered, over the state
//! that `backend` keeps: the open documents (`documents`) and the symbols that
//! they define (`analysis`, `symbols`, `sites`). The answers are put together in
//! `completion`, `signature`, `queries`, `rename`, `folding` and `semantic`.
//! `text`, `cursor`, `strings` and `uri` are what these rest on; `protocol` and
//! `syntax` hold the values that come and go. `guarantees` and `applied` prove
//! what an editor can rely on, and `laws` what each operation is for, said of
//! its inputs and results alone.

pub mod analysis;
pub mod applied;
pub mod backend;
pub mod completion;
pub mod cursor;
pub mod documents;
pub mod folding;
pub mod guarantees;
pub mod laws;
pub mod protocol;
pub mod queries;
pub mod rename;
pub mod semantic;
pub mod server;
pub mod signature;
pub mod sites;
pub mod strings;
pub mod symbols;
pub mod syntax;
pub mod text;
pub mod uri;

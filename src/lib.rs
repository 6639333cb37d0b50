//! Turns a sequence of version-control commit records into a changelog:
//! commit messages are parsed, classified by ordered category rules,
//! grouped, and rendered through a small template language.
pub mod text;
pub mod commit;
pub mod classify;
pub mod changelog;
pub mod renderer;
pub mod template;
pub mod document;
pub mod settings;
pub mod pipeline;

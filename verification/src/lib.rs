//! The rules of a chat bridge: what an agent's HTTP front end decides, parses,
//! orders, encodes and answers, apart from the sockets, files and processes
//! that it does so for.

pub mod api;
pub mod documents;
pub mod dotenv;
pub mod encoding;
pub mod events;
pub mod files;
pub mod json;
pub mod paths;
pub mod rag;
pub mod startup;
pub mod terminal;
pub mod text;
pub mod tools;

//! Fact sheets (`.facts` files): parsing and writing them back, fact IDs, the
//! logic of the `facts` commands, linting, tag expressions and project setup.
pub mod text;
pub mod model;
pub mod parser;
pub mod writer;
pub mod tags;
pub mod id;
pub mod locate;
pub mod lint;
pub mod color;
pub mod check;
pub mod remove;
pub mod add;
pub mod move_fact;
pub mod edit;
pub mod get;
pub mod list;
pub mod init;
pub mod skills;
pub mod uninit;
pub mod update;
pub mod fmt;

//! A store on top of Postgres: what is sent to the database and what is made of its replies.
pub mod history;
pub mod selection;
pub mod statement;
pub mod store;
pub mod subscription;

//! Plain data shapes of the start.gg GraphQL queries and replies.

pub mod scalars;
pub mod tournament;

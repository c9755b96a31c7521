//! Client logic for listing an account's saved items through a cursor-paginated,
//! bearer-token API: the endpoints, and the retrieval of every page as a state
//! machine that a transport drives.

pub mod fetch;
pub mod user;

//! The logic of the MergeMint bounty backend: the store of bounties and the lock
//! around it, the pages that it is listed by, and what the endpoints answer.
pub mod allowlist;
pub mod claims;
pub mod counterpart_laws;
pub mod db;
pub mod listing_facts;
pub mod listing_laws;
pub mod lock;
pub mod page_facts;
pub mod page_walk_laws;
pub mod paging;
pub mod paging_laws;
pub mod routes;
pub mod timestamp;

//! A virtual IP router.
//!
//! A router owns a network, hands out its addresses to the controllers below it, and routes their
//! addresses to them. It may stand below another router, behind a network address translator. Chunks
//! that reach a running router wait in its queue, pass its filters, and go on to a controller or to the
//! parent router.
pub mod addr;
pub mod chunk_queue;
pub mod config;
pub mod error;
pub mod event_loop;
pub mod interface;
pub mod ip_map;
pub mod laws;
pub mod nic;
pub mod router;
pub mod routing;
pub mod routing_laws;
pub mod running;
pub mod running_laws;
pub mod setup_laws;
pub mod static_ips;
pub mod text;

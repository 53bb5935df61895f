//! Kernel of a DNS latency bench: how long do plain DNS, DNS over TLS, DNS over
//! HTTPS (HTTP/2 and HTTP/3) and DNS over QUIC take, all measured the same way?
//!
//! Two programs share it. One compares the protocols on one server, the other
//! compares providers by protocol. Both ask for the same domains in the same
//! order, one query at a time, warm up before they measure, and keep empty
//! answers apart from useful ones.
//!
//! The kernel does no input or output. It writes queries and reads responses
//! ([`wire`], [`exchange`]), decides when to connect ([`link`]) and what to ask
//! next ([`trial`]), counts and ranks ([`tally`], [`samples`], [`report`],
//! [`rank`]), reads command lines and files ([`cli`], [`domains`], [`isp`]),
//! knows the providers ([`providers`]), judges servers that answer for names
//! that do not exist ([`hijack`]), and lays out every line that is shown
//! ([`progress`], [`lines`], [`render`], [`standings`]).
//!
//! What holds of all this, said of octets, characters, samples and outcomes rather
//! than of the functions that work on them, stands in the modules whose names end
//! in `laws`.

pub mod addr;
pub mod addr_laws;
pub mod cli;
pub mod cli_laws;
pub mod count_laws;
pub mod domains;
pub mod error;
pub mod exchange;
pub mod hijack;
pub mod hijack_laws;
pub mod isp;
pub mod lines;
pub mod link;
pub mod link_laws;
pub mod message_laws;
pub mod name_laws;
pub mod number;
pub mod number_laws;
pub mod progress;
pub mod proto;
pub mod provider_laws;
pub mod providers;
pub mod query_laws;
pub mod rank;
pub mod rank_laws;
pub mod render;
pub mod report;
pub mod sample_laws;
pub mod samples;
pub mod scan;
pub mod scan_laws;
pub mod source_laws;
pub mod standing_laws;
pub mod standings;
pub mod table_laws;
pub mod tally;
pub mod text;
pub mod text_laws;
pub mod trial;
pub mod wire;
pub mod wire_laws;

pub use crate::addr::{Endpoint, Ipv4Addr, SocketAddr};
pub use crate::cli::next_value;
pub use crate::domains::{load_domains, try_read_domains};
pub use crate::error::{BenchError, R};
pub use crate::progress::Progress;
pub use crate::proto::{Mode, Proto};
pub use crate::report::{Report, EARLY_ABORT_AFTER};
pub use crate::tally::Tally;
pub use crate::text::{display_width, fit, pad_to, truncate};
pub use crate::wire::{build_query, parse_answer};

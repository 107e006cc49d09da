//! Verified core of the ping6 data transfer tools and of the NDP proxy:
//! inclusive index ranges, the range tracker that records released buffer
//! regions, the trimming buffer, the stream and datagram packet codecs, the
//! sending and receiving stream state, neighbor solicitation parsing and
//! the advertisements that answer them, and the proxy's decisions.

pub mod irange;
pub mod range_tracker;
pub mod buffer;
pub mod constants;
pub mod checksum;
pub mod packet;
pub mod seqno_tracker;
pub mod data_orderer;
pub mod ack_waitlist;
pub mod send_errors;
pub mod recv_errors;
pub mod datagram;
pub mod sender;
pub mod receiver;
pub mod ack_gen_handle;
pub mod ndp;
pub mod proxy;
pub mod proxy_errors;
pub mod proxy_config;
pub mod net;
pub mod broadcast;
pub mod timeout;
pub mod ndp_parse;

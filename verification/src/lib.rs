//! Verified core of the yscloud appliance, proxy and content-serving tools:
//! binary parsers, protocol state machines and the decisions the programs
//! make between their I/O steps.

pub mod arc_cache;
pub mod backend_choice;
pub mod backends;
pub mod be;
pub mod bin_str;
pub mod boot;
pub mod cloudsafe;
pub mod dialer;
pub mod director;
pub mod filter_bits;
pub mod haproxy;
pub mod hexdump;
pub mod http_range;
pub mod text;
pub mod tls_sni;
pub mod torrent;
pub mod torrent_load;
pub mod url_path;
pub mod vfs;
pub mod icmp6;
pub mod ip;
pub mod ipv6_text;
pub mod listener;
pub mod logging;
pub mod memory_resolver;
pub mod mgmt;
pub mod names;
pub mod netlink;
pub mod netlink_address;
pub mod numbers;
pub mod piece_request;
pub mod radvd;
pub mod proxy_model;
pub mod raw_radv;
pub mod session;
pub mod session_id;
pub mod static_vfs;
pub mod strings;
pub mod zip_resolve;
pub mod static_resolve;
pub mod advert;
pub mod dir_listing;
pub mod memfd_options;
pub mod bytes_cow;
pub mod web_response;
pub mod sni_route;

//! An authoritative DNS responder core: it classifies a query name into one of
//! a closed set of zones under a configured root domain and synthesizes the
//! answer for that zone (client address echo, request counter, coin flip, die
//! roll, CIDR range arithmetic, Unix-timestamp formatting), or reports a
//! well-defined error. Wire format, sockets and option parsing are left to the
//! surrounding program; the core works on plain values.

pub mod cidr;
pub mod counter;
pub mod dispatch;
pub mod epoch;
pub mod ip;
pub mod random;
pub mod text;
pub mod types;
pub mod zone;

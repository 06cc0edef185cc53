//! Route synchronisation between country CIDR lists, DNS answers and a GoBGP RIB.
pub mod text;
pub mod strmap;
pub mod country;
pub mod calendar;
pub mod schedule;
pub mod order;
pub mod net;
pub mod ipv6;
pub mod config;
pub mod prefix_map;
pub mod geo;
pub mod apipb;
pub mod command;
pub mod route;
pub mod scheduler;
pub mod round;
pub mod assoc;
pub mod dns;
pub mod process;
pub mod install;
pub mod logger;
pub mod laws;

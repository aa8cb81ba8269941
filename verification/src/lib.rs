//! A Cloudflare IP prober and TCP load balancer, as a verified library: the
//! address pool, the balancer's queues and upkeep, the prober's decisions,
//! the service's settings and rules, and their text forms.
pub mod api;
pub mod args;
pub mod backend;
pub mod balancer;
pub mod config;
pub mod forward;
pub mod httping;
pub mod hyper;
pub mod ip;
pub mod log;
pub mod net;
pub mod order;
pub mod pool;
pub mod seqs;
pub mod service;
pub mod session;
pub mod sticky;
pub mod text;
pub mod upkeep;

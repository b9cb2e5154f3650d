//! A JSON-RPC reverse proxy and load balancer core: routing tables with
//! weighted, health-aware upstream selection, a hysteretic health monitor,
//! a credential gate with rate limiting, and hot-reloadable configuration.
pub mod handlers;
pub mod health;
pub mod keystore;
pub mod mock;
pub mod reload;
pub mod routing;
pub mod config;
pub mod config_text;
pub mod strutil;

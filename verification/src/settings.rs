//! The application's configuration, as the engine consumes it.
//!
//! Loading — a config file merged with environment overrides — happens
//! outside the engine; what arrives here are the settled values. The scale
//! section is the one the synchronization engine reads: the device
//! addresses to push to and the session deadline.

use vstd::prelude::*;

verus! {

/// Credentials and store identity for the POS endpoints.
#[derive(Debug, Clone)]
pub struct ITRetail {
    pub username: String,
    pub password: String,
    pub store_id: String,
    pub external_sale_shrink_reason: u32,
}

/// Credentials for the online-ordering storefront.
#[derive(Debug, Clone)]
pub struct LocalExpress {
    pub username: String,
    pub password: String,
}

/// Mailing-list API access.
#[derive(Debug, Clone)]
pub struct Mailchimp {
    pub token: String,
    pub dc: String,
}

/// The scale fleet: device addresses, and the session deadline in seconds
/// with zero meaning none.
#[derive(Debug, Clone)]
pub struct Scales {
    pub addresses: Vec<String>,
    pub timeout_seconds: u32,
}

/// Which payment-platform environment to talk to.
#[derive(Debug, Clone)]
pub enum SquareEnvironment {
    Production,
    Sandbox,
}

/// Payment-platform access and catalog conventions.
#[derive(Debug, Clone)]
pub struct Square {
    pub environment: SquareEnvironment,
    pub sandbox_appid: String,
    pub sandbox_secret: String,
    pub production_appid: String,
    pub production_secret: String,
    pub location: String,
    pub max_retries: u32,
    pub weight_unit: String,
    pub weight_precision: i32,
}

/// The side database's connection string.
#[derive(Debug, Clone)]
pub struct Postgres {
    pub connect_string: String,
}

/// Addresses of the order-signal lights.
#[derive(Debug, Clone)]
pub struct Tasmota {
    pub light1: String,
    pub light2: String,
}

/// The whole settled configuration.
#[derive(Debug, Clone)]
pub struct Settings {
    pub itretail: ITRetail,
    pub localexpress: LocalExpress,
    pub mailchimp: Mailchimp,
    pub postgres: Postgres,
    pub scales: Scales,
    pub square: Square,
    pub tasmota: Tasmota,
}

} // verus!

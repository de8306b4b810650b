//! Scale catalog synchronization engine for an IT Retail point-of-sale
//! deployment: a PLU (price look-up) allocator that assigns and repairs the
//! short numeric codes weighed products carry, and a protocol driver that
//! pushes the corrected catalog to network-attached retail scales, tracking
//! per-device progress until completion or timeout.

pub mod digits;
pub mod upc;
pub mod catalog;
pub mod pattern;
pub mod order;
pub mod pos;
pub mod plu;
pub mod scales;
pub mod record;
pub mod device;
pub mod registry;
pub mod settings;
pub mod label;
pub mod tasmota;
pub mod phone;

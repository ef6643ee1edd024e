use vstd::prelude::*;

pub mod alerts_model;
pub mod alerts_parse;
pub mod alerts_store;
pub mod alerts_time;
pub mod cache_keys;
pub mod cache_volume;
pub mod calendar;
pub mod discovery;
pub mod display_types;
pub mod hrrr_client;
pub mod hrrr_error;
pub mod hrrr_idx;
pub mod hrrr_keys;
pub mod json_value;
pub mod list_objects;
pub mod net;
pub mod radar_types;
pub mod request_url;
pub mod sites;
pub mod text;

pub mod accounting;
pub mod client;
pub mod constants;
pub mod dto;
pub mod heap;
pub mod model;
pub mod rules;
pub mod util;
pub mod worker;

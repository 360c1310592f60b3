pub mod search;
pub mod utils;
pub mod web;

//! Browsing live auction lots: reading the listings, keeping what was read, and the state
//! of the screen that shows it.
pub mod text;
pub mod numbers;
pub mod fetching;
pub mod fields;
pub mod moments;
pub mod markup;
pub mod links;
pub mod cleaning;
pub mod listing;
pub mod details;
pub mod paging;
pub mod keys;
pub mod table;
pub mod preview;
pub mod desk;
pub mod gallery;
pub mod ranking;
pub mod catalog;
pub mod cache;
pub mod browser;
pub mod work;
pub mod queues;
pub mod answers;
pub mod layout;
pub mod pointer;
pub mod keyboard;
pub mod profile;
pub mod screen;
pub mod drawing;
pub mod frames;
pub mod upkeep;

//! Card data for a fan-made simulator of the hololive Official Card Game:
//! the card model and the rules that read, merge and order it.
pub mod text;
pub mod html;
pub mod pages;
pub mod model;
pub mod utils;
pub mod ordering;
pub mod sheet;
pub mod spreadsheet;
pub mod images;
pub mod price_check;
pub mod holodelta;
pub mod hololive;
pub mod decklog;
pub mod img_hash;
pub mod maintenance;
pub mod qna;
pub mod sheet_images;
pub mod cli;
pub mod legacy;

//! A terminal browser for image files: the catalog of items, the filtered
//! view, the preview cache and the modal input state machine.

pub mod text;
pub mod tab;
pub mod seqs;
pub mod lists;
pub mod cache;
pub mod catalog;
pub mod config;
pub mod controller;
pub mod scan;
pub mod listfile;
pub mod apply;

//! Verified core of a small Reddit reader: the navigation history that decides
//! which view to show, the text that labels posts and comments, the flattening
//! of comment threads into rows, and the collapse rule for comment rows.
pub mod command;
pub mod text;
pub mod navigation;
pub mod comments;
pub mod post;
pub mod collapse;


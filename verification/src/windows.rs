//! The window and what it is made of: pages, menus and alerts.

pub mod alerts;
pub mod menu;
pub mod page;
pub mod page_collection;
pub mod page_context;
pub mod window;

pub mod filter;
pub mod state;
pub mod events;
pub mod view;

//! Generation engine of a declarative system-state manager: generation
//! schemas and their migrations, import resolution, the item-list diff,
//! manager ordering, the generation store's pointer rules and build planning.

pub mod cli;
pub mod manager_map;
pub mod text;
pub mod error;
pub mod generation;
pub mod legacy_1;
pub mod legacy_2;
pub mod history;
pub mod order;
pub mod number;
pub mod store;
pub mod plan;
pub mod listing;

//! Ingestion of ERP order exports: identifier codes and column-matched tables.

pub mod cohv;
pub mod digits;
pub mod order;
pub mod plant;
pub mod table;
pub mod text;
pub mod wbs;

pub use order::{Order, OrderData};
pub use plant::Plant;
pub use wbs::Wbs;

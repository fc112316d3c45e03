pub mod errors;
pub mod inventory_heap;
pub mod price;
pub mod warehouse;

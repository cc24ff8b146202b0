pub mod card;
pub mod model;
pub mod eval;
pub mod order;
pub mod props;
pub mod player;
pub mod table;
pub mod ui;

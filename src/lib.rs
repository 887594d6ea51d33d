pub mod dispatch;
pub mod evaluator;
pub mod rect;
pub mod segments;
pub mod splice;
pub mod time;

pub mod event;
pub mod planner;
pub mod priority;
pub mod reoccurance;
pub mod storage;
pub mod text;
pub mod timestamp;

pub mod calendar;
pub mod cards;
pub mod credit;
pub mod day;
pub mod evidence;
pub mod health;
pub mod ledger;
pub mod level;
pub mod library;
pub mod liveness;
pub mod measured;
pub mod report;
pub mod store;
pub mod streak;
pub mod table;

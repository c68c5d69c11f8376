pub mod form;
pub mod health;
pub mod response;
pub mod store;
pub mod subscriptions;

pub mod custom_claims;
pub mod meta;
pub mod person;
pub mod post;
pub mod token;
pub mod user;

pub mod r_meta;
pub mod r_persons;
pub mod r_posts;

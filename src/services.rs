pub mod s_persons;
pub mod s_posts;

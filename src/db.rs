pub mod nova_db;

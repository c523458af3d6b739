pub mod ownership;

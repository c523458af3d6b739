pub mod gatherers;

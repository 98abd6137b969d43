//! Common Factory Test Interface: the configuration, scheduling and
//! messaging logic of the Jig-20 test controller.
pub mod config;
pub mod text;
pub mod unitfile;
pub mod unitname;
pub mod types;
pub mod process;
pub mod controller;
pub mod testset;
pub mod graph;
pub mod actions;
pub mod protocol;
pub mod inifile;
pub mod testentry;
pub mod testdev;
pub mod log;
pub mod interface;
pub mod messaging;
pub mod laws;

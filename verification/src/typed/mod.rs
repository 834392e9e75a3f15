//! Typed views and text scanners for MSTS file kinds.

pub mod brake_shoe;
pub mod cvf;
pub mod friction;
pub mod hazard;
pub mod consist;
pub mod shape;
pub mod sigcfg;
pub mod world;
pub mod track_db;
pub mod terrain;
pub mod activity;
pub mod carspawn;
pub mod tsection;
pub mod route;
pub mod path;
pub mod fields;
pub mod cvf_tree;
pub mod shape_tree;
pub mod shape_prims;
pub mod activity_tree;

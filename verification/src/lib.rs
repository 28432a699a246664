//! The workbench: a tiling tree of areas, the workspaces that hold them, the
//! command bus that mutates them, and the daemon-side logic around it.

pub mod text;
pub mod order;
pub mod area;
pub mod shares;
pub mod area_laws;
pub mod workspace;
pub mod json;
pub mod layout_json;
pub mod command;
pub mod workbench;
pub mod cron;
pub mod engine;
pub mod pairs;
pub mod icons;
pub mod theme;
pub mod vendor;
pub mod tree;
pub mod demo;
pub mod herdr;
pub mod exec;
pub mod metrics;
pub mod keymap;
pub mod status;
pub mod treebank;
pub mod mcp;
pub mod settings;
pub mod diff;
pub mod menus;
pub mod gesture;
pub mod viewer;
pub mod files;
pub mod splash;
pub mod reference;
pub mod schema;
pub mod timers;
pub mod charts;
pub mod sweep;
pub mod fix;
pub mod fields;
pub mod snapshot;

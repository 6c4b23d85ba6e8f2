//! Verified core of a Hearts of Iron IV map and state editor.
pub mod diagnostics;
pub mod map_layers;
pub mod interface;
pub mod text;
pub mod province_save;
pub mod facts;
pub mod state;
pub mod tools;
pub mod edit_model;
pub mod collections;
pub mod working_set;
pub mod edit;
pub mod edit_compare;
pub mod problems_ui;
pub mod political;
pub mod presentation;
pub mod lexicographic;
pub mod ascending;
pub mod fields;
pub mod compatibility_harness;
pub mod digest;
pub mod compatibility;
pub mod logistics;
pub mod indexes;
pub mod province_id_index;
pub mod country_files;
pub mod territory;
pub mod map_presentation;
pub mod save_transaction;
pub mod menus;
pub mod layout;
pub mod map_construction;
pub mod history;
pub mod lasso;
pub mod id_assignment;

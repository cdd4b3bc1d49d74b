//! Exodium's rules: the verified part of a launcher for the eXo game
//! collections.

pub mod archives;
pub mod assets;
pub mod cache;
pub mod collections;
pub mod conf;
pub mod content_packs;
pub mod emulator;
pub mod fspath;
pub mod games;
pub mod install;
pub mod layout;
pub mod library;
pub mod lp_launch;
pub mod lp_overlay;
pub mod media;
pub mod models;
pub mod order;
pub mod outside;
pub mod paths;
pub mod playlists;
pub mod reading;
pub mod scan;
pub mod scummvm;
pub mod staging;
pub mod table;
pub mod text;
pub mod titles;
pub mod uninstall;

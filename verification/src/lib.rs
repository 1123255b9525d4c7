//! The logic of a Windows desktop shell: what the web surfaces ask for and are told,
//! the launcher's lists and searches, the NTFS file index, clipboard history, plugins
//! and the browser tabs bridge. Everything that touches the machine (windows, Win32,
//! WinRT, files, processes, HTTP) is left to the caller, which hands plain values in.
pub mod apps;
pub mod audio;
pub mod browser;
pub mod bytes;
pub mod clips;
pub mod commands;
pub mod config;
pub mod desktop;
pub mod files;
pub mod frn_tree;
pub mod github;
pub mod icons;
pub mod journal;
pub mod json;
pub mod media;
pub mod mft;
pub mod net;
pub mod notifications;
pub mod notion;
pub mod number;
pub mod plugins;
pub mod proc;
pub mod script;
pub mod sorting;
pub mod specs;
pub mod spotify;
pub mod tabs;
pub mod text;
pub mod words;

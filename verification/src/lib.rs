//! The verified core of CodeSwarm, a terminal workspace in which several
//! coding agents share one conversation.

pub mod app;
pub mod catalog_rows;
pub mod change_laws;
pub mod choice_laws;
pub mod collaboration;
pub mod command_laws;
pub mod commands;
pub mod config;
pub mod config_keys;
pub mod config_laws;
pub mod config_models;
pub mod controls;
pub mod conversation_laws;
pub mod direct;
pub mod display_laws;
pub mod drawing_laws;
pub mod editor;
pub mod editor_laws;
pub mod encoding;
pub mod event_laws;
pub mod events;
pub mod fixtures;
pub mod footer;
pub mod frame_scheduler;
pub mod goal;
pub mod history;
pub mod ignore_laws;
pub mod journal;
pub mod json;
pub mod label_laws;
pub mod labels;
pub mod launch;
pub mod launch_laws;
pub mod launcher;
pub mod layout;
pub mod layout_laws;
pub mod looping;
pub mod markdown;
pub mod notice;
pub mod opening;
pub mod order;
pub mod outcomes;
pub mod palette;
pub mod panel_laws;
pub mod panels;
pub mod path_index;
pub mod paths;
pub mod permission;
pub mod picker;
pub mod preferences;
pub mod project;
pub mod queue;
pub mod record_laws;
pub mod relay;
pub mod report_laws;
pub mod resume;
pub mod roster;
pub mod roster_laws;
pub mod roster_sync;
pub mod screen;
pub mod session;
pub mod session_keys;
pub mod session_laws;
pub mod settings;
pub mod shown_text;
pub mod slots;
pub mod store;
pub mod streams;
pub mod style;
pub mod surface;
pub mod surface_laws;
pub mod terminal_input;
pub mod text;
pub mod theme;
pub mod trace;
pub mod transcript;

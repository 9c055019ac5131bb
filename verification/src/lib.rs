//! The editing core of a block-based Markdown editor: importing Markdown into
//! blocks, searching, undo history, table edits and the decisions behind
//! keyboard, menu and drop events.

pub mod blocks;
pub mod cell_laws;
pub mod cells;
pub mod context_menu;
pub mod desk_laws;
pub mod document;
pub mod drop_laws;
pub mod editing_laws;
pub mod editor;
pub mod event_laws;
pub mod events;
pub mod file_drop;
pub mod focus;
pub mod grammar;
pub mod history;
pub mod html_laws;
pub mod image_laws;
pub mod images;
pub mod import_laws;
pub mod import_model;
pub mod importer;
pub mod keys;
pub mod kinds;
pub mod line_laws;
pub mod markup;
pub mod markup_laws;
pub mod menu_bar;
pub mod menus;
pub mod motion_laws;
pub mod moving_laws;
pub mod newline;
pub mod paste;
pub mod paste_laws;
pub mod quote_laws;
pub mod quotes;
pub mod reading_laws;
pub mod regions;
pub mod restore;
pub mod rows;
pub mod search;
pub mod search_laws;
pub mod structure;
pub mod table_data;
pub mod table_edit;
pub mod table_edit_laws;
pub mod table_laws;
pub mod table_syntax;
pub mod tables;
pub mod targets;
pub mod text;
pub mod typing_laws;
pub mod undo_laws;
pub mod window;

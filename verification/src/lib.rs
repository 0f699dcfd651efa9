//! The logic of baduhan, a tabbed terminal emulator with splits and browser
//! panes: layout, input, escape-sequence scanning and window behaviour, each
//! stated as a contract and proved. Drawing, processes and the window system
//! stay outside and act on what these functions decide.
pub mod pane_tree;
pub mod pattern;
pub mod text;
pub mod images;
pub mod term_pane;
pub mod modes;
pub mod keys;
pub mod palette;
pub mod hints;
pub mod config;
pub mod command_palette;
pub mod cheatsheet;
pub mod scripting;
pub mod browser_pane;
pub mod pty;
pub mod dragdrop;
pub mod ctl;
pub mod session;
pub mod tabs;
pub mod chrome;
pub mod input;
pub mod links;
pub mod scrollback;
pub mod overlays;
pub mod window;
pub mod tab_ops;
pub mod fitting;
pub mod actions;
pub mod keyboard;
pub mod rearrange;
pub mod mouse;
pub mod message;
pub mod paint;
pub mod decor;
pub mod cells;
pub mod grid_paint;
pub mod tones;
pub mod bar_paint;
pub mod overlay_paint;
pub mod sheet_paint;
pub mod frame_paint;
pub mod app;
pub mod restore;
pub mod drops;
pub mod fonts;

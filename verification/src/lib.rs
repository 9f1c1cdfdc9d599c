//! Connection-manager logic: text formatting, validation rules, pane and tab
//! bookkeeping, session status tracking and credential decisions, each stated
//! with a contract and proved.

pub mod seqs;
pub mod strings;
pub mod utils;
pub mod ids;
pub mod split_view;
pub mod terminal;
pub mod sidebar;
pub mod sidebar_tree;
pub mod sidebar_ui;
pub mod drag_drop;
pub mod toast;
pub mod validation;
pub mod state;
pub mod import;
pub mod history;
pub mod ordering;
pub mod dialogs;

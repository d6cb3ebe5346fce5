//! Decision logic of a desktop text editor's native backend: what each
//! command hands back to the user interface once the filesystem has answered.
pub mod files;
pub mod folder;
pub mod packaging;
pub mod quit;

//! Interact with trash cans laid out after the freedesktop.org trash
//! specification (version 1.0).
//!
//! Trash cans can lie on several devices, so that trashing a file never
//! copies it across file systems. This library holds what the trash cans
//! are made of and the decisions made about them:
//! - the `.trashinfo` file format, read and written ([`trashinfo`]);
//! - paths as byte strings: components, joining, file names, making a path
//!   absolute without touching the file system ([`path`]);
//! - the layout of home, admin and user trash cans ([`trash`]);
//! - all trash cans behind one interface, ordered by priority, and the
//!   choice of the trash can for a file ([`unified`]);
//! - trashed files ([`trash_file`]);
//! - the choices and table layout of the command-line tool ([`cli`],
//!   [`table`]).
//!
//! Reading directories, moving files and asking the operating system are
//! left to the caller, who hands the library what it found.
pub mod bytes;
pub mod cli;
pub mod datetime;
pub mod error;
pub mod path;
pub mod sorting;
pub mod table;
pub mod trash;
pub mod trash_file;
pub mod trashinfo;
pub mod unified;
pub mod urlenc;

pub use datetime::LocalDateTime;
pub use error::{Error, Result};
pub use trash::{Trash, TrashType};
pub use trash_file::TrashFile;
pub use trashinfo::TrashInfo;
pub use unified::{find_any_trash_at, list_trashes, parse_proc_mounts, UnifiedTrash};

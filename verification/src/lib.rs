//! Managing several Git identities: parsing `Name <email>` strings, pairing users for
//! shared commits, searching a list of saved users, and deciding which `git config`
//! commands to run. Running the commands, reading and writing the saved list, and
//! printing are left to the caller.

pub mod color;
pub mod config_repository;
pub mod git;
pub mod switcher;
pub mod text;
pub mod user;
pub mod user_file;
pub mod user_list;

pub use config_repository::ConfigRepository;
pub use git::{Git, Scope};
pub use switcher::Switcher;
pub use user::User;
pub use user_file::UserFile;
pub use user_list::UserList;

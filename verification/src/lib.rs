//! The core of a version switcher for Node.js: it reads the pin of a
//! project, finds the installed version that the pin asks for, and writes
//! the shell script that puts that version in use.
//!
//! The library reads no file and no environment variable. It works on the
//! text of pin and alias files, on directory listings and on search paths
//! that the caller hands to it, and says what is to be read next.
//!
//! - `version`: versions, their text form, matching, and lookup among the
//!   installed versions.
//! - `ranking`: the order of versions.
//! - `misc`: the directories of installed versions and their listings.
//! - `nvmrc`: pins and aliases.
//! - `env_utils`: changes to the environment and the script that makes them.
//! - `manage_changeset`: the changes of one switch.
//! - `query_current`, `install_node`: what the queries for a runtime's
//!   version and the installer work with.
//! - `text`, `decimal`: character sequences and decimal numbers.

pub mod decimal;
pub mod env_utils;
pub mod install_node;
pub mod manage_changeset;
pub mod misc;
pub mod nvmrc;
pub mod query_current;
pub mod ranking;
pub mod text;
pub mod version;

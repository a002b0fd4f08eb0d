//! The logic of a launcher for the titles of a game library.
//!
//! [`manifest`] reads the record of a title from the text of its manifest,
//! [`scan`] reads the manifests of an installation directory into the list of
//! titles, [`config`] reads and writes the configuration text, and
//! [`launcher`] holds the state of the launcher and says what each event
//! does to it. [`text`] and [`decimal`] are the text and number functions
//! underneath.
//!
//! Nothing here touches a file, a window or a process: the program around
//! the library hands over texts and carries out what comes back.

pub mod config;
pub mod decimal;
pub mod launcher;
pub mod manifest;
pub mod scan;
pub mod text;

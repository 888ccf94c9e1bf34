//! Verified core of TubeSub, a desktop tool that uploads subtitle files to
//! the videos of a YouTube channel: the OAuth callback parser and sign-in
//! URL, the paths of the stored files, the protocol that walks the channel's
//! uploads playlist page by page and caches what it found, and the caption
//! upload request.

pub mod api;
pub mod auth;
pub mod paths;
pub mod screens;
pub mod subtitle;
pub mod text;

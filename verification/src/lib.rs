//! The logic of the AICut desktop editor, verified: the template and project
//! files it reads and rewrites (assets, areas, clips, subtitles, speeds and
//! display properties), the names and paths it gives files, the template
//! bridge that takes exports from the editor's plug-in, resumable downloads,
//! and the editor's own templates.
//!
//! Every public function states what it returns in its contract; `laws` holds
//! the properties that span several functions.

pub mod text;
pub mod xml;
pub mod attr;
pub mod scan;
pub mod edit;
pub mod speed;
pub mod area;
pub mod template;
pub mod subtitle;
pub mod props;
pub mod custom;
pub mod paths;
pub mod resource;
pub mod misc;
pub mod laws;
pub mod download;
pub mod bridge;
pub mod reply;
pub mod export;
pub mod store;
pub mod fingerprint;
pub mod workspace;
pub mod platform;

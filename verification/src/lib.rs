//! Resolution and assembly of freedesktop icon themes.
//!
//! The crate models the parts of the freedesktop Icon Theme layout that a
//! theme-packing tool needs: parsing a theme's `index.theme` manifest into
//! directory-matching rules, indexing the icons available under a set of
//! theme folders, size matching for icon lookup, a project of per-icon
//! replacements, and planning the directory tree of a generated theme.
//!
//! All functions here are pure: directory listings and manifest contents are
//! handed in as plain values, so the whole pipeline can be exercised against
//! a synthetic tree. Reading disks, environment variables and writing the
//! generated tree belong to the surrounding application.

pub mod assoc;
pub mod icon_catalog;
pub mod icon_model;
pub mod icon_theme;
pub mod ini;
pub mod project;
pub mod sorting;
pub mod text;
pub mod theme_generator;

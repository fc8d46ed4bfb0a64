//! Verified core of the Oreon system manager: parsing of dnf, docker and
//! distrobox output, the commands the pages run, and the theme settings.
pub mod text;
pub mod process;
pub mod theme;
pub mod pages;

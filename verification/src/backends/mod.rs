//! Backends: the package, Flatpak and service managers, as far as their
//! output is interpreted by the library.
pub mod dnf;
pub mod flatpak;
pub mod flatpak_backend;
pub mod systemd;

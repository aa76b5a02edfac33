//! A zero-configuration LAN drop box: discovers the host's bindable
//! addresses, plans one upload listener per address (plaintext or with an
//! ephemeral self-signed TLS identity), and decodes the upload form's
//! submissions — both the self-describing multipart shape and the
//! URL-encoded one.  The OS, HTTP and terminal edges stay outside; the
//! decisions and the parsing live here, verified.
pub mod address;
pub mod bootstrap;
pub mod bytes;
pub mod encode;
pub mod form;
pub mod multipart;
pub mod service;
pub mod tls;
pub mod url;

//! Chapeau: a model of what is installed on a Fedora system, why it is
//! there, and what depends on it.
pub mod backends;
pub mod cli;
pub mod discovery;
pub mod errors;
pub mod model;
pub mod order;
pub mod seqs;
pub(crate) mod stamp;
pub mod text;

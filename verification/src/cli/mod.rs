//! What the command-line views compute from the knowledge base; printing
//! them is the application's part.
pub mod dependencies;
pub mod domains;
pub mod overview;
pub mod show;
pub mod roots;
pub mod listings;
pub mod scan;
pub mod why;

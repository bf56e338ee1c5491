//! What holds of the library as a whole, written out over what goes in and what comes out.

pub mod boards;
pub mod calls;
pub mod changes;
pub mod classic;
pub mod drawing;
pub mod keys;
pub mod listing;
pub mod loading;
pub mod operations;
pub mod output;
pub mod places;
pub mod running;
pub mod scheduling;
pub mod settings;
pub mod showing;
pub mod starting;
pub mod texts;
pub mod watching;
pub mod workspace;

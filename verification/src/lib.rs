pub mod action;
pub mod dict;
pub mod driver;
pub mod error;
pub mod game;
pub mod guesser;
pub mod protocol;
pub mod text;
pub mod preprocess;

//! Small terminal games and a broadcast chat core, with their rules verified.
pub mod bulls_cows;
mod random;
pub mod chat;
pub mod tictactoe;
pub mod brainfuck;
pub mod minesweeper;
pub mod hangman;
pub mod clock;
pub mod tui;

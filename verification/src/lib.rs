pub mod draw;
pub mod game;
pub mod game_options;
pub mod tetris_board;
pub mod tetromino;

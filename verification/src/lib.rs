//! The decision engine of a snake on a shared grid: a compact board state with occupancy
//! masks, move generation for agents that move at the same time, a joint move that can be
//! taken back, and a depth-limited search over both. Every function is verified against a
//! contract over a mathematical view of the state; the few items that are believed rather
//! than proved wrap `tinyvec` and one function of `std`, in `bounded` and `coordinate`.

pub mod coordinate;
pub mod mask;
pub mod direction;
pub mod bounded;
pub mod small;
pub mod turn;
pub mod makeunmake;
pub mod cart_prod;
pub mod genmove;
pub mod eval;
pub mod search;
pub mod board;
pub mod boolboard;
pub mod table;
pub mod minimax;
pub mod meal;

//! Activities layered over a tiling compositor's flat workspaces: the naming
//! convention, the persisted state and the decisions of a switch, and the ranking
//! of candidates for an interactive picker.
pub mod codec;
pub mod state;
pub mod switch;
pub mod ranker;

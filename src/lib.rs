//! Texas hold'em hand evaluation: the card model, a deck, the classification of
//! five-card hands, the choice of the best hand out of seven cards, and the
//! ranking of several players' hands.

pub mod deck;
pub mod combinations;
pub mod hand;
pub mod ranking;
pub mod showdown;

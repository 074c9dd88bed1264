pub mod base;
pub mod ramen;
pub mod support_card;
pub mod uma;

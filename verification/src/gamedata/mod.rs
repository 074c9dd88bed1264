pub mod constants;
pub mod data;
pub mod event;
pub mod ramen;
pub mod support_card;
pub mod uma;

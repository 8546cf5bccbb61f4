pub mod portfolio_status;
pub mod affiliate_map;
pub mod costs;
pub mod superficial_loss;
pub mod delta_list;

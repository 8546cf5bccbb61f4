pub mod tx_csv;
pub mod tx_loader;

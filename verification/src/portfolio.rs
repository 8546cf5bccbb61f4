pub mod affiliate;
pub mod bookkeeping;
pub mod csv_common;
pub mod cumulative_gains;
pub mod currency;
pub mod io;
pub mod misc;
pub mod render;
pub mod splits;
pub mod summary;
pub mod tx;
pub mod tx_utils;
pub mod txdelta;

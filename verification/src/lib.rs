//! Adjusted cost base (ACB) and capital gains bookkeeping for Canadian
//! investors: transaction models, ACB deltas, superficial loss handling,
//! summaries and table rendering models.

pub mod util;
pub mod portfolio;

//! Intake and dispatch core of a payment gateway: circuit breakers, routing
//! policy, an in-memory ledger, counters and a bounded intake queue.

pub mod breaker;
pub mod config;
pub mod ledger;
pub mod metrics;
pub mod money;
pub mod payment;
pub mod queue;
pub mod router;
pub mod service;
pub mod text;

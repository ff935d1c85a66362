//! Installment-plan scheduling for amortized consumer-credit contracts:
//! calendar arithmetic, due-date schedules, the installment-count sweep rules
//! and the wire encoding of plan records.

pub mod calendar;
pub mod schedule;
pub mod plan;
pub mod wire;
pub mod decode;
pub mod command;

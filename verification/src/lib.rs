//! Budgeting domain library: money values, an event-sourced aggregate
//! runtime, budget item and transaction stores, Swedish workday calendar
//! rules, bank-statement import (reading, planning, running against a
//! ledger), merging of duplicate accounts and a user's list of budgets.

pub mod money;
pub mod cqrs;
pub mod text;
pub mod account;
pub mod calendar;
pub mod holidays;
pub mod budget;
pub mod framework;
pub mod import;
pub mod user_budgets;
pub mod accounts;
pub mod ledger;
pub mod auto_budget;
pub mod snapshot;
pub mod rules;

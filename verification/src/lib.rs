//! Personal finance ledger: accounts, categories, transactions, savings pockets,
//! debts and receivables, a mutual-fund portfolio and a spreadsheet link, with
//! the bookkeeping rules that keep balances in step.

pub mod text;
pub mod order;
pub mod models;
pub mod db;
pub mod outside;
pub mod commands;
pub mod listing;
pub mod report;
pub mod laws;
pub mod catalog;
pub mod portfolio;
pub mod sync;
pub mod bibit;

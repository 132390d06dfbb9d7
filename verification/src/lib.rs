//! Order extraction and paginated layout for produce-distribution documents.
//!
//! The crate turns two kinds of input — a semi-structured ordering
//! spreadsheet grid and structured order / pick / invoice records — into
//! fully laid-out, paginated document plans:
//!
//! * [`grid`] models the spreadsheet as typed cells and locates the header
//!   row;
//! * [`buyers`] resolves buyer columns from the header row;
//! * [`extract`] walks the data rows and produces order lines, discarding
//!   non-positive quantities;
//! * [`orders`], [`picks`] and [`invoices`] group lines per document kind
//!   and compute subtotals, VAT and grand totals, on the shared grouping
//!   and summation theory of [`groups`];
//! * [`errors`] is the taxonomy of grid input errors;
//! * [`layout`] is the generic pagination engine that lays a grouped table
//!   out across fixed-height pages, repeating the table header after every
//!   page break;
//! * [`numbers`], [`money`] and [`dates`] hold the verified numeric,
//!   currency and date formatting that the documents use;
//! * [`utils`] holds object-store naming helpers and CLI argument records.
//!
//! Rendering of the plans to actual page bytes, file and network I/O all
//! live outside this crate; every function here is verified.

pub mod buyers;
pub mod dates;
pub mod errors;
pub mod extract;
pub mod grid;
pub mod groups;
pub mod invoices;
pub mod layout;
pub mod money;
pub mod numbers;
pub mod orders;
pub mod picks;
pub mod utils;

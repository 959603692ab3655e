//! Library core of InkScope: rule evaluation for Legado book sources,
//! text processing of downloaded novels, and the decisions that drive
//! the desktop client.

pub mod text;
pub mod rules;
pub mod chunking;
pub mod json;
pub mod outside;
pub mod html;
pub mod web;
pub mod address;
pub mod source;
pub mod search;
pub mod toc;
pub mod book;
pub mod model;
pub mod report;
pub mod page;

//! A chart of how strongly each type affects each other type, with the
//! queries that group types by effectiveness and the records of the chart's
//! file form.

pub mod display;
pub mod effectiveness;
pub mod files;
pub mod groups;
pub mod menu;
pub mod text;
pub mod type_chart;

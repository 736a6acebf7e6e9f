//! Grid-planning data library: node indexing of the distribution network,
//! area and zone code tables, spreadsheet header recognition and the
//! grouping rules that turn raw GIS and spreadsheet records into the
//! per-area data sets used by the planning reports.
#![allow(unused_imports)]

use vstd::prelude::*;

pub mod text;
pub mod aoj;
pub mod group;
pub mod geo1;
pub mod geo2;
pub mod geo3;
pub mod geo4;
pub mod ld1;
pub mod pattern;
pub mod der;

verus! {

} // verus!

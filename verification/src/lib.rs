//! Verified core of a meteogram fetcher: city lookup results are parsed from
//! a JSON autocomplete response, a selected city's forecast page is scraped
//! for the meteogram image URL, and the resulting bytes are routed to an
//! output destination. All remote I/O lives outside this crate; every
//! function here is a pure computation with a verified contract.

pub mod city;
pub mod errors;
pub mod html;
pub mod json;
pub mod pipeline;
pub mod selection;
pub mod text;

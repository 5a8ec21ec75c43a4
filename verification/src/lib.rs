//! A terminal dashboard for the metrics of an inference server, verified.
//!
//! From the wire to the screen: [`scrape`] says what is asked of the endpoint and
//! what its answers change; [`metrics`] reads a payload into a sample, with
//! [`labels`], [`key`] and [`keymap`] below it; [`history`] keeps the ring of
//! recent samples; [`rate`], [`quantile`] and [`graphs`] compute over it;
//! [`derive`] collects the figures; [`once`] writes them as text, and
//! [`dashboard`] draws them, from [`panels`], [`charts`], [`latency`],
//! [`detail`] and [`overlays`], as operations of the terminal ([`screen`],
//! [`plot`]). [`ui`] is the state of the screen and what keys do to it. [`account`]
//! ties the figures to the scrapes that they come from.
//!
//! Numbers are binary64 bit patterns ([`num`]). Their order is decided here;
//! arithmetic, reading and printing are functions that the caller hands in, and
//! contracts hold for whatever those compute.
use vstd::prelude::*;

pub mod account;
pub mod args;
pub mod charts;
pub mod dashboard;
pub mod derive;
pub mod detail;
pub mod graphs;
pub mod history;
pub mod key;
pub mod keymap;
pub mod labels;
pub mod latency;
pub mod metrics;
pub mod num;
pub mod once;
pub mod overlays;
pub mod panels;
pub mod plot;
pub mod quantile;
pub mod rate;
pub mod scrape;
pub mod screen;
pub mod select;
pub mod show;
pub mod text;
pub mod ui;

verus! {

} // verus!

//! Lazy, composable sequence combinators with machine-checked contracts.
//!
//! The pull interface is [`producer::Producer`]: a cursor that hands out one
//! element per pull. In contracts a producer is described by the mathematical
//! sequence of the elements it has not handed out yet, so the contract of a
//! combinator says which sequence it yields as a function of the sequences of
//! its inputs. Capabilities beyond front pulls (back pulls, an exact length,
//! restarting) are traits of their own, and a combinator has one exactly when
//! its inputs let it keep the promise.
//!
//! * [`sources`] turns vectors, slices, single values and counters into
//!   producers; [`consume`] drains producers into buffers; [`iter`] leads
//!   from and to the standard iterator interface.
//! * [`range`], [`interleave`], [`merge`], [`intersperse`], [`zip`],
//!   [`chain`], [`product`], [`batching`], [`put_back`] and [`repeat_n`] are
//!   the combinators.
//! * [`group_map`], [`partition`], [`tree_reduce`], [`one`], [`fold`] and
//!   [`arrays`] reduce a whole sequence to one result.

pub mod producer;
pub mod sources;
pub mod consume;
pub mod iter;
pub mod range;
pub mod interleave;
pub mod merge;
pub mod intersperse;
pub mod zip;
pub mod chain;
pub mod product;
pub mod batching;
pub mod put_back;
pub mod repeat_n;
pub mod group_map;
pub mod partition;
pub mod tree_reduce;
pub mod one;
pub mod fold;
pub mod arrays;

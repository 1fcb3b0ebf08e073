//! An operational semantics of interaction terms, and the analysis of
//! multi-traces against them.
//!
//! An interaction term describes the behaviours of a set of lifelines that
//! exchange messages: broadcasts, put together by sequencing, choice,
//! synchronisation and repetition. This library computes which actions a
//! term can show next (its frontier), what is left of the term once one of
//! them has fired (execution), and what a term looks like without some
//! lifelines (pruning and elimination). On top of these it decides, step by
//! step, whether a multi-trace is a behaviour of a term.
//!
//! Every executable function states what it returns over a mathematical
//! model of its arguments: `Term` for interactions, sets and sequences for
//! collections. The modules whose name ends in `laws`, `canonical` and
//! `invariants` hold what is proved of these models.

pub mod action;
pub mod actions;
pub mod affected;
pub mod analysis;
pub mod canonical;
pub mod colocalizations;
pub mod context;
pub mod dimensions;
pub mod eliminate;
pub mod execute;
pub mod exploration;
pub mod flags;
pub mod frags;
pub mod frontier;
pub mod frontier_laws;

pub mod handler;
pub mod ids;
pub mod interaction;
pub mod invariants;
pub mod labels;
pub mod laws;
pub mod lifelines;
pub mod message;
pub mod message_laws;
pub mod naming;
pub mod options;
pub mod position;
pub mod prunable;
pub mod prune;
pub mod reading;
pub mod sets;
pub mod simplify;
pub mod simulation;
pub mod sync;
pub mod trace;
pub mod validity;

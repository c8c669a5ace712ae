//! Compile an intent graph into a parallel plan, run it, and prove what happened.

use vstd::prelude::*;

pub mod act;
pub mod api;
pub mod arms;
pub mod attempt_laws;
pub mod audit;
pub mod binding;
pub mod binding_laws;
pub mod call_laws;
pub mod check_laws;
pub mod choice_laws;
pub mod clear;
pub mod cli;
pub mod code;
pub mod command_laws;
pub mod compile_laws;
pub mod compile_model;
pub mod compiler;
pub mod config;
pub mod cut;
pub mod declared_laws;
pub mod diff;
pub mod domain;
pub mod door_laws;
pub mod effect;
pub mod events;
pub mod fill_laws;
pub mod fingerprint;
pub mod footprint_laws;
pub mod goals;
pub mod graph;
pub mod hash;
pub mod intent;
pub mod invoicing;
pub mod invoicing_laws;
pub mod json;
pub mod kept_laws;
pub mod lane_laws;
pub mod ledger;
pub mod lint;
pub mod lookup_laws;
pub mod loops;
pub mod mcp;
pub mod measured;
pub mod measured_laws;
pub mod message_laws;
pub mod model_laws;
pub mod names;
pub mod naming;
pub mod object;
pub mod openapi;
pub mod order;
pub mod order_check;
pub mod outputs;
pub mod page;
pub mod page_laws;
pub mod plan;
pub mod planner;
pub mod pred;
pub mod pred_eq;
pub mod pred_laws;
pub mod pred_parse;
pub mod pred_print;
pub mod pred_unroll;
pub mod quarters;
pub mod races;
pub mod read_laws;
pub mod receipt_laws;
pub mod recipes;
pub mod recorder;
pub mod reduce;
pub mod report;
pub mod run;
pub mod run_laws;
pub mod scheduler;
pub mod score_laws;
pub mod screen;
pub mod script;
pub mod selectors;
pub mod seqs;
pub mod service_laws;
pub mod session;
pub mod settling;
pub mod show;
pub mod shown_laws;
pub mod skeleton;
pub mod spans;
pub mod spread_laws;
pub mod summary_laws;
pub mod tables;
pub mod tasks;
pub mod tell;
pub mod text;
pub mod text_laws;
pub mod validate;
pub mod want_laws;
pub mod want_order;
pub mod world;
pub mod writes;

verus! {

} // verus!

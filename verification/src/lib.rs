//! Core of a competitive-programming judge: verdict bookkeeping, output
//! comparison, sandbox result classification, least-loaded worker dispatch,
//! and the relational grading state (submissions, subtasks, tests, scores).

pub mod clock;
pub mod compare;
pub mod forms;
pub mod id;
pub mod laws;
pub mod multipart;
pub mod pool;
pub mod rng;
pub mod sandbox;
pub mod sites;
pub mod seqtools;
pub mod split;
pub mod store;
pub mod store_admin;
pub mod store_grading;
pub mod store_scores;
pub mod store_tests;
pub mod store_view;
pub mod store_read;
pub mod text;
pub mod verdict;

//! A relational database core with row-level security, atomic SQL batches and a replayable
//! change log, together with the gateway logic that serves it over HTTP.

pub mod alter;
pub mod alterations;
pub mod answers;
pub mod api;
pub mod ast;
pub mod auth;
pub mod authorization;
pub mod cache;
pub mod calls;
pub mod cascades;
pub mod catalog;
pub mod chain;
pub mod codec;
pub mod columns;
pub mod cuts;
pub mod declarations;
pub mod decode;
pub mod deferred;
pub mod definitions;
pub mod depend;
pub mod dml;
pub mod embed;
pub mod embeddings;
pub mod encode;
pub mod error;
pub mod eval;
pub mod execute;
pub mod filters;
pub mod functions;
pub mod gateway;
pub mod guarantees;
pub mod guards;
pub mod identities;
pub mod insertions;
pub mod invocations;
pub mod json;
pub mod layout;
pub mod meaning;
pub mod mutations;
pub mod normalize;
pub mod ordering;
pub mod ordmap;
pub mod outside;
pub mod pages;
pub mod pieces;
pub mod plans;
pub mod policy;
pub mod postgrest;
pub mod projection;
pub mod protections;
pub mod quoting;
pub mod references;
pub mod referential;
pub mod relational;
pub mod removals;
pub mod replay;
pub mod replies;
pub mod replica;
pub mod requests;
pub mod restore;
pub mod rules;
pub mod same;
pub mod scalar;
pub mod select;
pub mod statement;
pub mod text;
pub mod upkeep;
pub mod validate;
pub mod value;
pub mod views;
pub mod visibility;
pub mod words;

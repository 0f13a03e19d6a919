//! The middle of a compiler for a small language with algebras: syntax trees from parse
//! trees, type inference, and rewriting of programs in continuation-passing style by the
//! laws that the algebras declare.

pub mod alike;
pub mod apply_laws;
pub mod ast;
pub mod ast_views;
pub mod const_eval;
pub mod cps;
pub mod cps_laws;
pub mod decl_views;
pub mod derivative_laws;
pub mod derivative_rules;
pub mod derive;
pub mod errors;
pub mod escape;
pub mod escape_laws;
pub mod field_reads;
pub mod finish_laws;
pub mod fold_laws;
pub mod forward;
pub mod fresh;
pub mod infer_calls;
pub mod infer_expr;
pub mod infer_finish;
pub mod infer_fns;
pub mod infer_impls;
pub mod infer_keeps;
pub mod infer_laws;
pub mod infer_overlap;
pub mod infer_pending;
pub mod infer_schemes;
pub mod infer_state;
pub mod infer_typed;
pub mod infer_types;
pub mod inside;
pub mod jump_laws;
pub mod lang;
pub mod listing;
pub mod lower;
pub mod lower_items;
pub mod lower_laws;
pub mod lower_specs;
pub mod meaning;
pub mod meaning_laws;
pub mod meaning_parts;
pub mod mutability;
pub mod mutability_laws;
pub mod mutability_sites;
pub mod node_counts;
pub mod node_ids;
pub mod numerals;
pub mod optimize;
pub mod optimize_laws;
pub mod orderly_laws;
pub mod pass_laws;
pub mod pattern_laws;
pub mod patterns;
pub mod plain_exprs;
pub mod plain_fns;
pub mod plain_keeps;
pub mod print;
pub mod program_laws;
pub mod rebuild;
pub mod rebuild_laws;
pub mod registry;
pub mod rename;
pub mod round_trip;
pub mod rule_laws;
pub mod running;
pub mod search_laws;
pub mod shapes;
pub mod simple;
pub mod subst;
pub mod subst_laws;
pub mod table;
pub mod text;
pub mod text_parts;
pub mod tree;
pub mod ty;
pub mod type_laws;
pub mod type_texts;
pub mod types;
pub mod typing;
pub mod typing_laws;
pub mod unifiers;
pub mod unify;
pub mod unify_laws;
pub mod vars;
pub mod walk_calls;
pub mod walk_keeps;
pub mod walk_laws;
pub mod zero;

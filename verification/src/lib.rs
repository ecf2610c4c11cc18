//! A forward-chaining Datalog-style deduction engine for authorization
//! caveats: typed atomic values, per-variable constraints, a small
//! stack-based expression language, and a saturation driver with
//! resource limits.

pub mod constraint;
pub mod error;
pub mod expression;
pub mod matching;
pub mod predicate;
pub mod rule;
pub mod symbol;
pub mod value;
pub mod world;

pub use constraint::{
    BytesConstraint, BytesConstraintV, Constraint, ConstraintKind, ConstraintKindV, ConstraintV,
    DateConstraint, IntConstraint, IntConstraintV, StrConstraint, StrConstraintV,
    SymbolConstraint, SymbolConstraintV, check_spec, contains_bytes, contains_i64,
    contains_string, contains_u64, regex_accepts, regex_compiles, str_ends_with,
    str_starts_with,
};
pub use expression::{
    Binary, Expression, ExpressionV, Op, OpV, Unary, add_wrap, binary_spec, eval_spec,
    expr_true, neg_wrap, run_ops, step_op, unary_spec,
};
pub use matching::{
    Binding, MatchedVariables, env_get, env_ground, mv_complete, mv_env, mv_get, mv_index,
    mv_init, mv_insert, opt_id_view,
};
pub use predicate::{
    Fact, Predicate, PredicateV, clone_ids, fact, ground_pred, id_match, id_match_exec,
    match_preds, match_spec, pred, views_of,
};
pub use error::RunLimit;
pub use symbol::{SymbolTable, sym, table_of, var};
pub use rule::{
    Caveat, CombineIt, Rule, RuleV, apply_spec, body_vars, combine_spec, constrained_rule,
    constraints_of, constraints_pass, emit_facts, envs_of, expressed_rule, exprs_of, exprs_true,
    fact_match, facts_ground, facts_of, head_ok, pred_vars, preds_of, rule, rule_envs,
    subst_head, unify_args,
};
pub use predicate::pred_eq;
pub use value::{ID, IdV, Symbol, bytes_eq, date, ground, id_eq, integer, string};
pub use world::{
    RunLimits, World, default_limits, derived_all, insert_new, iterate, lemma_iterate_stable,
    lemma_query_sound, lemma_run_deterministic, query_spec, rules_of, saturated, world_step,
};

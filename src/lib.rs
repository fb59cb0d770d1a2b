//! A value-semantics, copy-on-write array of dynamically typed values.
mod array;
mod buffer;
mod error;
mod func;
mod join;
mod laws;
mod value;

pub use array::{all_comparable, ascending, boundary_at, cycled, element_at, flat, flat_upto, out_of_bounds, resolve, slice_of, Array};
pub use buffer::{buffer_items, models};
pub use error::{ArrayError, Kind, SourceError, Span};
pub use value::{comparable, kind_of, lemma_order, model_le, text_le, Model, Value};
pub use func::{all_answer, answers, cast_error, cast_message, declares_other, fold_chain, fold_step, is_verdict, kept, lift, map_args, map_succeeds, may_return, invoke, verdict, Func};
pub use join::{join_chain, join_operands, join_step, lift_join, opt_model, sep_model};
pub use laws::{
    law_index_wraps, law_insert_remove, law_iteration_length, law_push_pop, law_repeat, law_slice,
    law_sorted_keeps_ascending,
};

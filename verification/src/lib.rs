//! The analysis core of a small register-based bytecode virtual machine:
//! fixed-point decimal arithmetic with explicit wrapping and rounding
//! policy, a two-variant runtime value union over numbers and byte strings,
//! a three-bank typed register model, and a data-flow graph builder that
//! derives def-use edges from a control-flow graph of high-level
//! instructions. Every function's behaviour is stated in its contract and
//! machine-checked; the graph itself lives in a petgraph stable directed
//! multigraph behind a small trusted boundary.

use vstd::prelude::*;

mod dfg;
mod errors;
mod number;
mod value;
mod ystring;

pub use dfg::AnyReg;
pub use dfg::CodeLoc;
pub use dfg::DataFlowInfo;
pub use dfg::HLInstr;
pub use dfg::Node;
pub use dfg::NumberReg;
pub use dfg::SourceModify;
pub use dfg::StringReg;
pub use dfg::TargetModify;
pub use dfg::ValueReg;
pub use dfg::classify_edges;
pub use dfg::classify_spec;
pub use dfg::decode_operands;
pub use dfg::decode_spec;
pub use dfg::BasicBlock;
pub use dfg::ControlFlowGraph;
pub use dfg::DataFlowGraph;
pub use dfg::EdgeRecord;
pub use dfg::RegGraph;
pub use dfg::VMExec;
pub use dfg::cfg_wf;
pub use dfg::code_wf;
pub use dfg::edges_of_blocks;
pub use dfg::edges_of_instr;
pub use dfg::edges_of_locs;
pub use dfg::globals_index_seq;
pub use dfg::graph_edges;
pub use dfg::graph_nodes;
pub use dfg::instr_wf;
pub use dfg::lemma_globals_complete;
pub use dfg::lemma_node_stability;
pub use dfg::node_seq;
pub use dfg::reg_index;
pub use dfg::reg_wf;
pub use dfg::total_locs;
pub use dfg::edge_line;
pub use dfg::edge_rec;
pub use dfg::info_label;
pub use dfg::node_label;
pub use dfg::render_edges;
pub use dfg::render_nodes;
pub use dfg::smod_chars;
pub use dfg::tmod_chars;
pub use errors::ExpectedTy;
pub use errors::expected_ty_chars;
pub use errors::runtime_err_msg;
pub use errors::wrong_arg_chars;
pub use errors::RuntimeErr;
pub use errors::ValueResult;
pub use errors::WrongArgType;
pub use number::Number;
pub use number::NumberParseErr;
pub use number::SCALE;
pub use number::chars_of;
pub use number::digits_of;
pub use number::fact_wrap;
pub use number::frac_digits;
pub use number::lemma_parse_stringify_round_trip;
pub use number::number_str;
pub use number::parse_num;
pub use number::parse_val;
pub use number::trunc_div;
pub use number::trunc_rem;
pub use number::wdiv64;
pub use number::wrap64;
pub use number::wrem64;
pub use number::digit_val;
pub use number::digits_val;
pub use number::find_dot;
pub use number::is_digit_ch;
pub use number::pow10;
pub use number::scan_frac;
pub use number::scan_int;
pub use number::parse_err_msg;
pub use value::Value;
pub use value::scratch_after;
pub use value::value_le;
pub use value::value_lt;
pub use ystring::YString;
pub use ystring::str_bytes;
pub use ystring::char_utf8;
pub use ystring::bytes_le;
pub use ystring::bytes_lt;
pub use ystring::str_sub;
pub use ystring::is_match_at;
pub use ystring::last_match_before;

verus! {

} // verus!

//! The record that the command-line optimizer keeps of a run.
use vstd::prelude::*;

use crate::protos::{RustError, SkiPassRunInfo, SkiPassRunStatus};

verus! {

/// The run information of a failed run: the same run, with the status
/// `Failed` and the message of the error that stopped it. The caller
/// writes it out.
pub fn handle_skipass_run_error(error_message: &String, run_info_immut: &SkiPassRunInfo) -> (run_info: SkiPassRunInfo)
    ensures
        run_info.input_skp_json_name@ == run_info_immut.input_skp_json_name@,
        run_info.optimized_skp_path@ == run_info_immut.optimized_skp_path@,
        run_info.status == SkiPassRunStatus::Failed.spec_value(),
        run_info.rust_error matches Some(e) && e.error_message@ == error_message@,
{
    let mut run_info = SkiPassRunInfo {
        input_skp_json_name: run_info_immut.input_skp_json_name.clone(),
        optimized_skp_path: run_info_immut.optimized_skp_path.clone(),
        status: run_info_immut.status,
        rust_error: None,
    };
    run_info.status = SkiPassRunStatus::Failed.value();
    let rust_error = RustError { error_message: error_message.clone() };
    run_info.rust_error = Some(rust_error);
    run_info
}

} // verus!

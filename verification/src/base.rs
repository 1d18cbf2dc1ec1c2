use vstd::prelude::*;
use crate::error::HinaError;
use crate::flag::Flag;
use crate::record::RMRecord;

verus! {

/// The interface a command module offers the executor.  A module that does
/// not override `run` reports itself unimplemented.
pub trait HinaModuleRun {
    fn run(
        &self,
        _work_path: &String,
        _data_path: &String,
        _recycle_path: &String,
        _user: &String,
        _uid: &String,
        _flags: &Flag,
        _rm_stack: &mut Vec<RMRecord>,
        _arg: Option<&String>,
    ) -> Result<(), HinaError> {
        let err = "Function run not implemented".to_owned();
        Err(HinaError::NotImplementedError(err))
    }
}

} // verus!

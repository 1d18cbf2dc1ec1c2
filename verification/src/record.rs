use vstd::prelude::*;
use crate::func::local_time_string;

verus! {

/// One quarantined file: where it sits now (`file`), where it came from
/// (`src`), and when it was removed.
#[derive(Debug)]
pub struct RMRecord {
    file: String,
    src: String,
    delete_time: String,
}

/// Mathematical image of a ledger record.
pub ghost struct RecordView {
    pub file: Seq<char>,
    pub src: Seq<char>,
    pub delete_time: Seq<char>,
}

impl View for RMRecord {
    type V = RecordView;

    closed spec fn view(&self) -> RecordView {
        RecordView { file: self.file@, src: self.src@, delete_time: self.delete_time@ }
    }
}

impl RMRecord {
    pub fn from(file: String, src: String, delete_time: String) -> (r: RMRecord)
        ensures
            r@.file == file@,
            r@.src == src@,
            r@.delete_time == delete_time@,
    {
        RMRecord { file, src, delete_time }
    }

    /// A record stamped with the present local time.
    pub fn new(file: String, src: String) -> (r: RMRecord)
        ensures
            r@.file == file@,
            r@.src == src@,
    {
        let delete_time = local_time_string();
        RMRecord { file, src, delete_time }
    }

    pub fn get_file(&self) -> (r: &String)
        ensures
            r@ == self@.file,
    {
        &self.file
    }

    pub fn get_src(&self) -> (r: &String)
        ensures
            r@ == self@.src,
    {
        &self.src
    }

    pub fn get_del_time(&self) -> (r: &String)
        ensures
            r@ == self@.delete_time,
    {
        &self.delete_time
    }
}

} // verus!

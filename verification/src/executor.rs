use vstd::prelude::*;
use crate::config::Config;
use crate::strutil::{path_join, path_join_spec};
use crate::{DATA_DIR, RECYCLE};

verus! {

/// One invocation's working state: the parsed configuration and the paths
/// and identity it runs with.
#[derive(Debug)]
pub struct Executor {
    pub config: Config,
    pub work_path: String,
    pub data_path: String,
    pub recycle_path: String,
    pub user: String,
    pub uid: String,
}

impl Executor {
    /// Assemble the executor from the parsed configuration and the
    /// environment the surrounding program read: the home and working
    /// directories and the user's name and id.
    pub fn build(
        config: Config,
        home: &String,
        work_path: &String,
        user: String,
        uid: String,
    ) -> (r: Executor)
        ensures
            r.config == config,
            r.work_path@ == work_path@,
            r.data_path@ == path_join_spec(home@, DATA_DIR@),
            r.recycle_path@ == path_join_spec(path_join_spec(home@, DATA_DIR@), RECYCLE@),
            r.user@ == user@,
            r.uid@ == uid@,
    {
        let data_path = path_join(home.as_str(), DATA_DIR);
        let recycle_path = path_join(data_path.as_str(), RECYCLE);
        Executor { config, work_path: work_path.clone(), data_path, recycle_path, user, uid }
    }
}

} // verus!

//! The settings of the application.

use vstd::prelude::*;
use vstd::string::StringExecFns;

verus! {

/// All settings.
#[derive(Debug, Clone)]
pub struct AppConf {
    pub dag: DAGConf,
    pub log: LogConf,
}

/// Where the query files are: the folder `name` inside `folder`.
#[derive(Debug, Clone)]
pub struct DAGConf {
    pub name: String,
    pub folder: String,
}

/// How much is logged.
#[derive(Debug, Clone)]
pub struct LogConf {
    pub level: String,
}

/// The path of the folder `name` inside `folder`, with a slash at its end.
pub open spec fn directory_path(folder: Seq<char>, name: Seq<char>) -> Seq<char> {
    folder + seq!['/'] + name + seq!['/']
}

impl DAGConf {
    /// The directory that holds the query files.
    pub fn directory(&self) -> (path: String)
        ensures
            path@ == directory_path(self.folder@, self.name@),
    {
        proof {
            reveal_strlit("/");
        }
        assert("/"@ =~= seq!['/']);
        let mut path = self.folder.clone();
        path.append("/");
        path.append(self.name.as_str());
        path.append("/");
        path
    }
}

} // verus!

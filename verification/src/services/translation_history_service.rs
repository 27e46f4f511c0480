//! Where the history of translations is kept.
use vstd::prelude::*;

verus! {

/// The history store of an application data folder.
pub struct TranslationHistoryService {
    app_data_dir: String,
}

impl TranslationHistoryService {
    /// The folder that holds the history database.
    pub closed spec fn data_dir(&self) -> Seq<char> {
        self.app_data_dir@
    }

    /// The store of the given folder.
    pub fn new(app_data_dir: &str) -> (r: Self)
        ensures
            r.data_dir() == app_data_dir@,
    {
        TranslationHistoryService { app_data_dir: app_data_dir.to_owned() }
    }

    /// The folder that holds the history database.
    pub fn app_data_dir(&self) -> (r: &str)
        ensures
            r@ == self.data_dir(),
    {
        self.app_data_dir.as_str()
    }

    /// The name of the database file in that folder.
    pub fn database_file_name() -> (r: String)
        ensures
            r@ == "history.db"@,
    {
        "history.db".to_string()
    }
}

} // verus!

use vstd::prelude::*;

verus! {

/// The command-line settings of the bot service.
#[derive(Debug, PartialEq)]
pub struct ArgsCli {
    /// Chat service API token.
    pub token: String,
    /// Users allowed to talk to the bot.
    pub allowed_user_ids: Vec<u64>,
    /// Path of the database file.
    pub db_file_path: String,
    /// Time zone name used to show and read dates.
    pub tz: String,
    /// Debug mode.
    pub debug: bool,
}

} // verus!

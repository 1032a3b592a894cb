//! The configuration record the rest of the program hands around. Loading
//! it from disk, and its serialized form, live with the program around the
//! library.

use vstd::prelude::*;

verus! {

/// The user's configuration: database coordinates, identity, remote
/// origin, and report preferences.
#[derive(Debug)]
pub struct Config {
    pub db_host: String,
    pub db_port: String,
    pub db_user: String,
    pub db_password: String,
    pub db_database: String,
    pub user: String,
    pub email: String,
    pub gitlab_user: String,
    pub gitlab_ac_token: String,
    pub gitlab_domain: String,
    pub show_run_time: bool,
    pub show_due_time: bool,
    pub show_content: bool,
    pub order_by: String,
    pub task_title_align: String,
    pub window_width: i32,
    pub use_gitlab_todo_crate_time: bool,
    pub show_num_on_div: bool,
}

} // verus!

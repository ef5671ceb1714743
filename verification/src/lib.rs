//! Release planning for a workspace of packages: which packages get a new
//! version, which one, what their changelog says, and how the one outgoing
//! release request is kept in step with it.
//!
//! A run goes through the modules in this order. [`graph`] orders the
//! packages by their dependencies; [`cycles`] shows that it fails to do so
//! only where they run in a cycle. [`detect`] tells which packages changed,
//! with [`paths`] to tell which files are theirs. [`decide`] gives each
//! package that is due for a release its next [`version`], going by what
//! its [`commit`]s say. [`changelog`] writes the section of each release,
//! and [`plan`] the title and the body of the request, from [`template`]s
//! where the workspace has some. [`request`] says what is to be done about
//! the request, and [`labels`] which labels it bears. [`engine`] runs all of
//! it in one go, and [`summary`] lists what a run releases.
//!
//! [`git`] holds what is asked of git on the way and how its answers are
//! read, and [`text`] the operations on text that all of this is stated in.

pub mod changelog;
pub mod commit;
pub mod cycles;
pub mod decide;
pub mod detect;
pub mod engine;
pub mod git;
pub mod graph;
pub mod labels;
pub mod paths;
pub mod plan;
pub mod request;
pub mod summary;
pub mod template;
pub mod text;
pub mod version;

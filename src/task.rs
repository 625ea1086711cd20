use vstd::prelude::*;

use crate::dirdiff::DirDiffConfig;
use crate::error::Error;
use crate::report::{ReportConfig, SizeOptimizationLevel};
use std::path::PathBuf;

verus! {

/// What a project does for the tasks that need more than the two directories:
/// here, regenerating every snapshot by running its tests.
pub trait Actions {
    fn generate_all_tests(&self) -> Result<(), Error>;
}

/// Relies on `PathBuf`'s `From<&str>`, which makes a path of the text; nothing
/// is claimed of it.
#[verifier::external_body]
fn path_of(s: &str) -> PathBuf {
    PathBuf::from(s)
}

/// The snapshot tasks of a project: its two directories, how it reports, and
/// where the report goes.
pub struct Task {
    diff_config: DirDiffConfig,
    report_config: ReportConfig,
    report_output_path: PathBuf,
    actions: Box<dyn Actions>,
}

impl Task {
    pub closed spec fn report_settings(&self) -> ReportConfig {
        self.report_config
    }

    pub closed spec fn diff_settings(&self) -> DirDiffConfig {
        self.diff_config
    }

    pub closed spec fn output_path(&self) -> PathBuf {
        self.report_output_path
    }

    /// A task over `diff_config` whose report titles its sides "Reference" and
    /// "Current" and is written to `report.html`.
    pub fn new(diff_config: DirDiffConfig, actions: Box<dyn Actions>) -> (r: Self)
        ensures
            r.diff_settings() == diff_config,
            r.report_settings().titles() == ("Reference"@, "Current"@),
            !r.report_settings().embeds_images(),
            !r.report_settings().reviews(),
            r.report_settings().optimization() == SizeOptimizationLevel::Disabled,
    {
        let mut report_config = ReportConfig::new();
        report_config.set_left_title("Reference");
        report_config.set_right_title("Current");
        Task { diff_config, report_config, report_output_path: path_of("report.html"), actions }
    }

    pub fn report_config(&mut self) -> (r: &mut ReportConfig)
        ensures
            *r == old(self).report_settings(),
            final(self).report_settings() == *final(r),
            final(self).diff_settings() == old(self).diff_settings(),
            final(self).output_path() == old(self).output_path(),
    {
        &mut self.report_config
    }

    pub fn set_report_output_path(&mut self, path: PathBuf)
        ensures
            final(self).output_path() == path,
            final(self).report_settings() == old(self).report_settings(),
            final(self).diff_settings() == old(self).diff_settings(),
    {
        self.report_output_path = path;
    }

    pub fn diff_config(&self) -> (r: &DirDiffConfig)
        ensures
            *r == self.diff_settings(),
    {
        &self.diff_config
    }

    pub fn report_output_path(&self) -> (r: &PathBuf)
        ensures
            *r == self.output_path(),
    {
        &self.report_output_path
    }

    pub fn actions(&self) -> &dyn Actions {
        &*self.actions
    }
}

} // verus!

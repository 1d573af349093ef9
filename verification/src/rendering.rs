//! What a renderer produces, and where.
use vstd::prelude::*;
use crate::planning::PlannedBuild;
use crate::text::owned;

verus! {

/// A rendered file: where it goes, and its text.
#[derive(Clone, Debug)]
pub struct FileOutputs {
    pub path: String,
    pub contents: String,
}

/// Where rendered files go.
#[derive(Clone, Debug)]
pub struct RenderDetails {
    pub path_prefix: String,
}

/// The files a planned build is rendered to: `{path_prefix}/{path}BUILD` for each crate, in
/// the plan's order, then the vendor directory's `{path_prefix}/vendor/BUILD`.
pub fn planned_build_file_paths(render_details: &RenderDetails, planned_build: &PlannedBuild) -> (r: Vec<String>)
    ensures
        r@.len() == planned_build.crate_contexts@.len() + 1,
        forall|i: int|
            0 <= i < planned_build.crate_contexts@.len() ==> (#[trigger] r@[i])@ == render_details.path_prefix@
                + "/"@ + planned_build.crate_contexts@[i].path@ + "BUILD"@,
        r@.last()@ == render_details.path_prefix@ + "/vendor/BUILD"@,
{
    let crates = &planned_build.crate_contexts;
    let mut out: Vec<String> = Vec::new();
    let mut i: usize = 0;
    while i < crates.len()
        invariant
            i <= crates.len(),
            out@.len() == i,
            forall|j: int|
                0 <= j < i ==> (#[trigger] out@[j])@ == render_details.path_prefix@ + "/"@ + crates@[j].path@
                    + "BUILD"@,
        decreases crates.len() - i,
    {
        let mut p = owned(render_details.path_prefix.as_str());
        p.append("/");
        p.append(crates[i].path.as_str());
        p.append("BUILD");
        out.push(p);
        i = i + 1;
    }
    let mut p = owned(render_details.path_prefix.as_str());
    p.append("/vendor/BUILD");
    out.push(p);
    out
}

} // verus!

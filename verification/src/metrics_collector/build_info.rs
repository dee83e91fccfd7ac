//! Build-information extractor: a static presence sample labelled with
//! the exporter's own version; no external call is involved.

use vstd::prelude::*;
use crate::registry::{FamilyV, LabelV, MetricRegistry, registry_wf, spec_upsert, labels_view};

verus! {

/// The registry after publishing the build-information sample.
pub open spec fn buildinfo_apply(reg: Seq<FamilyV>, version: Seq<char>) -> Seq<FamilyV> {
    spec_upsert(
        reg,
        "op_exporter_buildinfo"@,
        "Build information of this exporter."@,
        seq![("version"@, version)],
        1,
    )
}

/// Publishes the exporter's build information, value always 1.
pub fn read_buildinfo(reg: &mut MetricRegistry, version: &str)
    requires
        registry_wf(old(reg)@),
    ensures
        registry_wf(final(reg)@),
        final(reg)@ == buildinfo_apply(old(reg)@, version@),
{
    let mut labels: Vec<(String, String)> = Vec::new();
    labels.push(("version".to_owned(), version.to_owned()));
    proof {
        assert(labels_view(labels@) =~= seq![("version"@, version@)]);
    }
    reg.upsert("op_exporter_buildinfo", "Build information of this exporter.", labels, 1);
}

} // verus!

//! The detectors, each of which inspects the network in its own way, and
//! the configuration and results that they share.
pub mod dhcp_lease;
pub mod gateway_probe;
pub mod http_probe;
pub mod networkmanager_device;
pub mod nm_connectivity_conf;
pub mod nmcli;
pub mod section;
pub mod wpa_supplicant;

use vstd::prelude::*;
use crate::types::{note_views, portal_views, PortalUrl, PortalUrlView, StatusNote};

verus! {

/// Runtime overrides for individual detectors.
#[derive(Debug)]
pub struct DetectorConfig {
    pub timeout_secs: u64,
    pub verbose: bool,
    /// Replaces built-in HTTP probe endpoints when non-empty.
    pub probe_endpoints: Vec<String>,
    /// Replaces built-in DHCP lease file paths when non-empty.
    pub dhcp_files: Vec<String>,
    /// Overrides auto-detected gateway IP for the gateway HTTP probe.
    pub gateway_ip: Option<String>,
}

impl Default for DetectorConfig {
    fn default() -> (r: DetectorConfig)
        ensures
            r.timeout_secs == 0,
            !r.verbose,
            r.probe_endpoints@.len() == 0,
            r.dhcp_files@.len() == 0,
            r.gateway_ip is None,
    {
        DetectorConfig {
            timeout_secs: 0,
            verbose: false,
            probe_endpoints: Vec::new(),
            dhcp_files: Vec::new(),
            gateway_ip: None,
        }
    }
}

/// What a run of all detectors found.
pub struct DetectorResults {
    pub urls: Vec<PortalUrl>,
    pub notes: Vec<StatusNote>,
}

/// The batches one after another.
pub open spec fn flatten_batches(b: Seq<Seq<PortalUrlView>>) -> Seq<PortalUrlView>
    decreases b.len(),
{
    if b.len() == 0 {
        Seq::empty()
    } else {
        flatten_batches(b.drop_last()) + b.last()
    }
}

/// The views of batches of portal URLs.
pub open spec fn batch_views(b: Seq<Vec<PortalUrl>>) -> Seq<Seq<PortalUrlView>> {
    b.map_values(|v: Vec<PortalUrl>| portal_views(v@))
}

impl DetectorResults {
    /// The results of a run: the URLs that the URL detectors found, detector
    /// after detector in the order given, and the status notes.
    pub fn from_batches(batches: Vec<Vec<PortalUrl>>, notes: Vec<StatusNote>) -> (r:
        DetectorResults)
        ensures
            portal_views(r.urls@) == flatten_batches(batch_views(batches@)),
            note_views(r.notes@) == note_views(notes@),
    {
        let ghost b = batch_views(batches@);
        let mut urls: Vec<PortalUrl> = Vec::new();
        let mut i: usize = 0;
        while i < batches.len()
            invariant
                i <= batches.len(),
                b == batch_views(batches@),
                portal_views(urls@) == flatten_batches(b.take(i as int)),
            decreases batches.len() - i,
        {
            assert(b.take(i + 1).drop_last() == b.take(i as int));
            assert(b.take(i + 1).last() == portal_views(batches@[i as int]@));
            let ghost base = portal_views(urls@);
            let batch = &batches[i];
            let mut j: usize = 0;
            while j < batch.len()
                invariant
                    j <= batch.len(),
                    portal_views(urls@) == base + portal_views(batch@).take(j as int),
                decreases batch.len() - j,
            {
                let ghost before = urls@;
                let item = batch[j].duplicate();
                urls.push(item);
                assert(portal_views(urls@) =~= portal_views(before).push(item@));
                assert(portal_views(batch@).take(j + 1) =~= portal_views(batch@).take(j as int).push(
                    batch@[j as int]@,
                ));
                assert(portal_views(urls@) =~= base + portal_views(batch@).take(j + 1));
                j = j + 1;
            }
            assert(portal_views(batch@).take(batch.len() as int) == portal_views(batch@));
            i = i + 1;
        }
        assert(b.take(batches.len() as int) == b);
        DetectorResults { urls, notes }
    }
}

} // verus!

//! The values that detectors report: a portal URL with the source that
//! found it and a confidence, and status notes that carry no URL.
use vstd::prelude::*;

verus! {

/// Where a candidate portal URL was found.
#[derive(Debug, Clone, PartialEq, Eq)]
pub enum Source {
    DhcpLease,
    NetworkManagerDevice,
    HttpProbe { endpoint: String },
    NmConnectivityConf,
    GatewayProbe { gateway_ip: String },
}

/// The mathematical value of a [`Source`].
pub enum SourceView {
    DhcpLease,
    NetworkManagerDevice,
    HttpProbe { endpoint: Seq<char> },
    NmConnectivityConf,
    GatewayProbe { gateway_ip: Seq<char> },
}

impl View for Source {
    type V = SourceView;

    open spec fn view(&self) -> SourceView {
        match self {
            Source::DhcpLease => SourceView::DhcpLease,
            Source::NetworkManagerDevice => SourceView::NetworkManagerDevice,
            Source::HttpProbe { endpoint } => SourceView::HttpProbe { endpoint: endpoint@ },
            Source::NmConnectivityConf => SourceView::NmConnectivityConf,
            Source::GatewayProbe { gateway_ip } => SourceView::GatewayProbe {
                gateway_ip: gateway_ip@,
            },
        }
    }
}

/// The text by which a source is shown to the user.
pub open spec fn source_label(s: SourceView) -> Seq<char> {
    match s {
        SourceView::DhcpLease => "dhcp-lease"@,
        SourceView::NetworkManagerDevice => "networkmanager-device"@,
        SourceView::HttpProbe { endpoint } => "http-probe: "@ + endpoint,
        SourceView::NmConnectivityConf => "nm-connectivity-conf"@,
        SourceView::GatewayProbe { gateway_ip } => "gateway-probe: "@ + gateway_ip,
    }
}

impl Source {
    /// The text by which this source is shown to the user.
    pub fn to_string(&self) -> (r: String)
        ensures
            r@ == source_label(self@),
    {
        match self {
            Source::DhcpLease => String::from_str("dhcp-lease"),
            Source::NetworkManagerDevice => String::from_str("networkmanager-device"),
            Source::HttpProbe { endpoint } => {
                let mut s = String::from_str("http-probe: ");
                s.append(endpoint.as_str());
                s
            },
            Source::NmConnectivityConf => String::from_str("nm-connectivity-conf"),
            Source::GatewayProbe { gateway_ip } => {
                let mut s = String::from_str("gateway-probe: ");
                s.append(gateway_ip.as_str());
                s
            },
        }
    }

    /// A copy of this source.
    pub fn duplicate(&self) -> (r: Source)
        ensures
            r@ == self@,
    {
        match self {
            Source::DhcpLease => Source::DhcpLease,
            Source::NetworkManagerDevice => Source::NetworkManagerDevice,
            Source::HttpProbe { endpoint } => Source::HttpProbe { endpoint: endpoint.clone() },
            Source::NmConnectivityConf => Source::NmConnectivityConf,
            Source::GatewayProbe { gateway_ip } => Source::GatewayProbe {
                gateway_ip: gateway_ip.clone(),
            },
        }
    }
}

/// A candidate captive-portal login URL.
#[derive(Debug, Clone)]
pub struct PortalUrl {
    pub url: String,
    pub source: Source,
    pub confidence: u8,
}

/// The mathematical value of a [`PortalUrl`].
pub struct PortalUrlView {
    pub url: Seq<char>,
    pub source: SourceView,
    pub confidence: u8,
}

impl View for PortalUrl {
    type V = PortalUrlView;

    open spec fn view(&self) -> PortalUrlView {
        PortalUrlView { url: self.url@, source: self.source@, confidence: self.confidence }
    }
}

/// The views of a sequence of portal URLs.
pub open spec fn portal_views(s: Seq<PortalUrl>) -> Seq<PortalUrlView> {
    s.map_values(|p: PortalUrl| p@)
}

impl PortalUrl {
    /// A copy of this portal URL.
    pub fn duplicate(&self) -> (r: PortalUrl)
        ensures
            r@ == self@,
    {
        PortalUrl { url: self.url.clone(), source: self.source.duplicate(), confidence: self.confidence }
    }
}

/// Returned by detectors that find network status without a URL.
#[derive(Debug, Clone)]
pub struct StatusNote {
    pub message: String,
}

impl View for StatusNote {
    type V = Seq<char>;

    open spec fn view(&self) -> Seq<char> {
        self.message@
    }
}

/// The messages of a sequence of status notes.
pub open spec fn note_views(s: Seq<StatusNote>) -> Seq<Seq<char>> {
    s.map_values(|n: StatusNote| n@)
}

} // verus!

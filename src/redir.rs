use vstd::prelude::*;

verus! {

/// Transparent-proxy mechanism through which redirected TCP connections arrive.
#[derive(Clone, Copy, Debug, PartialEq, Eq, Structural)]
pub enum RedirType {
    /// No mechanism is available.
    NotSupported,
    /// Netfilter `REDIRECT` (Linux).
    Redirect,
    /// Netfilter `TPROXY` (Linux).
    TProxy,
    /// Packet Filter (FreeBSD, OpenBSD, macOS).
    PacketFilter,
    /// IPFW (FreeBSD, macOS).
    IpFirewall,
}

/// Error for a redirect type name that is not known.
#[derive(Clone, Copy, Debug, PartialEq, Eq, Structural)]
pub struct InvalidRedirType;

/// Operating-system family, which decides the available redirect mechanisms.
#[derive(Clone, Copy, Debug, PartialEq, Eq, Structural)]
pub enum Platform {
    Linux,
    FreeBsd,
    OpenBsd,
    MacOs,
    Other,
}

/// How a listening socket must be prepared before `bind`.
#[derive(Clone, Copy, Debug, PartialEq, Eq, Structural)]
pub enum BindMode {
    /// An ordinary bind.
    Plain,
    /// `IP_TRANSPARENT` / `IPV6_TRANSPARENT` set on both levels before bind.
    Transparent,
}

/// Where the original destination of an accepted connection is found.
#[derive(Clone, Copy, Debug, PartialEq, Eq, Structural)]
pub enum DestinationSource {
    /// The accepted socket's own local address (`getsockname`).
    LocalAddr,
    /// `getsockopt(SO_ORIGINAL_DST)` at the IPv4 level, then at the IPv6 level.
    OriginalDst,
    /// A `DIOCNATLOOK` query on `/dev/pf`.
    PfNatLook,
}

pub open spec fn spec_name(r: RedirType) -> Seq<char> {
    match r {
        RedirType::NotSupported => "not_supported"@,
        RedirType::Redirect => "redirect"@,
        RedirType::TProxy => "tproxy"@,
        RedirType::PacketFilter => "pf"@,
        RedirType::IpFirewall => "ipfw"@,
    }
}

/// The redirect types that a platform can serve.
pub open spec fn available_on(p: Platform, r: RedirType) -> bool {
    match p {
        Platform::Linux => r == RedirType::Redirect || r == RedirType::TProxy,
        Platform::FreeBsd | Platform::MacOs => r == RedirType::PacketFilter || r
            == RedirType::IpFirewall,
        Platform::OpenBsd => r == RedirType::PacketFilter,
        Platform::Other => false,
    }
}

pub open spec fn spec_destination_source(p: Platform, r: RedirType) -> DestinationSource {
    match r {
        RedirType::Redirect => DestinationSource::OriginalDst,
        RedirType::PacketFilter => if p == Platform::OpenBsd {
            DestinationSource::LocalAddr
        } else {
            DestinationSource::PfNatLook
        },
        _ => DestinationSource::LocalAddr,
    }
}

impl RedirType {
    /// True for every type but `NotSupported`.
    pub fn is_supported(self) -> (r: bool)
        ensures
            r == (self != RedirType::NotSupported),
    {
        match self {
            RedirType::NotSupported => false,
            _ => true,
        }
    }

    /// The configuration name of the type.
    pub fn name(self) -> (r: &'static str)
        ensures
            r@ == spec_name(self),
    {
        proof {
            reveal_strlit("not_supported");
            reveal_strlit("redirect");
            reveal_strlit("tproxy");
            reveal_strlit("pf");
            reveal_strlit("ipfw");
        }
        match self {
            RedirType::NotSupported => "not_supported",
            RedirType::Redirect => "redirect",
            RedirType::TProxy => "tproxy",
            RedirType::PacketFilter => "pf",
            RedirType::IpFirewall => "ipfw",
        }
    }

    /// Parses a configuration name; `not_supported` is no valid name.
    pub fn from_name(s: &str) -> (r: Result<RedirType, InvalidRedirType>)
        ensures
            match r {
                Ok(t) => t != RedirType::NotSupported && spec_name(t) == s@,
                Err(_) => forall|t: RedirType|
                    t != RedirType::NotSupported ==> spec_name(t) != s@,
            },
    {
        let c = crate::text::chars_of(s);
        if crate::text::chars_eq_str(&c, "redirect") {
            Ok(RedirType::Redirect)
        } else if crate::text::chars_eq_str(&c, "tproxy") {
            Ok(RedirType::TProxy)
        } else if crate::text::chars_eq_str(&c, "pf") {
            Ok(RedirType::PacketFilter)
        } else if crate::text::chars_eq_str(&c, "ipfw") {
            Ok(RedirType::IpFirewall)
        } else {
            Err(InvalidRedirType)
        }
    }

    /// The type a platform uses when the configuration names none.
    pub fn tcp_default(p: Platform) -> (r: RedirType)
        ensures
            p == Platform::Other <==> r == RedirType::NotSupported,
            p != Platform::Other ==> available_on(p, r),
    {
        match p {
            Platform::Linux => RedirType::Redirect,
            Platform::Other => RedirType::NotSupported,
            _ => RedirType::PacketFilter,
        }
    }
}

/// Decides how to bind a listener for `r` on platform `p`; a type that the
/// platform cannot serve is rejected as an invalid argument.
pub fn bind_mode(p: Platform, r: RedirType) -> (res: Result<BindMode, InvalidRedirType>)
    ensures
        res is Ok <==> available_on(p, r),
        res == Ok::<BindMode, InvalidRedirType>(BindMode::Transparent) <==> (p == Platform::Linux
            && r == RedirType::TProxy),
{
    match (p, r) {
        (Platform::Linux, RedirType::TProxy) => Ok(BindMode::Transparent),
        (Platform::Linux, RedirType::Redirect) => Ok(BindMode::Plain),
        (Platform::FreeBsd, RedirType::PacketFilter) => Ok(BindMode::Plain),
        (Platform::FreeBsd, RedirType::IpFirewall) => Ok(BindMode::Plain),
        (Platform::MacOs, RedirType::PacketFilter) => Ok(BindMode::Plain),
        (Platform::MacOs, RedirType::IpFirewall) => Ok(BindMode::Plain),
        (Platform::OpenBsd, RedirType::PacketFilter) => Ok(BindMode::Plain),
        _ => Err(InvalidRedirType),
    }
}

/// Decides where the original destination of a connection accepted on a
/// listener bound for `r` comes from.
pub fn destination_source(p: Platform, r: RedirType) -> (res: Result<DestinationSource, InvalidRedirType>)
    ensures
        res is Ok <==> available_on(p, r),
        res is Ok ==> res == Ok::<DestinationSource, InvalidRedirType>(spec_destination_source(p, r)),
{
    match bind_mode(p, r) {
        Err(e) => Err(e),
        Ok(_) => match r {
            RedirType::Redirect => Ok(DestinationSource::OriginalDst),
            RedirType::PacketFilter => {
                if p == Platform::OpenBsd {
                    Ok(DestinationSource::LocalAddr)
                } else {
                    Ok(DestinationSource::PfNatLook)
                }
            },
            _ => Ok(DestinationSource::LocalAddr),
        },
    }
}

} // verus!

use local_proxy::redir::{bind_mode, destination_source, BindMode, DestinationSource, InvalidRedirType, Platform, RedirType};

#[test]
fn linux_tproxy_reads_local_addr() {
    assert_eq!(bind_mode(Platform::Linux, RedirType::TProxy), Ok(BindMode::Transparent));
    assert_eq!(destination_source(Platform::Linux, RedirType::TProxy), Ok(DestinationSource::LocalAddr));
}

#[test]
fn linux_redirect_reads_original_dst() {
    assert_eq!(bind_mode(Platform::Linux, RedirType::Redirect), Ok(BindMode::Plain));
    assert_eq!(destination_source(Platform::Linux, RedirType::Redirect), Ok(DestinationSource::OriginalDst));
}

#[test]
fn unsupported_platform_or_type_is_invalid() {
    assert_eq!(bind_mode(Platform::Other, RedirType::Redirect), Err(InvalidRedirType));
    assert_eq!(bind_mode(Platform::Linux, RedirType::PacketFilter), Err(InvalidRedirType));
    assert_eq!(destination_source(Platform::OpenBsd, RedirType::IpFirewall), Err(InvalidRedirType));
    assert_eq!(destination_source(Platform::FreeBsd, RedirType::PacketFilter), Ok(DestinationSource::PfNatLook));
    assert_eq!(destination_source(Platform::OpenBsd, RedirType::PacketFilter), Ok(DestinationSource::LocalAddr));
}

#[test]
fn redir_names() {
    assert_eq!(RedirType::from_name("tproxy"), Ok(RedirType::TProxy));
    assert_eq!(RedirType::from_name("pf"), Ok(RedirType::PacketFilter));
    assert_eq!(RedirType::from_name("not_supported"), Err(InvalidRedirType));
    assert_eq!(RedirType::Redirect.name(), "redirect");
    assert_eq!(RedirType::IpFirewall.name(), "ipfw");
    assert!(!RedirType::NotSupported.is_supported());
    assert!(RedirType::TProxy.is_supported());
    assert_eq!(RedirType::tcp_default(Platform::Linux), RedirType::Redirect);
    assert_eq!(RedirType::tcp_default(Platform::Other), RedirType::NotSupported);
}

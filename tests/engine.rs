use dhcpserver::network::Environment;
use dhcpserver::packet::{DhcpOptions, DhcpPacket};
use dhcpserver::server::{
    parse_request, request_kind, DhcpError, DhcpServer, MessageType, RequestKind, Selection,
};

fn ip(a: u8, b: u8, c: u8, d: u8) -> u32 {
    u32::from_be_bytes([a, b, c, d])
}

fn env() -> Environment {
    Environment {
        network_addr: ip(10, 0, 0, 0),
        subnet_mask: ip(255, 255, 255, 0),
        default_gateway: ip(10, 0, 0, 1),
        dhcp_svr_addr: ip(10, 0, 0, 254),
        dns_svr_addr: ip(10, 0, 0, 53),
        lease_time: 86400,
    }
}

const MAC: [u8; 6] = [0xaa, 0xbb, 0xcc, 0xdd, 0xee, 0x01];

/// A request datagram with the given options, each a (code, value) pair.
fn request_bytes(ciaddr: u32, options: &[(u8, Vec<u8>)]) -> Vec<u8> {
    let mut b = vec![0u8; 300];
    b[0] = 1;
    b[1] = 1;
    b[2] = 6;
    b[4..8].copy_from_slice(&[0x12, 0x34, 0x56, 0x78]);
    b[10..12].copy_from_slice(&[0x80, 0x00]);
    b[12..16].copy_from_slice(&ciaddr.to_be_bytes());
    b[24..28].copy_from_slice(&ip(10, 0, 0, 77).to_be_bytes());
    b[28..34].copy_from_slice(&MAC);
    b[236..240].copy_from_slice(&[0x63, 0x82, 0x53, 0x63]);
    let mut i = 240;
    for (code, value) in options {
        b[i] = *code;
        b[i + 1] = value.len() as u8;
        b[i + 2..i + 2 + value.len()].copy_from_slice(value);
        i += 2 + value.len();
    }
    b[i] = 255;
    b
}

fn request(ciaddr: u32, options: &[(u8, Vec<u8>)]) -> DhcpPacket {
    parse_request(request_bytes(ciaddr, options)).unwrap()
}

fn message_type(p: &DhcpPacket) -> u8 {
    p.option(DhcpOptions::MessageType).unwrap()[0]
}

#[test]
fn pool_at_startup_excludes_reserved_and_leased() {
    let s = DhcpServer::new(env(), &vec![]).unwrap();
    assert_eq!(s.free_count(), 251);
    for a in [ip(10, 0, 0, 0), ip(10, 0, 0, 1), ip(10, 0, 0, 53), ip(10, 0, 0, 254), ip(10, 0, 0, 255)] {
        assert!(!s.is_free(a));
    }
    assert!(s.is_free(ip(10, 0, 0, 2)));
    assert!(s.is_free(ip(10, 0, 0, 253)));
    assert!(!s.is_free(ip(10, 0, 1, 2)));

    let s = DhcpServer::new(env(), &vec![ip(10, 0, 0, 2), ip(10, 0, 0, 9)]).unwrap();
    assert_eq!(s.free_count(), 249);
    assert!(!s.is_free(ip(10, 0, 0, 2)));
    assert!(!s.is_free(ip(10, 0, 0, 9)));
}

#[test]
fn non_contiguous_mask_is_rejected() {
    let mut e = env();
    e.subnet_mask = ip(255, 0, 255, 0);
    assert!(matches!(DhcpServer::new(e, &vec![]), Err(DhcpError::InvalidSubnetMask)));
}

#[test]
fn take_next_is_ascending_until_exhausted() {
    let mut e = env();
    e.network_addr = ip(10, 0, 0, 0);
    e.subnet_mask = ip(255, 255, 255, 248);
    e.default_gateway = ip(10, 0, 0, 1);
    e.dhcp_svr_addr = ip(10, 0, 0, 6);
    e.dns_svr_addr = ip(10, 0, 0, 3);
    let mut s = DhcpServer::new(e, &vec![]).unwrap();
    assert_eq!(s.find_available_ip_addr(), Some(ip(10, 0, 0, 2)));
    assert_eq!(s.find_available_ip_addr(), Some(ip(10, 0, 0, 4)));
    assert_eq!(s.find_available_ip_addr(), Some(ip(10, 0, 0, 5)));
    assert_eq!(s.find_available_ip_addr(), None);
}

#[test]
fn take_specific_removes_only_that_address() {
    let mut s = DhcpServer::new(env(), &vec![]).unwrap();
    assert_eq!(s.find_ip_addr(ip(10, 0, 0, 7)), Some(ip(10, 0, 0, 7)));
    assert_eq!(s.find_ip_addr(ip(10, 0, 0, 7)), None);
    assert_eq!(s.find_ip_addr(ip(10, 0, 0, 1)), None);
    assert_eq!(s.free_count(), 250);
}

#[test]
fn first_discover_offers_lowest_host_address() {
    let mut s = DhcpServer::new(env(), &vec![]).unwrap();
    let recv = request(0, &[(53, vec![1])]);
    assert!(matches!(request_kind(&recv), Ok(RequestKind::Discover)));
    let (_, addr) = s.choose_leased_ip_addr(Selection::Leased, None, None).unwrap();
    assert_eq!(addr, ip(10, 0, 0, 2));
    let offer = s.offer_network_addr(&recv, addr);
    assert_eq!(offer.op(), 2);
    assert_eq!(offer.yiaddr(), ip(10, 0, 0, 2));
    assert_eq!(offer.xid(), &[0x12, 0x34, 0x56, 0x78]);
    assert_eq!(offer.transaction_id(), 0x12345678);
    assert_eq!(message_type(&offer), MessageType::DHCPOFFER);
    assert_eq!(offer.buf().len(), 400);
}

#[test]
fn discover_tiers_in_order() {
    let mut s = DhcpServer::new(env(), &vec![ip(10, 0, 0, 20)]).unwrap();
    let leased = Some(ip(10, 0, 0, 20));
    let requested = Some(ip(10, 0, 0, 30));
    let r1 = s.choose_leased_ip_addr(Selection::Leased, leased, requested).unwrap();
    assert_eq!(r1, (Selection::Requested, ip(10, 0, 0, 20)));
    let r2 = s.choose_leased_ip_addr(Selection::Leased, leased, requested).unwrap();
    assert_eq!(r2, r1);
    assert_eq!(s.free_count(), 250);
    let r3 = s.choose_leased_ip_addr(r1.0, leased, requested).unwrap();
    assert_eq!(r3, (Selection::Pool, ip(10, 0, 0, 30)));
    assert!(!s.is_free(ip(10, 0, 0, 30)));
    let r4 = s.choose_leased_ip_addr(r3.0, leased, requested).unwrap();
    assert_eq!(r4, (Selection::Pool, ip(10, 0, 0, 2)));
}

#[test]
fn leased_address_outside_subnet_is_skipped() {
    let mut s = DhcpServer::new(env(), &vec![]).unwrap();
    let r = s.choose_leased_ip_addr(Selection::Leased, Some(ip(192, 168, 1, 5)), None).unwrap();
    assert_eq!(r, (Selection::Pool, ip(10, 0, 0, 2)));
}

#[test]
fn exhausted_pool_is_an_error() {
    let mut e = env();
    e.subnet_mask = ip(255, 255, 255, 252);
    e.default_gateway = ip(10, 0, 0, 1);
    e.dhcp_svr_addr = ip(10, 0, 0, 2);
    let mut s = DhcpServer::new(e, &vec![]).unwrap();
    assert_eq!(s.free_count(), 0);
    assert_eq!(
        s.choose_leased_ip_addr(Selection::Leased, None, Some(ip(10, 0, 0, 9))),
        Err(DhcpError::NoAvailableAddress)
    );
}

#[test]
fn request_for_this_server_is_acknowledged() {
    let s = DhcpServer::new(env(), &vec![]).unwrap();
    let recv = request(ip(10, 0, 0, 44), &[(53, vec![3]), (54, vec![10, 0, 0, 254]), (50, vec![10, 0, 0, 2])]);
    let id = match request_kind(&recv) {
        Ok(RequestKind::Select(id)) => id,
        _ => panic!("expected a REQUEST with server identifier"),
    };
    let (addr, ack) = s.allocate_ip_addr(&id, &recv).unwrap().unwrap();
    assert_eq!(addr, ip(10, 0, 0, 2));
    assert_eq!(ack.yiaddr(), ip(10, 0, 0, 2));
    assert_eq!(ack.ciaddr(), ip(10, 0, 0, 44));
    assert_eq!(message_type(&ack), MessageType::DHCPACK);
    assert_eq!(ack.chaddr(), MAC.to_vec());
}

#[test]
fn request_for_another_server_is_ignored() {
    let s = DhcpServer::new(env(), &vec![]).unwrap();
    let recv = request(0, &[(53, vec![3]), (54, vec![10, 0, 0, 250]), (50, vec![10, 0, 0, 2])]);
    assert!(matches!(s.allocate_ip_addr(&[10, 0, 0, 250], &recv), Ok(None)));
}

#[test]
fn request_errors() {
    let s = DhcpServer::new(env(), &vec![]).unwrap();
    let recv = request(0, &[(53, vec![3]), (54, vec![10, 0, 0, 254])]);
    assert!(matches!(s.allocate_ip_addr(&[10, 0, 0, 254], &recv), Err(DhcpError::MissingOption)));
    assert!(matches!(s.allocate_ip_addr(&[10, 0, 0], &recv), Err(DhcpError::InvalidServerIdentifier)));
    let recv = request(0, &[(53, vec![3]), (50, vec![10, 0, 0])]);
    assert!(matches!(s.allocate_ip_addr(&[10, 0, 0, 254], &recv), Err(DhcpError::InvalidRequestedAddress)));
    assert!(matches!(s.reallocate_ip_addr(&recv, Some(ip(10, 0, 0, 2))), Err(DhcpError::InvalidRequestedAddress)));
}

#[test]
fn release_returns_address_to_pool() {
    let mut s = DhcpServer::new(env(), &vec![]).unwrap();
    assert_eq!(s.find_available_ip_addr(), Some(ip(10, 0, 0, 2)));
    assert!(!s.is_free(ip(10, 0, 0, 2)));
    let recv = request(ip(10, 0, 0, 2), &[(53, vec![7])]);
    assert!(matches!(request_kind(&recv), Ok(RequestKind::Release)));
    s.release_ip_addr(&recv);
    assert!(s.is_free(ip(10, 0, 0, 2)));
    assert_eq!(s.find_available_ip_addr(), Some(ip(10, 0, 0, 2)));
    s.release_ip_addr(&recv);
    assert_eq!(s.find_ip_addr(ip(10, 0, 0, 2)), Some(ip(10, 0, 0, 2)));
}

#[test]
fn release_of_reserved_or_foreign_address_leaves_pool() {
    let mut s = DhcpServer::new(env(), &vec![]).unwrap();
    s.release_ip_addr(&request(ip(10, 0, 0, 1), &[(53, vec![7])]));
    s.release_ip_addr(&request(ip(172, 16, 0, 1), &[(53, vec![7])]));
    assert_eq!(s.free_count(), 251);
}

#[test]
fn short_datagram_is_rejected() {
    assert!(parse_request(vec![1u8; 100]).is_none());
    assert!(parse_request(vec![1u8; 236]).is_none());
    assert!(parse_request(vec![1u8; 237]).is_some());
    assert!(parse_request(vec![2u8; 300]).is_none());
}

#[test]
fn init_reboot_mismatch_is_nak() {
    let s = DhcpServer::new(env(), &vec![ip(10, 0, 0, 2)]).unwrap();
    let recv = request(ip(10, 0, 0, 44), &[(53, vec![3]), (50, vec![10, 0, 0, 9])]);
    assert!(matches!(request_kind(&recv), Ok(RequestKind::Renew)));
    let nak = s.reallocate_ip_addr(&recv, Some(ip(10, 0, 0, 2))).unwrap().unwrap();
    assert_eq!(nak.yiaddr(), 0);
    assert_eq!(nak.ciaddr(), 0);
    assert_eq!(message_type(&nak), MessageType::DHCPNAK);
}

#[test]
fn init_reboot_match_is_ack() {
    let s = DhcpServer::new(env(), &vec![ip(10, 0, 0, 2)]).unwrap();
    let recv = request(0, &[(53, vec![3]), (50, vec![10, 0, 0, 2])]);
    let ack = s.reallocate_ip_addr(&recv, Some(ip(10, 0, 0, 2))).unwrap().unwrap();
    assert_eq!(ack.yiaddr(), ip(10, 0, 0, 2));
    assert_eq!(message_type(&ack), MessageType::DHCPACK);
    assert!(matches!(s.reallocate_ip_addr(&recv, None), Ok(None)));
}

#[test]
fn renewing_inside_and_outside_subnet() {
    let s = DhcpServer::new(env(), &vec![]).unwrap();
    let recv = request(ip(10, 0, 0, 40), &[(53, vec![3])]);
    let ack = s.reallocate_ip_addr(&recv, None).unwrap().unwrap();
    assert_eq!(ack.yiaddr(), ip(10, 0, 0, 40));
    assert_eq!(message_type(&ack), MessageType::DHCPACK);
    let recv = request(ip(192, 168, 0, 40), &[(53, vec![3])]);
    assert!(matches!(s.reallocate_ip_addr(&recv, None), Err(DhcpError::NetworkMismatch)));
}

#[test]
fn unsupported_and_missing_message_types() {
    let recv = request(0, &[(53, vec![8])]);
    assert!(matches!(request_kind(&recv), Err(DhcpError::UnimplementedMessage(8))));
    let recv = request(0, &[]);
    assert!(matches!(request_kind(&recv), Err(DhcpError::MissingOption)));
}

#[test]
fn reply_round_trip() {
    let s = DhcpServer::new(env(), &vec![]).unwrap();
    let recv = request(ip(10, 0, 0, 44), &[(53, vec![3])]);
    let ack = s.make_dhcp_packet(&recv, MessageType(MessageType::DHCPACK), ip(10, 0, 0, 44));
    let back = DhcpPacket::new(ack.buf().to_vec()).unwrap();
    assert_eq!(back.op(), 2);
    assert_eq!(back.buf()[1], 1);
    assert_eq!(back.buf()[2], 6);
    assert_eq!(back.xid(), recv.xid());
    assert_eq!(back.flags(), recv.flags());
    assert_eq!(back.ciaddr(), ip(10, 0, 0, 44));
    assert_eq!(back.yiaddr(), ip(10, 0, 0, 44));
    assert_eq!(back.giaddr(), ip(10, 0, 0, 77));
    assert_eq!(back.chaddr(), MAC.to_vec());
    assert_eq!(back.option(DhcpOptions::MessageType), Some(vec![5]));
    assert_eq!(back.option(DhcpOptions::IpAddressLeaseTime), Some(vec![0, 1, 0x51, 0x80]));
    assert_eq!(back.option(DhcpOptions::ServerIdentifier), Some(vec![10, 0, 0, 254]));
    assert_eq!(back.option(DhcpOptions::SubnetMask), Some(vec![255, 255, 255, 0]));
    assert_eq!(back.option(DhcpOptions::Router), Some(vec![10, 0, 0, 1]));
    assert_eq!(back.option(DhcpOptions::Dns), Some(vec![10, 0, 0, 53]));
    assert_eq!(back.option(DhcpOptions::RequestedIpAddress), None);
    assert_eq!(&back.options()[..4], &[0x63, 0x82, 0x53, 0x63]);
    assert_eq!(back.options()[37], 255);
}

#[test]
fn reply_byte_layout() {
    let s = DhcpServer::new(env(), &vec![]).unwrap();
    let recv = request(ip(10, 0, 0, 44), &[(53, vec![1]), (50, vec![10, 0, 0, 9])]);
    let offer = s.make_dhcp_packet(&recv, MessageType(MessageType::DHCPOFFER), ip(10, 0, 0, 2));
    let b = offer.buf();
    assert_eq!(b.len(), 400);
    assert_eq!(&b[236..240], &[0x63, 0x82, 0x53, 0x63]);
    let expected: [u8; 34] = [
        53, 1, 2, 51, 4, 0, 1, 0x51, 0x80, 54, 4, 10, 0, 0, 254, 1, 4, 255, 255, 255, 0, 3, 4, 10, 0,
        0, 1, 6, 4, 10, 0, 0, 53, 255,
    ];
    assert_eq!(&b[240..274], &expected);
    assert_eq!(&b[12..16], &[0, 0, 0, 0]);
    assert_eq!(b[3], 0);
    assert!(b[8..10].iter().all(|x| *x == 0));
    assert!(b[20..24].iter().all(|x| *x == 0));
    assert!(b[34..236].iter().all(|x| *x == 0));
    assert!(b[274..400].iter().all(|x| *x == 0));
    assert_eq!(offer.option(DhcpOptions::RequestedIpAddress), None);
}

#[test]
fn message_type_names() {
    assert_eq!(MessageType(MessageType::DHCPDISCOVER).name(), "DHCPDISCOVER");
    assert_eq!(MessageType(MessageType::DHCPNAK).name(), "DHCPNAK");
    assert_eq!(MessageType(4).name(), "Unknown MessageType");
}

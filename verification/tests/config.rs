use udprelay::config::{
    tun_local_addr, tun_peer_addr, tun_settings, udp_settings, TunSettings, UdpSettings, MAX_SIZE,
    MTU, PORT, REMOTE, TUN_NAME,
};
use udprelay::ipv4::MAX_HEADER_LEN;

#[test]
fn defaults() {
    assert_eq!(MTU, 1460);
    assert_eq!(PORT, 40890);
    assert_eq!(MAX_SIZE, 1600);
    assert_eq!(REMOTE, "192.168.1.1:40890");
    assert_eq!(TUN_NAME, "udprelay");
}

#[test]
fn buffer_has_room_for_the_largest_packet() {
    assert!(MTU + MAX_HEADER_LEN <= MAX_SIZE);
}

#[test]
fn tunnel_addresses() {
    assert_eq!(tun_local_addr(), [169, 254, 1, 1]);
    assert_eq!(tun_peer_addr(), [169, 254, 1, 2]);
}

#[test]
fn interface_settings() {
    assert_eq!(
        tun_settings(String::from("udprelay")),
        TunSettings {
            name: String::from("udprelay"),
            tap: false,
            packet_info: false,
            mtu: 1460,
            address: [169, 254, 1, 1],
            destination: [169, 254, 1, 2],
            up: true,
        }
    );
}

#[test]
fn interface_settings_keep_the_name() {
    assert_eq!(tun_settings(String::from("tun7")).name, "tun7");
    assert_eq!(tun_settings(String::new()).name, "");
}

#[test]
fn socket_settings() {
    assert_eq!(udp_settings(40890), UdpSettings { address: [0, 0, 0, 0], port: 40890 });
    assert_eq!(udp_settings(0).port, 0);
    assert_eq!(udp_settings(65535).port, 65535);
}

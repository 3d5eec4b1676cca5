use std::collections::VecDeque;

use udp_connector::codec::decode_packet;
use udp_connector::codec::encode_packet;
use udp_connector::connector::Connector;
use udp_connector::connector::NetworkState;
use udp_connector::connector::RecvOutcome;
use udp_connector::connector::Socket;
use udp_connector::packet::Packet;
use udp_connector::param::ConnectorParam;
use udp_connector::ConnectorError;

const CLIENT_ADDR: u64 = 1;
const SERVER_ADDR: u64 = 2;

/// An in-memory datagram socket: an inbox of pending datagrams and an
/// outbox that the test inspects and relays by hand.
struct FakeSocket {
    addr: u64,
    inbox: VecDeque<(Vec<u8>, u64)>,
    outbox: VecDeque<(Vec<u8>, u64)>,
    fail_sends: bool,
    fail_recv: bool,
}

impl FakeSocket {
    fn new(addr: u64) -> FakeSocket {
        FakeSocket {
            addr,
            inbox: VecDeque::new(),
            outbox: VecDeque::new(),
            fail_sends: false,
            fail_recv: false,
        }
    }
}

impl Socket for FakeSocket {
    fn recv_from(&mut self) -> RecvOutcome {
        if self.fail_recv {
            return RecvOutcome::Failed;
        }
        match self.inbox.pop_front() {
            Some((bytes, from)) => RecvOutcome::Datagram { bytes, from },
            None => RecvOutcome::WouldBlock,
        }
    }

    fn local_addr(&self) -> u64 {
        self.addr
    }

    fn send_to(&mut self, bytes: &Vec<u8>, target: u64) -> Result<(), ()> {
        if self.fail_sends {
            return Err(());
        }
        self.outbox.push_back((bytes.clone(), target));
        Ok(())
    }
}

struct Proxy {
    client: Connector,
    client_socket: FakeSocket,
    server: Connector,
    server_socket: FakeSocket,
}

/// Pop one datagram the client sent, decode it, and deliver it to the
/// server's inbox.
fn relay_client_to_server(proxy: &mut Proxy) -> Packet {
    let (bytes, target) = proxy
        .client_socket
        .outbox
        .pop_front()
        .expect("client had no pending datagram");
    assert_eq!(SERVER_ADDR, target);
    let packet = decode_packet(&bytes).expect("could not decode client datagram");
    proxy.server_socket.inbox.push_back((bytes, CLIENT_ADDR));
    packet
}

/// Pop one datagram the server sent, decode it, and deliver it to the
/// client's inbox.
fn relay_server_to_client(proxy: &mut Proxy) -> Packet {
    let (bytes, target) = proxy
        .server_socket
        .outbox
        .pop_front()
        .expect("server had no pending datagram");
    assert_eq!(CLIENT_ADDR, target);
    let packet = decode_packet(&bytes).expect("could not decode server datagram");
    proxy.client_socket.inbox.push_back((bytes, SERVER_ADDR));
    packet
}

fn client_has_no_pending_messages(proxy: &Proxy) -> bool {
    proxy.client_socket.outbox.is_empty()
}

fn server_has_no_pending_messages(proxy: &Proxy) -> bool {
    proxy.server_socket.outbox.is_empty()
}

/// A connected client/server pair: the client has completed the ping/pong
/// handshake at instant 0.
fn connected_proxy() -> Proxy {
    let mut proxy = Proxy {
        client: Connector::bound_to(SERVER_ADDR, ConnectorParam::default()),
        client_socket: FakeSocket::new(CLIENT_ADDR),
        server: Connector::bound_to(CLIENT_ADDR, ConnectorParam::default()),
        server_socket: FakeSocket::new(SERVER_ADDR),
    };

    proxy
        .client
        .connect(&mut proxy.client_socket, 0)
        .expect("Could not connect to server");
    assert_eq!(NetworkState::Connecting, proxy.client.state(0));

    let message = relay_client_to_server(&mut proxy);
    assert_eq!(
        Packet::Ping {
            last_send_message_id: None
        },
        message
    );

    let delivered = proxy
        .server
        .receive_from(&mut proxy.server_socket, 0)
        .expect("Could not update server");
    assert!(delivered.is_empty());
    let message = relay_server_to_client(&mut proxy);
    assert_eq!(
        Packet::Pong {
            last_send_message_id: None
        },
        message
    );

    proxy
        .client
        .update_and_receive(&mut proxy.client_socket, 0)
        .expect("Could not update client");

    assert!(client_has_no_pending_messages(&proxy));
    assert!(server_has_no_pending_messages(&proxy));
    assert_eq!(NetworkState::Connected, proxy.client.state(0));

    proxy
}

#[test]
fn test_timeout() {
    let mut proxy = connected_proxy();

    assert_eq!(NetworkState::Connected, proxy.client.state(0));
    // Three silent seconds pass.
    let now: u64 = 3000;

    let result = proxy
        .client
        .update_and_receive(&mut proxy.client_socket, now)
        .expect("Could not update client");
    assert!(result.is_empty());
    assert_eq!(NetworkState::Disconnected, proxy.client.state(now));

    // Attempt to reconnect.
    proxy
        .client
        .connect(&mut proxy.client_socket, now)
        .expect("Could not reconnect");
    assert_eq!(NetworkState::Connecting, proxy.client.state(now));
    let message = relay_client_to_server(&mut proxy);
    assert_eq!(
        Packet::Ping {
            last_send_message_id: None
        },
        message
    );

    // The server needs to be polled to answer this message.
    let result = proxy
        .server
        .receive_from(&mut proxy.server_socket, now)
        .expect("Could not update server");
    assert!(result.is_empty());
    let message = relay_server_to_client(&mut proxy);
    assert_eq!(
        Packet::Pong {
            last_send_message_id: None
        },
        message
    );

    // The client needs to receive this message.
    assert_eq!(NetworkState::Connecting, proxy.client.state(now));
    proxy
        .client
        .update_and_receive(&mut proxy.client_socket, now)
        .expect("Could not update client");

    // Now they should be connected again.
    assert_eq!(NetworkState::Connected, proxy.client.state(now));
    assert!(client_has_no_pending_messages(&proxy));
    assert!(server_has_no_pending_messages(&proxy));
}

#[test]
fn test_confirmed_message() {
    let mut proxy = connected_proxy();

    proxy
        .client
        .send_confirmed(
            &mut proxy.client_socket,
            String::from("test").into_bytes(),
            0,
        )
        .expect("Could not send message");

    let message = relay_client_to_server(&mut proxy);
    assert_eq!(
        Packet::Data {
            message_id: Some(1),
            data: String::from("test").into_bytes(),
        },
        message
    );

    let message = proxy
        .server
        .receive_from(&mut proxy.server_socket, 0)
        .expect("Could not receive from server");

    assert_eq!(1, message.len());

    assert_eq!(String::from("test").into_bytes(), message[0]);

    let message = relay_server_to_client(&mut proxy);
    assert_eq!(Packet::ConfirmPacket { id: 1 }, message);

    assert!(client_has_no_pending_messages(&proxy));
    assert!(server_has_no_pending_messages(&proxy));
}

#[test]
fn handshake_states() {
    // A fresh connector is Disconnected until connect, Connecting until the
    // peer answers, Connected after the pong.
    let connector = Connector::bound_to(SERVER_ADDR, ConnectorParam::default());
    assert_eq!(NetworkState::Disconnected, connector.state(0));
    assert_eq!(SERVER_ADDR, connector.bound_addr());

    let mut proxy = connected_proxy();
    // connected_proxy asserted the Connecting and Connected steps already.
    // A ping leaves at 600; the inbound silence then ages the state from
    // Connected through Connecting to Disconnected.
    proxy
        .client
        .update(&mut proxy.client_socket, 600)
        .expect("Could not update client");
    proxy.client_socket.outbox.clear();
    assert_eq!(NetworkState::Connected, proxy.client.state(1500));
    assert_eq!(NetworkState::Connecting, proxy.client.state(1501));
    assert_eq!(NetworkState::Disconnected, proxy.client.state(2101));
}

#[test]
fn confirmed_ack_empties_cache() {
    let mut proxy = connected_proxy();

    proxy
        .client
        .send_confirmed(&mut proxy.client_socket, b"hello".to_vec(), 0)
        .expect("Could not send message");
    let message = relay_client_to_server(&mut proxy);
    assert_eq!(
        Packet::Data {
            message_id: Some(1),
            data: b"hello".to_vec(),
        },
        message
    );

    let delivered = proxy
        .server
        .receive_from(&mut proxy.server_socket, 0)
        .expect("Could not receive from server");
    assert_eq!(vec![b"hello".to_vec()], delivered);
    let message = relay_server_to_client(&mut proxy);
    assert_eq!(Packet::ConfirmPacket { id: 1 }, message);

    proxy
        .client
        .update_and_receive(&mut proxy.client_socket, 100)
        .expect("Could not update client");

    // Cache is empty: a later sweep with both the ping and the resend due
    // emits only the ping.
    proxy
        .client
        .update(&mut proxy.client_socket, 1200)
        .expect("Could not update client");
    let (bytes, _) = proxy
        .client_socket
        .outbox
        .pop_front()
        .expect("expected a ping");
    assert_eq!(
        Packet::Ping {
            last_send_message_id: Some(1)
        },
        decode_packet(&bytes).expect("could not decode ping")
    );
    assert!(client_has_no_pending_messages(&proxy));
}

#[test]
fn lost_confirmed_message_is_retransmitted() {
    let mut proxy = connected_proxy();

    proxy
        .client
        .send_confirmed(&mut proxy.client_socket, b"x".to_vec(), 0)
        .expect("Could not send message");
    // The datagram is lost in transit.
    let (lost, _) = proxy.client_socket.outbox.pop_front().expect("nothing sent");
    assert_eq!(
        Packet::Data {
            message_id: Some(1),
            data: b"x".to_vec(),
        },
        decode_packet(&lost).expect("could not decode")
    );

    // One emit interval later the sweep re-emits the identical packet,
    // after the due ping.
    proxy
        .client
        .update(&mut proxy.client_socket, 1001)
        .expect("Could not update client");
    let ping = relay_client_to_server(&mut proxy);
    assert_eq!(
        Packet::Ping {
            last_send_message_id: Some(1)
        },
        ping
    );
    let (resent, _) = proxy
        .client_socket
        .outbox
        .pop_front()
        .expect("expected the retransmission");
    assert_eq!(lost, resent);
    proxy.server_socket.inbox.push_back((resent, CLIENT_ADDR));

    let delivered = proxy
        .server
        .receive_from(&mut proxy.server_socket, 1001)
        .expect("Could not receive from server");
    assert_eq!(vec![b"x".to_vec()], delivered);
    // The server answers the ping and acknowledges the message.
    let pong = relay_server_to_client(&mut proxy);
    assert_eq!(
        Packet::Pong {
            last_send_message_id: None
        },
        pong
    );
    let ack = relay_server_to_client(&mut proxy);
    assert_eq!(Packet::ConfirmPacket { id: 1 }, ack);
    proxy
        .client
        .update_and_receive(&mut proxy.client_socket, 1002)
        .expect("Could not update client");

    // The cache emptied: the next due sweep emits only the ping.
    proxy
        .client
        .update(&mut proxy.client_socket, 2300)
        .expect("Could not update client");
    let (bytes, _) = proxy
        .client_socket
        .outbox
        .pop_front()
        .expect("expected a ping");
    assert_eq!(
        Packet::Ping {
            last_send_message_id: Some(1)
        },
        decode_packet(&bytes).expect("could not decode ping")
    );
    assert!(client_has_no_pending_messages(&proxy));
}

#[test]
fn gap_detected_and_filled_by_request() {
    let mut proxy = connected_proxy();

    // The client sends confirmed ids 1, 2 and 3; id 2 is lost.
    for payload in [b"msg-1".to_vec(), b"msg-2".to_vec(), b"msg-3".to_vec()] {
        proxy
            .client
            .send_confirmed(&mut proxy.client_socket, payload, 0)
            .expect("Could not send message");
    }
    let one = relay_client_to_server(&mut proxy);
    assert_eq!(
        Packet::Data {
            message_id: Some(1),
            data: b"msg-1".to_vec(),
        },
        one
    );
    let (_lost_two, _) = proxy.client_socket.outbox.pop_front().expect("nothing sent");
    let three = relay_client_to_server(&mut proxy);
    assert_eq!(
        Packet::Data {
            message_id: Some(3),
            data: b"msg-3".to_vec(),
        },
        three
    );

    // The server sees 1 and 3, infers that 2 is missing.
    let delivered = proxy
        .server
        .receive_from(&mut proxy.server_socket, 10)
        .expect("Could not receive from server");
    assert_eq!(vec![b"msg-1".to_vec(), b"msg-3".to_vec()], delivered);
    // Acks for 1 and 3 go back.
    let ack1 = relay_server_to_client(&mut proxy);
    assert_eq!(Packet::ConfirmPacket { id: 1 }, ack1);
    let ack3 = relay_server_to_client(&mut proxy);
    assert_eq!(Packet::ConfirmPacket { id: 3 }, ack3);
    proxy
        .client
        .update_and_receive(&mut proxy.client_socket, 11)
        .expect("Could not update client");
    proxy.client_socket.outbox.clear();

    // One request interval later the server re-requests id 2, after its
    // due ping.
    proxy
        .server
        .update(&mut proxy.server_socket, 1011)
        .expect("Could not update server");
    let ping = relay_server_to_client(&mut proxy);
    assert_eq!(
        Packet::Ping {
            last_send_message_id: None
        },
        ping
    );
    let request = relay_server_to_client(&mut proxy);
    assert_eq!(Packet::RequestPacket { id: 2 }, request);

    // The client answers the request with the cached packet.
    proxy
        .client
        .receive_from(&mut proxy.client_socket, 1012)
        .expect("Could not update client");
    let pong = relay_client_to_server(&mut proxy);
    assert_eq!(
        Packet::Pong {
            last_send_message_id: Some(3)
        },
        pong
    );
    let resent = relay_client_to_server(&mut proxy);
    assert_eq!(
        Packet::Data {
            message_id: Some(2),
            data: b"msg-2".to_vec(),
        },
        resent
    );

    // The server delivers msg-2 out of id order and acknowledges it.
    let delivered = proxy
        .server
        .receive_from(&mut proxy.server_socket, 1013)
        .expect("Could not receive from server");
    assert_eq!(vec![b"msg-2".to_vec()], delivered);
}

#[test]
fn not_found_stops_requests() {
    let mut proxy = connected_proxy();

    // Forge a ping announcing id 1 that the client never sent: the server
    // infers id 1 missing.
    let forged = encode_packet(&Packet::Ping {
        last_send_message_id: Some(1),
    });
    proxy.server_socket.inbox.push_back((forged, CLIENT_ADDR));
    let delivered = proxy
        .server
        .receive_from(&mut proxy.server_socket, 10)
        .expect("Could not receive from server");
    assert!(delivered.is_empty());
    let pong = relay_server_to_client(&mut proxy);
    assert_eq!(
        Packet::Pong {
            last_send_message_id: None
        },
        pong
    );
    proxy.client_socket.inbox.clear();

    // The server requests id 1; the client has no such cache entry and
    // disowns it.
    proxy
        .server
        .update(&mut proxy.server_socket, 1011)
        .expect("Could not update server");
    let ping = relay_server_to_client(&mut proxy);
    assert_eq!(
        Packet::Ping {
            last_send_message_id: None
        },
        ping
    );
    let request = relay_server_to_client(&mut proxy);
    assert_eq!(Packet::RequestPacket { id: 1 }, request);

    proxy
        .client
        .receive_from(&mut proxy.client_socket, 1012)
        .expect("Could not update client");
    let pong = relay_client_to_server(&mut proxy);
    assert_eq!(
        Packet::Pong {
            last_send_message_id: None
        },
        pong
    );
    let not_found = relay_client_to_server(&mut proxy);
    assert_eq!(Packet::PacketNotFound { id: 1 }, not_found);

    // The server drops the id and stops requesting it.
    let delivered = proxy
        .server
        .receive_from(&mut proxy.server_socket, 1013)
        .expect("Could not receive from server");
    assert!(delivered.is_empty());
    proxy.server_socket.outbox.clear();
    proxy
        .server
        .update(&mut proxy.server_socket, 2200)
        .expect("Could not update server");
    let (bytes, _) = proxy
        .server_socket
        .outbox
        .pop_front()
        .expect("expected a ping");
    assert!(matches!(
        decode_packet(&bytes).expect("could not decode"),
        Packet::Ping { .. }
    ));
    assert!(server_has_no_pending_messages(&proxy));
}

#[test]
fn duplicate_data_is_redelivered_and_harmless() {
    let mut proxy = connected_proxy();

    proxy
        .client
        .send_confirmed(&mut proxy.client_socket, b"dup".to_vec(), 0)
        .expect("Could not send message");
    let (bytes, _) = proxy.client_socket.outbox.pop_front().expect("nothing sent");

    // The same datagram arrives twice.
    proxy
        .server_socket
        .inbox
        .push_back((bytes.clone(), CLIENT_ADDR));
    proxy.server_socket.inbox.push_back((bytes, CLIENT_ADDR));
    let delivered = proxy
        .server
        .receive_from(&mut proxy.server_socket, 10)
        .expect("Could not receive from server");
    // Re-delivery is the specified behaviour; both arrivals are confirmed.
    assert_eq!(vec![b"dup".to_vec(), b"dup".to_vec()], delivered);
    let ack = relay_server_to_client(&mut proxy);
    assert_eq!(Packet::ConfirmPacket { id: 1 }, ack);
    let ack = relay_server_to_client(&mut proxy);
    assert_eq!(Packet::ConfirmPacket { id: 1 }, ack);
    assert!(server_has_no_pending_messages(&proxy));
}

#[test]
fn unconfirmed_is_sent_once_and_never_cached() {
    let mut proxy = connected_proxy();

    proxy
        .client
        .send_unconfirmed(&mut proxy.client_socket, b"frame".to_vec())
        .expect("Could not send message");
    let message = relay_client_to_server(&mut proxy);
    assert_eq!(
        Packet::Data {
            message_id: None,
            data: b"frame".to_vec(),
        },
        message
    );
    let delivered = proxy
        .server
        .receive_from(&mut proxy.server_socket, 5)
        .expect("Could not receive from server");
    assert_eq!(vec![b"frame".to_vec()], delivered);
    // No confirmation and no retransmission for an unconfirmed message.
    assert!(server_has_no_pending_messages(&proxy));
    proxy
        .client
        .update(&mut proxy.client_socket, 1200)
        .expect("Could not update client");
    let ping = relay_client_to_server(&mut proxy);
    assert!(matches!(ping, Packet::Ping { .. }));
    assert!(client_has_no_pending_messages(&proxy));
}

#[test]
fn update_emission_order_is_ping_requests_resends() {
    let mut proxy = connected_proxy();

    // Leave one unacknowledged confirmed send in the cache.
    proxy
        .client
        .send_confirmed(&mut proxy.client_socket, b"kept".to_vec(), 0)
        .expect("Could not send message");
    proxy.client_socket.outbox.clear();
    // Make the client miss an id: the server's data id 2 never arrives but
    // a forged announcement of 2 does.
    let forged = encode_packet(&Packet::Pong {
        last_send_message_id: Some(2),
    });
    proxy.client_socket.inbox.push_back((forged, SERVER_ADDR));
    proxy
        .client
        .receive_from(&mut proxy.client_socket, 10)
        .expect("Could not update client");

    // With the ping, the re-request and the resend all due, the sweep
    // emits them in that order.
    proxy
        .client
        .update(&mut proxy.client_socket, 1500)
        .expect("Could not update client");
    let first = relay_client_to_server(&mut proxy);
    assert_eq!(
        Packet::Ping {
            last_send_message_id: Some(1)
        },
        first
    );
    let second = relay_client_to_server(&mut proxy);
    assert_eq!(Packet::RequestPacket { id: 1 }, second);
    let third = relay_client_to_server(&mut proxy);
    assert_eq!(Packet::RequestPacket { id: 2 }, third);
    let fourth = relay_client_to_server(&mut proxy);
    assert_eq!(
        Packet::Data {
            message_id: Some(1),
            data: b"kept".to_vec(),
        },
        fourth
    );
    assert!(client_has_no_pending_messages(&proxy));
}

#[test]
fn disconnected_update_does_nothing() {
    let mut proxy = connected_proxy();
    // Well past both timeouts, the sweep emits nothing.
    assert_eq!(NetworkState::Disconnected, proxy.client.state(10_000));
    proxy
        .client
        .update(&mut proxy.client_socket, 10_000)
        .expect("Could not update client");
    assert!(client_has_no_pending_messages(&proxy));
}

#[test]
fn send_failure_is_reported() {
    let mut connector = Connector::bound_to(SERVER_ADDR, ConnectorParam::default());
    let mut socket = FakeSocket::new(CLIENT_ADDR);
    socket.fail_sends = true;
    assert_eq!(
        Err(ConnectorError::SendFailed),
        connector.connect(&mut socket, 0)
    );
    assert_eq!(
        Err(ConnectorError::SendFailed),
        connector.send_confirmed(&mut socket, b"a".to_vec(), 0)
    );
    assert_eq!(
        Err(ConnectorError::SendFailed),
        connector.send_unconfirmed(&mut socket, b"a".to_vec())
    );
}

#[test]
fn receive_failure_is_reported() {
    let mut connector = Connector::bound_to(SERVER_ADDR, ConnectorParam::default());
    let mut socket = FakeSocket::new(CLIENT_ADDR);
    socket.fail_recv = true;
    assert_eq!(
        Err(ConnectorError::ReceiveFailed),
        connector.receive_from(&mut socket, 0)
    );
}

#[test]
fn empty_first_read_is_broken_transport() {
    let mut connector = Connector::bound_to(SERVER_ADDR, ConnectorParam::default());
    let mut socket = FakeSocket::new(CLIENT_ADDR);
    socket.inbox.push_back((Vec::new(), SERVER_ADDR));
    assert_eq!(
        Err(ConnectorError::BrokenTransport),
        connector.receive_from(&mut socket, 0)
    );
}

#[test]
fn empty_read_after_data_ends_drain() {
    let mut proxy = connected_proxy();
    let data = encode_packet(&Packet::Data {
        message_id: None,
        data: b"one".to_vec(),
    });
    proxy.server_socket.inbox.push_back((data, CLIENT_ADDR));
    proxy.server_socket.inbox.push_back((Vec::new(), CLIENT_ADDR));
    let delivered = proxy
        .server
        .receive_from(&mut proxy.server_socket, 5)
        .expect("Could not receive from server");
    assert_eq!(vec![b"one".to_vec()], delivered);
}

#[test]
fn undecodable_datagram_is_an_error() {
    let mut connector = Connector::bound_to(SERVER_ADDR, ConnectorParam::default());
    let mut socket = FakeSocket::new(CLIENT_ADDR);
    assert_eq!(
        Err(ConnectorError::DecodeFailed),
        connector.handle_incoming_data(&mut socket, &[9u8, 0, 0], 0)
    );
    socket.inbox.push_back((vec![9u8, 0, 0], SERVER_ADDR));
    assert_eq!(
        Err(ConnectorError::DecodeFailed),
        connector.receive_from(&mut socket, 0)
    );
}

#[test]
fn datagrams_from_strangers_are_ignored() {
    let mut proxy = connected_proxy();
    let stranger: u64 = 99;
    let data = encode_packet(&Packet::Data {
        message_id: None,
        data: b"noise".to_vec(),
    });
    proxy.server_socket.inbox.push_back((data, stranger));
    let delivered = proxy
        .server
        .receive_from(&mut proxy.server_socket, 5)
        .expect("Could not receive from server");
    assert!(delivered.is_empty());
    assert!(server_has_no_pending_messages(&proxy));
}

#[test]
fn default_param_values() {
    let param = ConnectorParam::default();
    assert_eq!(500, param.ping_interval);
    assert_eq!(1000, param.request_missing_interval);
    assert_eq!(1000, param.emit_unconfirmed_interval);
    assert_eq!(1500, param.receive_ping_timeout);
    assert_eq!(1500, param.send_ping_timeout);
}

#[test]
fn missing_id_new_stamps_the_entry() {
    let entry = udp_connector::receive_half::MissingId::new(7, 1234);
    assert_eq!(7, entry.id);
    assert_eq!(1234, entry.last_request);
}

#[test]
fn quiet_update_changes_nothing() {
    let mut proxy = connected_proxy();
    // Just after the handshake nothing is due: the sweep succeeds and emits
    // nothing, and a later drain still sees the connection alive.
    proxy
        .client
        .update(&mut proxy.client_socket, 100)
        .expect("Could not update client");
    assert!(client_has_no_pending_messages(&proxy));
    assert_eq!(NetworkState::Connected, proxy.client.state(100));
}

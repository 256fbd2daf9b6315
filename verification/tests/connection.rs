use mad_rust_util::connection::{
    encode_frames, ends_connection, session_action, ConnectionState, Life, Packet, SessionAction,
    MAX_BUFFER_SIZE,
    MAX_PACKET_SIZE,
};

fn datagram(bytes: &[u8]) -> (usize, [u8; MAX_BUFFER_SIZE]) {
    let mut buffer = [0u8; MAX_BUFFER_SIZE];
    buffer[..bytes.len()].copy_from_slice(bytes);
    (bytes.len(), buffer)
}

fn feed(packet: &mut Packet, bytes: &[u8]) -> Option<Vec<u8>> {
    let (size, buffer) = datagram(bytes);
    packet.recv(size, buffer)
}

#[test]
fn header_then_data_delivers_message() {
    let mut p = Packet::new();
    assert_eq!(feed(&mut p, &[0, 0, 0, 0, 0, 0, 0, 3]), None);
    assert_eq!(feed(&mut p, &[7, 8, 9]), Some(vec![7, 8, 9]));
}

#[test]
fn message_in_several_pieces() {
    let mut p = Packet::new();
    assert_eq!(feed(&mut p, &[0, 0, 0, 0, 0, 0, 0, 5]), None);
    assert_eq!(feed(&mut p, &[1, 2]), None);
    assert_eq!(feed(&mut p, &[3]), None);
    assert_eq!(feed(&mut p, &[4, 5]), Some(vec![1, 2, 3, 4, 5]));
    // the packet waits for the next header again
    assert_eq!(feed(&mut p, &[0, 0, 0, 0, 0, 0, 0, 1]), None);
    assert_eq!(feed(&mut p, &[6]), Some(vec![6]));
}

#[test]
fn empty_datagram_changes_nothing() {
    let mut p = Packet::new();
    assert_eq!(feed(&mut p, &[]), None);
    assert_eq!(feed(&mut p, &[0, 0, 0, 0, 0, 0, 0, 1]), None);
    assert_eq!(feed(&mut p, &[]), None);
    assert_eq!(feed(&mut p, &[9]), Some(vec![9]));
}

#[test]
fn short_datagram_before_header_is_ignored() {
    let mut p = Packet::new();
    assert_eq!(feed(&mut p, &[1, 2, 3]), None);
    assert_eq!(feed(&mut p, &[0, 0, 0, 0, 0, 0, 0, 2]), None);
    assert_eq!(feed(&mut p, &[4, 5]), Some(vec![4, 5]));
}

#[test]
fn header_reads_only_its_first_eight_bytes() {
    let mut p = Packet::new();
    assert_eq!(feed(&mut p, &[0, 0, 0, 0, 0, 0, 1, 0, 99, 99]), None);
    let data = vec![1u8; 256];
    assert_eq!(feed(&mut p, &data[..200]), None);
    assert_eq!(feed(&mut p, &data[200..]), Some(data));
}

#[test]
fn overshooting_the_length_never_delivers() {
    let mut p = Packet::new();
    assert_eq!(feed(&mut p, &[0, 0, 0, 0, 0, 0, 0, 2]), None);
    assert_eq!(feed(&mut p, &[1, 2, 3]), None);
    assert_eq!(feed(&mut p, &[4]), None);
}

#[test]
fn clear_drops_what_was_gathered() {
    let mut p = Packet::new();
    assert_eq!(feed(&mut p, &[0, 0, 0, 0, 0, 0, 0, 4]), None);
    assert_eq!(feed(&mut p, &[1, 2]), None);
    p.clear();
    assert_eq!(feed(&mut p, &[0, 0, 0, 0, 0, 0, 0, 1]), None);
    assert_eq!(feed(&mut p, &[3]), Some(vec![3]));
}

#[test]
fn frames_of_a_short_message() {
    let frames = encode_frames(&vec![1, 2, 3]);
    assert_eq!(frames, vec![vec![0, 0, 0, 0, 0, 0, 0, 3], vec![1, 2, 3]]);
}

#[test]
fn frames_of_an_empty_message() {
    let frames = encode_frames(&vec![]);
    assert_eq!(frames, vec![vec![0u8; 8]]);
}

#[test]
fn frames_header_is_big_endian_length() {
    let data = vec![5u8; 0x0102];
    let frames = encode_frames(&data);
    assert_eq!(frames[0], vec![0, 0, 0, 0, 0, 0, 1, 2]);
    assert_eq!(frames.len(), 2);
}

#[test]
fn frames_of_a_long_message() {
    let data: Vec<u8> = (0..(2 * MAX_PACKET_SIZE + 1)).map(|i| (i % 251) as u8).collect();
    let frames = encode_frames(&data);
    assert_eq!(frames.len(), 4);
    assert_eq!(frames[0], (data.len() as u64).to_be_bytes().to_vec());
    assert_eq!(frames[1].len(), MAX_PACKET_SIZE);
    assert_eq!(frames[2].len(), MAX_PACKET_SIZE);
    assert_eq!(frames[3].len(), 1);
    assert_eq!(frames[1..].concat(), data);
}

#[test]
fn frames_are_delivered_back() {
    for len in [1usize, 7, 8, 9, MAX_PACKET_SIZE, MAX_PACKET_SIZE + 1, 3 * MAX_PACKET_SIZE] {
        let data: Vec<u8> = (0..len).map(|i| (i * 7 % 256) as u8).collect();
        let frames = encode_frames(&data);
        let mut p = Packet::new();
        for (k, f) in frames.iter().enumerate() {
            let out = feed(&mut p, f);
            if k + 1 == frames.len() {
                assert_eq!(out, Some(data.clone()));
            } else {
                assert_eq!(out, None);
            }
        }
    }
}

#[test]
fn full_buffer_ends_connection() {
    assert!(ends_connection(MAX_BUFFER_SIZE));
    assert!(!ends_connection(MAX_BUFFER_SIZE - 1));
    assert!(!ends_connection(0));
}

#[test]
fn timeout_after_one_second() {
    assert_eq!(Life::from_elapsed_nanos(0), Life::Ping);
    assert_eq!(Life::from_elapsed_nanos(1_000_000_000), Life::Ping);
    assert_eq!(Life::from_elapsed_nanos(1_000_000_001), Life::Timeout);
}

#[test]
fn fresh_peer_is_pinged() {
    assert_eq!(Life::check_life(tokio::time::Instant::now()), Life::Ping);
    let long_ago = tokio::time::Instant::now() - std::time::Duration::from_secs(5);
    assert_eq!(Life::check_life(long_ago), Life::Timeout);
}

#[test]
fn connection_state_carries_data() {
    let s = ConnectionState::Data(vec![1, 2]);
    match s.clone() {
        ConnectionState::Data(d) => assert_eq!(d, vec![1, 2]),
        _ => panic!("wrong variant"),
    }
    assert!(matches!(ConnectionState::Start, ConnectionState::Start));
    assert!(matches!(ConnectionState::End, ConnectionState::End));
}

#[test]
fn header_is_reported_once_it_came() {
    let mut p = Packet::new();
    assert!(!p.has_header());
    assert_eq!(feed(&mut p, &[0, 0, 0, 0, 0, 0, 0, 2]), None);
    assert!(p.has_header());
    assert_eq!(feed(&mut p, &[1, 2]), Some(vec![1, 2]));
    assert!(!p.has_header());
}

#[test]
fn oversized_length_before_header_reads_the_header() {
    let mut p = Packet::new();
    let (_, buffer) = datagram(&[0, 0, 0, 0, 0, 0, 0, 1]);
    assert_eq!(p.recv(MAX_BUFFER_SIZE + 10, buffer), None);
    assert!(p.has_header());
    assert_eq!(feed(&mut p, &[9]), Some(vec![9]));
}

#[test]
fn session_action_on_datagrams() {
    assert_eq!(session_action(true, MAX_BUFFER_SIZE), SessionAction::End);
    assert_eq!(session_action(false, MAX_BUFFER_SIZE), SessionAction::End);
    assert_eq!(session_action(false, 3), SessionAction::Receive { open_session: true });
    assert_eq!(session_action(true, 0), SessionAction::Receive { open_session: false });
}

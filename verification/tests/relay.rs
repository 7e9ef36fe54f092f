use ssh_agent_switcher::flow::Lane;
use ssh_agent_switcher::relay::{
    peer, Interest, IoFault, Operation, Relay, RelayError, Side, READ_BUF_SIZE,
};
use std::collections::VecDeque;

/// The far end of a channel: what it has sent and not yet been read, whether
/// it has ended, what it was given, and how much it takes per write.
struct Far {
    sent: VecDeque<u8>,
    ended: bool,
    got: Vec<u8>,
    takes: usize,
    stalls: usize,
    echoes: bool,
}

impl Far {
    fn new() -> Far {
        Far { sent: VecDeque::new(), ended: false, got: Vec::new(), takes: usize::MAX, stalls: 0, echoes: false }
    }

    fn send(&mut self, bytes: &[u8]) {
        self.sent.extend(bytes.iter().copied());
    }
}

/// Lets the relay do all that it can do, and gives the most bytes that it
/// held for a peer at a time.
fn pump(relay: &mut Relay, client: &mut Far, agent: &mut Far) -> Result<usize, RelayError> {
    let mut most = 0;
    let mut round = 0;
    loop {
        round += 1;
        let interest = relay.interest();
        let mut moved = false;
        for side in [Side::Client, Side::Agent] {
            let far = match side {
                Side::Client => &mut *client,
                Side::Agent => &mut *agent,
            };
            let readable = match side {
                Side::Client => interest.client_readable,
                Side::Agent => interest.agent_readable,
            };
            if readable && relay.interest() == interest {
                let size = relay.read_size(side).min(far.sent.len());
                if size > 0 {
                    let data: Vec<u8> = far.sent.drain(..size).collect();
                    relay.on_read(side, Ok(data))?;
                    moved = true;
                } else if far.ended {
                    relay.on_read(side, Ok(Vec::new()))?;
                    moved = true;
                } else {
                    relay.on_read(side, Err(IoFault::WouldBlock))?;
                }
            }
        }
        for side in [Side::Client, Side::Agent] {
            let far = match side {
                Side::Client => &mut *client,
                Side::Agent => &mut *agent,
            };
            let unsent = relay.unsent(side).to_vec();
            most = most.max(unsent.len());
            if !unsent.is_empty() {
                if far.stalls > 0 && round % (far.stalls + 1) != 0 {
                    relay.on_write(side, Err(IoFault::WouldBlock))?;
                    moved = true;
                } else {
                    let count = unsent.len().min(far.takes);
                    far.got.extend_from_slice(&unsent[..count]);
                    if far.echoes {
                        far.sent.extend(unsent[..count].iter().copied());
                    }
                    relay.on_write(side, Ok(count))?;
                    moved = true;
                }
            }
        }
        if relay.finished() || !moved {
            return Ok(most);
        }
    }
}

fn do_bidi_test(read_buf_size: usize, client_msg: &str, agent_msg: &str) {
    let mut relay = Relay::new(read_buf_size);
    let mut client = Far::new();
    let mut agent = Far::new();

    client.send(client_msg.as_bytes());
    let most = pump(&mut relay, &mut client, &mut agent).unwrap();
    assert_eq!(client_msg.as_bytes(), &agent.got[..]);
    assert!(most <= read_buf_size);

    agent.send(agent_msg.as_bytes());
    let most = pump(&mut relay, &mut client, &mut agent).unwrap();
    assert_eq!(agent_msg.as_bytes(), &client.got[..]);
    assert!(most <= read_buf_size);
    assert!(!relay.finished());

    client.ended = true;
    pump(&mut relay, &mut client, &mut agent).unwrap();
    assert!(!relay.finished());
    agent.ended = true;
    pump(&mut relay, &mut client, &mut agent).unwrap();
    assert!(relay.finished());
    assert_eq!(client_msg.as_bytes(), &agent.got[..]);
    assert_eq!(agent_msg.as_bytes(), &client.got[..]);
}

#[test]
fn test_one_byte_at_a_time() {
    do_bidi_test(1, "abcdefg", "hijklmn");
}

#[test]
fn test_chunked() {
    do_bidi_test(8, "request longer than eight bytes", "response longer than eight bytes");
}

#[test]
fn test_one_chunk() {
    do_bidi_test(1024, "request shorter than 1024 bytes", "response shorter than 1024 bytes");
}

#[test]
fn test_communication_patterns() {
    let sizes = [
        1, 15, 16, 31, 32, 63, 64, 127, 128, 255, 256, 512, 1024, 2048, 4096, 8192, 16384, 32768,
        65536,
    ];
    for size in sizes {
        let message: Vec<u8> = (0..size).map(|i| (i % 256) as u8).collect();
        let mut relay = Relay::new(READ_BUF_SIZE);
        let mut client = Far::new();
        let mut agent = Far::new();
        agent.echoes = true;
        client.send(&message);
        pump(&mut relay, &mut client, &mut agent).unwrap();
        assert_eq!(client.got, message, "Echo failed for size {size}");
        assert_eq!(agent.got, message);
    }
}

#[test]
fn a_large_write_reaches_a_slow_agent_whole_and_in_order() {
    let message: Vec<u8> = (0..65536u32).map(|i| (i * 7 % 251) as u8).collect();
    let mut relay = Relay::new(READ_BUF_SIZE);
    let mut client = Far::new();
    let mut agent = Far::new();
    agent.takes = 13;
    agent.stalls = 3;
    client.send(&message);
    client.ended = true;
    agent.ended = true;
    let most = pump(&mut relay, &mut client, &mut agent).unwrap();
    assert!(relay.finished());
    assert_eq!(agent.got.len(), 65536);
    assert_eq!(agent.got, message);
    assert!(client.got.is_empty());
    assert!(most <= READ_BUF_SIZE);
}

#[test]
fn the_default_read_size_is_1024() {
    assert_eq!(READ_BUF_SIZE, 1024);
    let relay = Relay::new(READ_BUF_SIZE);
    assert_eq!(relay.read_size(Side::Client), 1024);
    assert_eq!(relay.read_size(Side::Agent), 1024);
}

#[test]
fn a_fresh_session_waits_for_both_peers_to_speak() {
    let relay = Relay::new(16);
    assert_eq!(
        relay.interest(),
        Interest {
            client_readable: true,
            client_writable: false,
            agent_readable: true,
            agent_writable: false
        }
    );
    assert!(!relay.finished());
    assert!(relay.unsent(Side::Client).is_empty());
    assert!(relay.unsent(Side::Agent).is_empty());
}

#[test]
fn reading_pauses_while_bytes_are_held() {
    let mut relay = Relay::new(16);
    assert_eq!(relay.on_read(Side::Client, Ok(b"hello".to_vec())), Ok(()));
    let interest = relay.interest();
    assert!(!interest.client_readable);
    assert!(interest.agent_writable);
    assert!(interest.agent_readable);
    assert!(!interest.client_writable);
    assert_eq!(relay.unsent(Side::Agent), b"hello");
    assert!(relay.unsent(Side::Client).is_empty());
}

#[test]
fn a_short_write_leaves_the_rest_for_the_next() {
    let mut relay = Relay::new(16);
    relay.on_read(Side::Agent, Ok(b"response".to_vec())).unwrap();
    assert_eq!(relay.on_write(Side::Client, Ok(3)), Ok(()));
    assert_eq!(relay.unsent(Side::Client), b"ponse");
    assert!(relay.interest().client_writable);
    assert!(!relay.interest().agent_readable);
    assert_eq!(relay.on_write(Side::Client, Ok(0)), Ok(()));
    assert_eq!(relay.unsent(Side::Client), b"ponse");
    assert_eq!(relay.on_write(Side::Client, Ok(5)), Ok(()));
    assert!(relay.unsent(Side::Client).is_empty());
    assert!(!relay.interest().client_writable);
    assert!(relay.interest().agent_readable);
}

#[test]
fn a_channel_that_was_not_ready_is_no_error() {
    let mut relay = Relay::new(16);
    assert_eq!(relay.on_read(Side::Client, Err(IoFault::WouldBlock)), Ok(()));
    assert!(relay.interest().client_readable);
    relay.on_read(Side::Client, Ok(b"abc".to_vec())).unwrap();
    assert_eq!(relay.on_write(Side::Agent, Err(IoFault::WouldBlock)), Ok(()));
    assert_eq!(relay.unsent(Side::Agent), b"abc");
}

#[test]
fn any_other_fault_ends_the_session_and_names_its_place() {
    let mut relay = Relay::new(16);
    assert_eq!(
        relay.on_read(Side::Agent, Err(IoFault::Failed(104))),
        Err(RelayError { side: Side::Agent, operation: Operation::Read, errno: 104 })
    );
    assert_eq!(
        relay.on_read(Side::Client, Err(IoFault::Failed(5))),
        Err(RelayError { side: Side::Client, operation: Operation::Read, errno: 5 })
    );
    relay.on_read(Side::Client, Ok(b"abc".to_vec())).unwrap();
    assert_eq!(
        relay.on_write(Side::Agent, Err(IoFault::Failed(32))),
        Err(RelayError { side: Side::Agent, operation: Operation::Write, errno: 32 })
    );
    assert_eq!(relay.unsent(Side::Agent), b"abc");
}

#[test]
fn an_empty_read_half_closes_one_direction_only() {
    let mut relay = Relay::new(16);
    relay.on_read(Side::Client, Ok(Vec::new())).unwrap();
    let interest = relay.interest();
    assert!(!interest.client_readable);
    assert!(interest.agent_readable);
    assert!(!relay.finished());
    relay.on_read(Side::Agent, Ok(b"late".to_vec())).unwrap();
    assert!(relay.interest().client_writable);
    relay.on_write(Side::Client, Ok(4)).unwrap();
    relay.on_read(Side::Agent, Ok(Vec::new())).unwrap();
    assert!(relay.finished());
}

#[test]
fn a_session_is_not_finished_while_bytes_are_held() {
    let mut relay = Relay::new(16);
    relay.on_read(Side::Agent, Ok(Vec::new())).unwrap();
    relay.on_read(Side::Client, Ok(b"last words".to_vec())).unwrap();
    relay.on_write(Side::Agent, Ok(4)).unwrap();
    assert!(!relay.finished());
    assert_eq!(relay.unsent(Side::Agent), b" words");
    relay.on_write(Side::Agent, Ok(6)).unwrap();
    assert!(!relay.finished());
    relay.on_read(Side::Client, Ok(Vec::new())).unwrap();
    assert!(relay.finished());
    assert_eq!(
        relay.interest(),
        Interest {
            client_readable: false,
            client_writable: false,
            agent_readable: false,
            agent_writable: false
        }
    );
}

#[test]
fn each_peer_has_the_other_as_its_peer() {
    assert_eq!(peer(Side::Client), Side::Agent);
    assert_eq!(peer(Side::Agent), Side::Client);
}

#[test]
fn a_lane_gives_what_it_took_in_order() {
    let mut lane = Lane::new(4);
    assert_eq!(lane.limit(), 4);
    assert!(lane.wants_read());
    assert!(!lane.wants_write());
    assert!(!lane.drained());
    lane.take(vec![1, 2, 3, 4]);
    assert!(!lane.wants_read());
    assert!(lane.wants_write());
    assert_eq!(lane.unsent(), [1, 2, 3, 4]);
    lane.wrote(1);
    assert_eq!(lane.unsent(), [2, 3, 4]);
    lane.wrote(3);
    assert!(lane.unsent().is_empty());
    assert!(lane.wants_read());
    lane.take(vec![5]);
    assert_eq!(lane.unsent(), [5]);
    lane.wrote(1);
    lane.take(Vec::new());
    assert!(lane.drained());
    assert!(!lane.wants_read());
    assert!(!lane.wants_write());
}

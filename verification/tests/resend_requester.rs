use webrtc_lib::utils::{PacketReceivedResult, RtpPacketResendRequesterEvent, SequenceNumber};
use webrtc_lib::utils::resend_requester::RtpPacketResendRequester;

/// The requester with the clock it runs on, in milliseconds.
struct Clocked {
    instance: RtpPacketResendRequester,
    now: u32,
}

impl Clocked {
    fn new(frame_size: usize) -> Self {
        Clocked { instance: RtpPacketResendRequester::new(Some(frame_size)), now: 0 }
    }

    fn handle_packet_received(&mut self, id: u16) -> PacketReceivedResult {
        self.instance.handle_packet_received(SequenceNumber::new(id), self.now)
    }

    fn missing_packets(&self) -> Vec<u16> {
        self.instance.missing_packets(self.now).iter().map(|s| s.packet_id).collect()
    }

    fn advance_clock(&mut self, millis: u32) {
        self.now += millis;
    }

    /// Lets the resend timer run out, when it runs.
    fn run_timer(&mut self) -> bool {
        match self.instance.resend_delay() {
            Some(delay) => {
                self.now += delay;
                self.instance.resend_timer_elapsed(self.now);
                true
            },
            None => false,
        }
    }
}

fn ids(v: &[SequenceNumber<u16>]) -> Vec<u16> {
    v.iter().map(|s| s.packet_id).collect()
}

#[test]
fn test_init_setup() {
    let mut instance = Clocked::new(32);
    assert_eq!(instance.handle_packet_received(222), PacketReceivedResult::Success);
    assert!(instance.missing_packets().is_empty());

    assert_eq!(instance.handle_packet_received(223), PacketReceivedResult::Success);
    assert!(instance.missing_packets().is_empty());

    assert_eq!(instance.handle_packet_received(225), PacketReceivedResult::Success);
    for _ in 0..4 {
        assert!(instance.run_timer());
        match instance.instance.next_event() {
            Some(RtpPacketResendRequesterEvent::ResendPackets(packets)) => assert_eq!(ids(&packets), vec![224]),
            other => panic!("unexpected event {:?}", other),
        }
    }
    instance.advance_clock(500);
    assert_eq!(instance.missing_packets(), vec![224]);
    assert!(instance.run_timer());
    match instance.instance.next_event() {
        Some(RtpPacketResendRequesterEvent::ResendPackets(packets)) => assert_eq!(ids(&packets), vec![224]),
        other => panic!("unexpected event {:?}", other),
    }
}

#[test]
fn test_wrap() {
    let mut instance = Clocked::new(32);
    assert_eq!(instance.handle_packet_received(0xFFFE), PacketReceivedResult::Success);
    assert!(instance.missing_packets().is_empty());

    assert_eq!(instance.handle_packet_received(0xFFFF), PacketReceivedResult::Success);
    assert!(instance.missing_packets().is_empty());

    assert_eq!(instance.handle_packet_received(0x0000), PacketReceivedResult::Success);
    assert!(instance.missing_packets().is_empty());

    assert_eq!(instance.handle_packet_received(0x0001), PacketReceivedResult::Success);
    assert!(instance.missing_packets().is_empty());

    instance.advance_clock(500);
    assert!(instance.missing_packets().is_empty());
}

#[test]
fn test_wrap_loss_0() {
    let mut instance = Clocked::new(32);
    assert_eq!(instance.handle_packet_received(0xFFFE), PacketReceivedResult::Success);
    assert!(instance.missing_packets().is_empty());

    assert_eq!(instance.handle_packet_received(0x0000), PacketReceivedResult::Success);
    assert!(instance.missing_packets().is_empty());

    instance.advance_clock(500);
    assert_eq!(instance.missing_packets(), vec![0xFFFF]);

    assert_eq!(instance.handle_packet_received(0x0001), PacketReceivedResult::Success);
    assert_eq!(instance.missing_packets(), vec![0xFFFF]);
}

#[test]
fn test_wrap_loss_1() {
    let mut instance = Clocked::new(32);
    assert_eq!(instance.handle_packet_received(0xFFFE), PacketReceivedResult::Success);
    assert!(instance.missing_packets().is_empty());

    assert_eq!(instance.handle_packet_received(0xFFFF), PacketReceivedResult::Success);
    assert!(instance.missing_packets().is_empty());

    assert_eq!(instance.handle_packet_received(0x0001), PacketReceivedResult::Success);
    assert!(instance.missing_packets().is_empty());

    instance.advance_clock(500);
    assert_eq!(instance.missing_packets(), vec![0x0000]);
}

#[test]
fn test_general_loss_1() {
    let mut instance = Clocked::new(32);
    for id in 0..10000 {
        instance.handle_packet_received(id as u16);
        instance.advance_clock(1000);
        assert!(instance.missing_packets().is_empty());
    }
}

#[test]
fn old_packets_are_refused() {
    let mut instance = Clocked::new(32);
    assert_eq!(instance.handle_packet_received(1000), PacketReceivedResult::Success);
    assert_eq!(instance.handle_packet_received(900), PacketReceivedResult::PacketTooOld);
    assert_eq!(instance.instance.last_packet_id(), 1000);
}

#[test]
fn lost_packets_time_out() {
    let mut instance = Clocked::new(32);
    instance.handle_packet_received(10);
    instance.handle_packet_received(12);
    // the timer first waits for the nack delay of packet 11
    assert_eq!(instance.instance.resend_delay(), Some(5));
    instance.advance_clock(1005);
    instance.instance.resend_timer_elapsed(instance.now);
    match instance.instance.next_event() {
        Some(RtpPacketResendRequesterEvent::PacketTimedOut(packets)) => assert_eq!(ids(&packets), vec![11]),
        other => panic!("unexpected event {:?}", other),
    }
    assert!(instance.instance.next_event().is_none());
    assert!(instance.missing_packets().is_empty());
}

#[test]
fn gap_and_timeout_restart_the_sequence() {
    let mut instance = Clocked::new(32);
    instance.handle_packet_received(10);
    instance.handle_packet_received(12);
    // a jump far ahead ends the sequence, packet 11 counts as lost
    instance.handle_packet_received(500);
    match instance.instance.next_event() {
        Some(RtpPacketResendRequesterEvent::PacketTimedOut(packets)) => assert_eq!(ids(&packets), vec![11]),
        other => panic!("unexpected event {:?}", other),
    }
    assert_eq!(instance.instance.next_event(), Some(RtpPacketResendRequesterEvent::SequenceGapped));
    // nothing pending, so a long pause is no timed out sequence
    instance.advance_clock(2000);
    instance.handle_packet_received(501);
    assert!(instance.instance.next_event().is_none());
    instance.handle_packet_received(503);
    instance.advance_clock(2000);
    instance.handle_packet_received(504);
    match instance.instance.next_event() {
        Some(RtpPacketResendRequesterEvent::PacketTimedOut(packets)) => assert_eq!(ids(&packets), vec![502]),
        other => panic!("unexpected event {:?}", other),
    }
    assert_eq!(instance.instance.next_event(), Some(RtpPacketResendRequesterEvent::SequenceTimedOut));
}

#[test]
fn reset_and_frame_size() {
    let mut instance = Clocked::new(32);
    instance.handle_packet_received(10);
    instance.handle_packet_received(12);
    instance.instance.reset_resends();
    assert_eq!(instance.instance.resend_delay(), None);
    instance.advance_clock(100);
    assert!(instance.missing_packets().is_empty());

    instance.handle_packet_received(14);
    instance.instance.set_frame_size(64);
    match instance.instance.next_event() {
        Some(RtpPacketResendRequesterEvent::PacketTimedOut(packets)) => assert_eq!(ids(&packets), vec![13]),
        other => panic!("unexpected event {:?}", other),
    }
    assert_eq!(instance.instance.last_packet_id(), 0);

    instance.instance.set_nack_delay(50);
    instance.instance.set_resend_interval(10);
    instance.handle_packet_received(100);
    instance.handle_packet_received(102);
    assert_eq!(instance.instance.resend_delay(), Some(50));
    instance.instance.reset();
    assert_eq!(instance.instance.resend_delay(), None);
    assert!(instance.missing_packets().is_empty());
}

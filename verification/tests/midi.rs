use particelle::midi_host::{select_input_port, MidiHostError, MidiHostState};
use particelle::midi_offline::{OfflineMidiReader, TimedMidiEvent};

fn reader(frames: &[u64]) -> OfflineMidiReader<u8> {
    OfflineMidiReader {
        events: frames
            .iter()
            .enumerate()
            .map(|(i, f)| TimedMidiEvent { frame: *f, event: i as u8 })
            .collect(),
    }
}

#[test]
fn events_in_range_is_half_open() {
    let r = reader(&[0, 10, 20, 20, 30]);
    let got: Vec<u64> = r.events_in_range(10, 30).iter().map(|e| e.frame).collect();
    assert_eq!(got, vec![10, 20, 20]);
    assert!(r.events_in_range(31, 100).is_empty());
    assert!(r.events_in_range(20, 20).is_empty());
}

#[test]
fn consecutive_blocks_see_every_event_once() {
    let r = reader(&[0, 3, 4, 8, 8, 15]);
    let mut seen = Vec::new();
    for start in (0..16).step_by(4) {
        for e in r.events_in_range(start, start + 4) {
            seen.push(e.event);
        }
    }
    assert_eq!(seen, vec![0, 1, 2, 3, 4, 5]);
}

#[test]
fn test_new_is_not_running() {
    let host: MidiHostState<()> = MidiHostState::new();
    assert!(!host.is_connected());
    assert!(host.selected_port().is_none());
}

#[test]
fn port_selection() {
    let ports = vec!["IAC".to_owned(), "Keys".to_owned(), "Keys".to_owned()];
    assert_eq!(select_input_port(&ports, None), Ok(0));
    assert_eq!(select_input_port(&ports, Some("Keys")), Ok(1));
    assert_eq!(
        select_input_port(&ports, Some("Pads")),
        Err(MidiHostError::PortNotFound { name: "Pads".to_owned() })
    );
    assert_eq!(select_input_port(&Vec::new(), Some("Keys")), Err(MidiHostError::NoInputPorts));
    assert_eq!(select_input_port(&Vec::new(), None), Err(MidiHostError::NoInputPorts));
}

#[test]
fn host_refuses_second_start_until_stopped() {
    let ports = vec!["IAC".to_owned()];
    let mut host: MidiHostState<u32> = MidiHostState::new();
    assert_eq!(host.plan_start(&ports, None), Ok(0));
    host.connected_to(7, "IAC".to_owned());
    assert!(host.is_connected());
    assert_eq!(host.selected_port(), Some("IAC"));
    assert_eq!(host.plan_start(&ports, None), Err(MidiHostError::AlreadyRunning));
    assert_eq!(host.stop(), Some(7));
    assert!(!host.is_connected());
    assert_eq!(host.selected_port(), None);
    assert_eq!(host.stop(), None);
    assert_eq!(host.plan_start(&ports, Some("IAC")), Ok(0));
}

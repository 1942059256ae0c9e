use dsp::dac::BufferState;
use dsp::dac::DoubleBufferPipeline;
use dsp::dac::Slot;

fn fill(value: u16) -> impl FnOnce([u16; 4]) -> [u16; 4] {
    move |mut b: [u16; 4]| {
        for w in b.iter_mut() {
            *w = value;
        }
        b
    }
}

fn owners(p: &DoubleBufferPipeline<4>) -> (BufferState, BufferState) {
    (p.state(Slot::First), p.state(Slot::Second))
}

#[test]
fn new_pipeline_is_unarmed_and_idle() {
    let p = DoubleBufferPipeline::new([1u16; 4], [2u16; 4]);
    assert!(!p.is_armed());
    assert_eq!(p.streaming(), None);
    assert_eq!(owners(&p), (BufferState::Idle, BufferState::Idle));
    assert_eq!(p.idle_slot(), None);
    assert_eq!(*p.buffer(Slot::First), [1; 4]);
    assert_eq!(*p.buffer(Slot::Second), [2; 4]);
}

#[test]
fn process_before_arming_does_nothing() {
    let mut p = DoubleBufferPipeline::new([1u16; 4], [2u16; 4]);
    assert_eq!(p.process(fill(9)), None);
    assert_eq!(*p.buffer(Slot::First), [1; 4]);
    assert_eq!(*p.buffer(Slot::Second), [2; 4]);
    assert_eq!(owners(&p), (BufferState::Idle, BufferState::Idle));
}

#[test]
fn arming_gives_the_first_buffer_to_the_engine() {
    let mut p = DoubleBufferPipeline::new([1u16; 4], [2u16; 4]);
    assert!(p.arm());
    assert!(p.is_armed());
    assert_eq!(p.streaming(), Some(Slot::First));
    assert_eq!(owners(&p), (BufferState::InFlight, BufferState::Idle));
    assert_eq!(p.idle_slot(), Some(Slot::Second));
    assert!(!p.arm());
    assert_eq!(p.streaming(), Some(Slot::First));
    assert_eq!(owners(&p), (BufferState::InFlight, BufferState::Idle));
}

#[test]
fn process_fills_the_idle_buffer_and_hands_it_over() {
    let mut p = DoubleBufferPipeline::new([1u16; 4], [2u16; 4]);
    p.arm();
    assert_eq!(p.process(fill(7)), Some(Slot::Second));
    assert_eq!(*p.buffer(Slot::Second), [7; 4]);
    assert_eq!(*p.buffer(Slot::First), [1; 4]);
    assert_eq!(owners(&p), (BufferState::InFlight, BufferState::InFlight));
    assert_eq!(p.streaming(), Some(Slot::First));
    assert_eq!(p.idle_slot(), None);
}

#[test]
fn process_waits_for_completion() {
    let mut p = DoubleBufferPipeline::new([1u16; 4], [2u16; 4]);
    p.arm();
    assert_eq!(p.process(fill(7)), Some(Slot::Second));
    // The engine still streams the first buffer and has the second queued:
    // nothing may be written.
    assert_eq!(p.process(fill(8)), None);
    assert_eq!(*p.buffer(Slot::First), [1; 4]);
    assert_eq!(*p.buffer(Slot::Second), [7; 4]);
    assert_eq!(owners(&p), (BufferState::InFlight, BufferState::InFlight));
}

#[test]
fn completion_returns_the_streamed_buffer() {
    let mut p = DoubleBufferPipeline::new([1u16; 4], [2u16; 4]);
    p.arm();
    p.process(fill(7));
    assert!(p.complete_transfer());
    assert_eq!(p.streaming(), Some(Slot::Second));
    assert_eq!(owners(&p), (BufferState::Idle, BufferState::InFlight));
    assert_eq!(p.idle_slot(), Some(Slot::First));
    assert_eq!(p.process(fill(8)), Some(Slot::First));
    assert_eq!(*p.buffer(Slot::First), [8; 4]);
    assert_eq!(*p.buffer(Slot::Second), [7; 4]);
}

#[test]
fn completion_with_nothing_queued_changes_nothing() {
    let mut p = DoubleBufferPipeline::new([1u16; 4], [2u16; 4]);
    assert!(!p.complete_transfer());
    assert_eq!(owners(&p), (BufferState::Idle, BufferState::Idle));
    p.arm();
    assert!(!p.complete_transfer());
    assert_eq!(p.streaming(), Some(Slot::First));
    assert_eq!(owners(&p), (BufferState::InFlight, BufferState::Idle));
}

#[test]
fn callback_may_return_another_block() {
    let mut p = DoubleBufferPipeline::new([1u16; 4], [2u16; 4]);
    p.arm();
    let other = [40u16, 41, 42, 43];
    assert_eq!(p.process(move |_| other), Some(Slot::Second));
    assert_eq!(*p.buffer(Slot::Second), other);
}

#[test]
fn callback_sees_the_idle_buffer() {
    let mut p = DoubleBufferPipeline::new([1u16; 4], [2u16, 3, 4, 5]);
    p.arm();
    p.process(|b| {
        assert_eq!(b, [2, 3, 4, 5]);
        b
    });
    p.complete_transfer();
    p.process(|b| {
        assert_eq!(b, [1; 4]);
        b
    });
}

#[test]
fn owners_partition_the_buffers_at_every_step() {
    let mut p = DoubleBufferPipeline::new([0u16; 4], [0u16; 4]);
    p.arm();
    // A fixed pattern of hand-offs and completions, some of them refused.
    let pattern = [0u8, 0, 1, 1, 0, 1, 0, 0, 1, 1, 1, 0, 1, 0, 1, 0];
    let mut round: u16 = 0;
    for _ in 0..50 {
        for step in pattern {
            let written = if step == 0 {
                round += 1;
                let before = p.idle_slot();
                let handed = p.process(fill(round));
                assert_eq!(handed, before);
                handed
            } else {
                p.complete_transfer();
                None
            };
            let streaming = p.streaming().unwrap();
            // The engine owns what it streams; what was just written is
            // not what it streams, and it is the engine's from now on.
            assert_eq!(p.state(streaming), BufferState::InFlight);
            if let Some(slot) = written {
                assert_ne!(slot, streaming);
                assert_eq!(p.state(slot), BufferState::InFlight);
            }
            // The idle buffer, if any, is the other one.
            if let Some(idle) = p.idle_slot() {
                assert_eq!(idle, streaming.other());
                assert_eq!(p.state(idle), BufferState::Idle);
            }
        }
    }
}

#[test]
fn every_period_hands_out_a_fresh_buffer() {
    let mut p = DoubleBufferPipeline::new([0u16; 4], [0u16; 4]);
    p.arm();
    assert_eq!(p.process(fill(1)), Some(Slot::Second));
    let mut expected = Slot::First;
    for round in 2u16..200 {
        let was_streaming = p.streaming().unwrap();
        assert!(p.complete_transfer());
        let handed = p.process(fill(round));
        assert_eq!(handed, Some(expected));
        assert_eq!(handed, Some(was_streaming));
        assert_eq!(*p.buffer(expected), [round; 4]);
        assert_eq!(*p.buffer(expected.other()), [round - 1; 4]);
        expected = expected.other();
    }
}

#[test]
fn other_slot() {
    assert_eq!(Slot::First.other(), Slot::Second);
    assert_eq!(Slot::Second.other(), Slot::First);
}

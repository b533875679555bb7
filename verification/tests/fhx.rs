use daisy_garden::fhx::COMMAND_QUEUE_CAPACITY;
use daisy_garden::fhx::CommandQueue;
use daisy_garden::fhx::CvAddress;
use daisy_garden::fhx::CvChannel;
use daisy_garden::fhx::FhxCv;
use daisy_garden::fhx::FhxGate;
use daisy_garden::fhx::FhxSetMessage;
use daisy_garden::fhx::GtAddress;
use daisy_garden::fhx::GtChannel;
use daisy_garden::fhx::fhx_worker_drain;
use daisy_garden::fhx::red_noise_tick;

#[test]
fn test_queue_is_fifo() {
    let mut queue = CommandQueue::new(COMMAND_QUEUE_CAPACITY);
    let first = FhxSetMessage::CvPolarity { address: CvAddress::Cv1, polarity: 0xFF };
    let second = FhxSetMessage::Cv {
        address: CvAddress::Cv0,
        channel: CvChannel::Channel3,
        value: 1234,
    };
    let third = FhxSetMessage::Gate {
        address: GtAddress::Gt0,
        channel: GtChannel::Channel8,
        value: true,
    };

    assert!(queue.try_send(first).is_ok());
    assert!(queue.try_send(second).is_ok());
    assert!(queue.try_send(third).is_ok());
    assert_eq!(queue.len(), 3);

    assert_eq!(queue.try_receive(), Some(first));
    assert_eq!(queue.try_receive(), Some(second));
    assert_eq!(queue.try_receive(), Some(third));
    assert_eq!(queue.try_receive(), None);
}

#[test]
fn test_queue_full_returns_the_command() {
    let mut queue = CommandQueue::new(2);
    let msg = FhxSetMessage::CvPolarity { address: CvAddress::Cv0, polarity: 1 };

    assert!(queue.try_send(msg).is_ok());
    assert!(queue.try_send(msg).is_ok());
    assert!(queue.is_full());
    // Backpressure: the command comes back, nothing is dropped silently.
    assert_eq!(queue.try_send(msg), Err(msg));
    assert_eq!(queue.len(), 2);

    // Once the worker makes room, the retry goes through.
    assert_eq!(queue.try_receive(), Some(msg));
    assert!(queue.try_send(msg).is_ok());
}

#[test]
fn test_cv_handle_enqueues_its_own_line() {
    let mut queue = CommandQueue::new(COMMAND_QUEUE_CAPACITY);
    let cv = FhxCv::new(CvAddress::Cv1, CvChannel::Channel8);

    assert!(cv.set_value(&mut queue, 40_000).is_ok());

    assert_eq!(
        queue.try_receive(),
        Some(FhxSetMessage::Cv {
            address: CvAddress::Cv1,
            channel: CvChannel::Channel8,
            value: 40_000,
        })
    );
}

#[test]
fn test_gate_handle_enqueues_both_levels() {
    let mut queue = CommandQueue::new(COMMAND_QUEUE_CAPACITY);
    let gate = FhxGate::new(GtAddress::Gt0, GtChannel::Channel8);

    assert!(gate.set_high(&mut queue).is_ok());
    assert!(gate.set_low(&mut queue).is_ok());

    assert_eq!(
        queue.try_receive(),
        Some(FhxSetMessage::Gate {
            address: GtAddress::Gt0,
            channel: GtChannel::Channel8,
            value: true,
        })
    );
    assert_eq!(
        queue.try_receive(),
        Some(FhxSetMessage::Gate {
            address: GtAddress::Gt0,
            channel: GtChannel::Channel8,
            value: false,
        })
    );
}

#[test]
fn test_worker_dispatches_in_arrival_order() {
    // Two producers interleave their sends; the worker's dispatch order is
    // the arrival order, so each producer's own order is preserved.
    let mut queue = CommandQueue::new(COMMAND_QUEUE_CAPACITY);
    let cv = FhxCv::new(CvAddress::Cv0, CvChannel::Channel1);
    let gate = FhxGate::new(GtAddress::Gt1, GtChannel::Channel2);

    assert!(cv.set_value(&mut queue, 1).is_ok());
    assert!(gate.set_high(&mut queue).is_ok());
    assert!(cv.set_value(&mut queue, 2).is_ok());
    assert!(gate.set_low(&mut queue).is_ok());

    let dispatched = fhx_worker_drain(&mut queue);
    assert!(queue.is_empty());
    assert_eq!(dispatched.len(), 4);

    // Global FIFO.
    assert_eq!(
        dispatched[0],
        FhxSetMessage::Cv { address: CvAddress::Cv0, channel: CvChannel::Channel1, value: 1 }
    );
    assert_eq!(
        dispatched[1],
        FhxSetMessage::Gate { address: GtAddress::Gt1, channel: GtChannel::Channel2, value: true }
    );
    assert_eq!(
        dispatched[2],
        FhxSetMessage::Cv { address: CvAddress::Cv0, channel: CvChannel::Channel1, value: 2 }
    );
    assert_eq!(
        dispatched[3],
        FhxSetMessage::Gate { address: GtAddress::Gt1, channel: GtChannel::Channel2, value: false }
    );

    // Each sender's own commands stand in its own enqueue order.
    let cv_values: Vec<u16> = dispatched
        .iter()
        .filter_map(|m| match m {
            FhxSetMessage::Cv { value, .. } => Some(*value),
            _ => None,
        })
        .collect();
    assert_eq!(cv_values, vec![1, 2]);
    let gate_levels: Vec<bool> = dispatched
        .iter()
        .filter_map(|m| match m {
            FhxSetMessage::Gate { value, .. } => Some(*value),
            _ => None,
        })
        .collect();
    assert_eq!(gate_levels, vec![true, false]);
}

#[test]
fn test_red_noise_tick_commands() {
    let cv = FhxCv::new(CvAddress::Cv1, CvChannel::Channel8);
    let gate = FhxGate::new(GtAddress::Gt0, GtChannel::Channel8);

    let (cv_msg, gate_high, gate_low) = red_noise_tick(&cv, &gate, 12_345);

    assert_eq!(
        cv_msg,
        FhxSetMessage::Cv { address: CvAddress::Cv1, channel: CvChannel::Channel8, value: 12_345 }
    );
    assert_eq!(
        gate_high,
        FhxSetMessage::Gate { address: GtAddress::Gt0, channel: GtChannel::Channel8, value: true }
    );
    assert_eq!(
        gate_low,
        FhxSetMessage::Gate { address: GtAddress::Gt0, channel: GtChannel::Channel8, value: false }
    );
}

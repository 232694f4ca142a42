use downsample::processing::BlockingStage;
use downsample::processing::PollingStage;
use downsample::processing::StageExit;
use downsample::Payload;
use downsample::CHANNELS;

fn payload_with(a: u16, b: u16) -> Payload {
    let mut stokes = vec![0u16; CHANNELS];
    stokes[0] = a;
    stokes[1] = b;
    Payload::new(stokes)
}

#[test]
fn polling_pipeline_averages_and_dumps_in_order() {
    let (payload_send, payload_recv) = crossbeam_channel::bounded(16);
    let (stokes_send, stokes_recv) = crossbeam_channel::bounded(16);
    let (dump_send, dump_recv) = crossbeam_channel::bounded(16);

    let raw = [(2u16, 4u16), (6u16, 8u16), (1u16, 1u16), (3u16, 5u16), (9u16, 9u16)];
    for &(a, b) in &raw {
        payload_send.send(payload_with(a, b)).unwrap();
    }

    let mut stage = PollingStage::new(2);
    // single-threaded drive: each payload takes at most three turns
    // (receive, averaged window, dump), and the channels never fill up
    for _ in 0..4 * raw.len() + 8 {
        stage.pump(&payload_recv, &stokes_send, &dump_send);
    }

    let first = stokes_recv.try_recv().unwrap();
    assert_eq!(first.factor, 2);
    assert_eq!(first.sums[0], 8);
    assert_eq!(first.sums[1], 12);
    assert_eq!(first.sums[0] as f32 / first.factor as f32, 4.0f32);
    assert_eq!(first.sums[1] as f32 / first.factor as f32, 6.0f32);
    let second = stokes_recv.try_recv().unwrap();
    assert_eq!(second.sums[0], 4);
    assert_eq!(second.sums[1], 6);
    // the fifth payload only begins a third window
    assert!(stokes_recv.try_recv().is_err());

    // every payload reaches the dump output, unmodified and in order
    for &(a, b) in &raw {
        let dumped = dump_recv.try_recv().unwrap();
        assert_eq!(dumped.stokes_i()[0], a);
        assert_eq!(dumped.stokes_i()[1], b);
        assert_eq!(dumped.stokes_i().len(), CHANNELS);
    }
    assert!(dump_recv.try_recv().is_err());
}

#[test]
fn polling_zero_payloads_zero_outputs() {
    let (_payload_send, payload_recv) = crossbeam_channel::bounded::<Payload>(4);
    let (stokes_send, stokes_recv) = crossbeam_channel::bounded(4);
    let (dump_send, dump_recv) = crossbeam_channel::bounded::<Payload>(4);

    let mut stage = PollingStage::new(3);
    for _ in 0..32 {
        stage.pump(&payload_recv, &stokes_send, &dump_send);
    }
    assert!(stokes_recv.try_recv().is_err());
    assert!(dump_recv.try_recv().is_err());
}

#[test]
fn blocking_pipeline_stops_when_upstream_closes() {
    let (payload_send, payload_recv) = crossbeam_channel::bounded(16);
    let (stokes_send, stokes_recv) = crossbeam_channel::bounded(16);

    for i in 0..5u16 {
        payload_send.send(payload_with(i, 2 * i)).unwrap();
    }
    drop(payload_send);

    let mut stage = BlockingStage::new(2);
    let mut exits = 0;
    loop {
        match stage.step(&payload_recv, &stokes_send) {
            Ok(()) => {}
            Err(e) => {
                assert_eq!(e, StageExit::UpstreamClosed);
                exits += 1;
                break;
            }
        }
    }
    assert_eq!(exits, 1);

    let first = stokes_recv.try_recv().unwrap();
    assert_eq!(first.sums.len(), CHANNELS);
    assert_eq!(&first.sums[0..2], &[0 + 1, 0 + 2]);
    assert_eq!(first.sums[2..].iter().sum::<u64>(), 0);
    let second = stokes_recv.try_recv().unwrap();
    assert_eq!(&second.sums[0..2], &[2 + 3, 4 + 6]);
    // the fifth payload's partial window is never emitted
    assert!(stokes_recv.try_recv().is_err());
}

#[test]
fn blocking_stops_when_downstream_closes() {
    let (payload_send, payload_recv) = crossbeam_channel::bounded(16);
    let (stokes_send, stokes_recv) = crossbeam_channel::bounded::<downsample::stage::AveragedWindow>(16);
    drop(stokes_recv);

    payload_send.send(payload_with(1, 1)).unwrap();
    payload_send.send(payload_with(1, 1)).unwrap();

    let mut stage = BlockingStage::new(2);
    // the first payload completes no window, so nothing is sent yet
    assert!(stage.step(&payload_recv, &stokes_send).is_ok());
    // the second completes a window whose send must fail fatally
    assert_eq!(stage.step(&payload_recv, &stokes_send), Err(StageExit::DownstreamClosed));
}

#[test]
fn full_dump_channel_is_retried_without_loss() {
    let (payload_send, payload_recv) = crossbeam_channel::bounded(8);
    let (stokes_send, stokes_recv) = crossbeam_channel::bounded(8);
    // a dump channel of capacity one forces rejected sends to be retried
    let (dump_send, dump_recv) = crossbeam_channel::bounded::<Payload>(1);

    for i in 0..4u16 {
        payload_send.send(payload_with(i, i + 10)).unwrap();
    }

    let mut stage = PollingStage::new(4);
    // the first payload's dump fills the channel; later turns spin on it
    for _ in 0..16 {
        stage.pump(&payload_recv, &stokes_send, &dump_send);
    }
    // drain one dumped payload at a time, pumping in between, and check
    // that every payload comes through unmodified and in order
    for i in 0..4u16 {
        let dumped = dump_recv.try_recv().unwrap();
        assert_eq!(dumped.stokes_i()[0], i);
        assert_eq!(dumped.stokes_i()[1], i + 10);
        for _ in 0..8 {
            stage.pump(&payload_recv, &stokes_send, &dump_send);
        }
    }
    assert!(dump_recv.try_recv().is_err());
    // the single window still arrives, averaged over all four payloads
    let win = stokes_recv.try_recv().unwrap();
    assert_eq!(win.sums[0], 0 + 1 + 2 + 3);
    assert_eq!(win.sums[1], 10 + 11 + 12 + 13);
    assert_eq!(win.sums[0] as f32 / win.factor as f32, 1.5f32);
}

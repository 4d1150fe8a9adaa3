use kcp::Kcp;
use kcptun::GoesRound;

/// The numbers of the engine go round: where a clock or a counter of 32 bits leaves the range of the
/// signed numbers, and where the fragment byte is the largest, the engine counts on.
#[test]
fn the_engine_goes_round() {
    let mut engine: Kcp<Vec<u8>> = Kcp::new(1, Vec::new());
    engine.update(0x7fff_fffe).unwrap();
    engine.update(0x8000_0001).unwrap();
    engine.update(0xffff_fff0).unwrap();
    engine.update(5).unwrap();
    let mut data = vec![1, 0, 0, 0, 81, 255, 128, 0, 0, 0, 0, 0, 0, 0, 0, 0, 0, 0, 0, 0, 1, 0, 0, 0, 9];
    assert_eq!(engine.input(&data).unwrap(), 25);
    assert_eq!(engine.peeksize().unwrap(), 1);
    data[15] = 0x80;
    data[19] = 0x80;
    assert_eq!(engine.input(&data).unwrap(), 25);
}

#[test]
fn an_engine_that_stops_is_of_no_use() {
    assert!(GoesRound::found(true).is_none());
    assert!(GoesRound::found(false).is_some());
}

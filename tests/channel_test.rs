use klingt::Klingt;

#[test]
fn send_beyond_capacity_returns_exactly_the_excess() {
    let mut k = Klingt::new(48000);
    let added = k.add::<u32>(None, 1).unwrap();
    let mut handle = added.handle;
    let mut messages = added.messages;
    for i in 0..64u32 {
        assert_eq!(handle.send(i), Ok(()));
    }
    for i in 64..70u32 {
        assert_eq!(handle.send(i), Err(i));
    }
    let mut received = Vec::new();
    while let Ok(m) = messages.pop() {
        received.push(m);
    }
    assert_eq!(received, (0..64u32).collect::<Vec<_>>());
    assert_eq!(handle.send(99), Ok(()));
    assert_eq!(messages.pop(), Ok(99));
}

#[test]
fn queue_size_can_be_chosen_per_node() {
    let mut g = klingt::AudioGraph::new(48000);
    let (mut h, mut rx) = g.add_with_queue_size::<&str>(2).unwrap();
    assert_eq!(h.send("a"), Ok(()));
    assert_eq!(h.send("b"), Ok(()));
    assert_eq!(h.send("c"), Err("c"));
    assert_eq!(rx.pop(), Ok("a"));
    assert_eq!(rx.pop(), Ok("b"));
    assert!(rx.pop().is_err());
}

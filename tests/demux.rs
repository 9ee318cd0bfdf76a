use gnet::endpoint::demux::Demultiplexer;
use gnet::endpoint::Address;

fn generic_demux_test(demultiplexer: &mut Demultiplexer) {
    let datagrams: [(&[u8], Address); 3] = [
        (b"0", Address::V4([127, 0, 0, 1], 0)),
        (b"1-0", Address::V4([127, 0, 0, 1], 1)),
        (b"1-2", Address::V4([127, 0, 0, 1], 2)),
    ];

    assert!(!demultiplexer.is_allowed(0));
    assert!(!demultiplexer.is_allowed(1));

    demultiplexer.allow(0);
    assert!(demultiplexer.is_allowed(0));
    assert!(!demultiplexer.is_allowed(1));

    demultiplexer.allow(1);
    assert!(demultiplexer.is_allowed(0));
    assert!(demultiplexer.is_allowed(1));

    demultiplexer.push(0, datagrams[0].0, datagrams[0].1);
    demultiplexer.push(1, datagrams[1].0, datagrams[1].1);
    demultiplexer.push(1, datagrams[2].0, datagrams[2].1);
    demultiplexer.block(0);
    demultiplexer.allow(0);

    assert!(demultiplexer.process(0).is_empty(), "Blocked datagrams were not dropped!");

    let mut found_dgrams = [false; 3];
    for dgram in demultiplexer.process(1) {
        let index = datagrams
            .iter()
            .position(|item| item.0 == &dgram.bytes[..] && item.1 == dgram.source)
            .expect("Failed to find a sent datagram!");
        assert!(!found_dgrams[index]);
        found_dgrams[index] = true;
    }
    assert!(!found_dgrams[0], "Processed datagram not associated with required key!");
    assert!(found_dgrams[1], "Did not process a buffered datagram!");
    assert!(found_dgrams[2], "Did not process a buffered datagram!");

    assert!(demultiplexer.process(1).is_empty(), "Did not unbuffered processed datagrams!");
}

#[test]
fn hash_map_demultiplexes() {
    let mut demultiplexer = Demultiplexer::new();
    generic_demux_test(&mut demultiplexer);
}

#[test]
fn dispatch_routes_by_connection_id() {
    let mut demultiplexer = Demultiplexer::default();
    demultiplexer.allow(2);
    let source = Address::V6([0; 16], 9);
    assert!(demultiplexer.dispatch(&[2, 0, 7], source));
    assert!(!demultiplexer.dispatch(&[3, 0, 7], source));
    assert!(!demultiplexer.dispatch(&[2], source));
    assert!(!demultiplexer.push(5, &[1], source));
    let taken = demultiplexer.process(2);
    assert_eq!(taken.len(), 1);
    assert_eq!(taken[0].bytes, vec![2, 0, 7]);
    assert_eq!(taken[0].source, source);
    assert!(demultiplexer.process(3).is_empty());
}
